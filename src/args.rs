//! The call-argument buffer, a small inline vector of the smallvec crate.
use vstd::prelude::*;
use smallvec::SmallVec;

verus! {

/// The most arguments a call can take.
pub const MAX_ARGS: usize = 12;

/// A buffer of at most a few call arguments, kept inline by smallvec's
/// `SmallVec`.
#[verifier::external_body]
pub struct ArgBuffer {
    inner: SmallVec<[u32; 12]>,
}

/// The values a buffer holds, oldest first.
pub uninterp spec fn arg_values(b: ArgBuffer) -> Seq<u32>;

impl ArgBuffer {
    /// Relies on `SmallVec::new`: an empty vector.
    #[verifier::external_body]
    pub fn new() -> (r: ArgBuffer)
        ensures
            arg_values(r) == Seq::<u32>::empty(),
    {
        ArgBuffer { inner: SmallVec::new() }
    }

    /// Relies on `SmallVec::len`: the number of elements held.
    #[verifier::external_body]
    pub fn len(&self) -> (r: usize)
        ensures
            r == arg_values(*self).len(),
    {
        self.inner.len()
    }

    /// Relies on `SmallVec::push`: appends one element at the end.
    #[verifier::external_body]
    pub fn push(&mut self, x: u32)
        ensures
            arg_values(*final(self)) == arg_values(*old(self)).push(x),
    {
        self.inner.push(x)
    }

    /// Relies on `SmallVec::clear`: removes every element.
    #[verifier::external_body]
    pub fn clear(&mut self)
        ensures
            arg_values(*final(self)) == Seq::<u32>::empty(),
    {
        self.inner.clear()
    }

    /// Relies on `SmallVec::as_slice`: the elements in order, here copied out.
    #[verifier::external_body]
    pub fn to_vec(&self) -> (r: Vec<u32>)
        ensures
            r@ == arg_values(*self),
    {
        self.inner.as_slice().to_vec()
    }
}

} // verus!
