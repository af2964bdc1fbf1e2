//! Assembly source text, held both as a string and as its characters so that
//! the scanner can index it.
use vstd::prelude::*;
use vstd::string::*;

verus! {

/// Source text with its characters laid out for indexing.
pub struct Source {
    text: String,
    chars: Vec<char>,
}

impl View for Source {
    type V = Seq<char>;

    closed spec fn view(&self) -> Seq<char> {
        self.chars@
    }
}

impl Source {
    /// Whether the two representations agree.
    pub closed spec fn wf(&self) -> bool {
        self.text@ == self.chars@
    }

    pub fn new(code: &str) -> (r: Source)
        ensures
            r.wf(),
            r@ == code@,
    {
        broadcast use vstd::string::group_string_axioms;
        let mut chars: Vec<char> = Vec::new();
        for c in it: code.chars()
            invariant
                chars@ == it.seq().take(it.index() as int),
        {
            chars.push(c);
        }
        let text = String::from_str(code);
        assert(text@ == code@);
        assert(chars@ == code@);
        Source { text, chars }
    }

    pub fn len(&self) -> (r: usize)
        ensures
            r == self@.len(),
    {
        self.chars.len()
    }

    pub fn at(&self, i: usize) -> (c: char)
        requires
            i < self@.len(),
        ensures
            c == self@[i as int],
    {
        self.chars[i]
    }

    /// The characters `[from, to)` as a string of their own.
    pub fn substring(&self, from: usize, to: usize) -> (r: String)
        requires
            self.wf(),
            from <= to <= self@.len(),
        ensures
            r@ == self@.subrange(from as int, to as int),
    {
        let s = self.text.as_str().substring_char(from, to);
        String::from_str(s)
    }
}

} // verus!
