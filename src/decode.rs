//! The decoder: reads a code section back into instructions, tolerating
//! bytes that are no opcode.
use vstd::prelude::*;
use byteorder::ByteOrder;
use crate::assembler::{ops_bytes, RawArg, RawOp};
use crate::bytes::{le_u32, lemma_le_u32_round_trip};
use crate::opcode::{self, is_known_opcode, operand_kind_of, OperandKind};

verus! {

/// A decoded instruction, or a byte that is no opcode of the catalog.
#[derive(PartialEq, Eq, Structural, Debug, Clone, Copy)]
pub enum MaybeRawOp {
    Op(RawOp),
    Unknown(u8),
}

/// The first item of `b` and the bytes it takes; `None` at the end of the
/// input or when an operand is cut short.
pub open spec fn decode_one(b: Seq<u8>) -> Option<(MaybeRawOp, nat)> {
    if b.len() == 0 {
        None
    } else if !is_known_opcode(b[0]) {
        Some((MaybeRawOp::Unknown(b[0]), 1))
    } else {
        match operand_kind_of(b[0]) {
            None => Some((MaybeRawOp::Op(RawOp { opcode: b[0], arg: None }), 1)),
            Some(OperandKind::Register) => if b.len() >= 2 {
                Some((MaybeRawOp::Op(RawOp { opcode: b[0], arg: Some(RawArg::Register(b[1])) }), 2))
            } else {
                None
            },
            Some(OperandKind::Num) => if b.len() >= 5 {
                Some((MaybeRawOp::Op(RawOp { opcode: b[0], arg: Some(RawArg::Num(le_u32(b.subrange(1, 5)))) }), 5))
            } else {
                None
            },
        }
    }
}

/// Every item of `b`, in order, up to the end or to a cut-short operand.
pub open spec fn decode_all(b: Seq<u8>) -> Seq<MaybeRawOp>
    decreases b.len(),
{
    match decode_one(b) {
        None => Seq::empty(),
        Some((m, n)) => if 0 < n <= b.len() {
            seq![m] + decode_all(b.subrange(n as int, b.len() as int))
        } else {
            Seq::empty()
        },
    }
}

/// Relies on byteorder's `LittleEndian::read_u32`: the first four bytes of
/// its argument, least significant first (it panics on fewer than four).
#[verifier::external_body]
fn read_u32_le(buf: &[u8], at: usize) -> (r: u32)
    requires
        at + 4 <= buf@.len(),
    ensures
        r == le_u32(buf@.subrange(at as int, at + 4)),
{
    byteorder::LittleEndian::read_u32(&buf[at..])
}

impl RawArg {
    /// A four-byte operand at `at`, if the code holds one there.
    pub fn decode_num(code: &[u8], at: usize) -> (r: Option<RawArg>)
        ensures
            at + 4 <= code@.len() ==> r == Some(RawArg::Num(le_u32(code@.subrange(at as int, at + 4)))),
            at + 4 > code@.len() ==> r is None,
    {
        if at <= code.len() && code.len() - at >= 4 {
            Some(RawArg::Num(read_u32_le(code, at)))
        } else {
            None
        }
    }

    /// A one-byte operand at `at`, if the code holds one there.
    pub fn decode_register(code: &[u8], at: usize) -> (r: Option<RawArg>)
        ensures
            at < code@.len() ==> r == Some(RawArg::Register(code@[at as int])),
            at >= code@.len() ==> r is None,
    {
        if at < code.len() {
            Some(RawArg::Register(code[at]))
        } else {
            None
        }
    }
}

/// Decodes the item at `pos`; returns it with the position after it.
pub fn try_parse_op(code: &[u8], pos: usize) -> (r: Option<(MaybeRawOp, usize)>)
    requires
        pos <= code@.len(),
    ensures
        match decode_one(code@.subrange(pos as int, code@.len() as int)) {
            None => r is None,
            Some((m, n)) => r matches Some((m2, next)) && m2 == m && next == pos + n,
        },
{
    let ghost b = code@.subrange(pos as int, code@.len() as int);
    if pos == code.len() {
        return None;
    }
    let op = code[pos];
    if !opcode::is_known(op) {
        return Some((MaybeRawOp::Unknown(op), pos + 1));
    }
    match opcode::operand_kind(op) {
        None => Some((MaybeRawOp::Op(RawOp { opcode: op, arg: None }), pos + 1)),
        Some(OperandKind::Register) => match RawArg::decode_register(code, pos + 1) {
            Some(arg) => Some((MaybeRawOp::Op(RawOp { opcode: op, arg: Some(arg) }), pos + 2)),
            None => None,
        },
        Some(OperandKind::Num) => match RawArg::decode_num(code, pos + 1) {
            Some(arg) => {
                assert(b.subrange(1, 5) =~= code@.subrange(pos + 1, pos + 5));
                Some((MaybeRawOp::Op(RawOp { opcode: op, arg: Some(arg) }), pos + 5))
            },
            None => None,
        },
    }
}

/// Decodes a whole code section.
pub fn try_parse_ops_from_bytecode(code: &[u8]) -> (r: Vec<MaybeRawOp>)
    ensures
        r@ == decode_all(code@),
{
    let mut out: Vec<MaybeRawOp> = Vec::new();
    let mut pos: usize = 0;
    assert(code@.subrange(0, code@.len() as int) =~= code@);
    assert(out@ + decode_all(code@) =~= decode_all(code@));
    loop
        invariant
            pos <= code@.len(),
            decode_all(code@) == out@ + decode_all(code@.subrange(pos as int, code@.len() as int)),
        decreases code@.len() - pos,
    {
        let ghost b = code@.subrange(pos as int, code@.len() as int);
        let step = try_parse_op(code, pos);
        let ghost first = decode_one(b)->0;
        proof { lemma_decode_one_len(b); }
        assert(decode_one(b) is Some ==> 0 < first.1 <= b.len());
        assert(decode_one(b) is None ==> step is None);
        match step {
            None => {
                assert(decode_all(b) =~= Seq::<MaybeRawOp>::empty());
                assert(out@ + decode_all(b) =~= out@);
                return out;
            },
            Some((m, next)) => {
                let ghost n = first.1;
                assert(decode_one(b) is Some && m == first.0 && next == pos + n);
                assert(b.subrange((next - pos) as int, b.len() as int) =~= code@.subrange(next as int, code@.len() as int));
                assert(decode_all(b) == seq![m] + decode_all(code@.subrange(next as int, code@.len() as int)));
                out.push(m);
                assert(decode_all(code@) =~= out@ + decode_all(code@.subrange(next as int, code@.len() as int)));
                pos = next;
            },
        }
    }
}

/// Bytes an item took in the code.
pub open spec fn item_size(m: MaybeRawOp) -> nat {
    match m {
        MaybeRawOp::Op(op) => op.spec_size(),
        MaybeRawOp::Unknown(_) => 1,
    }
}

/// Where the `i`-th item starts, for items laid out from `start`.
pub open spec fn item_offset(items: Seq<MaybeRawOp>, start: int, i: int) -> int
    decreases i,
{
    if i <= 0 {
        start
    } else {
        item_offset(items, start, i - 1) + item_size(items[i - 1])
    }
}

/// Decodes a code section that stands at address `start`, giving each item
/// with its address.
pub fn decode_with_offsets(code: &[u8], start: u32) -> (r: Vec<(MaybeRawOp, u32)>)
    requires
        start + code@.len() <= u32::MAX,
    ensures
        r@.len() == decode_all(code@).len(),
        forall|i: int| 0 <= i < r@.len() ==> (#[trigger] r@[i]).0 == decode_all(code@)[i]
            && r@[i].1 == item_offset(decode_all(code@), start as int, i),
{
    let ghost all = decode_all(code@);
    let mut out: Vec<(MaybeRawOp, u32)> = Vec::new();
    let mut pos: usize = 0;
    assert(code@.subrange(0, code@.len() as int) =~= code@);
    loop
        invariant
            pos <= code@.len(),
            start + code@.len() <= u32::MAX,
            all == decode_all(code@),
            out@.len() <= all.len(),
            all.subrange(out@.len() as int, all.len() as int) == decode_all(code@.subrange(pos as int, code@.len() as int)),
            pos == item_offset(all, 0, out@.len() as int),
            forall|i: int| 0 <= i < out@.len() ==> (#[trigger] out@[i]).0 == all[i] && out@[i].1 == item_offset(all, start as int, i),
        decreases code@.len() - pos,
    {
        let ghost b = code@.subrange(pos as int, code@.len() as int);
        let ghost k = out@.len() as int;
        let step = try_parse_op(code, pos);
        let ghost first = decode_one(b)->0;
        proof { lemma_decode_one_len(b); lemma_item_offset_shift(all, start as int, k); }
        match step {
            None => {
                assert(decode_all(b) =~= Seq::<MaybeRawOp>::empty());
                assert(out@.len() == all.len());
                return out;
            },
            Some((m, next)) => {
                assert(decode_one(b) is Some && m == first.0 && next == pos + first.1);
                assert(b.subrange(first.1 as int, b.len() as int) =~= code@.subrange(next as int, code@.len() as int));
                assert(decode_all(b) == seq![m] + decode_all(code@.subrange(next as int, code@.len() as int)));
                assert(all.subrange(k, all.len() as int).len() > 0);
                assert(all.subrange(k, all.len() as int)[0] == all[k]);
                assert(all[k] == m);
                assert(all.subrange(k + 1, all.len() as int) =~= all.subrange(k, all.len() as int).drop_first());
                assert(first.1 == item_size(m));
                out.push((m, start + pos as u32));
                pos = next;
            },
        }
    }
}

/// Offsets from `start` are offsets from 0 moved by `start`.
proof fn lemma_item_offset_shift(items: Seq<MaybeRawOp>, start: int, i: int)
    ensures
        item_offset(items, start, i) == start + item_offset(items, 0, i),
    decreases i,
{
    if i > 0 {
        lemma_item_offset_shift(items, start, i - 1);
    }
}

/// An item takes at least one byte and no more than the input holds.
proof fn lemma_decode_one_len(b: Seq<u8>)
    ensures
        decode_one(b) matches Some((_, n)) ==> 0 < n <= b.len(),
{
}

/// Code bytes of an instruction followed by more bytes decode to that
/// instruction first.
proof fn lemma_decode_first(op: RawOp, rest: Seq<u8>)
    requires
        op.wf(),
    ensures
        decode_all(op.spec_bytes() + rest) == seq![MaybeRawOp::Op(op)] + decode_all(rest),
{
    let b = op.spec_bytes() + rest;
    crate::assembler::lemma_op_bytes_len(op);
    let n = op.spec_size();
    match op.arg {
        Some(RawArg::Num(v)) => {
            lemma_le_u32_round_trip(v);
            assert(b.subrange(1, 5) =~= crate::bytes::le_bytes_u32(v));
        },
        _ => {},
    }
    assert(b.subrange(n as int, b.len() as int) =~= rest);
}

/// The code section of instructions laid end to end splits at any point.
proof fn lemma_ops_bytes_append(a: Seq<RawOp>, b: Seq<RawOp>)
    ensures
        ops_bytes(a + b) == ops_bytes(a) + ops_bytes(b),
    decreases b.len(),
{
    if b.len() == 0 {
        assert(a + b =~= a);
        assert(ops_bytes(a) + ops_bytes(b) =~= ops_bytes(a));
    } else {
        lemma_ops_bytes_append(a, b.drop_last());
        assert((a + b).drop_last() =~= a + b.drop_last());
        assert(ops_bytes(a + b) =~= ops_bytes(a) + ops_bytes(b));
    }
}

/// Decoding the code of well-formed instructions gives back exactly those
/// instructions, none of them unknown.
pub proof fn lemma_decode_encoded(ops: Seq<RawOp>)
    requires
        forall|i: int| 0 <= i < ops.len() ==> (#[trigger] ops[i]).wf(),
    ensures
        decode_all(ops_bytes(ops)).len() == ops.len(),
        forall|i: int| 0 <= i < ops.len() ==> decode_all(ops_bytes(ops))[i] == MaybeRawOp::Op(#[trigger] ops[i]),
    decreases ops.len(),
{
    if ops.len() == 0 {
        assert(decode_all(ops_bytes(ops)) =~= Seq::<MaybeRawOp>::empty());
    } else {
        let tail = ops.drop_first();
        assert forall|i: int| 0 <= i < tail.len() implies (#[trigger] tail[i]).wf() by {
            assert(tail[i] == ops[i + 1]);
        }
        lemma_decode_encoded(tail);
        lemma_ops_bytes_append(seq![ops[0]], tail);
        assert(seq![ops[0]] + tail =~= ops);
        assert(seq![ops[0]].drop_last() =~= Seq::<RawOp>::empty());
        assert(ops_bytes(seq![ops[0]].drop_last()) =~= Seq::<u8>::empty());
        assert(ops_bytes(seq![ops[0]]) =~= ops[0].spec_bytes());
        lemma_decode_first(ops[0], ops_bytes(tail));
        let d = decode_all(ops_bytes(ops));
        assert forall|i: int| 0 <= i < ops.len() implies d[i] == MaybeRawOp::Op(#[trigger] ops[i]) by {
            if i > 0 {
                assert(ops[i] == tail[i - 1]);
            }
        }
    }
}

} // verus!
