//! Laws that tie the assembler, the decoder and the interpreter together.
use vstd::prelude::*;
use crate::assembler::{
    assembled, lemma_module_layout, magic, ops_bytes, ops_size, ParseResult, RawOp, Label, HEADER_SIZE,
};
use crate::bytes::le_u32;
use crate::decode::{decode_all, lemma_decode_encoded, MaybeRawOp};
use crate::machine::{
    access_width, in_memory, init_state, is_load, is_store, load_value, step, store_bytes, write_bytes, VmState, MAX_MEMORY,
};
use crate::opcode::{self, instruction_width};

verus! {

/// Every instruction takes at least one byte.
proof fn lemma_ops_count_le_size(ops: Seq<RawOp>)
    ensures
        ops.len() <= ops_size(ops),
    decreases ops.len(),
{
    if ops.len() > 0 {
        lemma_ops_count_le_size(ops.drop_last());
    }
}

/// What the assembler writes begins with the magic `malu`, is as long as
/// the header plus the sizes of its instructions, and its header counts
/// exactly the instructions it emitted.
pub proof fn law_module_layout(res: ParseResult, ops: Seq<RawOp>, labels: Seq<Label>)
    requires
        assembled(res, ops, labels),
    ensures
        res.code@.subrange(0, 4) == magic(),
        res.code@.len() == HEADER_SIZE + ops_size(ops),
        le_u32(res.code@.subrange(4, 8)) == ops_size(ops),
        le_u32(res.code@.subrange(8, 12)) == ops.len(),
{
    lemma_ops_count_le_size(ops);
    lemma_module_layout(ops, crate::assembler::entry_offset(labels));
}

/// Decoding the code section of what the assembler writes yields exactly
/// as many items as the header counts, each a known instruction, none
/// `Unknown`: the very instructions emitted.
pub proof fn law_decode_assembled(res: ParseResult, ops: Seq<RawOp>, labels: Seq<Label>)
    requires
        assembled(res, ops, labels),
    ensures
        ({
            let code = res.code@;
            let decoded = decode_all(code.subrange(HEADER_SIZE as int, code.len() as int));
            &&& decoded.len() == le_u32(code.subrange(8, 12))
            &&& forall|i: int| 0 <= i < decoded.len() ==> decoded[i] == MaybeRawOp::Op(#[trigger] ops[i])
        }),
{
    law_module_layout(res, ops, labels);
    lemma_ops_count_le_size(ops);
    lemma_module_layout(ops, crate::assembler::entry_offset(labels));
    lemma_decode_encoded(ops);
}

/// Loading a module afresh and resetting a used machine with it end in the
/// same state: `from_bytecode` and `reset_all` both promise `init_state`.
pub proof fn law_reset_is_fresh(reset: VmState, fresh: VmState, bytes: Seq<u8>)
    requires
        reset == init_state(bytes),
        fresh == init_state(bytes),
    ensures
        reset == fresh,
{
}

/// The state after a step of the machine.
pub open spec fn after(s: VmState) -> VmState {
    let outcome = step(s)->0;
    outcome.0
}

/// The call stack is well formed: the bottom frame alone returns to 0.
pub open spec fn call_stack_wf(s: VmState) -> bool {
    &&& s.frames.len() > 0 ==> s.frames[0].return_addr == 0
    &&& forall|i: int| 0 < i < s.frames.len() ==> s.frames[i].return_addr != 0
}

/// A freshly loaded machine has one frame, the bottom one.
pub proof fn law_initial_call_stack(bytes: Seq<u8>)
    ensures
        init_state(bytes).frames.len() == 1,
        call_stack_wf(init_state(bytes)),
{
}

/// A step never empties the call stack, except `return` from the bottom
/// frame, which stops the program cleanly.
pub proof fn law_call_stack(s: VmState)
    requires
        s.frames.len() > 0,
        call_stack_wf(s),
        s.memory.len() <= MAX_MEMORY,
        step(s) matches Some((_, r)) && r is Ok,
    ensures
        ({
            let s2 = after(s);
            &&& call_stack_wf(s2)
            &&& s2.frames.len() > 0 || (s.memory[s.pc as int] == opcode::RETURN && s.frames.len() == 1 && !s2.running)
        }),
{
    reveal(step);    let s2 = after(s);
    assert forall|i: int| 0 < i < s2.frames.len() implies s2.frames[i].return_addr != 0 by {
        if i < s.frames.len() {
            assert(s2.frames[i].return_addr == s.frames[i].return_addr);
        }
    }
}

/// `return` from the bottom frame succeeds and stops the program, leaving
/// the value stack as it was.
pub proof fn law_return_from_bottom(s: VmState)
    requires
        s.frames.len() == 1,
        call_stack_wf(s),
        s.pc < s.memory.len(),
        s.memory[s.pc as int] == opcode::RETURN,
    ensures
        step(s) matches Some((_, r)) && r is Ok,
        after(s).frames.len() == 0,
        !after(s).running,
        after(s).value_stack == s.value_stack,
{
    reveal(step);}

/// Instructions that move control elsewhere.
pub open spec fn is_control_transfer(op: u8) -> bool {
    op == opcode::JMP || op == opcode::JMP_IF || op == opcode::BRANCH || op == opcode::BRANCH_IF
        || op == opcode::CALL || op == opcode::RETURN
}

/// Every other instruction that succeeds moves `pc` past itself: by its
/// size in the catalog. `end` stays put and a failed `dbg_assert` stops.
pub proof fn law_pc_advance(s: VmState)
    requires
        s.memory.len() <= MAX_MEMORY,
        step(s) matches Some((_, r)) && r is Ok,
    ensures
        ({
            let op = s.memory[s.pc as int];
            let s2 = after(s);
            &&& !is_control_transfer(op) && op != opcode::END && op != opcode::DBG_ASSERT ==> s2.pc == s.pc
                + instruction_width(op)
            &&& op == opcode::END ==> s2.pc == s.pc && !s2.running
            &&& op == opcode::DBG_ASSERT ==> s2.pc == s.pc + 1 || (s2.pc == s.pc && s2.assertion_failed && !s2.running)
        }),
{
    reveal(step);}

/// Memory never grows or shrinks; only a store changes it, inside
/// `[addr, addr + width)` which lies in memory; a load reads bytes that lie
/// in memory.
pub proof fn law_memory_confined(s: VmState)
    requires
        step(s) matches Some((_, r)) && r is Ok,
    ensures
        ({
            let op = s.memory[s.pc as int];
            let s2 = after(s);
            &&& s2.memory.len() == s.memory.len()
            &&& !is_store(op) ==> s2.memory == s.memory
            &&& is_store(op) ==> exists|addr: int| #[trigger] in_memory(s.memory, addr, access_width(op))
                && forall|k: int| 0 <= k < s.memory.len() && !(addr <= k < addr + access_width(op)) ==> s2.memory[k] == s.memory[k]
            &&& is_load(op) ==> exists|addr: int| #[trigger] in_memory(s.memory, addr, access_width(op))
                && s2.value_stack.last() == load_value(op, s.memory, addr)
        }),
{
    reveal(step);    let op = s.memory[s.pc as int];
    if is_load(op) {
        let addr = s.value_stack.last() + crate::machine::imm_u32(s);
        assert(in_memory(s.memory, addr, access_width(op)));
    }
    if is_store(op) {
        let st = s.value_stack;
        let n = st.len();
        let addr = st[n - 2] + crate::machine::imm_u32(s);
        let bytes = store_bytes(op, st[n - 1]);
        crate::bytes::lemma_le_u32_round_trip(st[n - 1]);
        crate::bytes::lemma_le_u16_round_trip((st[n - 1] & 0xffff) as u16);
        assert(bytes.len() == access_width(op));
        assert(in_memory(s.memory, addr, access_width(op)));
    }
}

} // verus!
