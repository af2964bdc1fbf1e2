//! The machine's state as mathematics, and what one instruction does to it.
use vstd::prelude::*;
use vstd::wrapping::u32_specs::{wrapping_add, wrapping_mul, wrapping_shl, wrapping_shr, wrapping_sub};
use crate::bytes::{le_bytes_u16, le_bytes_u32, le_u16, le_u32};
use crate::opcode;

verus! {

/// Local slots of a frame.
pub const MAX_LOCALS: usize = 64;
/// Global slots.
pub const MAX_GLOBALS: usize = 64;
/// Free memory given to a program beyond its image.
pub const MIN_HEAP_SIZE: usize = 65536;
/// The largest memory whose addresses fit 32 bits.
pub const MAX_MEMORY: usize = 0xffff_ffff;
/// The longest module the interpreter loads: its image and heap must fit
/// the 32-bit address space.
pub const MAX_MODULE_LEN: usize = 0xfffe_0000;

/// Why an instruction could not be carried out.
#[derive(PartialEq, Eq, Structural, Debug, Clone, Copy)]
pub enum InterpreterErrorType {
    InvalidStringData,
    InvalidBytecodeHeader,
    AddrOutOfBounds(u32),
    UnexpectedValStackEmpty,
    ReachedUnreachable,
    InvalidJumpAddr(u32),
    InvalidLocalId(u8),
    InvalidGlobalId(u8),
    ArgStackFull,
    UnexpectedEmptyFrameStack,
    DivisionByZero,
    DivisionOverflow,
    InvalidOpcode(u8),
    /// A syscall handler left the memory larger than 32-bit addresses reach.
    MemoryTooLarge,
    /// `run` stopped after the most instructions it carries out.
    StepLimitReached,
}

/// A call frame as mathematics.
pub struct FrameView {
    pub locals: Seq<u32>,
    pub return_addr: u32,
}

/// The whole machine as mathematics.
pub struct VmState {
    pub value_stack: Seq<u32>,
    pub frames: Seq<FrameView>,
    pub memory: Seq<u8>,
    pub pc: u32,
    pub globals: Seq<u32>,
    pub args: Seq<u32>,
    pub start_pc_addr: u32,
    pub bytecode_len: nat,
    pub running: bool,
    pub assertion_failed: bool,
}

pub type Outcome = (VmState, Result<(), InterpreterErrorType>);

/// `n` zeros.
pub open spec fn zeros_u32(n: nat) -> Seq<u32> {
    Seq::new(n, |i: int| 0u32)
}

pub open spec fn zeros_u8(n: nat) -> Seq<u8> {
    Seq::new(n, |i: int| 0u8)
}

/// The frame below all calls: zeroed locals and return address 0.
pub open spec fn bottom_frame() -> FrameView {
    FrameView { locals: zeros_u32(MAX_LOCALS as nat), return_addr: 0 }
}

/// A module starts with the magic `malu`.
pub open spec fn header_valid(bytes: Seq<u8>) -> bool {
    bytes.len() >= 4 && bytes.subrange(0, 4) == crate::assembler::magic()
}

/// The memory of a freshly loaded module: its bytes after the magic, then
/// zeroed heap.
pub open spec fn initial_memory(bytes: Seq<u8>) -> Seq<u8> {
    bytes.subrange(4, bytes.len() as int) + zeros_u8(MIN_HEAP_SIZE as nat)
}

/// The machine right after loading `bytes`: empty stacks, the bottom frame,
/// zeroed globals, and the entry address from the header.
pub open spec fn init_state(bytes: Seq<u8>) -> VmState {
    let memory = initial_memory(bytes);
    let entry = le_u32(memory.subrange(8, 12));
    VmState {
        value_stack: Seq::empty(),
        frames: seq![bottom_frame()],
        memory,
        pc: entry,
        globals: zeros_u32(MAX_GLOBALS as nat),
        args: Seq::empty(),
        start_pc_addr: entry,
        bytecode_len: bytes.len(),
        running: false,
        assertion_failed: false,
    }
}

pub open spec fn ok(s: VmState) -> Outcome {
    (s, Ok(()))
}

pub open spec fn fail(s: VmState, e: InterpreterErrorType) -> Outcome {
    (s, Err(e))
}

/// `s` with `pc` moved on by `n` bytes.
pub open spec fn advance(s: VmState, n: int) -> VmState {
    VmState { pc: (s.pc + n) as u32, ..s }
}

/// `s` with its value stack replaced.
pub open spec fn with_stack(s: VmState, st: Seq<u32>) -> VmState {
    VmState { value_stack: st, ..s }
}

/// Whether `[addr, addr + width)` lies in memory.
pub open spec fn in_memory(mem: Seq<u8>, addr: int, width: int) -> bool {
    0 <= addr && addr + width <= mem.len()
}

/// The low 8 bits of `v`, sign-extended.
pub open spec fn sext8(v: u32) -> u32 {
    if v & 0x80 == 0 { v & 0xff } else { (v & 0xff) | 0xffff_ff00 }
}

/// The low 16 bits of `v`, sign-extended.
pub open spec fn sext16(v: u32) -> u32 {
    if v & 0x8000 == 0 { v & 0xffff } else { (v & 0xffff) | 0xffff_0000 }
}

/// Signed division rounding towards zero, on two's complement bit patterns.
pub open spec fn div_signed(a: u32, b: u32) -> u32 {
    let x = a as i32 as int;
    let y = b as i32 as int;
    let q = (if x < 0 { -x } else { x }) / (if y < 0 { -y } else { y });
    (if (x < 0) != (y < 0) { -q } else { q }) as i32 as u32
}

pub open spec fn flag(b: bool) -> u32 {
    if b { 1 } else { 0 }
}

/// Instructions that pop `b`, then `a`, and push `a OP b`.
pub open spec fn is_binop(op: u8) -> bool {
    (opcode::EQ <= op <= opcode::XOR && op != opcode::EQZ && op != opcode::NEG)
}

/// Instructions that pop one value and push one.
pub open spec fn is_unop(op: u8) -> bool {
    op == opcode::EQZ || op == opcode::NEG || (opcode::EXTEND_8_32_S <= op <= opcode::EXTEND_16_32_U)
}

/// What a binary instruction computes.
pub open spec fn binop_value(op: u8, a: u32, b: u32) -> Result<u32, InterpreterErrorType> {
    if op == opcode::EQ { Ok(flag(a == b)) }
    else if op == opcode::ADD { Ok(wrapping_add(a, b)) }
    else if op == opcode::SUB { Ok(wrapping_sub(a, b)) }
    else if op == opcode::MUL { Ok(wrapping_mul(a, b)) }
    else if op == opcode::DIV_U { if b == 0 { Err(InterpreterErrorType::DivisionByZero) } else { Ok(a / b) } }
    else if op == opcode::DIV_S {
        if b == 0 { Err(InterpreterErrorType::DivisionByZero) }
        else if a == 0x8000_0000 && b == 0xffff_ffff { Err(InterpreterErrorType::DivisionOverflow) }
        else { Ok(div_signed(a, b)) }
    }
    else if op == opcode::GT { Ok(flag(a > b)) }
    else if op == opcode::LT { Ok(flag(a < b)) }
    else if op == opcode::GE { Ok(flag(a >= b)) }
    else if op == opcode::LE { Ok(flag(a <= b)) }
    else if op == opcode::SHIFT_R { Ok(wrapping_shr(a, b)) }
    else if op == opcode::SHIFT_L { Ok(wrapping_shl(a, b)) }
    else if op == opcode::AND { Ok(a & b) }
    else if op == opcode::OR { Ok(a | b) }
    else { Ok(a ^ b) }
}

/// What a unary instruction computes.
pub open spec fn unop_value(op: u8, a: u32) -> u32 {
    if op == opcode::EQZ { flag(a == 0) }
    else if op == opcode::NEG { wrapping_sub(0, a) }
    else if op == opcode::EXTEND_8_32_S { sext8(a) }
    else if op == opcode::EXTEND_16_32_S { sext16(a) }
    else if op == opcode::EXTEND_8_32_U { a & 0xff }
    else { a & 0xffff }
}

pub open spec fn is_store(op: u8) -> bool {
    opcode::STORE_8 <= op <= opcode::STORE_32
}

pub open spec fn is_load(op: u8) -> bool {
    opcode::LOAD_8_U <= op <= opcode::LOAD_32_U
}

/// Bytes a load or store moves.
pub open spec fn access_width(op: u8) -> int {
    if op == opcode::STORE_8 || op == opcode::LOAD_8_U || op == opcode::LOAD_8_S { 1 }
    else if op == opcode::STORE_16 || op == opcode::LOAD_16_U || op == opcode::LOAD_16_S { 2 }
    else { 4 }
}

/// The bytes a store writes for `v`.
pub open spec fn store_bytes(op: u8, v: u32) -> Seq<u8> {
    if op == opcode::STORE_8 { seq![(v & 0xff) as u8] }
    else if op == opcode::STORE_16 { le_bytes_u16((v & 0xffff) as u16) }
    else { le_bytes_u32(v) }
}

/// The value a load pushes for the bytes at `addr`.
pub open spec fn load_value(op: u8, mem: Seq<u8>, addr: int) -> u32 {
    if op == opcode::LOAD_8_U { mem[addr] as u32 }
    else if op == opcode::LOAD_8_S { sext8(mem[addr] as u32) }
    else if op == opcode::LOAD_16_U { le_u16(mem.subrange(addr, addr + 2)) as u32 }
    else if op == opcode::LOAD_16_S { sext16(le_u16(mem.subrange(addr, addr + 2)) as u32) }
    else { le_u32(mem.subrange(addr, addr + 4)) }
}

/// `mem` with `bytes` written at `addr`.
pub open spec fn write_bytes(mem: Seq<u8>, addr: int, bytes: Seq<u8>) -> Seq<u8> {
    mem.subrange(0, addr) + bytes + mem.subrange(addr + bytes.len(), mem.len() as int)
}

/// The address an out-of-bounds access reports: the effective address,
/// or `u32::MAX` when base plus offset passes the 32-bit range.
pub open spec fn reported_addr(addr: int) -> u32 {
    if addr > u32::MAX { u32::MAX } else { addr as u32 }
}

/// The four-byte immediate after the opcode.
pub open spec fn imm_u32(s: VmState) -> u32 {
    le_u32(s.memory.subrange(s.pc + 1, s.pc + 5))
}

/// The locals of a callee: the arguments, then zeros.
pub open spec fn callee_locals(args: Seq<u32>) -> Seq<u32> {
    Seq::new(MAX_LOCALS as nat, |i: int| if i < args.len() { args[i] } else { 0u32 })
}

/// One step of the machine for every instruction but `syscall`, which asks
/// the host (`None`): the state after it and whether it succeeded. On
/// failure the state is kept.
#[verifier::opaque]
pub open spec fn step(s: VmState) -> Option<Outcome> {
    let pc = s.pc as int;
    let st = s.value_stack;
    let n = st.len();
    if pc >= s.memory.len() {
        Some(fail(s, InterpreterErrorType::AddrOutOfBounds(s.pc)))
    } else {
        let op = s.memory[pc];
        if op == opcode::SYSCALL {
            if n < 1 { Some(fail(s, InterpreterErrorType::UnexpectedValStackEmpty)) } else { None }
        } else {
            Some(step_op(s, op))
        }
    }
}

/// Whether the register operand after the opcode lies in memory.
pub open spec fn has_reg_operand(s: VmState) -> bool {
    s.pc + 2 <= s.memory.len()
}

pub open spec fn reg_operand(s: VmState) -> u8 {
    s.memory[s.pc + 1]
}

/// One instruction other than `syscall`.
pub open spec fn step_op(s: VmState, op: u8) -> Outcome {
    let st = s.value_stack;
    let n = st.len();
    let len = s.memory.len();
    let pc = s.pc as int;
    if op == opcode::NOP {
        ok(advance(s, 1))
    } else if op == opcode::END {
        ok(VmState { running: false, ..s })
    } else if op == opcode::UNREACHABLE {
        fail(s, InterpreterErrorType::ReachedUnreachable)
    } else if op == opcode::DROP {
        if n < 1 { fail(s, InterpreterErrorType::UnexpectedValStackEmpty) } else { ok(advance(with_stack(s, st.drop_last()), 1)) }
    } else if op == opcode::CONST {
        if pc + 5 > len { fail(s, InterpreterErrorType::AddrOutOfBounds((pc + 1) as u32)) } else { ok(advance(with_stack(s, st.push(imm_u32(s))), 5)) }
    } else if op == opcode::JMP || op == opcode::BRANCH {
        if n < 1 {
            fail(s, InterpreterErrorType::UnexpectedValStackEmpty)
        } else {
            let target = if op == opcode::JMP { st.last() } else { wrapping_add(st.last(), s.pc) };
            if target >= len {
                fail(s, InterpreterErrorType::InvalidJumpAddr(target))
            } else {
                ok(VmState { value_stack: st.drop_last(), pc: target, ..s })
            }
        }
    } else if op == opcode::JMP_IF || op == opcode::BRANCH_IF {
        if n < 2 {
            fail(s, InterpreterErrorType::UnexpectedValStackEmpty)
        } else {
            let target = if op == opcode::JMP_IF { st[n - 1] } else { wrapping_add(st[n - 1], s.pc) };
            let rest = st.drop_last().drop_last();
            if st[n - 2] != 0 {
                if target >= len {
                    fail(s, InterpreterErrorType::InvalidJumpAddr(target))
                } else {
                    ok(VmState { value_stack: rest, pc: target, ..s })
                }
            } else {
                ok(advance(with_stack(s, rest), 1))
            }
        }
    } else if opcode::LOCAL_GET <= op <= opcode::LOCAL_TEE {
        step_local(s, op)
    } else if opcode::GLOBAL_GET <= op <= opcode::GLOBAL_TEE && op != 0x0d {
        step_global(s, op)
    } else if is_binop(op) {
        if n < 2 {
            fail(s, InterpreterErrorType::UnexpectedValStackEmpty)
        } else {
            match binop_value(op, st[n - 2], st[n - 1]) {
                Err(e) => fail(s, e),
                Ok(v) => ok(advance(with_stack(s, st.drop_last().drop_last().push(v)), 1)),
            }
        }
    } else if is_unop(op) {
        if n < 1 { fail(s, InterpreterErrorType::UnexpectedValStackEmpty) } else { ok(advance(with_stack(s, st.drop_last().push(unop_value(op, st.last()))), 1)) }
    } else if is_store(op) {
        if pc + 5 > len {
            fail(s, InterpreterErrorType::AddrOutOfBounds((pc + 1) as u32))
        } else if n < 2 {
            fail(s, InterpreterErrorType::UnexpectedValStackEmpty)
        } else {
            let addr = st[n - 2] + imm_u32(s);
            if !in_memory(s.memory, addr, access_width(op)) {
                fail(s, InterpreterErrorType::AddrOutOfBounds(reported_addr(addr)))
            } else {
                ok(advance(VmState {
                    value_stack: st.drop_last().drop_last(),
                    memory: write_bytes(s.memory, addr, store_bytes(op, st[n - 1])),
                    ..s
                }, 5))
            }
        }
    } else if is_load(op) {
        if pc + 5 > len {
            fail(s, InterpreterErrorType::AddrOutOfBounds((pc + 1) as u32))
        } else if n < 1 {
            fail(s, InterpreterErrorType::UnexpectedValStackEmpty)
        } else {
            let addr = st.last() + imm_u32(s);
            if !in_memory(s.memory, addr, access_width(op)) {
                fail(s, InterpreterErrorType::AddrOutOfBounds(reported_addr(addr)))
            } else {
                ok(advance(with_stack(s, st.drop_last().push(load_value(op, s.memory, addr))), 5))
            }
        }
    } else if op == opcode::PUSH_ARG {
        if s.args.len() >= crate::args::MAX_ARGS {
            fail(s, InterpreterErrorType::ArgStackFull)
        } else if n < 1 {
            fail(s, InterpreterErrorType::UnexpectedValStackEmpty)
        } else {
            ok(advance(VmState { value_stack: st.drop_last(), args: s.args.push(st.last()), ..s }, 1))
        }
    } else if op == opcode::CALL {
        if n < 1 {
            fail(s, InterpreterErrorType::UnexpectedValStackEmpty)
        } else if st.last() >= len {
            fail(s, InterpreterErrorType::InvalidJumpAddr(st.last()))
        } else {
            ok(VmState {
                value_stack: st.drop_last(),
                frames: s.frames.push(FrameView { locals: callee_locals(s.args), return_addr: (s.pc + 1) as u32 }),
                args: Seq::empty(),
                pc: st.last(),
                ..s
            })
        }
    } else if op == opcode::RETURN {
        if s.frames.len() == 0 {
            fail(s, InterpreterErrorType::UnexpectedEmptyFrameStack)
        } else if s.frames.last().return_addr == 0 {
            ok(VmState { frames: s.frames.drop_last(), running: false, ..s })
        } else {
            ok(VmState { frames: s.frames.drop_last(), pc: s.frames.last().return_addr, ..s })
        }
    } else if op == opcode::DBG_ASSERT {
        if n < 1 {
            fail(s, InterpreterErrorType::UnexpectedValStackEmpty)
        } else if st.last() != 0 {
            ok(advance(with_stack(s, st.drop_last()), 1))
        } else {
            ok(VmState { value_stack: st.drop_last(), running: false, assertion_failed: true, ..s })
        }
    } else {
        fail(s, InterpreterErrorType::InvalidOpcode(op))
    }
}

/// `local_get`, `local_set`, `local_tee` on the top frame.
pub open spec fn step_local(s: VmState, op: u8) -> Outcome {
    let st = s.value_stack;
    let n = st.len();
    if op != opcode::LOCAL_GET && n < 1 {
        fail(s, InterpreterErrorType::UnexpectedValStackEmpty)
    } else if !has_reg_operand(s) {
        fail(s, InterpreterErrorType::AddrOutOfBounds((s.pc + 1) as u32))
    } else if s.frames.len() == 0 {
        fail(s, InterpreterErrorType::UnexpectedEmptyFrameStack)
    } else {
        let id = reg_operand(s);
        let top = s.frames.last();
        if id >= top.locals.len() {
            fail(s, InterpreterErrorType::InvalidLocalId(id))
        } else if op == opcode::LOCAL_GET {
            ok(advance(with_stack(s, st.push(top.locals[id as int])), 2))
        } else {
            let frames = s.frames.update(s.frames.len() - 1, FrameView { locals: top.locals.update(id as int, st.last()), ..top });
            let st2 = if op == opcode::LOCAL_SET { st.drop_last() } else { st };
            ok(advance(VmState { value_stack: st2, frames, ..s }, 2))
        }
    }
}

/// `global_get`, `global_set`, `global_tee`.
pub open spec fn step_global(s: VmState, op: u8) -> Outcome {
    let st = s.value_stack;
    let n = st.len();
    if op != opcode::GLOBAL_GET && n < 1 {
        fail(s, InterpreterErrorType::UnexpectedValStackEmpty)
    } else if !has_reg_operand(s) {
        fail(s, InterpreterErrorType::AddrOutOfBounds((s.pc + 1) as u32))
    } else {
        let id = reg_operand(s);
        if id >= s.globals.len() {
            fail(s, InterpreterErrorType::InvalidGlobalId(id))
        } else if op == opcode::GLOBAL_GET {
            ok(advance(with_stack(s, st.push(s.globals[id as int])), 2))
        } else {
            let st2 = if op == opcode::GLOBAL_SET { st.drop_last() } else { st };
            ok(advance(VmState { value_stack: st2, globals: s.globals.update(id as int, st.last()), ..s }, 2))
        }
    }
}

/// The machine after a `syscall` at `pc`: the state `mid` that the host
/// left, with the host's answer pushed, the arguments cleared, and `pc` past
/// the instruction.
pub open spec fn syscall_post(mid: VmState, pc: u32, ret: u32) -> VmState {
    VmState { value_stack: mid.value_stack.push(ret), args: Seq::empty(), pc: (pc + 1) as u32, ..mid }
}

/// `t` follows `s` by one successful step: the one `step` gives, or for a
/// `syscall` the one after whatever the host did.
pub open spec fn step_ok(s: VmState, t: VmState) -> bool {
    match step(s) {
        Some(out) => out.1 is Ok && out.0 == t,
        None => exists|mid: VmState, ret: u32| #[trigger] syscall_post(mid, s.pc, ret) == t && mid.memory.len() <= MAX_MEMORY,
    }
}

/// Each state of `trace` follows the one before by a successful step.
pub open spec fn is_trace(trace: Seq<VmState>) -> bool {
    &&& trace.len() > 0
    &&& forall|i: int| 0 <= i < trace.len() - 1 ==> step_ok(#[trigger] trace[i], trace[i + 1])
}

/// `t` is reached from `s` by `n` successful steps.
pub open spec fn reaches(s: VmState, t: VmState, n: nat) -> bool {
    exists|trace: Seq<VmState>| #[trigger] is_trace(trace) && trace.len() == n + 1 && trace[0] == s && trace.last() == t
}

/// The machine as `run` starts it.
pub open spec fn run_start(s: VmState) -> VmState {
    VmState { running: true, ..s }
}

/// Running from `s` with at most `budget` instructions, as long as no
/// `syscall` comes (`None` once one does): the state where the machine
/// stops or fails, and how.
pub open spec fn run_from(s: VmState, budget: nat) -> Option<Outcome>
    decreases budget,
{
    if !s.running {
        Some((s, Ok(())))
    } else if budget == 0 {
        Some((s, Err(InterpreterErrorType::StepLimitReached)))
    } else {
        match step(s) {
            None => None,
            Some(out) => if out.1 is Ok { run_from(out.0, (budget - 1) as nat) } else { Some(out) },
        }
    }
}

/// A failing step leaves the machine as it was.
pub proof fn lemma_step_fail_keeps(s: VmState)
    ensures
        step(s) is Some && step(s)->Some_0.1 is Err ==> step(s)->Some_0.0 == s,
{
    reveal(step);
}

} // verus!
