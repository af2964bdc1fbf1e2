//! The instruction catalog: every opcode byte of the module format and the
//! operand that each instruction carries.
use vstd::prelude::*;

verus! {

pub const NOP: u8 = 0x01;
pub const UNREACHABLE: u8 = 0x02;
pub const DROP: u8 = 0x03;
pub const CONST: u8 = 0x04;
pub const JMP: u8 = 0x05;
pub const JMP_IF: u8 = 0x06;
pub const BRANCH: u8 = 0x07;
pub const BRANCH_IF: u8 = 0x08;
pub const LOCAL_GET: u8 = 0x09;
pub const LOCAL_SET: u8 = 0x0a;
pub const LOCAL_TEE: u8 = 0x0b;
pub const GLOBAL_GET: u8 = 0x0c;
pub const GLOBAL_SET: u8 = 0x0e;
pub const GLOBAL_TEE: u8 = 0x0f;
pub const EQ: u8 = 0x10;
pub const EQZ: u8 = 0x11;
pub const ADD: u8 = 0x12;
pub const SUB: u8 = 0x13;
pub const DIV_S: u8 = 0x14;
pub const DIV_U: u8 = 0x15;
pub const MUL: u8 = 0x16;
pub const NEG: u8 = 0x17;
pub const GT: u8 = 0x18;
pub const LT: u8 = 0x19;
pub const GE: u8 = 0x1a;
pub const LE: u8 = 0x1b;
pub const SHIFT_R: u8 = 0x1c;
pub const SHIFT_L: u8 = 0x1d;
pub const AND: u8 = 0x1e;
pub const OR: u8 = 0x1f;
pub const XOR: u8 = 0x20;
pub const CALL: u8 = 0x21;
pub const RETURN: u8 = 0x22;
pub const STORE_8: u8 = 0x23;
pub const STORE_16: u8 = 0x24;
pub const STORE_32: u8 = 0x25;
pub const LOAD_8_U: u8 = 0x26;
pub const LOAD_8_S: u8 = 0x27;
pub const LOAD_16_S: u8 = 0x28;
pub const LOAD_16_U: u8 = 0x29;
pub const LOAD_32_S: u8 = 0x2a;
pub const LOAD_32_U: u8 = 0x2b;
pub const EXTEND_8_32_S: u8 = 0x2c;
pub const EXTEND_16_32_S: u8 = 0x2d;
pub const EXTEND_8_32_U: u8 = 0x2e;
pub const EXTEND_16_32_U: u8 = 0x2f;
pub const END: u8 = 0x30;
pub const PUSH_ARG: u8 = 0x31;
pub const DBG_ASSERT: u8 = 0x32;
pub const SYSCALL: u8 = 0x33;

/// The kind of operand that follows an opcode in the code section.
#[derive(PartialEq, Eq, Structural, Debug, Clone, Copy)]
pub enum OperandKind {
    /// One byte: a local or global slot.
    Register,
    /// Four little-endian bytes.
    Num,
}

/// The opcode bytes that the catalog assigns (0x0d is left free).
pub open spec fn is_known_opcode(op: u8) -> bool {
    0x01 <= op <= 0x33 && op != 0x0d
}

/// The operand that a known opcode carries, if any.
pub open spec fn operand_kind_of(op: u8) -> Option<OperandKind> {
    if LOCAL_GET <= op <= GLOBAL_TEE && op != 0x0d {
        Some(OperandKind::Register)
    } else if op == CONST || (STORE_8 <= op <= LOAD_32_U) {
        Some(OperandKind::Num)
    } else {
        None
    }
}

/// Bytes taken by an operand of the given kind.
pub open spec fn operand_width(k: Option<OperandKind>) -> nat {
    match k {
        None => 0,
        Some(OperandKind::Register) => 1,
        Some(OperandKind::Num) => 4,
    }
}

/// Bytes taken by an encoded instruction with this opcode.
pub open spec fn instruction_width(op: u8) -> nat {
    1 + operand_width(operand_kind_of(op))
}

/// Whether the byte is an opcode of the catalog.
pub fn is_known(op: u8) -> (r: bool)
    ensures
        r == is_known_opcode(op),
{
    0x01 <= op && op <= 0x33 && op != 0x0d
}

/// The operand that follows the opcode in the code section.
pub fn operand_kind(op: u8) -> (r: Option<OperandKind>)
    ensures
        r == operand_kind_of(op),
{
    if LOCAL_GET <= op && op <= GLOBAL_TEE && op != 0x0d {
        Some(OperandKind::Register)
    } else if op == CONST || (STORE_8 <= op && op <= LOAD_32_U) {
        Some(OperandKind::Num)
    } else {
        None
    }
}

} // verus!
