//! Instruction names of the assembly language.
use vstd::prelude::*;
use crate::opcode::{self, is_known_opcode};
use crate::source::Source;

verus! {

/// The opcode an instruction name stands for.
#[verifier::opaque]
pub open spec fn mnemonic(name: Seq<char>) -> Option<u8> {
    if name == "nop"@ { Some(opcode::NOP) }
    else if name == "unreachable"@ { Some(opcode::UNREACHABLE) }
    else if name == "drop"@ { Some(opcode::DROP) }
    else if name == "const"@ { Some(opcode::CONST) }
    else if name == "jmp"@ { Some(opcode::JMP) }
    else if name == "jmp_if"@ { Some(opcode::JMP_IF) }
    else if name == "branch"@ { Some(opcode::BRANCH) }
    else if name == "branch_if"@ { Some(opcode::BRANCH_IF) }
    else if name == "local_get"@ { Some(opcode::LOCAL_GET) }
    else if name == "local_set"@ { Some(opcode::LOCAL_SET) }
    else if name == "local_tee"@ { Some(opcode::LOCAL_TEE) }
    else if name == "global_get"@ { Some(opcode::GLOBAL_GET) }
    else if name == "global_set"@ { Some(opcode::GLOBAL_SET) }
    else if name == "global_tee"@ { Some(opcode::GLOBAL_TEE) }
    else if name == "eq"@ { Some(opcode::EQ) }
    else if name == "eqz"@ { Some(opcode::EQZ) }
    else if name == "add"@ { Some(opcode::ADD) }
    else if name == "sub"@ { Some(opcode::SUB) }
    else if name == "div_s"@ { Some(opcode::DIV_S) }
    else if name == "div_u"@ { Some(opcode::DIV_U) }
    else if name == "mul"@ { Some(opcode::MUL) }
    else if name == "neg"@ { Some(opcode::NEG) }
    else if name == "gt"@ { Some(opcode::GT) }
    else if name == "lt"@ { Some(opcode::LT) }
    else if name == "ge"@ { Some(opcode::GE) }
    else if name == "le"@ { Some(opcode::LE) }
    else if name == "shiftr"@ { Some(opcode::SHIFT_R) }
    else if name == "shiftl"@ { Some(opcode::SHIFT_L) }
    else if name == "and"@ { Some(opcode::AND) }
    else if name == "or"@ { Some(opcode::OR) }
    else if name == "xor"@ { Some(opcode::XOR) }
    else if name == "call"@ { Some(opcode::CALL) }
    else if name == "return"@ { Some(opcode::RETURN) }
    else if name == "store_8"@ { Some(opcode::STORE_8) }
    else if name == "store_16"@ { Some(opcode::STORE_16) }
    else if name == "store_32"@ { Some(opcode::STORE_32) }
    else if name == "load_8_u"@ { Some(opcode::LOAD_8_U) }
    else if name == "load_8_s"@ { Some(opcode::LOAD_8_S) }
    else if name == "load_16_s"@ { Some(opcode::LOAD_16_S) }
    else if name == "load_16_u"@ { Some(opcode::LOAD_16_U) }
    else if name == "load_32_s"@ { Some(opcode::LOAD_32_S) }
    else if name == "load_32_u"@ { Some(opcode::LOAD_32_U) }
    else if name == "extend_8_32_s"@ { Some(opcode::EXTEND_8_32_S) }
    else if name == "extend_16_32_s"@ { Some(opcode::EXTEND_16_32_S) }
    else if name == "extend_8_32_u"@ { Some(opcode::EXTEND_8_32_U) }
    else if name == "extend_16_32_u"@ { Some(opcode::EXTEND_16_32_U) }
    else if name == "end"@ { Some(opcode::END) }
    else if name == "push_arg"@ { Some(opcode::PUSH_ARG) }
    else if name == "dbg_assert"@ { Some(opcode::DBG_ASSERT) }
    else if name == "syscall"@ { Some(opcode::SYSCALL) }
    else { None }
}

/// Every name maps to an opcode of the catalog.
pub proof fn lemma_mnemonic_known(name: Seq<char>)
    ensures
        mnemonic(name) matches Some(op) ==> is_known_opcode(op),
{
    reveal(mnemonic);
}

/// Whether `src[a..b]` spells `lit`.
pub fn token_is(src: &Source, a: usize, b: usize, lit: &str) -> (r: bool)
    requires
        a <= b <= src@.len(),
    ensures
        r == (src@.subrange(a as int, b as int) == lit@),
{
    let n = lit.unicode_len();
    if b - a != n {
        return false;
    }
    let mut i: usize = 0;
    while i < n
        invariant
            i <= n == b - a,
            a <= b <= src@.len(),
            n == lit@.len(),
            forall|k: int| 0 <= k < i ==> src@[a + k] == lit@[k],
        decreases n - i,
    {
        if src.at(a + i) != lit.get_char(i) {
            assert(src@.subrange(a as int, b as int)[i as int] != lit@[i as int]);
            return false;
        }
        i = i + 1;
    }
    assert(src@.subrange(a as int, b as int) =~= lit@);
    true
}

/// The opcode that `src[a..b]` names.
pub fn lookup_mnemonic(src: &Source, a: usize, b: usize) -> (r: Option<u8>)
    requires
        a <= b <= src@.len(),
    ensures
        r == mnemonic(src@.subrange(a as int, b as int)),
{
    reveal(mnemonic);
    if token_is(src, a, b, "nop") { Some(opcode::NOP) }
    else if token_is(src, a, b, "unreachable") { Some(opcode::UNREACHABLE) }
    else if token_is(src, a, b, "drop") { Some(opcode::DROP) }
    else if token_is(src, a, b, "const") { Some(opcode::CONST) }
    else if token_is(src, a, b, "jmp") { Some(opcode::JMP) }
    else if token_is(src, a, b, "jmp_if") { Some(opcode::JMP_IF) }
    else if token_is(src, a, b, "branch") { Some(opcode::BRANCH) }
    else if token_is(src, a, b, "branch_if") { Some(opcode::BRANCH_IF) }
    else if token_is(src, a, b, "local_get") { Some(opcode::LOCAL_GET) }
    else if token_is(src, a, b, "local_set") { Some(opcode::LOCAL_SET) }
    else if token_is(src, a, b, "local_tee") { Some(opcode::LOCAL_TEE) }
    else if token_is(src, a, b, "global_get") { Some(opcode::GLOBAL_GET) }
    else if token_is(src, a, b, "global_set") { Some(opcode::GLOBAL_SET) }
    else if token_is(src, a, b, "global_tee") { Some(opcode::GLOBAL_TEE) }
    else if token_is(src, a, b, "eq") { Some(opcode::EQ) }
    else if token_is(src, a, b, "eqz") { Some(opcode::EQZ) }
    else if token_is(src, a, b, "add") { Some(opcode::ADD) }
    else if token_is(src, a, b, "sub") { Some(opcode::SUB) }
    else if token_is(src, a, b, "div_s") { Some(opcode::DIV_S) }
    else if token_is(src, a, b, "div_u") { Some(opcode::DIV_U) }
    else if token_is(src, a, b, "mul") { Some(opcode::MUL) }
    else if token_is(src, a, b, "neg") { Some(opcode::NEG) }
    else if token_is(src, a, b, "gt") { Some(opcode::GT) }
    else if token_is(src, a, b, "lt") { Some(opcode::LT) }
    else if token_is(src, a, b, "ge") { Some(opcode::GE) }
    else if token_is(src, a, b, "le") { Some(opcode::LE) }
    else if token_is(src, a, b, "shiftr") { Some(opcode::SHIFT_R) }
    else if token_is(src, a, b, "shiftl") { Some(opcode::SHIFT_L) }
    else if token_is(src, a, b, "and") { Some(opcode::AND) }
    else if token_is(src, a, b, "or") { Some(opcode::OR) }
    else if token_is(src, a, b, "xor") { Some(opcode::XOR) }
    else if token_is(src, a, b, "call") { Some(opcode::CALL) }
    else if token_is(src, a, b, "return") { Some(opcode::RETURN) }
    else if token_is(src, a, b, "store_8") { Some(opcode::STORE_8) }
    else if token_is(src, a, b, "store_16") { Some(opcode::STORE_16) }
    else if token_is(src, a, b, "store_32") { Some(opcode::STORE_32) }
    else if token_is(src, a, b, "load_8_u") { Some(opcode::LOAD_8_U) }
    else if token_is(src, a, b, "load_8_s") { Some(opcode::LOAD_8_S) }
    else if token_is(src, a, b, "load_16_s") { Some(opcode::LOAD_16_S) }
    else if token_is(src, a, b, "load_16_u") { Some(opcode::LOAD_16_U) }
    else if token_is(src, a, b, "load_32_s") { Some(opcode::LOAD_32_S) }
    else if token_is(src, a, b, "load_32_u") { Some(opcode::LOAD_32_U) }
    else if token_is(src, a, b, "extend_8_32_s") { Some(opcode::EXTEND_8_32_S) }
    else if token_is(src, a, b, "extend_16_32_s") { Some(opcode::EXTEND_16_32_S) }
    else if token_is(src, a, b, "extend_8_32_u") { Some(opcode::EXTEND_8_32_U) }
    else if token_is(src, a, b, "extend_16_32_u") { Some(opcode::EXTEND_16_32_U) }
    else if token_is(src, a, b, "end") { Some(opcode::END) }
    else if token_is(src, a, b, "push_arg") { Some(opcode::PUSH_ARG) }
    else if token_is(src, a, b, "dbg_assert") { Some(opcode::DBG_ASSERT) }
    else if token_is(src, a, b, "syscall") { Some(opcode::SYSCALL) }
    else { None }
}

} // verus!
