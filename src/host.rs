//! A host for the `syscall` instruction: a debug log that programs print to.
use vstd::prelude::*;
use vstd::string::*;
use vstd::utf8::{decode_utf8, valid_utf8};
use crate::interpreter::{Interpreter, SyscallHandler};
use crate::machine::{in_memory, InterpreterErrorType};

verus! {

/// Appends the string `(addr, len)` of memory to the log.
pub const PRINT_DEBUG_STRING: u32 = 0x00;

/// Why a syscall of this host failed; each kind has its return code.
#[derive(PartialEq, Eq, Structural, Debug, Clone, Copy)]
pub enum EnvError {
    /// Code 1: the string does not lie in memory.
    InvalidMemAddr,
    /// Code 2: the string is no UTF-8.
    InvalidStringData,
    /// Code 99: any other failure.
    Unknown,
}

pub open spec fn return_code_of(result: Result<(), EnvError>) -> u32 {
    match result {
        Ok(_) => 0,
        Err(EnvError::InvalidMemAddr) => 1,
        Err(EnvError::InvalidStringData) => 2,
        Err(EnvError::Unknown) => 99,
    }
}

pub open spec fn env_error_of(e: InterpreterErrorType) -> EnvError {
    match e {
        InterpreterErrorType::InvalidStringData => EnvError::InvalidStringData,
        InterpreterErrorType::AddrOutOfBounds(_) => EnvError::InvalidMemAddr,
        _ => EnvError::Unknown,
    }
}

impl EnvError {
    /// The code a syscall hands back to the program: 0 on success.
    pub fn as_return_code(result: Result<(), EnvError>) -> (r: u32)
        ensures
            r == return_code_of(result),
    {
        match result {
            Ok(_) => 0,
            Err(EnvError::InvalidMemAddr) => 1,
            Err(EnvError::InvalidStringData) => 2,
            Err(EnvError::Unknown) => 99,
        }
    }
}

impl From<InterpreterErrorType> for EnvError {
    fn from(value: InterpreterErrorType) -> (r: Self)
        ensures
            r == env_error_of(value),
    {
        match value {
            InterpreterErrorType::InvalidStringData => EnvError::InvalidStringData,
            InterpreterErrorType::AddrOutOfBounds(_) => EnvError::InvalidMemAddr,
            _ => EnvError::Unknown,
        }
    }
}

impl vstd::std_specs::convert::FromSpecImpl<InterpreterErrorType> for EnvError {
    open spec fn obeys_from_spec() -> bool {
        true
    }

    open spec fn from_spec(v: InterpreterErrorType) -> Self {
        env_error_of(v)
    }
}

/// Errors of a front end that assembles and runs programs.
#[derive(Debug)]
pub enum AppError {
    InterpreterError(InterpreterErrorType),
    LabelDoesNotExist(String),
}

impl From<InterpreterErrorType> for AppError {
    fn from(value: InterpreterErrorType) -> (r: Self)
        ensures
            r == AppError::InterpreterError(value),
    {
        AppError::InterpreterError(value)
    }
}

impl vstd::std_specs::convert::FromSpecImpl<InterpreterErrorType> for AppError {
    open spec fn obeys_from_spec() -> bool {
        true
    }

    open spec fn from_spec(v: InterpreterErrorType) -> Self {
        AppError::InterpreterError(v)
    }
}

/// The host: what programs printed so far.
pub struct Env {
    log: String,
}

impl View for Env {
    type V = Seq<char>;

    closed spec fn view(&self) -> Seq<char> {
        self.log@
    }
}

impl Default for Env {
    fn default() -> (r: Self)
        ensures
            r@ == Seq::<char>::empty(),
    {
        Env { log: String::new() }
    }
}

impl Env {
    pub fn new() -> (r: Self)
        ensures
            r@ == Seq::<char>::empty(),
    {
        Env { log: String::new() }
    }

    /// Everything printed so far.
    pub fn log(&self) -> (r: &str)
        ensures
            r@ == self@,
    {
        self.log.as_str()
    }

    /// Appends the UTF-8 text at `[addr, addr + len)` of memory to the log.
    pub fn print_debug_string(&mut self, interpreter: &Interpreter, addr: u32, len: u32) -> (r: Result<(), EnvError>)
        ensures
            !in_memory(interpreter.memory@, addr as int, len as int) ==> r == Err::<(), EnvError>(EnvError::InvalidMemAddr)
                && final(self)@ == old(self)@,
            in_memory(interpreter.memory@, addr as int, len as int) ==> {
                let b = interpreter.memory@.subrange(addr as int, addr + len);
                &&& valid_utf8(b) ==> r is Ok && final(self)@ == old(self)@ + decode_utf8(b)
                &&& !valid_utf8(b) ==> r == Err::<(), EnvError>(EnvError::InvalidStringData) && final(self)@ == old(self)@
            },
    {
        match interpreter.read_str(addr, len) {
            Ok(s) => {
                self.log.append(s);
                Ok(())
            },
            Err(e) => Err(EnvError::from(e)),
        }
    }
}

impl SyscallHandler for Env {
    /// `PRINT_DEBUG_STRING` takes the address and the length as its two
    /// arguments; other ids do nothing and answer 0.
    fn on_syscall(&mut self, interpreter: &mut Interpreter, syscall_id: u32, args: &[u32]) -> u32 {
        if syscall_id == PRINT_DEBUG_STRING {
            if args.len() < 2 {
                return EnvError::as_return_code(Err(EnvError::Unknown));
            }
            let addr = args[0];
            let len = args[1];
            EnvError::as_return_code(self.print_debug_string(interpreter, addr, len))
        } else {
            0
        }
    }
}

} // verus!
