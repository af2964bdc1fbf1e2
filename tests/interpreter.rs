use malu_vm::assembler::Parser;
use malu_vm::host::{Env, EnvError};
use malu_vm::interpreter::{is_bytecode_header_valid, Interpreter, SyscallHandler};
use malu_vm::machine::InterpreterErrorType;

struct DummySyscallHandler();
impl SyscallHandler for DummySyscallHandler {
    fn on_syscall(&mut self, _: &mut Interpreter, _: u32, _: &[u32]) -> u32 {
        return 0;
    }
}

/// Answers with the sum of the arguments.
struct SumHandler();
impl SyscallHandler for SumHandler {
    fn on_syscall(&mut self, _: &mut Interpreter, id: u32, args: &[u32]) -> u32 {
        id + args.iter().sum::<u32>()
    }
}

fn assemble(code: &str) -> Vec<u8> {
    let bytecode = Parser::parse(code).unwrap();
    assert!(bytecode.code.len() > 0);
    bytecode.code
}

fn run_code(code: &str) -> Vec<u32> {
    let bytecode = assemble(code);
    let mut interpreter = Interpreter::from_bytecode(&bytecode).unwrap();
    let result = interpreter.run(&mut DummySyscallHandler()).unwrap();
    result.to_vec()
}

fn run_error(code: &str) -> InterpreterErrorType {
    let bytecode = assemble(code);
    let mut interpreter = Interpreter::from_bytecode(&bytecode).unwrap();
    match interpreter.run(&mut DummySyscallHandler()) {
        Ok(_) => panic!("expected an error"),
        Err(e) => e,
    }
}

#[test]
fn hello_world() {
    let code = "
            #1; #1; add;
            end;
        ";
    let bytecode = assemble(code);
    let result = Interpreter::from_bytecode(&bytecode).unwrap().run(&mut DummySyscallHandler()).unwrap()[0];
    assert_eq!(result, 2);
}

#[test]
fn hello_world_add_numbers() {
    let code = "
            #1; #1; add;
            end;
        ";
    assert_eq!(run_code(code), &[2]);
}

#[test]
fn globals_locals() {
    let code = "
            #100; global_set 0;
            #2; global_set 1; 

            global_get 0;
            global_get 1;
            add;
            
            #5; local_set 0;
            #2; local_set 1;

            local_get 0;
            local_get 1;

            add;
            end;
        ";
    assert_eq!(run_code(code), &[102, 7]);
}

#[test]
fn load_store() {
    let code = "
            #100; 
            #5;
            store_32 0;

            #100;
            load_32_u 0;
            
            end;    
        ";
    assert_eq!(run_code(code), &[5]);
}

#[test]
fn call_function_with_params() {
    let code = "
            :func1: 
            local_get 0;
            local_get 1;
            add;
            return; 
             
            :__ENTRY__:
            #1; push_arg;
            #2; push_arg;
            #@func1;
            call; 
            end;
             
        ";
    assert_eq!(run_code(code), &[3]);
}

#[test]
fn simple_if_else() {
    let code = "
            #1; #2; gt;
            #@if; jmp_if; 
            :else: #0x25; end;
            :if: unreachable;
        ";
    assert_eq!(run_code(code), &[0x25]);
}

#[test]
fn simple_loop() {
    let code = "
            :loop:
            #1; 
            local_get 0; 
            add; 
            local_tee 0; 
            #5; 
            ge;
            #@end; 
            jmp_if;
            #@loop; 
            jmp; 
            :end:
            local_get 0;
            end;
        ";
    assert_eq!(run_code(code), &[5]);
}

#[test]
fn recursion() {
    let code = "
            #0; push_arg;
            #@fn; call;
            end;
            :fn:
            #1; local_get 0; add;
            local_tee 0; #5; lt;
            #@fn_rec; jmp_if;

            local_get 0;
            return; 

            :fn_rec:
            local_get 0; push_arg;
            #@fn; call;
            return;
        ";
    assert_eq!(run_code(code), &[5]);
}

#[test]
fn assertions() {
    let code = "
            #1; #2; add; #1; gt;
            dbg_assert;

            #10;
            #5; #2; lt;
            dbg_assert; 
            unreachable;
        ";
    let bytecode = assemble(code);
    let mut interpreter = Interpreter::from_bytecode(&bytecode).unwrap();
    let result = interpreter.run(&mut DummySyscallHandler()).unwrap().to_vec();
    assert_eq!(result, &[10]);
    assert!(interpreter.assertion_failed);
}

#[test]
fn return_from_bottom_frame_stops_cleanly() {
    let bytecode = assemble("#4; return; unreachable;");
    let mut interpreter = Interpreter::from_bytecode(&bytecode).unwrap();
    assert_eq!(interpreter.run(&mut DummySyscallHandler()).unwrap(), &[4]);
    assert!(interpreter.return_stack.is_empty());
    assert!(!interpreter.running);
}

#[test]
fn pc_advances_by_instruction_size() {
    let bytecode = assemble("#3; local_set 1; nop; store_8 0; end;");
    let mut interpreter = Interpreter::from_bytecode(&bytecode).unwrap();
    let mut h = DummySyscallHandler();
    assert_eq!(interpreter.pc, 12);
    interpreter.exec_next_op(&mut h).unwrap();
    assert_eq!(interpreter.pc, 17);
    interpreter.exec_next_op(&mut h).unwrap();
    assert_eq!(interpreter.pc, 19);
    interpreter.exec_next_op(&mut h).unwrap();
    assert_eq!(interpreter.pc, 20);
}

#[test]
fn reset_all_matches_fresh_interpreter() {
    let first = assemble("#9; global_set 3; #1; push_arg; #77; #1; store_8 0; end;");
    let second = assemble("#1; #2; add; :__ENTRY__: end;");
    let mut used = Interpreter::from_bytecode(&first).unwrap();
    used.run(&mut DummySyscallHandler()).unwrap();
    used.reset_all(&second).unwrap();
    let fresh = Interpreter::from_bytecode(&second).unwrap();
    assert_eq!(used.value_stack, fresh.value_stack);
    assert_eq!(used.memory, fresh.memory);
    assert_eq!(used.pc, fresh.pc);
    assert_eq!(used.pc, 12 + 11);
    assert_eq!(used.globals, fresh.globals);
    assert_eq!(used.args.len(), 0);
    assert_eq!(used.return_stack.len(), 1);
    assert_eq!(used.return_stack[0].return_addr, 0);
    assert_eq!(used.return_stack[0].locals, fresh.return_stack[0].locals);
    assert_eq!(used.bytecode_len, fresh.bytecode_len);
    assert_eq!(used.running, fresh.running);
    assert_eq!(used.assertion_failed, fresh.assertion_failed);
}

#[test]
fn memory_is_image_then_heap() {
    let bytecode = assemble("#1; end;");
    let interpreter = Interpreter::from_bytecode(&bytecode).unwrap();
    assert_eq!(interpreter.memory.len(), bytecode.len() - 4 + 65536);
    assert_eq!(&interpreter.memory[..bytecode.len() - 4], &bytecode[4..]);
    assert_eq!(interpreter.inital_bytecode().len(), bytecode.len());
}

#[test]
fn header_must_be_magic() {
    assert!(is_bytecode_header_valid(b"malu").is_ok());
    assert_eq!(is_bytecode_header_valid(b"mal"), Err(InterpreterErrorType::InvalidBytecodeHeader));
    assert!(matches!(Interpreter::from_bytecode(b"nope1234"), Err(InterpreterErrorType::InvalidBytecodeHeader)));
}

#[test]
fn arithmetic_wraps_and_divides() {
    assert_eq!(run_code("#-1; #2; add; end;"), &[1]);
    assert_eq!(run_code("#0; #1; sub; end;"), &[0xffff_ffff]);
    assert_eq!(run_code("#0x10000; #0x10000; mul; end;"), &[0]);
    assert_eq!(run_code("#-7; #2; div_s; end;"), &[(-3i32) as u32]);
    assert_eq!(run_code("#7; #2; div_u; end;"), &[3]);
    assert_eq!(run_code("#5; neg; end;"), &[(-5i32) as u32]);
    assert_eq!(run_code("#1; #33; shiftl; end;"), &[2]);
    assert_eq!(run_code("#-1; #28; shiftr; end;"), &[0xf]);
    assert_eq!(run_code("#6; #3; and; #6; #3; or; #6; #3; xor; end;"), &[2, 7, 5]);
    assert_eq!(run_code("#0; eqz; #3; #3; eq; #2; #3; le; #3; #3; ge; end;"), &[1, 1, 1, 1]);
}

#[test]
fn loads_extend() {
    assert_eq!(run_code("#200; #0xFF80; store_16 0; #200; load_8_s 0; #200; load_8_u 0; end;"), &[0xffff_ff80, 0x80]);
    assert_eq!(run_code("#200; #0xFF80; store_16 0; #200; load_16_s 0; #200; load_16_u 0; end;"), &[0xffff_ff80, 0xff80]);
    assert_eq!(run_code("#0x1FF; extend_8_32_s; #0x17F; extend_8_32_u; #0x18000; extend_16_32_s; #0x18000; extend_16_32_u; end;"), &[0xffff_ffff, 0x7f, 0xffff_8000, 0x8000]);
}

#[test]
fn branch_is_relative() {
    // branch at 17 jumps 7 bytes to the `#2` at 24; the first constant stays.
    assert_eq!(run_code("#7; branch; #1; end; #2; end;"), &[2]);
}

#[test]
fn error_variants_of_the_interpreter() {
    assert_eq!(run_error("add; end;"), InterpreterErrorType::UnexpectedValStackEmpty);
    assert_eq!(run_error("unreachable;"), InterpreterErrorType::ReachedUnreachable);
    assert_eq!(run_error("#0xFFFFFF; jmp;"), InterpreterErrorType::InvalidJumpAddr(0xff_ffff));
    assert_eq!(run_error("local_get 64;"), InterpreterErrorType::InvalidLocalId(64));
    assert_eq!(run_error("global_get 64;"), InterpreterErrorType::InvalidGlobalId(64));
    assert_eq!(run_error("#1; #0; div_u;"), InterpreterErrorType::DivisionByZero);
    assert_eq!(run_error("#0x-80000000; #-1; div_s;"), InterpreterErrorType::DivisionOverflow);
    assert_eq!(run_error("#-16; #1; store_32 0;"), InterpreterErrorType::AddrOutOfBounds(0xffff_fff0));
    assert_eq!(run_error("#-16; load_8_u 0;"), InterpreterErrorType::AddrOutOfBounds(0xffff_fff0));
    assert_eq!(run_error("nop;"), InterpreterErrorType::InvalidOpcode(0));
    let twelve = "#1; push_arg; ".repeat(12);
    assert_eq!(run_error(&format!("{twelve} #1; push_arg;")), InterpreterErrorType::ArgStackFull);
}

#[test]
fn effective_address_does_not_wrap() {
    // base 0xFFFFFFF0 plus offset 0x20 passes 2^32: no wrap to address 0x10.
    assert_eq!(run_error("#-16; #7; store_32 32;"), InterpreterErrorType::AddrOutOfBounds(u32::MAX));
    assert_eq!(run_error("#-16; load_8_u 32;"), InterpreterErrorType::AddrOutOfBounds(u32::MAX));
}

#[test]
fn failing_step_keeps_the_state() {
    let twelve = "#1; push_arg; ".repeat(12);
    let bytecode = assemble(&format!("{twelve} #9; push_arg;"));
    let mut interpreter = Interpreter::from_bytecode(&bytecode).unwrap();
    let mut h = DummySyscallHandler();
    for _ in 0..25 {
        interpreter.exec_next_op(&mut h).unwrap();
    }
    let pc = interpreter.pc;
    let stack = interpreter.value_stack.clone();
    assert_eq!(interpreter.exec_next_op(&mut h), Err(InterpreterErrorType::ArgStackFull));
    assert_eq!(interpreter.args.len(), 12);
    assert_eq!(interpreter.pc, pc);
    assert_eq!(interpreter.value_stack, stack);
}

#[test]
fn begin_syscall_pops_id_and_copies_arguments() {
    let bytecode = assemble("#4; push_arg; #5; push_arg; #77; syscall; end;");
    let mut interpreter = Interpreter::from_bytecode(&bytecode).unwrap();
    let mut h = DummySyscallHandler();
    for _ in 0..5 {
        interpreter.exec_next_op(&mut h).unwrap();
    }
    let (id, args) = interpreter.begin_syscall().unwrap();
    assert_eq!(id, 77);
    assert_eq!(args, vec![4, 5]);
    assert!(interpreter.value_stack.is_empty());
    let pc = interpreter.pc;
    interpreter.complete_syscall(pc, 3).unwrap();
    assert_eq!(interpreter.value_stack, vec![3]);
    assert_eq!(interpreter.pc, pc + 1);
    assert_eq!(interpreter.args.len(), 0);
}

#[test]
fn invalid_opcode_is_an_error() {
    let mut bytecode = assemble("nop; end;");
    bytecode[16] = 0x0d;
    let mut interpreter = Interpreter::from_bytecode(&bytecode).unwrap();
    assert_eq!(interpreter.run(&mut DummySyscallHandler()).unwrap_err(), InterpreterErrorType::InvalidOpcode(0x0d));
    assert_eq!(interpreter.pc, 12);
    assert!(interpreter.value_stack.is_empty());
}

#[test]
fn empty_frame_stack_is_an_error() {
    let bytecode = assemble("return;");
    let mut interpreter = Interpreter::from_bytecode(&bytecode).unwrap();
    let mut h = DummySyscallHandler();
    interpreter.exec_next_op(&mut h).unwrap();
    assert_eq!(interpreter.exec_next_op(&mut h), Err(InterpreterErrorType::UnexpectedEmptyFrameStack));
}

#[test]
fn syscall_gets_arguments_and_pushes_answer() {
    let bytecode = assemble("#2; push_arg; #3; push_arg; #10; syscall; end;");
    let mut interpreter = Interpreter::from_bytecode(&bytecode).unwrap();
    assert_eq!(interpreter.run(&mut SumHandler()).unwrap(), &[15]);
    assert_eq!(interpreter.args.len(), 0);
}

#[test]
fn env_prints_debug_strings() {
    // "hi" stored at 300 and 301, then printed.
    let code = "#300; #104; store_8 0; #301; #105; store_8 0; #300; push_arg; #2; push_arg; #0; syscall; end;";
    let bytecode = assemble(code);
    let mut interpreter = Interpreter::from_bytecode(&bytecode).unwrap();
    let mut env = Env::new();
    assert_eq!(interpreter.run(&mut env).unwrap(), &[0]);
    assert_eq!(env.log(), "hi");
}

#[test]
fn env_reports_bad_strings() {
    let bad_addr = assemble("#0xFFFFFF; push_arg; #2; push_arg; #0; syscall; end;");
    let mut interpreter = Interpreter::from_bytecode(&bad_addr).unwrap();
    let mut env = Env::new();
    assert_eq!(interpreter.run(&mut env).unwrap(), &[1]);
    let bad_text = assemble("#300; #0xFF; store_8 0; #300; push_arg; #1; push_arg; #0; syscall; end;");
    let mut interpreter = Interpreter::from_bytecode(&bad_text).unwrap();
    assert_eq!(interpreter.run(&mut env).unwrap(), &[2]);
    assert_eq!(env.log(), "");
}

#[test]
fn env_error_return_codes() {
    assert_eq!(EnvError::as_return_code(Ok(())), 0);
    assert_eq!(EnvError::as_return_code(Err(EnvError::InvalidMemAddr)), 1);
    assert_eq!(EnvError::as_return_code(Err(EnvError::InvalidStringData)), 2);
    assert_eq!(EnvError::as_return_code(Err(EnvError::Unknown)), 99);
    assert_eq!(EnvError::from(InterpreterErrorType::AddrOutOfBounds(3)), EnvError::InvalidMemAddr);
}

#[test]
fn read_str_reads_utf8() {
    let bytecode = assemble("#1; end;");
    let mut interpreter = Interpreter::from_bytecode(&bytecode).unwrap();
    interpreter.memory[400] = 0xc3;
    interpreter.memory[401] = 0xa9;
    assert_eq!(interpreter.read_str(400, 2).unwrap(), "é");
    assert_eq!(interpreter.read_str(400, 1), Err(InterpreterErrorType::InvalidStringData));
    assert_eq!(interpreter.read_str(0xffff_ff00, 1), Err(InterpreterErrorType::AddrOutOfBounds(0xffff_ff00)));
}
