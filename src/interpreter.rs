//! The interpreter: runs a module against its memory, stacks and globals.
use vstd::prelude::*;
use vstd::slice::slice_subrange;
use vstd::string::StringSliceAdditionalSpecFns;
use vstd::utf8::{decode_utf8, valid_utf8};
use crate::args::{arg_values, ArgBuffer, MAX_ARGS};
use crate::assembler::CODE_START_ADDR_POS;
use crate::bytes::{le_bytes_u16, le_bytes_u32, le_u16, le_u32, read_u16_le_at, read_u32_le_at};
use crate::machine::{
    advance, binop_value, reported_addr, run_start, lemma_step_fail_keeps, reaches, run_from, step_ok, syscall_post, is_trace, callee_locals, div_signed, is_binop, is_load, is_store, is_unop, load_value, sext16, sext8,
    step, step_op, store_bytes, unop_value, access_width, imm_u32, Outcome,
    bottom_frame, header_valid, in_memory, init_state, initial_memory, with_stack, write_bytes, zeros_u32,
    FrameView, InterpreterErrorType, VmState, MAX_GLOBALS, MAX_LOCALS, MAX_MEMORY, MAX_MODULE_LEN, MIN_HEAP_SIZE,
};
use crate::opcode;

verus! {

/// A call frame: the callee's locals and where to go back to.
#[derive(Clone, Copy)]
pub struct Frame {
    pub locals: [u32; 64],
    pub return_addr: u32,
}

impl View for Frame {
    type V = FrameView;

    open spec fn view(&self) -> FrameView {
        FrameView { locals: self.locals@, return_addr: self.return_addr }
    }
}

impl Frame {
    /// Zeroed locals and return address 0, the mark of the bottom frame.
    pub fn empty() -> (r: Self)
        ensures
            r@ == bottom_frame(),
    {
        let r = Frame { locals: [0u32; 64], return_addr: 0 };
        assert(r.locals@ =~= zeros_u32(MAX_LOCALS as nat));
        r
    }
}

/// The operands of a store: where it writes and what.
#[derive(PartialEq, Eq, Structural, Debug, Clone, Copy)]
pub struct StoreArgs {
    pub addr: u32,
    pub value: u32,
}

/// The host's side of the `syscall` instruction. The handler may read and
/// change the interpreter; what it returns is pushed on the value stack.
pub trait SyscallHandler {
    fn on_syscall(&mut self, interpreter: &mut Interpreter, syscall_id: u32, args: &[u32]) -> u32;
}

/// The machine.
pub struct Interpreter {
    pub value_stack: Vec<u32>,
    pub return_stack: Vec<Frame>,
    pub memory: Vec<u8>,
    pub pc: u32,
    pub globals: [u32; 64],
    pub args: ArgBuffer,
    pub start_pc_addr: u32,
    pub bytecode_len: usize,
    pub running: bool,
    pub assertion_failed: bool,
}

impl View for Interpreter {
    type V = VmState;

    open spec fn view(&self) -> VmState {
        VmState {
            value_stack: self.value_stack@,
            frames: self.return_stack@.map_values(|f: Frame| f@),
            memory: self.memory@,
            pc: self.pc,
            globals: self.globals@,
            args: arg_values(self.args),
            start_pc_addr: self.start_pc_addr,
            bytecode_len: self.bytecode_len as nat,
            running: self.running,
            assertion_failed: self.assertion_failed,
        }
    }
}

/// Whether `bytecode` opens with the magic of a module.
pub fn is_bytecode_header_valid(bytecode: &[u8]) -> (r: Result<(), InterpreterErrorType>)
    ensures
        r is Ok <==> header_valid(bytecode@),
        r is Err ==> r == Err::<(), InterpreterErrorType>(InterpreterErrorType::InvalidBytecodeHeader),
{
    if bytecode.len() >= 4 && bytecode[0] == 0x6d && bytecode[1] == 0x61 && bytecode[2] == 0x6c && bytecode[3] == 0x75 {
        assert(bytecode@.subrange(0, 4) =~= crate::assembler::magic());
        Ok(())
    } else {
        proof {
            if bytecode@.len() >= 4 {
                assert(bytecode@.subrange(0, 4)[0] == bytecode@[0]);
                assert(bytecode@.subrange(0, 4)[1] == bytecode@[1]);
                assert(bytecode@.subrange(0, 4)[2] == bytecode@[2]);
                assert(bytecode@.subrange(0, 4)[3] == bytecode@[3]);
            }
        }
        Err(InterpreterErrorType::InvalidBytecodeHeader)
    }
}

impl Interpreter {
    /// The memory fits 32-bit addresses and the argument buffer its bound.
    pub open spec fn wf(&self) -> bool {
        &&& self@.memory.len() <= MAX_MEMORY
        &&& self@.args.len() <= MAX_ARGS
    }

    /// Loads a module: checks the magic, lays out memory and sets the entry.
    pub fn from_bytecode(bytecode: &[u8]) -> (r: Result<Self, InterpreterErrorType>)
        requires
            bytecode@.len() <= MAX_MODULE_LEN,
        ensures
            r is Ok <==> header_valid(bytecode@),
            r matches Ok(i) ==> i@ == init_state(bytecode@) && i.wf(),
            r is Err ==> r->Err_0 == InterpreterErrorType::InvalidBytecodeHeader,
    {
        is_bytecode_header_valid(bytecode)?;
        let mut interpreter = Interpreter {
            value_stack: Vec::new(),
            return_stack: Vec::new(),
            memory: Vec::new(),
            pc: 0,
            globals: [0u32; 64],
            args: ArgBuffer::new(),
            start_pc_addr: 0,
            bytecode_len: 0,
            running: false,
            assertion_failed: false,
        };
        interpreter.load(bytecode);
        Ok(interpreter)
    }

    /// Copies the module image (all but the magic) to the start of memory.
    pub fn init_memory(&mut self, bytecode: &[u8])
        requires
            4 <= bytecode@.len(),
            bytecode@.len() - 4 <= old(self).memory@.len(),
        ensures
            final(self).memory@ == bytecode@.subrange(4, bytecode@.len() as int) + old(self).memory@.subrange(
                bytecode@.len() - 4,
                old(self).memory@.len() as int,
            ),
            final(self).value_stack == old(self).value_stack,
            final(self).return_stack == old(self).return_stack,
            final(self).pc == old(self).pc,
            final(self).globals == old(self).globals,
            final(self).args == old(self).args,
            final(self).start_pc_addr == old(self).start_pc_addr,
            final(self).bytecode_len == old(self).bytecode_len,
            final(self).running == old(self).running,
            final(self).assertion_failed == old(self).assertion_failed,
    {
        let n = bytecode.len() - 4;
        let mut i: usize = 0;
        while i < n
            invariant
                n == bytecode@.len() - 4,
                n + 4 <= usize::MAX,
                i <= n <= self.memory@.len() == old(self).memory@.len(),
                forall|k: int| 0 <= k < i ==> self.memory@[k] == bytecode@[k + 4],
                forall|k: int| i <= k < self.memory@.len() ==> self.memory@[k] == old(self).memory@[k],
                self.value_stack == old(self).value_stack,
                self.return_stack == old(self).return_stack,
                self.pc == old(self).pc,
                self.globals == old(self).globals,
                self.args == old(self).args,
                self.start_pc_addr == old(self).start_pc_addr,
                self.bytecode_len == old(self).bytecode_len,
                self.running == old(self).running,
                self.assertion_failed == old(self).assertion_failed,
            decreases n - i,
        {
            self.memory[i] = bytecode[i + 4];
            i = i + 1;
        }
        assert(self.memory@ =~= bytecode@.subrange(4, bytecode@.len() as int) + old(self).memory@.subrange(
            bytecode@.len() - 4,
            old(self).memory@.len() as int,
        ));
    }

    /// Puts the machine in the state right after loading `bytecode`.
    fn load(&mut self, bytecode: &[u8])
        requires
            header_valid(bytecode@),
            bytecode@.len() <= MAX_MODULE_LEN,
        ensures
            final(self)@ == init_state(bytecode@),
            final(self).wf(),
    {
        let size = bytecode.len() - 4 + MIN_HEAP_SIZE;
        self.memory = vec![0u8; size];
        self.init_memory(bytecode);
        assert(self.memory@ =~= initial_memory(bytecode@));
        self.value_stack = Vec::new();
        self.return_stack = Vec::new();
        self.return_stack.push(Frame::empty());
        self.globals = [0u32; 64];
        self.args.clear();
        self.running = false;
        self.assertion_failed = false;
        self.bytecode_len = bytecode.len();
        let entry = read_u32_le_at(self.memory.as_slice(), CODE_START_ADDR_POS as usize);
        self.pc = entry;
        self.start_pc_addr = entry;
        assert(self.globals@ =~= zeros_u32(MAX_GLOBALS as nat));
        assert(self@.frames =~= seq![bottom_frame()]);
        assert(self@.value_stack =~= Seq::<u32>::empty());
    }

    /// Loads another module into this machine: stacks, arguments, flags,
    /// globals and memory start afresh, as after `from_bytecode`.
    pub fn reset_all(&mut self, bytecode: &[u8]) -> (r: Result<(), InterpreterErrorType>)
        requires
            bytecode@.len() <= MAX_MODULE_LEN,
        ensures
            r is Ok <==> header_valid(bytecode@),
            r is Ok ==> final(self)@ == init_state(bytecode@) && final(self).wf(),
            r is Err ==> r->Err_0 == InterpreterErrorType::InvalidBytecodeHeader && final(self)@ == old(self)@,
    {
        is_bytecode_header_valid(bytecode)?;
        self.load(bytecode);
        Ok(())
    }

    /// The loaded module's bytes as they stand at the start of memory.
    pub fn inital_bytecode(&self) -> (r: &[u8])
        ensures
            r@ == self.memory@.subrange(0, if self.bytecode_len <= self.memory@.len() { self.bytecode_len as int } else { self.memory@.len() as int }),
    {
        let end = if self.bytecode_len <= self.memory.len() { self.bytecode_len } else { self.memory.len() };
        slice_subrange(self.memory.as_slice(), 0, end)
    }

    /// Goes back to the entry address.
    pub fn reset_pc(&mut self)
        ensures
            final(self)@ == (VmState { pc: old(self).start_pc_addr, ..old(self)@ }),
    {
        self.pc = self.start_pc_addr;
    }

    pub fn read_u8(&self, addr: u32) -> (r: Result<u8, InterpreterErrorType>)
        ensures
            addr < self.memory@.len() ==> r == Ok::<u8, InterpreterErrorType>(self.memory@[addr as int]),
            addr >= self.memory@.len() ==> r == Err::<u8, InterpreterErrorType>(InterpreterErrorType::AddrOutOfBounds(addr)),
    {
        if (addr as usize) < self.memory.len() {
            Ok(self.memory[addr as usize])
        } else {
            Err(InterpreterErrorType::AddrOutOfBounds(addr))
        }
    }

    pub fn read_u16(&self, addr: u32) -> (r: Result<u16, InterpreterErrorType>)
        ensures
            in_memory(self.memory@, addr as int, 2) ==> r == Ok::<u16, InterpreterErrorType>(le_u16(self.memory@.subrange(addr as int, addr + 2))),
            !in_memory(self.memory@, addr as int, 2) ==> r == Err::<u16, InterpreterErrorType>(InterpreterErrorType::AddrOutOfBounds(addr)),
    {
        if self.memory.len() >= 2 && (addr as usize) <= self.memory.len() - 2 {
            Ok(read_u16_le_at(self.memory.as_slice(), addr as usize))
        } else {
            Err(InterpreterErrorType::AddrOutOfBounds(addr))
        }
    }

    pub fn read_u32(&self, addr: u32) -> (r: Result<u32, InterpreterErrorType>)
        ensures
            in_memory(self.memory@, addr as int, 4) ==> r == Ok::<u32, InterpreterErrorType>(le_u32(self.memory@.subrange(addr as int, addr + 4))),
            !in_memory(self.memory@, addr as int, 4) ==> r == Err::<u32, InterpreterErrorType>(InterpreterErrorType::AddrOutOfBounds(addr)),
    {
        if self.memory.len() >= 4 && (addr as usize) <= self.memory.len() - 4 {
            Ok(read_u32_le_at(self.memory.as_slice(), addr as usize))
        } else {
            Err(InterpreterErrorType::AddrOutOfBounds(addr))
        }
    }

    /// Writes `bytes` at `addr` if they fit in memory.
    fn write_at(&mut self, addr: u32, bytes: &[u8]) -> (r: Result<(), InterpreterErrorType>)
        requires
            1 <= bytes@.len() <= 4,
        ensures
            in_memory(old(self).memory@, addr as int, bytes@.len() as int) ==> r is Ok
                && final(self)@ == (VmState { memory: write_bytes(old(self).memory@, addr as int, bytes@), ..old(self)@ }),
            !in_memory(old(self).memory@, addr as int, bytes@.len() as int) ==> r
                == Err::<(), InterpreterErrorType>(InterpreterErrorType::AddrOutOfBounds(addr)) && final(self)@ == old(self)@,
    {
        let w = bytes.len();
        if !(self.memory.len() >= w && (addr as usize) <= self.memory.len() - w) {
            return Err(InterpreterErrorType::AddrOutOfBounds(addr));
        }
        let a = addr as usize;
        let mut i: usize = 0;
        while i < w
            invariant
                w == bytes@.len(),
                a + w <= self.memory@.len() == old(self).memory@.len(),
                a == addr,
                a + w <= usize::MAX,
                i <= w,
                forall|k: int| 0 <= k < a ==> self.memory@[k] == old(self).memory@[k],
                forall|k: int| a <= k < a + i ==> self.memory@[k] == bytes@[k - a],
                forall|k: int| a + i <= k < self.memory@.len() ==> self.memory@[k] == old(self).memory@[k],
                self.value_stack == old(self).value_stack,
                self.return_stack == old(self).return_stack,
                self.pc == old(self).pc,
                self.globals == old(self).globals,
                self.args == old(self).args,
                self.start_pc_addr == old(self).start_pc_addr,
                self.bytecode_len == old(self).bytecode_len,
                self.running == old(self).running,
                self.assertion_failed == old(self).assertion_failed,
            decreases w - i,
        {
            self.memory[a + i] = bytes[i];
            i = i + 1;
        }
        assert(self.memory@ =~= write_bytes(old(self).memory@, addr as int, bytes@));
        Ok(())
    }

    pub fn store_u8(&mut self, addr: u32, value: u8) -> (r: Result<(), InterpreterErrorType>)
        ensures
            in_memory(old(self).memory@, addr as int, 1) ==> r is Ok
                && final(self)@ == (VmState { memory: write_bytes(old(self).memory@, addr as int, seq![value]), ..old(self)@ }),
            !in_memory(old(self).memory@, addr as int, 1) ==> r
                == Err::<(), InterpreterErrorType>(InterpreterErrorType::AddrOutOfBounds(addr)) && final(self)@ == old(self)@,
    {
        let b = [value];
        assert(b@ =~= seq![value]);
        self.write_at(addr, b.as_slice())
    }

    pub fn store_u16(&mut self, addr: u32, value: u16) -> (r: Result<(), InterpreterErrorType>)
        ensures
            in_memory(old(self).memory@, addr as int, 2) ==> r is Ok
                && final(self)@ == (VmState { memory: write_bytes(old(self).memory@, addr as int, le_bytes_u16(value)), ..old(self)@ }),
            !in_memory(old(self).memory@, addr as int, 2) ==> r
                == Err::<(), InterpreterErrorType>(InterpreterErrorType::AddrOutOfBounds(addr)) && final(self)@ == old(self)@,
    {
        let b = [(value & 0xff) as u8, (value >> 8) as u8];
        assert(b@ =~= le_bytes_u16(value));
        self.write_at(addr, b.as_slice())
    }

    pub fn store_u32(&mut self, addr: u32, value: u32) -> (r: Result<(), InterpreterErrorType>)
        ensures
            in_memory(old(self).memory@, addr as int, 4) ==> r is Ok
                && final(self)@ == (VmState { memory: write_bytes(old(self).memory@, addr as int, le_bytes_u32(value)), ..old(self)@ }),
            !in_memory(old(self).memory@, addr as int, 4) ==> r
                == Err::<(), InterpreterErrorType>(InterpreterErrorType::AddrOutOfBounds(addr)) && final(self)@ == old(self)@,
    {
        let b = [(value & 0xff) as u8, ((value >> 8) & 0xff) as u8, ((value >> 16) & 0xff) as u8, (value >> 24) as u8];
        assert(b@ =~= le_bytes_u32(value));
        self.write_at(addr, b.as_slice())
    }

    fn push(&mut self, val: u32)
        ensures
            final(self)@ == with_stack(old(self)@, old(self)@.value_stack.push(val)),
    {
        self.value_stack.push(val);
    }

    fn pop(&mut self) -> (r: Result<u32, InterpreterErrorType>)
        ensures
            old(self)@.value_stack.len() == 0 ==> r == Err::<u32, InterpreterErrorType>(InterpreterErrorType::UnexpectedValStackEmpty)
                && final(self)@ == old(self)@,
            old(self)@.value_stack.len() > 0 ==> r == Ok::<u32, InterpreterErrorType>(old(self)@.value_stack.last())
                && final(self)@ == with_stack(old(self)@, old(self)@.value_stack.drop_last()),
    {
        match self.value_stack.pop() {
            Some(v) => Ok(v),
            None => Err(InterpreterErrorType::UnexpectedValStackEmpty),
        }
    }

    /// Jumps to `addr` if it lies in memory.
    pub fn try_jump_to(&mut self, addr: u32) -> (r: Result<(), InterpreterErrorType>)
        ensures
            addr < old(self).memory@.len() ==> r is Ok && final(self)@ == (VmState { pc: addr, ..old(self)@ }),
            addr >= old(self).memory@.len() ==> r == Err::<(), InterpreterErrorType>(InterpreterErrorType::InvalidJumpAddr(addr))
                && final(self)@ == old(self)@,
    {
        if addr as usize >= self.memory.len() {
            Err(InterpreterErrorType::InvalidJumpAddr(addr))
        } else {
            self.pc = addr;
            Ok(())
        }
    }

    /// The four-byte immediate `offset` bytes after the opcode.
    pub fn read_imm_u32(&self, offset: u32) -> (r: Result<u32, InterpreterErrorType>)
        requires
            self.pc + offset <= u32::MAX,
        ensures
            r == (if in_memory(self.memory@, self.pc + offset, 4) {
                Ok::<u32, InterpreterErrorType>(le_u32(self.memory@.subrange(self.pc + offset, self.pc + offset + 4)))
            } else {
                Err::<u32, InterpreterErrorType>(InterpreterErrorType::AddrOutOfBounds((self.pc + offset) as u32))
            }),
    {
        self.read_u32(self.pc + offset)
    }

    /// The byte `offset` bytes after the opcode.
    pub fn read_imm_u8(&self, offset: u32) -> (r: Result<u8, InterpreterErrorType>)
        requires
            self.pc + offset <= u32::MAX,
        ensures
            r == (if self.pc + offset < self.memory@.len() {
                Ok::<u8, InterpreterErrorType>(self.memory@[self.pc + offset])
            } else {
                Err::<u8, InterpreterErrorType>(InterpreterErrorType::AddrOutOfBounds((self.pc + offset) as u32))
            }),
    {
        self.read_u8(self.pc + offset)
    }

    /// The frame of the running call.
    pub fn current_frame(&self) -> (r: &Frame)
        requires
            self.return_stack@.len() > 0,
        ensures
            *r == self.return_stack@.last(),
    {
        let n = self.return_stack.len();
        &self.return_stack[n - 1]
    }

    /// The local named by the byte `id_arg_offset` bytes after the opcode.
    pub fn read_local(&self, id_arg_offset: u32) -> (r: Result<u32, InterpreterErrorType>)
        requires
            self.pc + id_arg_offset <= u32::MAX,
            self.return_stack@.len() > 0,
        ensures
            ({
                let at = self.pc + id_arg_offset;
                if at >= self.memory@.len() {
                    r == Err::<u32, InterpreterErrorType>(InterpreterErrorType::AddrOutOfBounds(at as u32))
                } else if self.memory@[at] >= MAX_LOCALS {
                    r == Err::<u32, InterpreterErrorType>(InterpreterErrorType::InvalidLocalId(self.memory@[at]))
                } else {
                    r == Ok::<u32, InterpreterErrorType>(self.return_stack@.last().locals@[self.memory@[at] as int])
                }
            }),
    {
        let id = self.read_imm_u8(id_arg_offset)?;
        if id as usize >= MAX_LOCALS {
            return Err(InterpreterErrorType::InvalidLocalId(id));
        }
        Ok(self.current_frame().locals[id as usize])
    }

    /// Pushes a frame for a call from the current instruction: the
    /// arguments become its first locals and it returns to the next byte.
    pub fn create_frame(&mut self)
        requires
            old(self).wf(),
            old(self).pc < u32::MAX,
        ensures
            final(self)@ == (VmState {
                frames: old(self)@.frames.push(FrameView { locals: callee_locals(old(self)@.args), return_addr: (old(self).pc + 1) as u32 }),
                ..old(self)@
            }),
    {
        let args = self.args.to_vec();
        let mut locals = [0u32; 64];
        let mut i: usize = 0;
        while i < args.len()
            invariant
                args@.len() <= MAX_ARGS,
                i <= args@.len(),
                forall|k: int| 0 <= k < i ==> locals@[k] == args@[k],
                forall|k: int| i <= k < MAX_LOCALS ==> locals@[k] == 0,
            decreases args@.len() - i,
        {
            locals[i] = args[i];
            i = i + 1;
        }
        assert(locals@ =~= callee_locals(arg_values(self.args)));
        let ghost old_frames = self@.frames;
        self.return_stack.push(Frame { locals, return_addr: self.pc + 1 });
        assert(self@.frames =~= old_frames.push(FrameView { locals: callee_locals(old(self)@.args), return_addr: (old(self).pc + 1) as u32 }));
    }

    /// The bytes `[addr, addr + len)` of memory read as UTF-8 text.
    pub fn read_str(&self, addr: u32, len: u32) -> (r: Result<&str, InterpreterErrorType>)
        ensures
            !in_memory(self.memory@, addr as int, len as int) ==> r == Err::<&str, InterpreterErrorType>(InterpreterErrorType::AddrOutOfBounds(addr)),
            in_memory(self.memory@, addr as int, len as int) ==> {
                let b = self.memory@.subrange(addr as int, addr + len);
                &&& r is Ok <==> valid_utf8(b)
                &&& r matches Ok(s) ==> s@ == decode_utf8(b)
                &&& r is Err ==> r == Err::<&str, InterpreterErrorType>(InterpreterErrorType::InvalidStringData)
            },
    {
        let a = addr as usize;
        let n = len as usize;
        if !(a <= self.memory.len() && n <= self.memory.len() - a) {
            return Err(InterpreterErrorType::AddrOutOfBounds(addr));
        }
        let bytes = slice_subrange(self.memory.as_slice(), a, a + n);
        match str_from_utf8(bytes) {
            Some(s) => Ok(s),
            None => Err(InterpreterErrorType::InvalidStringData),
        }
    }

    /// `jmp` and `branch`.
    fn exec_jump(&mut self, op: u8) -> (r: Result<(), InterpreterErrorType>)
        requires
            old(self).wf(),
            op == opcode::JMP || op == opcode::BRANCH,
        ensures
            final(self).wf(),
            r == step_op(old(self)@, op).1,
            final(self)@ == step_op(old(self)@, op).0,
    {
        let n = self.value_stack.len();
        if n < 1 {
            return Err(InterpreterErrorType::UnexpectedValStackEmpty);
        }
        let v = self.value_stack[n - 1];
        let target = if op == opcode::JMP { v } else { v.wrapping_add(self.pc) };
        if target as usize >= self.memory.len() {
            return Err(InterpreterErrorType::InvalidJumpAddr(target));
        }
        self.value_stack.pop();
        self.pc = target;
        Ok(())
    }

    /// `jmp`: pops the target address and jumps there.
    pub fn exec_jmp(&mut self) -> (r: Result<(), InterpreterErrorType>)
        requires
            old(self).wf(),
        ensures
            final(self).wf(),
            r == step_op(old(self)@, opcode::JMP).1,
            final(self)@ == step_op(old(self)@, opcode::JMP).0,
    {
        self.exec_jump(opcode::JMP)
    }

    /// `branch`: pops an offset and jumps that far from `pc`.
    pub fn exec_branch(&mut self) -> (r: Result<(), InterpreterErrorType>)
        requires
            old(self).wf(),
        ensures
            final(self).wf(),
            r == step_op(old(self)@, opcode::BRANCH).1,
            final(self)@ == step_op(old(self)@, opcode::BRANCH).0,
    {
        self.exec_jump(opcode::BRANCH)
    }

    /// The operands of a store: the immediate offset, then the value and the
    /// base address popped in that order; the address is base plus offset,
    /// which must stay within 32 bits. On failure nothing is popped.
    pub fn read_store_args(&mut self) -> (r: Result<StoreArgs, InterpreterErrorType>)
        requires
            old(self).wf(),
            old(self).pc < old(self).memory@.len(),
        ensures
            final(self).wf(),
            r is Err ==> final(self)@ == old(self)@,
            !in_memory(old(self).memory@, old(self).pc + 1, 4) ==> r == Err::<StoreArgs, InterpreterErrorType>(
                InterpreterErrorType::AddrOutOfBounds((old(self).pc + 1) as u32),
            ),
            in_memory(old(self).memory@, old(self).pc + 1, 4) && old(self)@.value_stack.len() < 2 ==> r
                == Err::<StoreArgs, InterpreterErrorType>(InterpreterErrorType::UnexpectedValStackEmpty),
            in_memory(old(self).memory@, old(self).pc + 1, 4) && old(self)@.value_stack.len() >= 2 ==> {
                let st = old(self)@.value_stack;
                let addr = st[st.len() - 2] + imm_u32(old(self)@);
                &&& addr > u32::MAX ==> r == Err::<StoreArgs, InterpreterErrorType>(InterpreterErrorType::AddrOutOfBounds(u32::MAX))
                &&& addr <= u32::MAX ==> r == Ok::<StoreArgs, InterpreterErrorType>(StoreArgs { addr: addr as u32, value: st.last() })
                    && final(self)@ == with_stack(old(self)@, st.drop_last().drop_last())
            },
    {
        let offset = self.read_imm_u32(1)?;
        let n = self.value_stack.len();
        if n < 2 {
            return Err(InterpreterErrorType::UnexpectedValStackEmpty);
        }
        let ea: u64 = self.value_stack[n - 2] as u64 + offset as u64;
        if ea > u32::MAX as u64 {
            return Err(InterpreterErrorType::AddrOutOfBounds(u32::MAX));
        }
        let value = self.value_stack.pop().unwrap();
        self.value_stack.pop();
        Ok(StoreArgs { addr: ea as u32, value })
    }

    /// The address `base + offset` of an access of `width` bytes, if the
    /// whole access lies in memory.
    fn effective_addr(&self, base: u32, offset: u32, width: usize) -> (r: Result<u32, InterpreterErrorType>)
        requires
            self.wf(),
        ensures
            in_memory(self.memory@, base + offset, width as int) ==> r == Ok::<u32, InterpreterErrorType>((base + offset) as u32),
            !in_memory(self.memory@, base + offset, width as int) ==> r == Err::<u32, InterpreterErrorType>(
                InterpreterErrorType::AddrOutOfBounds(reported_addr(base + offset)),
            ),
    {
        let ea: u64 = base as u64 + offset as u64;
        if ea <= self.memory.len() as u64 && width as u64 <= self.memory.len() as u64 - ea {
            Ok(ea as u32)
        } else if ea > u32::MAX as u64 {
            Err(InterpreterErrorType::AddrOutOfBounds(u32::MAX))
        } else {
            Err(InterpreterErrorType::AddrOutOfBounds(ea as u32))
        }
    }

    /// `jmp_if` and `branch_if`: the target is popped first, the condition second.
    fn exec_jump_if(&mut self, op: u8) -> (r: Result<(), InterpreterErrorType>)
        requires
            old(self).wf(),
            old(self).pc < old(self).memory@.len(),
            op == opcode::JMP_IF || op == opcode::BRANCH_IF,
        ensures
            final(self).wf(),
            r == step_op(old(self)@, op).1,
            final(self)@ == step_op(old(self)@, op).0,
    {
        let n = self.value_stack.len();
        if n < 2 {
            return Err(InterpreterErrorType::UnexpectedValStackEmpty);
        }
        let v = self.value_stack[n - 1];
        let cond = self.value_stack[n - 2];
        let target = if op == opcode::JMP_IF { v } else { v.wrapping_add(self.pc) };
        if cond != 0 && target as usize >= self.memory.len() {
            return Err(InterpreterErrorType::InvalidJumpAddr(target));
        }
        self.value_stack.pop();
        self.value_stack.pop();
        if cond != 0 {
            self.pc = target;
        } else {
            self.pc = self.pc + 1;
        }
        Ok(())
    }

    /// `local_get`, `local_set`, `local_tee`.
    fn exec_local(&mut self, op: u8) -> (r: Result<(), InterpreterErrorType>)
        requires
            old(self).wf(),
            old(self).pc < old(self).memory@.len(),
            opcode::LOCAL_GET <= op <= opcode::LOCAL_TEE,
        ensures
            final(self).wf(),
            r == step_op(old(self)@, op).1,
            final(self)@ == step_op(old(self)@, op).0,
    {
        let n = self.value_stack.len();
        if op != opcode::LOCAL_GET && n < 1 {
            return Err(InterpreterErrorType::UnexpectedValStackEmpty);
        }
        let id = self.read_imm_u8(1)?;
        let nf = self.return_stack.len();
        if nf == 0 {
            return Err(InterpreterErrorType::UnexpectedEmptyFrameStack);
        }
        assert(self@.frames.last() == self.return_stack@.last()@);
        if id as usize >= MAX_LOCALS {
            return Err(InterpreterErrorType::InvalidLocalId(id));
        }
        if op == opcode::LOCAL_GET {
            let v = self.return_stack[nf - 1].locals[id as usize];
            self.value_stack.push(v);
        } else {
            let v = self.value_stack[n - 1];
            let ghost old_frames = self@.frames;
            let mut frame = self.return_stack.pop().unwrap();
            frame.locals[id as usize] = v;
            self.return_stack.push(frame);
            assert(self@.frames =~= old_frames.update(nf - 1, FrameView { locals: old_frames.last().locals.update(id as int, v), ..old_frames.last() }));
            if op == opcode::LOCAL_SET {
                self.value_stack.pop();
            }
        }
        self.pc = self.pc + 2;
        Ok(())
    }

    /// `global_get`, `global_set`, `global_tee`.
    fn exec_global(&mut self, op: u8) -> (r: Result<(), InterpreterErrorType>)
        requires
            old(self).wf(),
            old(self).pc < old(self).memory@.len(),
            opcode::GLOBAL_GET <= op <= opcode::GLOBAL_TEE,
            op != 0x0d,
        ensures
            final(self).wf(),
            r == step_op(old(self)@, op).1,
            final(self)@ == step_op(old(self)@, op).0,
    {
        let n = self.value_stack.len();
        if op != opcode::GLOBAL_GET && n < 1 {
            return Err(InterpreterErrorType::UnexpectedValStackEmpty);
        }
        let id = self.read_imm_u8(1)?;
        if id as usize >= MAX_GLOBALS {
            return Err(InterpreterErrorType::InvalidGlobalId(id));
        }
        if op == opcode::GLOBAL_GET {
            let v = self.globals[id as usize];
            self.value_stack.push(v);
        } else {
            let v = self.value_stack[n - 1];
            self.globals[id as usize] = v;
            if op == opcode::GLOBAL_SET {
                self.value_stack.pop();
            }
        }
        self.pc = self.pc + 2;
        Ok(())
    }

    /// Instructions that pop two values and push one.
    fn exec_binop(&mut self, op: u8) -> (r: Result<(), InterpreterErrorType>)
        requires
            old(self).wf(),
            old(self).pc < old(self).memory@.len(),
            is_binop(op),
        ensures
            final(self).wf(),
            r == step_op(old(self)@, op).1,
            final(self)@ == step_op(old(self)@, op).0,
    {
        let n = self.value_stack.len();
        if n < 2 {
            return Err(InterpreterErrorType::UnexpectedValStackEmpty);
        }
        let b = self.value_stack[n - 1];
        let a = self.value_stack[n - 2];
        let v = binop(op, a, b)?;
        self.value_stack.pop();
        self.value_stack.pop();
        self.value_stack.push(v);
        self.pc = self.pc + 1;
        Ok(())
    }

    /// Instructions that pop one value and push one.
    fn exec_unop(&mut self, op: u8) -> (r: Result<(), InterpreterErrorType>)
        requires
            old(self).wf(),
            old(self).pc < old(self).memory@.len(),
            is_unop(op),
        ensures
            final(self).wf(),
            r == step_op(old(self)@, op).1,
            final(self)@ == step_op(old(self)@, op).0,
    {
        let a = self.pop()?;
        self.value_stack.push(unop(op, a));
        self.pc = self.pc + 1;
        Ok(())
    }

    /// `store_8`, `store_16`, `store_32`: pops the value, then the base address.
    fn exec_store(&mut self, op: u8) -> (r: Result<(), InterpreterErrorType>)
        requires
            old(self).wf(),
            old(self).pc < old(self).memory@.len(),
            is_store(op),
        ensures
            final(self).wf(),
            r == step_op(old(self)@, op).1,
            final(self)@ == step_op(old(self)@, op).0,
    {
        let offset = self.read_imm_u32(1)?;
        let n = self.value_stack.len();
        if n < 2 {
            return Err(InterpreterErrorType::UnexpectedValStackEmpty);
        }
        let value = self.value_stack[n - 1];
        let width: usize = if op == opcode::STORE_8 { 1 } else if op == opcode::STORE_16 { 2 } else { 4 };
        let addr = self.effective_addr(self.value_stack[n - 2], offset, width)?;
        if op == opcode::STORE_8 {
            self.store_u8(addr, (value & 0xff) as u8)?;
        } else if op == opcode::STORE_16 {
            self.store_u16(addr, (value & 0xffff) as u16)?;
        } else {
            self.store_u32(addr, value)?;
        }
        self.value_stack.pop();
        self.value_stack.pop();
        self.pc = self.pc + 5;
        Ok(())
    }

    /// The loads: pop the base address, push the value read.
    fn exec_load(&mut self, op: u8) -> (r: Result<(), InterpreterErrorType>)
        requires
            old(self).wf(),
            old(self).pc < old(self).memory@.len(),
            is_load(op),
        ensures
            final(self).wf(),
            r == step_op(old(self)@, op).1,
            final(self)@ == step_op(old(self)@, op).0,
    {
        let offset = self.read_imm_u32(1)?;
        let n = self.value_stack.len();
        if n < 1 {
            return Err(InterpreterErrorType::UnexpectedValStackEmpty);
        }
        let width: usize = if op == opcode::LOAD_8_U || op == opcode::LOAD_8_S {
            1
        } else if op == opcode::LOAD_16_U || op == opcode::LOAD_16_S {
            2
        } else {
            4
        };
        let addr = self.effective_addr(self.value_stack[n - 1], offset, width)?;
        let v: u32 = if op == opcode::LOAD_8_U {
            self.read_u8(addr)? as u32
        } else if op == opcode::LOAD_8_S {
            sign_extend_8(self.read_u8(addr)? as u32)
        } else if op == opcode::LOAD_16_U {
            self.read_u16(addr)? as u32
        } else if op == opcode::LOAD_16_S {
            sign_extend_16(self.read_u16(addr)? as u32)
        } else {
            self.read_u32(addr)?
        };
        self.value_stack.pop();
        self.value_stack.push(v);
        self.pc = self.pc + 5;
        Ok(())
    }

    /// Carries out the instruction `op` at `pc`, which is no `syscall`.
    fn exec_op(&mut self, op: u8) -> (r: Result<(), InterpreterErrorType>)
        requires
            old(self).wf(),
            old(self).pc < old(self).memory@.len(),
            op != opcode::SYSCALL,
        ensures
            final(self).wf(),
            r == step_op(old(self)@, op).1,
            final(self)@ == step_op(old(self)@, op).0,
    {
        if op == opcode::NOP {
            self.pc = self.pc + 1;
            Ok(())
        } else if op == opcode::END {
            self.running = false;
            Ok(())
        } else if op == opcode::UNREACHABLE {
            Err(InterpreterErrorType::ReachedUnreachable)
        } else if op == opcode::DROP {
            self.pop()?;
            self.pc = self.pc + 1;
            Ok(())
        } else if op == opcode::CONST {
            let v = self.read_imm_u32(1)?;
            self.push(v);
            self.pc = self.pc + 5;
            Ok(())
        } else if op == opcode::JMP {
            self.exec_jmp()
        } else if op == opcode::BRANCH {
            self.exec_branch()
        } else if op == opcode::JMP_IF || op == opcode::BRANCH_IF {
            self.exec_jump_if(op)
        } else if opcode::LOCAL_GET <= op && op <= opcode::LOCAL_TEE {
            self.exec_local(op)
        } else if opcode::GLOBAL_GET <= op && op <= opcode::GLOBAL_TEE && op != 0x0d {
            self.exec_global(op)
        } else if opcode::EQ <= op && op <= opcode::XOR && op != opcode::EQZ && op != opcode::NEG {
            self.exec_binop(op)
        } else if op == opcode::EQZ || op == opcode::NEG || (opcode::EXTEND_8_32_S <= op && op <= opcode::EXTEND_16_32_U) {
            self.exec_unop(op)
        } else if opcode::STORE_8 <= op && op <= opcode::STORE_32 {
            self.exec_store(op)
        } else if opcode::LOAD_8_U <= op && op <= opcode::LOAD_32_U {
            self.exec_load(op)
        } else if op == opcode::PUSH_ARG {
            if self.args.len() >= MAX_ARGS {
                return Err(InterpreterErrorType::ArgStackFull);
            }
            let v = self.pop()?;
            self.args.push(v);
            self.pc = self.pc + 1;
            Ok(())
        } else if op == opcode::CALL {
            let n = self.value_stack.len();
            if n < 1 {
                return Err(InterpreterErrorType::UnexpectedValStackEmpty);
            }
            let addr = self.value_stack[n - 1];
            if addr as usize >= self.memory.len() {
                return Err(InterpreterErrorType::InvalidJumpAddr(addr));
            }
            self.create_frame();
            self.args.clear();
            self.value_stack.pop();
            self.pc = addr;
            Ok(())
        } else if op == opcode::RETURN {
            let ghost frames = self@.frames;
            match self.return_stack.pop() {
                None => Err(InterpreterErrorType::UnexpectedEmptyFrameStack),
                Some(frame) => {
                    assert(self@.frames =~= frames.drop_last());
                    if frame.return_addr == 0 {
                        self.running = false;
                    } else {
                        self.pc = frame.return_addr;
                    }
                    Ok(())
                },
            }
        } else if op == opcode::DBG_ASSERT {
            let cond = self.pop()?;
            if cond != 0 {
                self.pc = self.pc + 1;
            } else {
                self.running = false;
                self.assertion_failed = true;
            }
            Ok(())
        } else {
            Err(InterpreterErrorType::InvalidOpcode(op))
        }
    }

    /// `syscall`: pops the id, hands the arguments to the host, then
    /// finishes with `complete_syscall`.
    fn exec_syscall<H: SyscallHandler>(&mut self, syscall_handler: &mut H) -> (r: Result<(), InterpreterErrorType>)
        requires
            old(self).wf(),
            old(self).pc < old(self).memory@.len(),
        ensures
            final(self).wf() || r == Err::<(), InterpreterErrorType>(InterpreterErrorType::MemoryTooLarge),
            old(self)@.value_stack.len() == 0 ==> r == Err::<(), InterpreterErrorType>(InterpreterErrorType::UnexpectedValStackEmpty)
                && final(self)@ == old(self)@,
            old(self)@.value_stack.len() > 0 ==> r is Ok || r == Err::<(), InterpreterErrorType>(InterpreterErrorType::MemoryTooLarge),
            r is Ok ==> exists|mid: VmState, ret: u32| #[trigger] syscall_post(mid, old(self).pc, ret) == final(self)@
                && mid.memory.len() <= MAX_MEMORY,
    {
        let pc = self.pc;
        let (id, args) = self.begin_syscall()?;
        let ret = syscall_handler.on_syscall(self, id, args.as_slice());
        self.complete_syscall(pc, ret)
    }

    /// What comes before the host's part of a `syscall`: pops the id and
    /// copies out the arguments that the host is handed.
    pub fn begin_syscall(&mut self) -> (r: Result<(u32, Vec<u32>), InterpreterErrorType>)
        ensures
            old(self)@.value_stack.len() == 0 ==> r is Err && r->Err_0 == InterpreterErrorType::UnexpectedValStackEmpty
                && final(self)@ == old(self)@,
            old(self)@.value_stack.len() > 0 ==> (r matches Ok((id, args)) && id == old(self)@.value_stack.last()
                && args@ == old(self)@.args && final(self)@ == with_stack(old(self)@, old(self)@.value_stack.drop_last())),
    {
        let id = self.pop()?;
        let args = self.args.to_vec();
        Ok((id, args))
    }

    /// What follows the host's answer `ret` to a `syscall` at `pc`: the
    /// answer is pushed, the arguments cleared and `pc` moved past the
    /// instruction; a memory that the host made larger than 32-bit addresses
    /// reach is an error.
    pub fn complete_syscall(&mut self, pc: u32, ret: u32) -> (r: Result<(), InterpreterErrorType>)
        requires
            pc < u32::MAX,
        ensures
            old(self).memory@.len() > MAX_MEMORY ==> r == Err::<(), InterpreterErrorType>(InterpreterErrorType::MemoryTooLarge)
                && final(self)@ == (VmState { args: Seq::empty(), ..old(self)@ }),
            old(self).memory@.len() <= MAX_MEMORY ==> r is Ok && final(self)@ == syscall_post(old(self)@, pc, ret)
                && final(self).wf(),
    {
        self.args.clear();
        if self.memory.len() > MAX_MEMORY {
            return Err(InterpreterErrorType::MemoryTooLarge);
        }
        self.value_stack.push(ret);
        self.pc = pc + 1;
        Ok(())
    }

    /// Carries out the instruction at `pc`. Every instruction but `syscall`
    /// does what `step` says, also when it fails; `syscall` asks the host.
    pub fn exec_next_op<H: SyscallHandler>(&mut self, syscall_handler: &mut H) -> (r: Result<(), InterpreterErrorType>)
        requires
            old(self).wf(),
        ensures
            final(self).wf() || r == Err::<(), InterpreterErrorType>(InterpreterErrorType::MemoryTooLarge),
            step(old(self)@) matches Some(out) ==> r == out.1 && final(self)@ == out.0,
            step(old(self)@) is None ==> (r is Ok ==> step_ok(old(self)@, final(self)@)) && (r is Err ==> r
                == Err::<(), InterpreterErrorType>(InterpreterErrorType::MemoryTooLarge)),
    {
        reveal(step);
        let op = self.read_u8(self.pc)?;
        if op == opcode::SYSCALL {
            self.exec_syscall(syscall_handler)
        } else {
            self.exec_op(op)
        }
    }

    /// Runs until the program stops (`end`, a return from the bottom frame,
    /// a failed `dbg_assert`) or fails; gives the value stack it leaves. It
    /// gives up after `u64::MAX` instructions.
    pub fn run<H: SyscallHandler>(&mut self, syscall_handler: &mut H) -> (r: Result<&[u32], InterpreterErrorType>)
        requires
            old(self).wf(),
        ensures
            r matches Ok(st) ==> !final(self).running && st@ == final(self).value_stack@ && final(self).wf()
                && exists|n: nat| reaches(run_start(old(self)@), final(self)@, n),
            r matches Err(e) ==> e == InterpreterErrorType::StepLimitReached || e == InterpreterErrorType::MemoryTooLarge
                || exists|n: nat| reaches(run_start(old(self)@), final(self)@, n) && step(final(self)@) == Some::<Outcome>(
                (final(self)@, Err(e)),
            ),
            run_from(run_start(old(self)@), u64::MAX as nat) matches Some(out) ==> final(self)@ == out.0 && (out.1 is Ok
                <==> r is Ok) && (out.1 matches Err(e) ==> r matches Err(e2) && e2 == e),
    {
        let ghost start = run_start(old(self)@);
        self.running = true;
        let mut budget: u64 = u64::MAX;
        let ghost mut trace: Seq<VmState> = seq![start];
        assert(is_trace(trace));
        loop
            invariant
                self.wf(),
                start == run_start(old(self)@),
                is_trace(trace),
                trace[0] == start,
                trace.last() == self@,
                run_from(start, u64::MAX as nat) is Some ==> run_from(start, u64::MAX as nat) == run_from(self@, budget as nat),
            decreases budget,
        {
            assert(reaches(start, self@, (trace.len() - 1) as nat));
            if !self.running {
                assert(run_from(self@, budget as nat) == Some::<Outcome>((self@, Ok(()))));
                return Ok(self.value_stack.as_slice());
            }
            if budget == 0 {
                assert(run_from(self@, budget as nat) == Some::<Outcome>(
                    (self@, Err(InterpreterErrorType::StepLimitReached)),
                ));
                return Err(InterpreterErrorType::StepLimitReached);
            }
            let ghost before = self@;
            let ghost b0 = budget as nat;
            budget = budget - 1;
            match self.exec_next_op(syscall_handler) {
                Ok(()) => {},
                Err(e) => {
                    proof {
                        lemma_step_fail_keeps(before);
                        if step(before) is Some {
                            assert(self@ == before);
                            assert(run_from(before, b0) == step(before));
                        }
                    }
                    return Err(e);
                },
            }
            proof {
                if step(before) is Some {
                    assert(run_from(before, b0) == run_from(self@, budget as nat));
                }
            }
            proof {
                let old_trace = trace;
                trace = trace.push(self@);
                assert(step_ok(before, self@));
                assert forall|i: int| 0 <= i < trace.len() - 1 implies step_ok(#[trigger] trace[i], trace[i + 1]) by {
                    if i < old_trace.len() - 1 {
                        assert(trace[i] == old_trace[i] && trace[i + 1] == old_trace[i + 1]);
                    } else {
                        assert(trace[i] == before);
                    }
                }
            }
        }
    }
}

/// Relies on `std::str::from_utf8`: it succeeds exactly on valid UTF-8, and
/// then the text is what the bytes encode.
#[verifier::external_body]
fn str_from_utf8(b: &[u8]) -> (r: Option<&str>)
    ensures
        r is Some <==> valid_utf8(b@),
        r matches Some(s) ==> s@ == decode_utf8(b@) && s.spec_bytes() == b@,
{
    std::str::from_utf8(b).ok()
}

fn sign_extend_8(v: u32) -> (r: u32)
    ensures
        r == sext8(v),
{
    if v & 0x80 == 0 { v & 0xff } else { (v & 0xff) | 0xffff_ff00 }
}

fn sign_extend_16(v: u32) -> (r: u32)
    ensures
        r == sext16(v),
{
    if v & 0x8000 == 0 { v & 0xffff } else { (v & 0xffff) | 0xffff_0000 }
}

/// Signed division rounding towards zero.
fn div_s(a: u32, b: u32) -> (r: u32)
    requires
        b != 0,
    ensures
        r == div_signed(a, b),
{
    assert(b as i32 != 0) by (bit_vector)
        requires
            b != 0u32,
    ;
    let x = a as i32 as i64;
    let y = b as i32 as i64;
    let ax: u64 = if x < 0 { (-x) as u64 } else { x as u64 };
    let ay: u64 = if y < 0 { (-y) as u64 } else { y as u64 };
    let q: u64 = ax / ay;
    let sq: i64 = if (x < 0) != (y < 0) { -(q as i64) } else { q as i64 };
    sq as i32 as u32
}

/// What a binary instruction computes.
fn binop(op: u8, a: u32, b: u32) -> (r: Result<u32, InterpreterErrorType>)
    ensures
        r == binop_value(op, a, b),
{
    if op == opcode::EQ { Ok(if a == b { 1 } else { 0 }) }
    else if op == opcode::ADD { Ok(a.wrapping_add(b)) }
    else if op == opcode::SUB { Ok(a.wrapping_sub(b)) }
    else if op == opcode::MUL { Ok(a.wrapping_mul(b)) }
    else if op == opcode::DIV_U { if b == 0 { Err(InterpreterErrorType::DivisionByZero) } else { Ok(a / b) } }
    else if op == opcode::DIV_S {
        if b == 0 { Err(InterpreterErrorType::DivisionByZero) }
        else if a == 0x8000_0000 && b == 0xffff_ffff { Err(InterpreterErrorType::DivisionOverflow) }
        else { Ok(div_s(a, b)) }
    }
    else if op == opcode::GT { Ok(if a > b { 1 } else { 0 }) }
    else if op == opcode::LT { Ok(if a < b { 1 } else { 0 }) }
    else if op == opcode::GE { Ok(if a >= b { 1 } else { 0 }) }
    else if op == opcode::LE { Ok(if a <= b { 1 } else { 0 }) }
    else if op == opcode::SHIFT_R { Ok(a.wrapping_shr(b)) }
    else if op == opcode::SHIFT_L { Ok(a.wrapping_shl(b)) }
    else if op == opcode::AND { Ok(a & b) }
    else if op == opcode::OR { Ok(a | b) }
    else { Ok(a ^ b) }
}

/// What a unary instruction computes.
fn unop(op: u8, a: u32) -> (r: u32)
    ensures
        r == unop_value(op, a),
{
    if op == opcode::EQZ { if a == 0 { 1 } else { 0 } }
    else if op == opcode::NEG { 0u32.wrapping_sub(a) }
    else if op == opcode::EXTEND_8_32_S { sign_extend_8(a) }
    else if op == opcode::EXTEND_16_32_S { sign_extend_16(a) }
    else if op == opcode::EXTEND_8_32_U { a & 0xff }
    else { a & 0xffff }
}

} // verus!
