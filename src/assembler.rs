//! The assembler: label table, operand resolution, and the module writer.
use vstd::prelude::*;
use vstd::string::*;
use crate::bytes::{le_bytes_u32, push_u32_le};
use crate::number::IntErrorKind;
use crate::opcode::{self, is_known_opcode, operand_kind_of, OperandKind};

verus! {

pub const STATEMENT_SEP: char = ';';
pub const LABEL_SEP: char = ':';
pub const ENTRY_LABEL_NAME: &'static str = "__ENTRY__";
pub const BYTECODE_HEADER: [u8; 4] = [0x6d, 0x61, 0x6c, 0x75];
/// Where the module image starts in the file: right after the magic.
pub const DATA_START: u32 = 4;
/// Position in memory of the entry address (the header without its magic).
pub const CODE_START_ADDR_POS: u32 = 8;
/// Position in memory of the code section.
pub const CODE_START: u32 = 12;
/// Bytes of a module before its code section.
pub const HEADER_SIZE: usize = 16;
/// The longest source text the assembler takes: five code bytes per character
/// at most must still fit the 32-bit size field of the header.
pub const MAX_SOURCE_LEN: usize = 0x3000_0000;

/// The magic that opens every module: `malu`.
pub open spec fn magic() -> Seq<u8> {
    seq![0x6du8, 0x61u8, 0x6cu8, 0x75u8]
}

/// What went wrong while assembling.
#[derive(Debug, Clone)]
pub enum AssembleErrorKind {
    MissingDelimiter,
    UnknownOperation,
    UnableToParseInt(IntErrorKind),
    MissingArgument,
    TooManyArguments,
    UnknownLabel(String),
    LabelAlreadyExists(String),
    UnexpectedRegisterId(i32),
    UnexpectedImmArgSize,
}

/// An assembler error with the source line at which the scanner stood.
#[derive(Debug, Clone)]
pub struct AssembleError {
    pub kind: AssembleErrorKind,
    pub line: usize,
}

impl AssembleError {
    pub fn new(state: &Parser, kind: AssembleErrorKind) -> (r: Self)
        ensures
            r.kind == kind,
            r.line == state.line,
    {
        AssembleError { kind, line: state.line }
    }
}

/// An operand as written in the source.
#[derive(PartialEq, Debug, Clone)]
pub enum ArgType {
    /// `@NAME`: the absolute address of a label.
    AbsLabelRef(String),
    /// `.NAME`: the distance in code bytes from a label to the end of the code.
    OffLabelRef(String),
    Number(i32),
    Register(u8),
}

/// The kind of operand an argument encodes to.
pub open spec fn arg_kind(a: ArgType) -> OperandKind {
    match a {
        ArgType::Register(_) => OperandKind::Register,
        _ => OperandKind::Num,
    }
}

pub open spec fn opt_arg_kind(a: Option<ArgType>) -> Option<OperandKind> {
    match a {
        Some(a) => Some(arg_kind(a)),
        None => None,
    }
}

impl ArgType {
    pub fn size_bytes(&self) -> (r: usize)
        ensures
            r == opcode::operand_width(Some(arg_kind(*self))),
    {
        match self {
            ArgType::Register(_) => 1,
            _ => 4,
        }
    }

    /// The number this operand stands for, labels resolved against `state`.
    pub fn get_numeric(&self, state: &Parser) -> (r: Result<i32, AssembleError>)
        ensures
            r is Ok <==> arg_value(state.labels@, state.op_size_bytes as nat, *self) is Some,
            r is Ok ==> r->Ok_0 == arg_value(state.labels@, state.op_size_bytes as nat, *self)->0,
            r is Err ==> r->Err_0.line == state.line && unknown_label_error(r->Err_0.kind, *self),
    {
        match self {
            ArgType::AbsLabelRef(l) => state.get_abs_label_addr(l),
            ArgType::OffLabelRef(l) => state.get_off_label_addr(l),
            ArgType::Number(n) => Ok(*n),
            ArgType::Register(r) => Ok(*r as i32),
        }
    }
}

/// An error that names the label the argument refers to.
pub open spec fn unknown_label_error(k: AssembleErrorKind, a: ArgType) -> bool {
    match a {
        ArgType::AbsLabelRef(l) | ArgType::OffLabelRef(l) => k matches AssembleErrorKind::UnknownLabel(n) && n@ == l@,
        _ => false,
    }
}

/// An instruction as parsed: opcode and operand before label resolution.
#[derive(PartialEq, Debug, Clone)]
pub struct Op {
    pub opcode: u8,
    pub arg: Option<ArgType>,
}

impl Op {
    /// The opcode is in the catalog and carries the operand the catalog gives it.
    pub open spec fn wf(self) -> bool {
        is_known_opcode(self.opcode) && opt_arg_kind(self.arg) == operand_kind_of(self.opcode)
    }

    pub open spec fn spec_size(self) -> nat {
        1 + opcode::operand_width(opt_arg_kind(self.arg))
    }

    pub fn repr(&self) -> (r: u8)
        ensures
            r == self.opcode,
    {
        self.opcode
    }

    pub fn size_bytes(&self) -> (r: usize)
        ensures
            r == self.spec_size(),
    {
        match &self.arg {
            Some(a) => 1 + a.size_bytes(),
            None => 1,
        }
    }
}

/// An operand after resolution, ready to encode.
#[derive(PartialEq, Eq, Structural, Debug, Clone, Copy)]
pub enum RawArg {
    Register(u8),
    Num(u32),
}

pub open spec fn raw_arg_kind(a: RawArg) -> OperandKind {
    match a {
        RawArg::Register(_) => OperandKind::Register,
        RawArg::Num(_) => OperandKind::Num,
    }
}

pub open spec fn opt_raw_arg_kind(a: Option<RawArg>) -> Option<OperandKind> {
    match a {
        Some(a) => Some(raw_arg_kind(a)),
        None => None,
    }
}

/// The bytes of an encoded operand.
pub open spec fn raw_arg_bytes(a: RawArg) -> Seq<u8> {
    match a {
        RawArg::Register(r) => seq![r],
        RawArg::Num(n) => le_bytes_u32(n),
    }
}

/// The value a source operand resolves to, given the label table and the
/// final code size; `None` when it names an unknown label.
pub open spec fn arg_value(labels: Seq<Label>, code_size: nat, a: ArgType) -> Option<i32> {
    match a {
        ArgType::AbsLabelRef(l) => match find_label(labels, l@) {
            Some(p) => Some((p + CODE_START) as i32),
            None => None,
        },
        ArgType::OffLabelRef(l) => match find_label(labels, l@) {
            Some(p) => Some((code_size - p) as i32),
            None => None,
        },
        ArgType::Number(n) => Some(n),
        ArgType::Register(r) => Some(r as i32),
    }
}

/// The encoded form of a source operand.
pub open spec fn resolve_arg(labels: Seq<Label>, code_size: nat, a: ArgType) -> Option<RawArg> {
    match a {
        ArgType::Register(r) => Some(RawArg::Register(r)),
        _ => match arg_value(labels, code_size, a) {
            Some(v) => Some(RawArg::Num(v as u32)),
            None => None,
        },
    }
}

impl RawArg {
    pub fn from_arg_type(arg: &ArgType, parser: &Parser) -> (r: Result<Self, AssembleError>)
        ensures
            r is Ok <==> resolve_arg(parser.labels@, parser.op_size_bytes as nat, *arg) is Some,
            r is Ok ==> r->Ok_0 == resolve_arg(parser.labels@, parser.op_size_bytes as nat, *arg)->0,
            r is Err ==> r->Err_0.line == parser.line && unknown_label_error(r->Err_0.kind, *arg),
    {
        match arg {
            ArgType::Register(r) => Ok(RawArg::Register(*r)),
            _ => {
                let n = arg.get_numeric(parser)?;
                Ok(RawArg::Num(n as u32))
            },
        }
    }

    pub fn size_bytes(&self) -> (r: usize)
        ensures
            r == raw_arg_bytes(*self).len(),
    {
        match self {
            RawArg::Register(_) => 1,
            RawArg::Num(_) => 4,
        }
    }

    pub fn encode(&self, buffer: &mut Vec<u8>)
        ensures
            final(buffer)@ == old(buffer)@ + raw_arg_bytes(*self),
    {
        match self {
            RawArg::Register(r) => {
                buffer.push(*r);
                assert(final(buffer)@ =~= old(buffer)@ + raw_arg_bytes(*self));
            },
            RawArg::Num(n) => push_u32_le(buffer, *n),
        }
    }
}

/// An instruction ready to encode.
#[derive(PartialEq, Eq, Structural, Debug, Clone, Copy)]
pub struct RawOp {
    pub opcode: u8,
    pub arg: Option<RawArg>,
}

impl RawOp {
    /// The opcode is in the catalog and carries the operand the catalog gives it.
    pub open spec fn wf(self) -> bool {
        is_known_opcode(self.opcode) && opt_raw_arg_kind(self.arg) == operand_kind_of(self.opcode)
    }

    /// The encoded bytes: the opcode, then the operand if any.
    pub open spec fn spec_bytes(self) -> Seq<u8> {
        seq![self.opcode] + match self.arg {
            Some(a) => raw_arg_bytes(a),
            None => Seq::empty(),
        }
    }

    pub fn from_op(op: &Op, parser: &Parser) -> (r: Result<Self, AssembleError>)
        ensures
            r is Ok <==> resolve_op(parser.labels@, parser.op_size_bytes as nat, *op) is Some,
            r is Ok ==> r->Ok_0 == resolve_op(parser.labels@, parser.op_size_bytes as nat, *op)->0,
            r is Err ==> r->Err_0.line == parser.line && r->Err_0.kind is UnknownLabel,
    {
        let opcode = op.opcode;
        let arg = match &op.arg {
            Some(a) => Some(RawArg::from_arg_type(a, parser)?),
            None => None,
        };
        Ok(RawOp { opcode, arg })
    }

    pub fn encode(&self, dest: &mut Vec<u8>)
        ensures
            final(dest)@ == old(dest)@ + self.spec_bytes(),
    {
        dest.push(self.opcode);
        match &self.arg {
            Some(a) => a.encode(dest),
            None => {},
        }
        assert(final(dest)@ =~= old(dest)@ + self.spec_bytes());
    }

    pub fn size_bytes(&self) -> (r: usize)
        ensures
            r == self.spec_bytes().len(),
    {
        match &self.arg {
            Some(a) => 1 + a.size_bytes(),
            None => 1,
        }
    }
}

/// The instruction an `Op` becomes once its operand is resolved.
pub open spec fn resolve_op(labels: Seq<Label>, code_size: nat, op: Op) -> Option<RawOp> {
    match op.arg {
        None => Some(RawOp { opcode: op.opcode, arg: None }),
        Some(a) => match resolve_arg(labels, code_size, a) {
            Some(r) => Some(RawOp { opcode: op.opcode, arg: Some(r) }),
            None => None,
        },
    }
}

/// A label: a name for an offset into the code section.
#[derive(PartialEq, Debug, Clone)]
pub struct Label {
    pub name: String,
    pub position: u32,
}

/// The position of the first label called `name`.
pub open spec fn find_label(labels: Seq<Label>, name: Seq<char>) -> Option<u32>
    decreases labels.len(),
{
    if labels.len() == 0 {
        None
    } else if labels[0].name@ == name {
        Some(labels[0].position)
    } else {
        find_label(labels.drop_first(), name)
    }
}

/// The index of a label in the order of definition.
#[derive(PartialEq, Eq, Structural, Debug, Clone, Copy)]
pub struct LabelId(pub usize);

/// An element of a parsed program, in source order.
#[derive(PartialEq, Debug, Clone)]
pub enum Elem {
    Op(Op),
    /// `#ARG;`: a `const` instruction written short.
    Const(ArgType),
    Label(LabelId),
}

/// Code bytes an element takes.
pub open spec fn elem_size(e: Elem) -> nat {
    match e {
        Elem::Op(op) => op.spec_size(),
        Elem::Const(_) => 5,
        Elem::Label(_) => 0,
    }
}

/// Instructions an element stands for.
pub open spec fn elem_count(e: Elem) -> nat {
    match e {
        Elem::Label(_) => 0,
        _ => 1,
    }
}

/// An element whose instruction carries the operand the catalog asks for.
pub open spec fn elem_wf(e: Elem) -> bool {
    match e {
        Elem::Op(op) => op.wf(),
        Elem::Const(a) => arg_kind(a) == OperandKind::Num,
        Elem::Label(_) => true,
    }
}

pub open spec fn elems_size(s: Seq<Elem>) -> nat
    decreases s.len(),
{
    if s.len() == 0 {
        0
    } else {
        elems_size(s.drop_last()) + elem_size(s.last())
    }
}

pub open spec fn elems_count(s: Seq<Elem>) -> nat
    decreases s.len(),
{
    if s.len() == 0 {
        0
    } else {
        elems_count(s.drop_last()) + elem_count(s.last())
    }
}

/// The instructions an element becomes once its operand is resolved.
pub open spec fn resolve_elem(labels: Seq<Label>, code_size: nat, e: Elem) -> Option<Seq<RawOp>> {
    match e {
        Elem::Label(_) => Some(Seq::empty()),
        Elem::Op(op) => match resolve_op(labels, code_size, op) {
            Some(r) => Some(seq![r]),
            None => None,
        },
        Elem::Const(a) => match resolve_arg(labels, code_size, a) {
            Some(r) => Some(seq![RawOp { opcode: opcode::CONST, arg: Some(r) }]),
            None => None,
        },
    }
}

/// The instructions of a program, or `None` when an operand names an unknown label.
pub open spec fn resolve_elems(labels: Seq<Label>, code_size: nat, s: Seq<Elem>) -> Option<Seq<RawOp>>
    decreases s.len(),
{
    if s.len() == 0 {
        Some(Seq::empty())
    } else {
        match resolve_elems(labels, code_size, s.drop_last()) {
            None => None,
            Some(prefix) => match resolve_elem(labels, code_size, s.last()) {
                None => None,
                Some(last) => Some(prefix + last),
            },
        }
    }
}

/// The code section: the instructions' bytes one after the other.
pub open spec fn ops_bytes(ops: Seq<RawOp>) -> Seq<u8>
    decreases ops.len(),
{
    if ops.len() == 0 {
        Seq::empty()
    } else {
        ops_bytes(ops.drop_last()) + ops.last().spec_bytes()
    }
}

/// The header of a module.
pub open spec fn header_bytes(info: BytecodeInfo) -> Seq<u8> {
    magic() + le_bytes_u32(info.code_size_bytes) + le_bytes_u32(info.instruction_count) + le_bytes_u32(
        info.code_start_offset,
    )
}

/// The entry address of a program with these labels.
pub open spec fn entry_offset(labels: Seq<Label>) -> u32 {
    match find_label(labels, ENTRY_LABEL_NAME@) {
        Some(p) => (p + CODE_START) as u32,
        None => CODE_START,
    }
}

/// The header fields of a module.
#[derive(PartialEq, Eq, Structural, Debug, Clone, Copy)]
pub struct BytecodeInfo {
    pub code_size_bytes: u32,
    pub instruction_count: u32,
    pub code_start_offset: u32,
}

impl BytecodeInfo {
    pub fn total_header_size() -> (r: usize)
        ensures
            r == HEADER_SIZE,
    {
        HEADER_SIZE
    }

    pub fn total_size(&self) -> (r: u64)
        ensures
            r == self.code_size_bytes + HEADER_SIZE,
    {
        self.code_size_bytes as u64 + Self::total_header_size() as u64
    }

    /// The header bytes: magic, code size, instruction count, entry address.
    pub fn to_bytecode(&self) -> (r: Vec<u8>)
        ensures
            r@ == header_bytes(*self),
    {
        let mut buffer: Vec<u8> = Vec::new();
        buffer.push(BYTECODE_HEADER[0]);
        buffer.push(BYTECODE_HEADER[1]);
        buffer.push(BYTECODE_HEADER[2]);
        buffer.push(BYTECODE_HEADER[3]);
        assert(buffer@ =~= magic());
        push_u32_le(&mut buffer, self.code_size_bytes);
        push_u32_le(&mut buffer, self.instruction_count);
        push_u32_le(&mut buffer, self.code_start_offset);
        buffer
    }
}

/// What the assembler hands back: the module and its labels in the order in
/// which the source defines them.
pub struct ParseResult {
    pub code: Vec<u8>,
    pub labels: Vec<(String, u32)>,
}

/// A word of the source, `[word_start, word_end)`, and where the text after
/// its delimiter begins.
#[derive(PartialEq, Eq, Structural, Debug, Clone, Copy)]
pub struct ParseOutput {
    pub word_start: usize,
    pub word_end: usize,
    pub rest: usize,
}

/// The assembler's state: counts of what has been read so far, the current
/// source line, and the labels defined so far.
pub struct Parser {
    pub op_count: usize,
    pub op_size_bytes: usize,
    pub line: usize,
    pub labels: Vec<Label>,
}

/// No two labels share a name.
pub open spec fn labels_unique(labels: Seq<Label>) -> bool {
    forall|i: int, j: int| 0 <= i < j < labels.len() ==> labels[i].name@ != labels[j].name@
}

impl Parser {
    /// Label names are unique and every label lies within the code read so far.
    pub open spec fn wf(&self) -> bool {
        &&& labels_unique(self.labels@)
        &&& forall|i: int| 0 <= i < self.labels@.len() ==> self.labels@[i].position <= self.op_size_bytes
        &&& forall|i: int, j: int| 0 <= i < j < self.labels@.len() ==> self.labels@[i].position <= self.labels@[j].position
        &&& self.op_count <= self.op_size_bytes
    }

    /// The header that the parser's counts describe.
    pub open spec fn spec_info(&self) -> BytecodeInfo {
        BytecodeInfo {
            code_size_bytes: self.op_size_bytes as u32,
            instruction_count: self.op_count as u32,
            code_start_offset: entry_offset(self.labels@),
        }
    }

    pub fn new() -> (r: Self)
        ensures
            r.wf(),
            r.op_count == 0,
            r.op_size_bytes == 0,
            r.line == 0,
            r.labels@ == Seq::<Label>::empty(),
    {
        Parser { op_count: 0, op_size_bytes: 0, line: 0, labels: Vec::new() }
    }

    /// The position of the label called `name`.
    pub fn try_get_label(&self, name: &String) -> (r: Result<u32, AssembleError>)
        ensures
            r is Ok <==> find_label(self.labels@, name@) is Some,
            r is Ok ==> r->Ok_0 == find_label(self.labels@, name@)->0,
            r is Err ==> r->Err_0.line == self.line && (r->Err_0.kind matches AssembleErrorKind::UnknownLabel(n) && n@ == name@),
    {
        let mut i: usize = 0;
        assert(self.labels@.subrange(0, self.labels@.len() as int) =~= self.labels@);
        while i < self.labels.len()
            invariant
                i <= self.labels@.len(),
                find_label(self.labels@, name@) == find_label(self.labels@.subrange(i as int, self.labels@.len() as int), name@),
            decreases self.labels@.len() - i,
        {
            let ghost rest = self.labels@.subrange(i as int, self.labels@.len() as int);
            assert(rest.drop_first() =~= self.labels@.subrange(i + 1, self.labels@.len() as int));
            assert(rest[0] == self.labels@[i as int]);
            if self.labels[i].name == *name {
                return Ok(self.labels[i].position);
            }
            i = i + 1;
        }
        Err(AssembleError::new(self, AssembleErrorKind::UnknownLabel(name.clone())))
    }

    /// The absolute address of a label: its code offset plus the code's
    /// position in memory.
    pub fn get_abs_label_addr(&self, name: &String) -> (r: Result<i32, AssembleError>)
        ensures
            r is Ok <==> find_label(self.labels@, name@) is Some,
            r is Ok ==> r->Ok_0 == (find_label(self.labels@, name@)->0 + CODE_START) as i32,
            r is Err ==> r->Err_0.line == self.line && (r->Err_0.kind matches AssembleErrorKind::UnknownLabel(n) && n@ == name@),
    {
        let label = self.try_get_label(name)?;
        Ok((label as u64 + CODE_START as u64) as i32)
    }

    /// The distance in code bytes from a label to the end of the code read.
    pub fn get_off_label_addr(&self, name: &String) -> (r: Result<i32, AssembleError>)
        ensures
            r is Ok <==> find_label(self.labels@, name@) is Some,
            r is Ok ==> r->Ok_0 == (self.op_size_bytes - find_label(self.labels@, name@)->0) as i32,
            r is Err ==> r->Err_0.line == self.line && (r->Err_0.kind matches AssembleErrorKind::UnknownLabel(n) && n@ == name@),
    {
        let label = self.try_get_label(name)?;
        Ok((self.op_size_bytes as i128 - label as i128) as i32)
    }

    /// Records a label; its name must be new.
    pub fn try_push_label(&mut self, name: String, position: u32) -> (r: Result<LabelId, AssembleError>)
        ensures
            r is Ok <==> find_label(old(self).labels@, name@) is None,
            r is Ok ==> r->Ok_0 == LabelId(old(self).labels@.len() as usize)
                && final(self).labels@ == old(self).labels@.push(Label { name, position }),
            r is Err ==> final(self).labels@ == old(self).labels@ && r->Err_0.line == old(self).line
                && (r->Err_0.kind matches AssembleErrorKind::LabelAlreadyExists(n) && n@ == name@),
            final(self).op_count == old(self).op_count,
            final(self).op_size_bytes == old(self).op_size_bytes,
            final(self).line == old(self).line,
    {
        match self.try_get_label(&name) {
            Ok(_) => Err(AssembleError::new(self, AssembleErrorKind::LabelAlreadyExists(name))),
            Err(_) => {
                let id = self.labels.len();
                self.labels.push(Label { name, position });
                Ok(LabelId(id))
            },
        }
    }

    /// Resolves every operand of the program against the labels and the
    /// final code size.
    pub fn parse_ops(&self, elems: &[Elem]) -> (r: Result<Vec<RawOp>, AssembleError>)
        ensures
            r is Ok <==> resolve_elems(self.labels@, self.op_size_bytes as nat, elems@) is Some,
            r is Ok ==> r->Ok_0@ == resolve_elems(self.labels@, self.op_size_bytes as nat, elems@)->0,
            r is Err ==> r->Err_0.line == self.line && r->Err_0.kind is UnknownLabel,
    {
        let ghost labels = self.labels@;
        let ghost size = self.op_size_bytes as nat;
        let mut ops: Vec<RawOp> = Vec::new();
        let mut i: usize = 0;
        while i < elems.len()
            invariant
                i <= elems@.len(),
                labels == self.labels@,
                size == self.op_size_bytes as nat,
                resolve_elems(labels, size, elems@.subrange(0, i as int)) == Some(ops@),
            decreases elems@.len() - i,
        {
            let ghost prefix = elems@.subrange(0, i + 1);
            assert(prefix.drop_last() =~= elems@.subrange(0, i as int));
            match &elems[i] {
                Elem::Op(op) => {
                    let r = RawOp::from_op(op, self);
                    match r {
                        Ok(raw) => {
                            ops.push(raw);
                            assert(ops@ =~= resolve_elems(labels, size, prefix)->0);
                        },
                        Err(e) => {
                            proof { lemma_resolve_fails_on_prefix(labels, size, elems@, i as int + 1); }
                            return Err(e);
                        },
                    }
                },
                Elem::Label(_) => {
                    assert(ops@ =~= resolve_elems(labels, size, prefix)->0);
                },
                Elem::Const(arg) => {
                    match RawArg::from_arg_type(arg, self) {
                        Ok(raw) => {
                            ops.push(RawOp { opcode: opcode::CONST, arg: Some(raw) });
                            assert(ops@ =~= resolve_elems(labels, size, prefix)->0);
                        },
                        Err(e) => {
                            proof { lemma_resolve_fails_on_prefix(labels, size, elems@, i as int + 1); }
                            return Err(e);
                        },
                    }
                },
            }
            i = i + 1;
        }
        assert(elems@.subrange(0, elems@.len() as int) =~= elems@);
        Ok(ops)
    }

    /// The header for the program read so far.
    pub fn get_bytecode_info(&self) -> (r: BytecodeInfo)
        ensures
            r == self.spec_info(),
    {
        let entry = String::from_str(ENTRY_LABEL_NAME);
        let code_start_offset = match self.try_get_label(&entry) {
            Ok(p) => (p as u64 + CODE_START as u64) as u32,
            Err(_) => CODE_START,
        };
        BytecodeInfo {
            code_size_bytes: self.op_size_bytes as u32,
            instruction_count: self.op_count as u32,
            code_start_offset,
        }
    }

    /// The module: header, then every instruction encoded in order.
    pub fn as_bytecode(&self, ops: &[RawOp]) -> (r: Vec<u8>)
        ensures
            r@ == header_bytes(self.spec_info()) + ops_bytes(ops@),
    {
        let info = self.get_bytecode_info();
        let mut buffer = info.to_bytecode();
        let mut i: usize = 0;
        while i < ops.len()
            invariant
                i <= ops@.len(),
                buffer@ == header_bytes(self.spec_info()) + ops_bytes(ops@.subrange(0, i as int)),
            decreases ops@.len() - i,
        {
            ops[i].encode(&mut buffer);
            assert(ops@.subrange(0, i + 1).drop_last() =~= ops@.subrange(0, i as int));
            assert(buffer@ =~= header_bytes(self.spec_info()) + ops_bytes(ops@.subrange(0, i + 1)));
            i = i + 1;
        }
        assert(ops@.subrange(0, ops@.len() as int) =~= ops@);
        buffer
    }

    /// Resolves one instruction and appends its encoding.
    pub fn encode_op(&self, op: &Op, dest: &mut Vec<u8>) -> (r: Result<(), AssembleError>)
        ensures
            r is Ok <==> resolve_op(self.labels@, self.op_size_bytes as nat, *op) is Some,
            r is Ok ==> final(dest)@ == old(dest)@ + resolve_op(self.labels@, self.op_size_bytes as nat, *op)->0.spec_bytes(),
            r is Err ==> final(dest)@ == old(dest)@ && r->Err_0.line == self.line,
    {
        let raw = RawOp::from_op(op, self)?;
        raw.encode(dest);
        Ok(())
    }
}

/// Once a prefix of the program fails to resolve, so does the whole program.
proof fn lemma_resolve_fails_on_prefix(labels: Seq<Label>, size: nat, s: Seq<Elem>, k: int)
    requires
        0 <= k <= s.len(),
        resolve_elems(labels, size, s.subrange(0, k)) is None,
    ensures
        resolve_elems(labels, size, s) is None,
    decreases s.len() - k,
{
    if k < s.len() {
        assert(s.subrange(0, k + 1).drop_last() =~= s.subrange(0, k));
        lemma_resolve_fails_on_prefix(labels, size, s, k + 1);
    } else {
        assert(s.subrange(0, k) =~= s);
    }
}

/// Code bytes of the instructions, one after the other.
pub open spec fn ops_size(ops: Seq<RawOp>) -> nat
    decreases ops.len(),
{
    if ops.len() == 0 {
        0
    } else {
        ops_size(ops.drop_last()) + ops.last().spec_size()
    }
}

impl RawOp {
    /// Bytes of the encoded instruction.
    pub open spec fn spec_size(self) -> nat {
        1 + opcode::operand_width(opt_raw_arg_kind(self.arg))
    }
}

/// A module holding these instructions, entered at `entry`.
pub open spec fn module_bytes(ops: Seq<RawOp>, entry: u32) -> Seq<u8> {
    header_bytes(
        BytecodeInfo {
            code_size_bytes: ops_size(ops) as u32,
            instruction_count: ops.len() as u32,
            code_start_offset: entry,
        },
    ) + ops_bytes(ops)
}

/// What the assembler writes for a program: the module of its resolved
/// instructions, with the entry of its labels, and the label list in the
/// order of definition.
pub open spec fn assembled(res: ParseResult, ops: Seq<RawOp>, labels: Seq<Label>) -> bool {
    &&& res.code@ == module_bytes(ops, entry_offset(labels))
    &&& forall|i: int| 0 <= i < ops.len() ==> (#[trigger] ops[i]).wf()
    &&& ops_size(ops) <= u32::MAX
    &&& labels_unique(labels)
    &&& forall|i: int| 0 <= i < labels.len() ==> labels[i].position <= ops_size(ops)
    &&& forall|i: int, j: int| 0 <= i < j < labels.len() ==> labels[i].position <= labels[j].position
    &&& res.labels@.len() == labels.len()
    &&& forall|i: int| 0 <= i < labels.len() ==> (#[trigger] res.labels@[i]).0@ == labels[i].name@
        && res.labels@[i].1 == labels[i].position
}

/// Assembling the source `code` scans it into `elems`, defining `labels`,
/// resolves them into `ops`, and writes the module `res`.
pub open spec fn assembles(code: Seq<char>, elems: Seq<Elem>, ops: Seq<RawOp>, labels: Seq<Label>, res: ParseResult) -> bool {
    &&& crate::scanner::scanned(code, 0, Seq::empty(), 0, elems, crate::scanner::label_views(labels))
    &&& resolve_elems(labels, elems_size(elems), elems) == Some(ops)
    &&& assembled(res, ops, labels)
}

/// The encoding of an instruction is as long as its size says.
pub proof fn lemma_op_bytes_len(op: RawOp)
    ensures
        op.spec_bytes().len() == op.spec_size(),
{
    match op.arg {
        Some(RawArg::Num(n)) => {
            crate::bytes::lemma_le_u32_round_trip(n);
        },
        _ => {},
    }
}

/// The code section is as long as the instructions' sizes add up to.
pub proof fn lemma_ops_bytes_len(ops: Seq<RawOp>)
    ensures
        ops_bytes(ops).len() == ops_size(ops),
    decreases ops.len(),
{
    if ops.len() > 0 {
        lemma_ops_bytes_len(ops.drop_last());
        lemma_op_bytes_len(ops.last());
    }
}

/// Resolving a program of well-formed elements gives one well-formed
/// instruction per element that is no label, of the element's size.
pub proof fn lemma_resolve_shape(labels: Seq<Label>, size: nat, elems: Seq<Elem>)
    requires
        resolve_elems(labels, size, elems) is Some,
        forall|i: int| 0 <= i < elems.len() ==> elem_wf(#[trigger] elems[i]),
    ensures
        ({
            let ops = resolve_elems(labels, size, elems)->0;
            &&& ops.len() == elems_count(elems)
            &&& ops_size(ops) == elems_size(elems)
            &&& forall|i: int| 0 <= i < ops.len() ==> (#[trigger] ops[i]).wf()
        }),
    decreases elems.len(),
{
    if elems.len() > 0 {
        let prefix = elems.drop_last();
        assert forall|i: int| 0 <= i < prefix.len() implies elem_wf(#[trigger] prefix[i]) by {
            assert(prefix[i] == elems[i]);
        }
        lemma_resolve_shape(labels, size, prefix);
        let p = resolve_elems(labels, size, prefix)->0;
        let last = resolve_elem(labels, size, elems.last())->0;
        let ops = p + last;
        assert(elem_wf(elems[elems.len() - 1]));
        if last.len() == 1 {
            assert(ops.drop_last() =~= p);
        } else {
            assert(ops =~= p);
        }
        assert forall|i: int| 0 <= i < ops.len() implies (#[trigger] ops[i]).wf() by {
            if i < p.len() {
                assert(ops[i] == p[i]);
            }
        }
    }
}

impl Parser {
    /// Assembles source text into a module.
    pub fn parse(code: &str) -> (r: Result<ParseResult, AssembleError>)
        requires
            code@.len() <= MAX_SOURCE_LEN,
        ensures
            r matches Ok(res) ==> exists|elems: Seq<Elem>, ops: Seq<RawOp>, labels: Seq<Label>| #[trigger] assembles(code@, elems, ops, labels, res),
            r matches Err(e) && e.kind is UnknownLabel ==> exists|elems: Seq<Elem>, labels: Seq<Label>| #[trigger] crate::scanner::scanned(
                code@,
                0,
                Seq::empty(),
                0,
                elems,
                crate::scanner::label_views(labels),
            ) && resolve_elems(labels, elems_size(elems), elems) is None,
            crate::scanner::scannable(code@, 0, Seq::empty(), 0) ==> (r is Ok || r->Err_0.kind is UnknownLabel),
            r matches Ok(res) ==> res.code@.len() >= HEADER_SIZE && res.code@.subrange(0, 4) == magic()
                && res.code@.len() <= HEADER_SIZE + 5 * code@.len(),
    {
        let mut parser = Parser::new();
        let elems = parser.parse_elems(code)?;
        let ops = match parser.parse_ops(elems.as_slice()) {
            Ok(ops) => ops,
            Err(e) => {
                assert(crate::scanner::scanned(code@, 0, Seq::empty(), 0, elems@, crate::scanner::label_views(parser.labels@)));
                return Err(e);
            },
        };
        proof {
            lemma_resolve_shape(parser.labels@, parser.op_size_bytes as nat, elems@);
        }
        let module = parser.as_bytecode(ops.as_slice());
        let mut labels: Vec<(String, u32)> = Vec::new();
        let mut i: usize = 0;
        while i < parser.labels.len()
            invariant
                i <= parser.labels@.len(),
                labels@.len() == i,
                forall|k: int| 0 <= k < i ==> (#[trigger] labels@[k]).0@ == parser.labels@[k].name@
                    && labels@[k].1 == parser.labels@[k].position,
            decreases parser.labels@.len() - i,
        {
            labels.push((parser.labels[i].name.clone(), parser.labels[i].position));
            i = i + 1;
        }
        let res = ParseResult { code: module, labels };
        assert(assembled(res, ops@, parser.labels@));
        proof {
            crate::laws::law_module_layout(res, ops@, parser.labels@);
        }
        let r: Result<ParseResult, AssembleError> = Ok(res);
        assert(r matches Ok(x) && assembles(code@, elems@, ops@, parser.labels@, x));
        r
    }
}

/// The layout of every module the assembler writes: the magic, the code
/// size, the instruction count and the entry address, then the code; the
/// whole is the header and the instructions' sizes summed.
pub proof fn lemma_module_layout(ops: Seq<RawOp>, entry: u32)
    requires
        ops_size(ops) <= u32::MAX,
        ops.len() <= ops_size(ops),
    ensures
        ({
            let m = module_bytes(ops, entry);
            &&& m.subrange(0, 4) == magic()
            &&& m.len() == HEADER_SIZE + ops_size(ops)
            &&& crate::bytes::le_u32(m.subrange(4, 8)) == ops_size(ops)
            &&& crate::bytes::le_u32(m.subrange(8, 12)) == ops.len()
            &&& crate::bytes::le_u32(m.subrange(12, 16)) == entry
            &&& m.subrange(HEADER_SIZE as int, m.len() as int) == ops_bytes(ops)
        }),
{
    let m = module_bytes(ops, entry);
    let size = ops_size(ops) as u32;
    let count = ops.len() as u32;
    crate::bytes::lemma_le_u32_round_trip(size);
    crate::bytes::lemma_le_u32_round_trip(count);
    crate::bytes::lemma_le_u32_round_trip(entry);
    lemma_ops_bytes_len(ops);
    assert(m.subrange(0, 4) =~= magic());
    assert(m.subrange(4, 8) =~= le_bytes_u32(size));
    assert(m.subrange(8, 12) =~= le_bytes_u32(count));
    assert(m.subrange(12, 16) =~= le_bytes_u32(entry));
    assert(m.subrange(HEADER_SIZE as int, m.len() as int) =~= ops_bytes(ops));
}

} // verus!
