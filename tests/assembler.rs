use malu_vm::assembler::{
    ArgType, AssembleErrorKind, Elem, Op, Parser, RawArg, RawOp, BYTECODE_HEADER, CODE_START,
};
use malu_vm::decode::{decode_with_offsets, try_parse_ops_from_bytecode, MaybeRawOp};
use malu_vm::number::IntErrorKind;
use malu_vm::opcode;
use malu_vm::source::Source;

fn raw_ops(code: &str) -> Vec<RawOp> {
    let mut parser = Parser::new();
    let elems = parser.parse_elems(code).unwrap();
    parser.parse_ops(&elems).unwrap()
}

fn error_kind(code: &str) -> AssembleErrorKind {
    match Parser::parse(code) {
        Ok(_) => panic!("expected an error"),
        Err(e) => e.kind,
    }
}

#[test]
fn asm_parse_number() {
    let s = Parser::new();

    assert_eq!(s.parse_i32("0xFA").unwrap(), 250);
    assert_eq!(s.parse_i32("0x-7D0").unwrap(), -2000);
    assert_eq!(s.parse_i32("500").unwrap(), 500);
    assert_eq!(s.parse_i32("+9876").unwrap(), 9876);
}

#[test]
fn asm_parse_single_op() {
    let s = Parser::new();
    let nop = Source::new("nop;");
    assert_eq!(s.parse_op(&nop, 0).unwrap().0, Op { opcode: opcode::NOP, arg: None });
    let get = Source::new("local_get 5;");
    assert_eq!(
        s.parse_op(&get, 0).unwrap().0,
        Op { opcode: opcode::LOCAL_GET, arg: Some(ArgType::Register(5)) }
    );
    let set = Source::new("local_set 0xA;");
    assert_eq!(
        s.parse_op(&set, 0).unwrap().0,
        Op { opcode: opcode::LOCAL_SET, arg: Some(ArgType::Register(10)) }
    );
}

#[test]
fn asm_parse_multiple() {
    let code = "
            nop;


                    local_get 5; local_set 0xA;
            nop;
        ";
    assert_eq!(
        raw_ops(code),
        vec![
            RawOp { opcode: opcode::NOP, arg: None },
            RawOp { opcode: opcode::LOCAL_GET, arg: Some(RawArg::Register(5)) },
            RawOp { opcode: opcode::LOCAL_SET, arg: Some(RawArg::Register(0xA)) },
            RawOp { opcode: opcode::NOP, arg: None },
        ]
    );
}

#[test]
fn parse_with_labels() {
    let code = "
            :blub:
            nop;
            nop;
            nop;

            :label:
            const @label;
            #@blub; #.label;
            #100;
        ";
    let mut parser = Parser::new();
    let elems = parser.parse_elems(code).unwrap();
    let ops: Vec<Elem> = elems.into_iter().filter(|e| !matches!(e, Elem::Label(_))).collect();
    assert_eq!(
        ops,
        vec![
            Elem::Op(Op { opcode: opcode::NOP, arg: None }),
            Elem::Op(Op { opcode: opcode::NOP, arg: None }),
            Elem::Op(Op { opcode: opcode::NOP, arg: None }),
            Elem::Op(Op { opcode: opcode::CONST, arg: Some(ArgType::AbsLabelRef("label".to_string())) }),
            Elem::Const(ArgType::AbsLabelRef("blub".to_string())),
            Elem::Const(ArgType::OffLabelRef("label".to_string())),
            Elem::Const(ArgType::Number(100)),
        ]
    );
}

#[test]
fn asm_test_bytecode() {
    let code = "
            nop;
            nop;
            const 5;
            add;
        ";
    let mut parser = Parser::new();

    let elems = parser.parse_elems(code).unwrap();
    let ops = parser.parse_ops(&elems).unwrap();

    let buffer = parser.as_bytecode(&ops);

    assert_eq!(&buffer[0..4], &[b'm', b'a', b'l', b'u']);

    let size_bytes = u32::from_le_bytes(buffer[4..8].try_into().unwrap());
    let op_count = u32::from_le_bytes(buffer[8..12].try_into().unwrap());
    let expected_size = ops.iter().fold(0, |acc, op| acc + op.size_bytes() as u32);

    assert_eq!(op_count, 4);
    assert_eq!(size_bytes, expected_size);
}

#[test]
fn labels_resolve_to_addresses_and_offsets() {
    let ops = raw_ops(":blub: nop; nop; nop; :label: const @label; #@blub; #.label; #100;");
    assert_eq!(ops[3], RawOp { opcode: opcode::CONST, arg: Some(RawArg::Num(3 + CODE_START)) });
    assert_eq!(ops[4], RawOp { opcode: opcode::CONST, arg: Some(RawArg::Num(CODE_START)) });
    // 3 one-byte instructions and 4 constants: 23 code bytes, the label at 3.
    assert_eq!(ops[5], RawOp { opcode: opcode::CONST, arg: Some(RawArg::Num(20)) });
    assert_eq!(ops[6], RawOp { opcode: opcode::CONST, arg: Some(RawArg::Num(100)) });
}

#[test]
fn module_layout_of_assembled_source() {
    let res = Parser::parse("#1; #1; add; local_get 3; end;").unwrap();
    let code = res.code;
    assert_eq!(&code[0..4], &BYTECODE_HEADER);
    // 5 + 5 + 1 + 2 + 1 code bytes after a 16-byte header
    assert_eq!(code.len(), 16 + 14);
    assert_eq!(u32::from_le_bytes(code[4..8].try_into().unwrap()), 14);
    assert_eq!(u32::from_le_bytes(code[8..12].try_into().unwrap()), 5);
    assert_eq!(u32::from_le_bytes(code[12..16].try_into().unwrap()), CODE_START);
}

#[test]
fn entry_label_sets_the_entry_address() {
    let res = Parser::parse("nop; nop; :__ENTRY__: end;").unwrap();
    assert_eq!(u32::from_le_bytes(res.code[12..16].try_into().unwrap()), CODE_START + 2);
    assert_eq!(res.labels, vec![("__ENTRY__".to_string(), 2)]);
}

#[test]
fn labels_listed_in_definition_order() {
    let res = Parser::parse(":a: nop; :b: #1; :c: end;").unwrap();
    assert_eq!(res.labels, vec![("a".to_string(), 0), ("b".to_string(), 1), ("c".to_string(), 6)]);
}

#[test]
fn decoder_yields_every_assembled_instruction() {
    let res = Parser::parse("#7; global_set 2; load_16_s 4; xor; syscall; end;").unwrap();
    let decoded = try_parse_ops_from_bytecode(&res.code[16..]);
    let count = u32::from_le_bytes(res.code[8..12].try_into().unwrap());
    assert_eq!(decoded.len() as u32, count);
    assert_eq!(
        decoded,
        vec![
            MaybeRawOp::Op(RawOp { opcode: opcode::CONST, arg: Some(RawArg::Num(7)) }),
            MaybeRawOp::Op(RawOp { opcode: opcode::GLOBAL_SET, arg: Some(RawArg::Register(2)) }),
            MaybeRawOp::Op(RawOp { opcode: opcode::LOAD_16_S, arg: Some(RawArg::Num(4)) }),
            MaybeRawOp::Op(RawOp { opcode: opcode::XOR, arg: None }),
            MaybeRawOp::Op(RawOp { opcode: opcode::SYSCALL, arg: None }),
            MaybeRawOp::Op(RawOp { opcode: opcode::END, arg: None }),
        ]
    );
}

#[test]
fn decoder_tolerates_unknown_bytes_and_stops_at_cut_operand() {
    let decoded = try_parse_ops_from_bytecode(&[0x0d, 0x01, 0xff, 0x04, 0x01, 0x02]);
    assert_eq!(
        decoded,
        vec![
            MaybeRawOp::Unknown(0x0d),
            MaybeRawOp::Op(RawOp { opcode: opcode::NOP, arg: None }),
            MaybeRawOp::Unknown(0xff),
        ]
    );
}

#[test]
fn decoder_reads_little_endian_operands() {
    let decoded = try_parse_ops_from_bytecode(&[0x04, 0x78, 0x56, 0x34, 0x12]);
    assert_eq!(decoded, vec![MaybeRawOp::Op(RawOp { opcode: opcode::CONST, arg: Some(RawArg::Num(0x1234_5678)) })]);
}

#[test]
fn negative_constant_encodes_as_twos_complement() {
    let ops = raw_ops("#-1; #0b101; #0x-10;");
    assert_eq!(ops[0].arg, Some(RawArg::Num(0xffff_ffff)));
    assert_eq!(ops[1].arg, Some(RawArg::Num(5)));
    assert_eq!(ops[2].arg, Some(RawArg::Num((-16i32) as u32)));
}

#[test]
fn extend_mnemonics_map_to_their_own_opcodes() {
    let ops = raw_ops("extend_8_32_s; extend_16_32_s; extend_8_32_u; extend_16_32_u;");
    let codes: Vec<u8> = ops.iter().map(|o| o.opcode).collect();
    assert_eq!(codes, vec![0x2c, 0x2d, 0x2e, 0x2f]);
}

#[test]
fn register_255_is_accepted() {
    let ops = raw_ops("local_get 255;");
    assert_eq!(ops[0].arg, Some(RawArg::Register(255)));
}

#[test]
fn error_missing_delimiter() {
    assert!(matches!(error_kind("nop"), AssembleErrorKind::MissingDelimiter));
    assert!(matches!(error_kind(":label"), AssembleErrorKind::MissingDelimiter));
}

#[test]
fn error_unknown_operation() {
    assert!(matches!(error_kind("fly;"), AssembleErrorKind::UnknownOperation));
}

#[test]
fn error_unable_to_parse_int() {
    assert!(matches!(error_kind("#12z;"), AssembleErrorKind::UnableToParseInt(IntErrorKind::InvalidDigit)));
    assert!(matches!(error_kind("#0x;"), AssembleErrorKind::UnableToParseInt(IntErrorKind::Empty)));
    assert!(matches!(error_kind("#3000000000;"), AssembleErrorKind::UnableToParseInt(IntErrorKind::PosOverflow)));
    assert!(matches!(error_kind("#-3000000000;"), AssembleErrorKind::UnableToParseInt(IntErrorKind::NegOverflow)));
}

#[test]
fn error_missing_argument() {
    assert!(matches!(error_kind("local_get;"), AssembleErrorKind::MissingArgument));
    assert!(matches!(error_kind("#;"), AssembleErrorKind::MissingArgument));
}

#[test]
fn error_too_many_arguments() {
    assert!(matches!(error_kind("add 1;"), AssembleErrorKind::TooManyArguments));
    assert!(matches!(error_kind("const 1 2;"), AssembleErrorKind::TooManyArguments));
}

#[test]
fn error_unknown_label() {
    match error_kind("#@nowhere;") {
        AssembleErrorKind::UnknownLabel(n) => assert_eq!(n, "nowhere"),
        _ => panic!("expected UnknownLabel"),
    }
}

#[test]
fn error_label_already_exists() {
    match error_kind(":a: nop; :a: nop;") {
        AssembleErrorKind::LabelAlreadyExists(n) => assert_eq!(n, "a"),
        _ => panic!("expected LabelAlreadyExists"),
    }
}

#[test]
fn error_register_checks() {
    assert!(matches!(error_kind("local_get 256;"), AssembleErrorKind::UnexpectedRegisterId(256)));
    assert!(matches!(error_kind("local_get @x;"), AssembleErrorKind::UnexpectedImmArgSize));
}

#[test]
fn error_reports_line() {
    match Parser::parse("nop;\nnop;\nfly;") {
        Err(e) => assert_eq!(e.line, 2),
        Ok(_) => panic!("expected an error"),
    }
}

#[test]
fn decode_with_offsets_gives_addresses() {
    let res = Parser::parse("#7; local_get 1; nop; end;").unwrap();
    let items = decode_with_offsets(&res.code[16..], CODE_START);
    let offsets: Vec<u32> = items.iter().map(|(_, o)| *o).collect();
    assert_eq!(offsets, vec![12, 17, 19, 20]);
    assert_eq!(items[1].0, MaybeRawOp::Op(RawOp { opcode: opcode::LOCAL_GET, arg: Some(RawArg::Register(1)) }));
    let unknown = decode_with_offsets(&[0xee, 0x01], 100);
    assert_eq!(unknown, vec![(MaybeRawOp::Unknown(0xee), 100), (MaybeRawOp::Op(RawOp { opcode: opcode::NOP, arg: None }), 101)]);
}
