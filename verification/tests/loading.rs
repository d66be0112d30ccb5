use syx::errors::{Check, ErrorKind, LoadError};
use syx::object::{LocVar, Proto, SyxValue, Upvalue};
use syx::opcodes::Instruction;
use syx::undump::LoadState;

fn header() -> Vec<u8> {
    let mut v = vec![0x1b, b'L', b'u', b'a', 0x53, 0x00];
    v.extend_from_slice(&[0x19, 0x93, 0x0d, 0x0a, 0x1a, 0x0a]);
    v.extend_from_slice(&[4, 8, 4, 8, 8]);
    v.extend_from_slice(&0x5678i64.to_le_bytes());
    v.extend_from_slice(&370.5f64.to_le_bytes());
    v
}

fn int32(v: i32) -> Vec<u8> {
    v.to_le_bytes().to_vec()
}

fn short_string(content: &[u8]) -> Vec<u8> {
    assert!(content.len() < 0xfe);
    let mut v = vec![(content.len() + 1) as u8];
    v.extend_from_slice(content);
    v
}

fn long_string(content: &[u8]) -> Vec<u8> {
    let mut v = vec![0xff];
    v.extend_from_slice(&((content.len() + 1) as u64).to_le_bytes());
    v.extend_from_slice(content);
    v
}

/// The parts of a function block, each already encoded.
struct Block {
    name: Vec<u8>,
    lines: (i32, i32),
    numparams: u8,
    vararg: u8,
    maxstack: u8,
    code: Vec<u8>,
    constants: Vec<u8>,
    upvalues: Vec<u8>,
    protos: Vec<u8>,
    lineinfo: Vec<u8>,
    locvars: Vec<u8>,
    names: Vec<u8>,
}

fn empty_block() -> Block {
    Block {
        name: vec![0],
        lines: (0, 0),
        numparams: 0,
        vararg: 0,
        maxstack: 0,
        code: int32(0),
        constants: int32(0),
        upvalues: int32(0),
        protos: int32(0),
        lineinfo: int32(0),
        locvars: int32(0),
        names: int32(0),
    }
}

fn encode(b: &Block) -> Vec<u8> {
    let mut v = b.name.clone();
    v.extend_from_slice(&int32(b.lines.0));
    v.extend_from_slice(&int32(b.lines.1));
    v.push(b.numparams);
    v.push(b.vararg);
    v.push(b.maxstack);
    v.extend_from_slice(&b.code);
    v.extend_from_slice(&b.constants);
    v.extend_from_slice(&b.upvalues);
    v.extend_from_slice(&b.protos);
    v.extend_from_slice(&b.lineinfo);
    v.extend_from_slice(&b.locvars);
    v.extend_from_slice(&b.names);
    v
}

fn dump_of(b: &Block) -> Vec<u8> {
    let mut v = header();
    v.push(1);
    v.extend_from_slice(&encode(b));
    v
}

fn load(bytes: Vec<u8>) -> Result<Proto, LoadError> {
    LoadState::from_u8(bytes, String::from("chunk"))
}

fn kind_of(r: Result<Proto, LoadError>) -> ErrorKind {
    match r {
        Ok(_) => panic!("the dump was accepted"),
        Err(e) => {
            assert_eq!(e.name, "chunk");
            e.kind
        }
    }
}

/// A dump with something in every part of its root function.
fn rich_block() -> Block {
    let mut b = empty_block();
    b.name = short_string(b"@main.lua");
    b.lines = (3, 17);
    b.numparams = 2;
    b.vararg = 1;
    b.maxstack = 9;
    // opcode 6, a = 1, c = 2, b = 3; then opcode 38 with all operands zero
    let first: u32 = 6 | (1 << 6) | (2 << 14) | (3 << 23);
    b.code = int32(2);
    b.code.extend_from_slice(&first.to_le_bytes());
    b.code.extend_from_slice(&38u32.to_le_bytes());
    b.constants = int32(6);
    b.constants.push(0);
    b.constants.extend_from_slice(&[1, 1]);
    b.constants.extend_from_slice(&[1, 2]);
    b.constants.push(3);
    b.constants.extend_from_slice(&(-1.5f64).to_le_bytes());
    b.constants.push(19);
    b.constants.extend_from_slice(&(-42i64).to_le_bytes());
    b.constants.push(4);
    b.constants.extend_from_slice(&short_string(b"hi"));
    b.upvalues = int32(2);
    b.upvalues.extend_from_slice(&[1, 0, 0, 5]);
    let mut child = empty_block();
    child.lines = (5, 6);
    b.protos = int32(1);
    b.protos.extend_from_slice(&encode(&child));
    b.lineinfo = int32(2);
    b.lineinfo.extend_from_slice(&int32(3));
    b.lineinfo.extend_from_slice(&int32(-4));
    b.locvars = int32(1);
    b.locvars.extend_from_slice(&short_string(b"x"));
    b.locvars.extend_from_slice(&int32(0));
    b.locvars.extend_from_slice(&int32(2));
    b.names = int32(2);
    b.names.extend_from_slice(&short_string(b"_ENV"));
    b.names.extend_from_slice(&short_string(b"up"));
    b
}

#[test]
fn minimal_dump_gives_empty_prototype() {
    let proto = load(dump_of(&empty_block())).unwrap();
    assert_eq!(proto.source, "");
    assert_eq!(proto.linedefined, 0);
    assert_eq!(proto.lastlinedefined, 0);
    assert_eq!(proto.numparams, 0);
    assert!(!proto.is_vararg);
    assert_eq!(proto.maxstacksize, 0);
    assert!(proto.instructions.is_empty());
    assert!(proto.constants.is_empty());
    assert!(proto.upvalues.is_empty());
    assert!(proto.protos.is_empty());
    assert!(proto.lineinfo.is_empty());
    assert!(proto.locvars.is_empty());
}

#[test]
fn minimal_dump_has_the_expected_length() {
    assert_eq!(header().len(), 33);
    assert_eq!(dump_of(&empty_block()).len(), 33 + 1 + 12 + 7 * 4);
}

#[test]
fn nested_function_without_name_inherits_the_root_name() {
    let mut root = empty_block();
    root.name = short_string(b"@outer.lua");
    root.protos = int32(1);
    root.protos.extend_from_slice(&encode(&empty_block()));
    let proto = load(dump_of(&root)).unwrap();
    assert_eq!(proto.source, "@outer.lua");
    assert_eq!(proto.protos.len(), 1);
    assert_eq!(proto.protos[0].source, "@outer.lua");
}

#[test]
fn nested_function_with_name_keeps_its_own() {
    let mut inner = empty_block();
    inner.name = short_string(b"@inner.lua");
    let mut innermost = empty_block();
    innermost.lines = (7, 8);
    inner.protos = int32(1);
    inner.protos.extend_from_slice(&encode(&innermost));
    let mut root = empty_block();
    root.name = short_string(b"@outer.lua");
    root.protos = int32(2);
    root.protos.extend_from_slice(&encode(&inner));
    root.protos.extend_from_slice(&encode(&empty_block()));
    let proto = load(dump_of(&root)).unwrap();
    assert_eq!(proto.protos.len(), 2);
    assert_eq!(proto.protos[0].source, "@inner.lua");
    assert_eq!(proto.protos[0].protos[0].source, "@inner.lua");
    assert_eq!(proto.protos[0].protos[0].linedefined, 7);
    assert_eq!(proto.protos[1].source, "@outer.lua");
}

#[test]
fn every_part_of_a_function_is_decoded() {
    let proto = load(dump_of(&rich_block())).unwrap();
    assert_eq!(proto.source, "@main.lua");
    assert_eq!(proto.linedefined, 3);
    assert_eq!(proto.lastlinedefined, 17);
    assert_eq!(proto.numparams, 2);
    assert!(proto.is_vararg);
    assert_eq!(proto.maxstacksize, 9);
    assert_eq!(
        proto.instructions,
        vec![
            Instruction { opcode: 6, a: 1, b: 3, c: 2 },
            Instruction { opcode: 38, a: 0, b: 0, c: 0 },
        ]
    );
    assert_eq!(
        proto.constants,
        vec![
            SyxValue::Nil,
            SyxValue::Bool(true),
            SyxValue::Bool(false),
            SyxValue::Number((-1.5f64).to_bits()),
            SyxValue::Integer(-42),
            SyxValue::String(b"hi".to_vec()),
        ]
    );
    assert_eq!(
        proto.upvalues,
        vec![
            Upvalue { name: b"_ENV".to_vec(), instack: 1, idx: 0 },
            Upvalue { name: b"up".to_vec(), instack: 0, idx: 5 },
        ]
    );
    assert_eq!(proto.protos.len(), 1);
    assert_eq!(proto.protos[0].source, "@main.lua");
    assert_eq!(proto.protos[0].linedefined, 5);
    assert_eq!(proto.protos[0].lastlinedefined, 6);
    assert_eq!(proto.lineinfo, vec![3, -4]);
    assert_eq!(
        proto.locvars,
        vec![LocVar { varname: b"x".to_vec(), startpc: 0, endpc: 2 }]
    );
}

#[test]
fn float_constant_keeps_its_bits() {
    let mut b = empty_block();
    b.constants = int32(1);
    b.constants.push(3);
    b.constants.extend_from_slice(&370.5f64.to_le_bytes());
    let proto = load(dump_of(&b)).unwrap();
    assert_eq!(proto.constants, vec![SyxValue::Number(0x4077_2800_0000_0000)]);
    match proto.constants[0] {
        SyxValue::Number(bits) => assert_eq!(f64::from_bits(bits), 370.5),
        _ => panic!("not a number"),
    }
}

#[test]
fn decoding_twice_gives_equal_trees() {
    let bytes = dump_of(&rich_block());
    let first = load(bytes.clone());
    let second = load(bytes);
    assert!(first.is_ok());
    assert_eq!(first, second);
}

#[test]
fn every_proper_prefix_is_truncated() {
    let bytes = dump_of(&rich_block());
    assert!(load(bytes.clone()).is_ok());
    for cut in 0..bytes.len() {
        assert_eq!(kind_of(load(bytes[..cut].to_vec())), ErrorKind::TruncatedInput);
    }
}

#[test]
fn any_extra_byte_is_trailing_data() {
    let bytes = dump_of(&rich_block());
    for extra in [0u8, 1, 0x1b, 0xff] {
        let mut longer = bytes.clone();
        longer.push(extra);
        assert_eq!(kind_of(load(longer)), ErrorKind::TrailingData);
    }
    let mut longer = bytes.clone();
    longer.extend_from_slice(&bytes);
    assert_eq!(kind_of(load(longer)), ErrorKind::TrailingData);
}

#[test]
fn string_of_size_zero_is_empty() {
    let mut state = LoadState::new(vec![0, 7], String::from("s"));
    assert_eq!(state.load_string().unwrap(), Vec::<u8>::new());
    // one byte was taken
    assert_eq!(state.load::<u8>().unwrap(), 7);
}

#[test]
fn long_string_of_size_zero_is_empty() {
    let mut bytes = vec![0xff];
    bytes.extend_from_slice(&0u64.to_le_bytes());
    bytes.push(7);
    let mut state = LoadState::new(bytes, String::from("s"));
    assert_eq!(state.load_string().unwrap(), Vec::<u8>::new());
    assert_eq!(state.load::<u8>().unwrap(), 7);
}

#[test]
fn string_of_size_one_is_empty_too() {
    let mut state = LoadState::new(vec![1, 7], String::from("s"));
    assert_eq!(state.load_string().unwrap(), Vec::<u8>::new());
    assert_eq!(state.load::<u8>().unwrap(), 7);
}

#[test]
fn local_variable_without_name_is_accepted() {
    let mut b = empty_block();
    b.locvars = int32(1);
    b.locvars.push(0);
    b.locvars.extend_from_slice(&int32(1));
    b.locvars.extend_from_slice(&int32(2));
    let proto = load(dump_of(&b)).unwrap();
    assert_eq!(proto.locvars, vec![LocVar { varname: vec![], startpc: 1, endpc: 2 }]);
}

#[test]
fn short_and_long_size_give_the_same_content() {
    let content: Vec<u8> = (0..253u32).map(|i| (i % 251) as u8).collect();
    // the largest size that fits the short form
    let mut short = vec![0xfe];
    short.extend_from_slice(&content);
    let mut state = LoadState::new(short, String::from("s"));
    let from_short = state.load_string().unwrap();
    let mut state = LoadState::new(long_string(&content), String::from("s"));
    let from_long = state.load_string().unwrap();
    assert_eq!(from_short.len(), 253);
    assert_eq!(from_short, content);
    assert_eq!(from_long, content);
}

#[test]
fn smallest_size_that_needs_the_long_form() {
    let content: Vec<u8> = (0..254u32).map(|i| (i % 7) as u8).collect();
    let encoded = long_string(&content);
    assert_eq!(encoded[..9], [0xff, 0xff, 0, 0, 0, 0, 0, 0, 0]);
    let mut state = LoadState::new(encoded, String::from("s"));
    assert_eq!(state.load_string().unwrap(), content);
}

#[test]
fn string_constant_at_the_size_boundary() {
    let content: Vec<u8> = (0..253u32).map(|i| b'a' + (i % 26) as u8).collect();
    let mut short = empty_block();
    short.constants = int32(1);
    short.constants.push(4);
    short.constants.push(0xfe);
    short.constants.extend_from_slice(&content);
    let mut long = empty_block();
    long.constants = int32(1);
    long.constants.push(20);
    long.constants.extend_from_slice(&long_string(&content));
    let a = load(dump_of(&short)).unwrap();
    let b = load(dump_of(&long)).unwrap();
    assert_eq!(a.constants, vec![SyxValue::String(content)]);
    assert_eq!(a.constants, b.constants);
}

#[test]
fn string_longer_than_the_input_is_truncated() {
    let mut state = LoadState::new(vec![5, b'a', b'b', b'c'], String::from("s"));
    let e = state.load_string().unwrap_err();
    assert_eq!(e.kind, ErrorKind::TruncatedInput);
    assert_eq!(e.name, "s");
    let mut bytes = vec![0xff];
    bytes.extend_from_slice(&u64::MAX.to_le_bytes());
    bytes.push(b'a');
    let mut state = LoadState::new(bytes, String::from("s"));
    assert_eq!(state.load_string().unwrap_err().kind, ErrorKind::TruncatedInput);
}

#[test]
fn unknown_constant_tag_is_refused() {
    for tag in [2u8, 5, 6, 18, 21, 35, 0xff] {
        let mut b = empty_block();
        b.constants = int32(1);
        b.constants.push(tag);
        assert_eq!(kind_of(load(dump_of(&b))), ErrorKind::InvalidConstantType(tag));
    }
}

#[test]
fn name_for_a_missing_upvalue_is_refused() {
    let mut b = empty_block();
    b.upvalues = int32(1);
    b.upvalues.extend_from_slice(&[1, 0]);
    b.names = int32(2);
    b.names.extend_from_slice(&short_string(b"a"));
    b.names.extend_from_slice(&short_string(b"b"));
    assert_eq!(kind_of(load(dump_of(&b))), ErrorKind::InvalidUpvalueIndex(1));
    let mut b = empty_block();
    b.names = int32(1);
    b.names.extend_from_slice(&short_string(b"a"));
    assert_eq!(kind_of(load(dump_of(&b))), ErrorKind::InvalidUpvalueIndex(0));
}

#[test]
fn fewer_names_than_upvalues_leave_the_rest_unnamed() {
    let mut b = empty_block();
    b.upvalues = int32(2);
    b.upvalues.extend_from_slice(&[1, 0, 0, 1]);
    b.names = int32(1);
    b.names.extend_from_slice(&short_string(b"a"));
    let proto = load(dump_of(&b)).unwrap();
    assert_eq!(
        proto.upvalues,
        vec![
            Upvalue { name: b"a".to_vec(), instack: 1, idx: 0 },
            Upvalue { name: vec![], instack: 0, idx: 1 },
        ]
    );
}

#[test]
fn swapped_integer_canary_is_an_endianness_error() {
    let mut bytes = dump_of(&empty_block());
    bytes[17..25].copy_from_slice(&0x5678i64.to_be_bytes());
    assert_eq!(
        kind_of(load(bytes)),
        ErrorKind::InvalidVerification(Check::Endianness)
    );
}

#[test]
fn each_header_check_names_itself() {
    let expected = [
        (0, Check::Header),
        (3, Check::Header),
        (4, Check::Version),
        (5, Check::Format),
        (6, Check::LoadOrder),
        (11, Check::LoadOrder),
        (12, Check::SizeInt),
        (13, Check::SizeSize),
        (14, Check::SizeInstruction),
        (15, Check::SizeInteger),
        (16, Check::SizeNumber),
        (17, Check::Endianness),
        (24, Check::Endianness),
        (25, Check::FloatFormat),
        (32, Check::FloatFormat),
    ];
    for (at, check) in expected {
        let mut bytes = dump_of(&empty_block());
        bytes[at] ^= 0x40;
        assert_eq!(kind_of(load(bytes)), ErrorKind::InvalidVerification(check));
    }
}

#[test]
fn first_failing_check_wins() {
    let mut bytes = dump_of(&empty_block());
    bytes[4] = 0x54;
    bytes[13] = 4;
    assert_eq!(
        kind_of(load(bytes)),
        ErrorKind::InvalidVerification(Check::Version)
    );
}

#[test]
fn byte_before_the_root_function_is_passed_over() {
    for upvalues in [0u8, 1, 0xff] {
        let mut bytes = dump_of(&empty_block());
        bytes[33] = upvalues;
        assert!(load(bytes).is_ok());
    }
}

#[test]
fn unknown_operation_code_is_refused() {
    let mut b = empty_block();
    b.code = int32(1);
    b.code.extend_from_slice(&47u32.to_le_bytes());
    assert_eq!(kind_of(load(dump_of(&b))), ErrorKind::InvalidInstruction(47));
    let mut b = empty_block();
    b.code = int32(1);
    b.code.extend_from_slice(&0xffff_ffffu32.to_le_bytes());
    assert_eq!(
        kind_of(load(dump_of(&b))),
        ErrorKind::InvalidInstruction(0xffff_ffff)
    );
}

#[test]
fn last_operation_code_is_accepted() {
    let mut b = empty_block();
    b.code = int32(1);
    b.code.extend_from_slice(&0xffff_ffeeu32.to_le_bytes());
    let proto = load(dump_of(&b)).unwrap();
    assert_eq!(
        proto.instructions,
        vec![Instruction { opcode: 46, a: 0xff, b: 0x1ff, c: 0x1ff }]
    );
}

#[test]
fn instruction_fields_of_a_word() {
    assert_eq!(
        Instruction::from_word(0x0080_4041),
        Some(Instruction { opcode: 1, a: 1, b: 1, c: 1 })
    );
    assert_eq!(Instruction::from_word(0), Some(Instruction { opcode: 0, a: 0, b: 0, c: 0 }));
    assert_eq!(Instruction::from_word(0x3f), None);
}

#[test]
fn source_name_must_be_utf8() {
    let mut b = empty_block();
    b.name = short_string(&[b'a', 0xff, b'b']);
    assert_eq!(kind_of(load(dump_of(&b))), ErrorKind::InvalidSourceName);
    let mut b = empty_block();
    b.name = short_string(&[0xc3]);
    assert_eq!(kind_of(load(dump_of(&b))), ErrorKind::InvalidSourceName);
}

#[test]
fn source_name_is_decoded_as_utf8() {
    let mut b = empty_block();
    b.name = short_string("@caf\u{e9}/\u{4e16}\u{754c}.lua".as_bytes());
    let proto = load(dump_of(&b)).unwrap();
    assert_eq!(proto.source, "@caf\u{e9}/\u{4e16}\u{754c}.lua");
    assert_eq!(proto.source.chars().count(), 12);
}

#[test]
fn string_constant_need_not_be_utf8() {
    let mut b = empty_block();
    b.constants = int32(1);
    b.constants.push(4);
    b.constants.extend_from_slice(&short_string(&[0xff, 0xfe]));
    let proto = load(dump_of(&b)).unwrap();
    assert_eq!(proto.constants, vec![SyxValue::String(vec![0xff, 0xfe])]);
}

#[test]
fn count_below_zero_stands_for_no_item() {
    let mut b = empty_block();
    b.code = int32(-1);
    b.constants = int32(i32::MIN);
    b.upvalues = int32(-2);
    b.protos = int32(-3);
    b.lineinfo = int32(-4);
    b.locvars = int32(-5);
    b.names = int32(-6);
    let proto = load(dump_of(&b)).unwrap();
    assert!(proto.instructions.is_empty());
    assert!(proto.constants.is_empty());
    assert!(proto.upvalues.is_empty());
    assert!(proto.protos.is_empty());
    assert!(proto.lineinfo.is_empty());
    assert!(proto.locvars.is_empty());
}

#[test]
fn count_larger_than_the_input_is_truncated() {
    let mut b = empty_block();
    b.code = int32(i32::MAX);
    assert_eq!(kind_of(load(dump_of(&b))), ErrorKind::TruncatedInput);
    let mut b = empty_block();
    b.protos = int32(i32::MAX);
    assert_eq!(kind_of(load(dump_of(&b))), ErrorKind::TruncatedInput);
}

#[test]
fn scalars_are_little_endian() {
    let mut state = LoadState::new(
        vec![
            0x01, 0x02, 0x03, 0x04, 0xfe, 0xff, 0xff, 0xff, 0x08, 0x07, 0x06, 0x05, 0x04, 0x03,
            0x02, 0x01, 0x00, 0x00, 0x00, 0x00, 0x00, 0x00, 0x00, 0x80, 0x2a,
        ],
        String::from("s"),
    );
    assert_eq!(state.load::<u32>().unwrap(), 0x0403_0201);
    assert_eq!(state.load::<i32>().unwrap(), -2);
    assert_eq!(state.load::<u64>().unwrap(), 0x0102_0304_0506_0708);
    assert_eq!(state.load::<i64>().unwrap(), i64::MIN);
    assert_eq!(state.load::<u8>().unwrap(), 0x2a);
    assert_eq!(state.load::<u8>().unwrap_err().kind, ErrorKind::TruncatedInput);
}

#[test]
fn short_read_takes_nothing() {
    let mut state = LoadState::new(vec![1, 2, 3], String::from("s"));
    assert_eq!(state.load_range(4).unwrap_err().kind, ErrorKind::TruncatedInput);
    assert_eq!(state.load_range(2).unwrap(), vec![1, 2]);
    assert_eq!(state.load_range(0).unwrap(), Vec::<u8>::new());
    assert_eq!(state.load_range(2).unwrap_err().kind, ErrorKind::TruncatedInput);
    assert_eq!(state.load_range(1).unwrap(), vec![3]);
}

#[test]
fn literal_and_size_checks() {
    let mut state = LoadState::new(vec![b'a', b'b', 4, 8], String::from("s"));
    assert!(state.check_literal(vec![b'a', b'b'], Check::Header).is_ok());
    assert!(state.check_size(4, Check::SizeInt).is_ok());
    let e = state.check_size(4, Check::SizeSize).unwrap_err();
    assert_eq!(e.kind, ErrorKind::InvalidVerification(Check::SizeSize));
    let mut state = LoadState::new(vec![b'a', b'c'], String::from("s"));
    let e = state.check_literal(vec![b'a', b'b'], Check::LoadOrder).unwrap_err();
    assert_eq!(e.kind, ErrorKind::InvalidVerification(Check::LoadOrder));
    let mut state = LoadState::new(vec![b'a'], String::from("s"));
    let e = state.check_literal(vec![b'a', b'b'], Check::LoadOrder).unwrap_err();
    assert_eq!(e.kind, ErrorKind::TruncatedInput);
}

#[test]
fn verification_failure_carries_check_and_name() {
    let state = LoadState::new(vec![], String::from("my dump"));
    assert!(state.assert_verification(true, Check::Format).is_ok());
    let e = state.assert_verification(false, Check::Format).unwrap_err();
    assert_eq!(e.kind, ErrorKind::InvalidVerification(Check::Format));
    assert_eq!(e.name, "my dump");
    let e = state.raise_from_verification(Check::Version).unwrap_err();
    assert_eq!(e.kind, ErrorKind::InvalidVerification(Check::Version));
    assert_eq!(e.name, "my dump");
}

#[test]
fn unreadable_source_is_reported_under_its_name() {
    let e = LoadState::from_read(None, String::from("pipe")).unwrap_err();
    assert_eq!(e.kind, ErrorKind::SourceUnreadable);
    assert_eq!(e.name, "pipe");
}

#[test]
fn readable_source_is_loaded() {
    let proto = LoadState::from_read(Some(dump_of(&rich_block())), String::from("pipe")).unwrap();
    assert_eq!(proto.source, "@main.lua");
    let e = LoadState::from_read(Some(vec![]), String::from("pipe")).unwrap_err();
    assert_eq!(e.kind, ErrorKind::TruncatedInput);
    assert_eq!(e.name, "pipe");
}

#[test]
fn empty_prototype_has_nothing_in_it() {
    let proto = Proto::new();
    assert_eq!(proto.source, "");
    assert!(proto.instructions.is_empty());
    assert!(proto.protos.is_empty());
}

#[test]
fn counts_match_the_encoded_counts() {
    let mut b = empty_block();
    b.code = int32(3);
    for word in [0u32, 1, 2] {
        b.code.extend_from_slice(&word.to_le_bytes());
    }
    b.constants = int32(2);
    b.constants.extend_from_slice(&[0, 0]);
    b.protos = int32(4);
    for _ in 0..4 {
        b.protos.extend_from_slice(&encode(&empty_block()));
    }
    let proto = load(dump_of(&b)).unwrap();
    assert_eq!(proto.instructions.len(), 3);
    assert_eq!(proto.constants.len(), 2);
    assert_eq!(proto.upvalues.len(), 0);
    assert_eq!(proto.protos.len(), 4);
}

#[test]
fn deeply_nested_functions_are_loaded() {
    let mut block = empty_block();
    block.lines = (200, 200);
    for depth in (0..200).rev() {
        let mut outer = empty_block();
        outer.lines = (depth, depth);
        outer.protos = int32(1);
        outer.protos.extend_from_slice(&encode(&block));
        block = outer;
    }
    block.name = short_string(b"@deep");
    let root = load(dump_of(&block)).unwrap();
    let mut at = &root;
    let mut depth = 0;
    while !at.protos.is_empty() {
        assert_eq!(at.linedefined, depth);
        assert_eq!(at.source, "@deep");
        at = &at.protos[0];
        depth += 1;
    }
    assert_eq!(depth, 200);
    assert_eq!(at.linedefined, 200);
}

#[test]
fn checks_describe_themselves() {
    assert_eq!(Check::Endianness.describe(), "endianness mismatch");
    assert_eq!(Check::FloatFormat.describe(), "float format mismatch");
    assert_eq!(Check::Header.describe(), "literal mismatch: header");
    assert_eq!(Check::LoadOrder.describe(), "literal mismatch: load order verification");
    assert_eq!(Check::Version.describe(), "version mismatch");
    assert_eq!(Check::Format.describe(), "format mismatch");
    assert_eq!(Check::SizeInt.describe(), "size mismatch: i32");
    assert_eq!(Check::SizeSize.describe(), "size mismatch: usize");
    assert_eq!(Check::SizeInstruction.describe(), "size mismatch: Word");
    assert_eq!(Check::SizeInteger.describe(), "size mismatch: SyxInteger");
    assert_eq!(Check::SizeNumber.describe(), "size mismatch: SyxNumber");
}

#[test]
fn wrong_float_canary_is_a_float_format_error() {
    let mut bytes = dump_of(&empty_block());
    bytes[25..33].copy_from_slice(&370.5f32.to_le_bytes().repeat(2));
    assert_eq!(
        kind_of(load(bytes)),
        ErrorKind::InvalidVerification(Check::FloatFormat)
    );
}

#[test]
fn literals_of_the_header() {
    assert_eq!(syx::conf::header_literal(), b"\x1bLua".to_vec());
    assert_eq!(syx::conf::data_literal(), b"\x19\x93\r\n\x1a\n".to_vec());
    assert_eq!(syx::conf::SYX_NUM, 370.5f64.to_bits());
    assert_eq!(syx::conf::SYX_INT, 0x5678);
}

#[test]
fn bytes_are_assembled_least_significant_first() {
    assert_eq!(syx::primitives::read_le32(&vec![0x78, 0x56, 0x34, 0x12]), 0x1234_5678);
    assert_eq!(
        syx::primitives::read_le64(&vec![0xef, 0xcd, 0xab, 0x89, 0x67, 0x45, 0x23, 0x01]),
        0x0123_4567_89ab_cdef
    );
}

#[test]
fn failed_size_check_takes_the_byte() {
    let mut state = LoadState::new(vec![5, 7], String::from("s"));
    let e = state.check_size(4, Check::SizeInt).unwrap_err();
    assert_eq!(e.kind, ErrorKind::InvalidVerification(Check::SizeInt));
    assert_eq!(state.remaining(), 1);
    assert_eq!(state.load::<u8>().unwrap(), 7);
    let mut state = LoadState::new(vec![], String::from("s"));
    let e = state.check_size(4, Check::SizeInt).unwrap_err();
    assert_eq!(e.kind, ErrorKind::TruncatedInput);
    assert_eq!(state.remaining(), 0);
}

#[test]
fn passed_size_check_takes_the_byte() {
    let mut state = LoadState::new(vec![4, 7], String::from("s"));
    assert!(state.check_size(4, Check::SizeInt).is_ok());
    assert_eq!(state.remaining(), 1);
    assert_eq!(state.load::<u8>().unwrap(), 7);
}

#[test]
fn failed_literal_check_takes_the_literal() {
    let mut state = LoadState::new(vec![b'a', b'c', 9], String::from("s"));
    let e = state.check_literal(vec![b'a', b'b'], Check::Header).unwrap_err();
    assert_eq!(e.kind, ErrorKind::InvalidVerification(Check::Header));
    assert_eq!(state.remaining(), 1);
    assert_eq!(state.load::<u8>().unwrap(), 9);
    let mut state = LoadState::new(vec![b'a'], String::from("s"));
    let e = state.check_literal(vec![b'a', b'b'], Check::Header).unwrap_err();
    assert_eq!(e.kind, ErrorKind::TruncatedInput);
    assert_eq!(state.remaining(), 1);
    assert_eq!(state.load::<u8>().unwrap(), b'a');
}

#[test]
fn failed_scalar_takes_nothing() {
    let mut state = LoadState::new(vec![1, 2, 3], String::from("s"));
    assert_eq!(state.remaining(), 3);
    assert_eq!(state.load::<u32>().unwrap_err().kind, ErrorKind::TruncatedInput);
    assert_eq!(state.remaining(), 3);
    assert_eq!(state.load_range(4).unwrap_err().kind, ErrorKind::TruncatedInput);
    assert_eq!(state.remaining(), 3);
    assert_eq!(state.load::<u8>().unwrap(), 1);
    assert_eq!(state.remaining(), 2);
}

#[test]
fn failed_string_keeps_what_it_read_of_the_size() {
    // the size says four bytes of content, two are there
    let mut state = LoadState::new(vec![5, b'a', b'b'], String::from("s"));
    assert_eq!(state.load_string().unwrap_err().kind, ErrorKind::TruncatedInput);
    assert_eq!(state.remaining(), 2);
    // the escape byte is read, the size behind it is cut short
    let mut state = LoadState::new(vec![0xff, 1, 0, 0], String::from("s"));
    assert_eq!(state.load_string().unwrap_err().kind, ErrorKind::TruncatedInput);
    assert_eq!(state.remaining(), 3);
}

#[test]
fn failed_header_stops_behind_the_failing_check() {
    let mut bytes = dump_of(&empty_block());
    let len = bytes.len();
    bytes[13] = 4;
    let mut state = LoadState::new(bytes, String::from("s"));
    let e = state.check_header().unwrap_err();
    assert_eq!(e.kind, ErrorKind::InvalidVerification(Check::SizeSize));
    assert_eq!(state.remaining(), len - 14);
    let mut bytes = dump_of(&empty_block());
    bytes[17..25].copy_from_slice(&0x5678i64.to_be_bytes());
    let mut state = LoadState::new(bytes, String::from("s"));
    let e = state.check_header().unwrap_err();
    assert_eq!(e.kind, ErrorKind::InvalidVerification(Check::Endianness));
    assert_eq!(state.remaining(), len - 25);
}

#[test]
fn failed_debug_block_keeps_the_upvalues() {
    let mut debug = int32(0);
    debug.extend_from_slice(&int32(0));
    debug.extend_from_slice(&int32(2));
    debug.extend_from_slice(&short_string(b"a"));
    debug.extend_from_slice(&short_string(b"b"));
    let mut proto = Proto::new();
    proto.source = String::from("@x");
    proto.linedefined = 3;
    proto.lineinfo = vec![9];
    proto.upvalues = vec![Upvalue { name: vec![], instack: 1, idx: 4 }];
    let mut state = LoadState::new(debug, String::from("s"));
    let e = state.load_debug(&mut proto).unwrap_err();
    assert_eq!(e.kind, ErrorKind::InvalidUpvalueIndex(1));
    // the second name was not read
    assert_eq!(state.remaining(), 2);
    assert_eq!(proto.upvalues, vec![Upvalue { name: b"a".to_vec(), instack: 1, idx: 4 }]);
    assert_eq!(proto.source, "@x");
    assert_eq!(proto.linedefined, 3);
    assert_eq!(proto.lineinfo, vec![9]);
    assert!(proto.locvars.is_empty());
}

#[test]
fn debug_block_that_fails_early_changes_nothing() {
    let mut debug = int32(2);
    debug.extend_from_slice(&int32(1));
    let mut proto = Proto::new();
    proto.lineinfo = vec![9];
    proto.upvalues = vec![Upvalue { name: b"n".to_vec(), instack: 1, idx: 4 }];
    let mut state = LoadState::new(debug, String::from("s"));
    let e = state.load_debug(&mut proto).unwrap_err();
    assert_eq!(e.kind, ErrorKind::TruncatedInput);
    assert_eq!(state.remaining(), 0);
    assert_eq!(proto.upvalues, vec![Upvalue { name: b"n".to_vec(), instack: 1, idx: 4 }]);
    assert_eq!(proto.lineinfo, vec![9]);
}

#[test]
fn debug_block_fills_lines_variables_and_names() {
    let mut debug = int32(1);
    debug.extend_from_slice(&int32(7));
    debug.extend_from_slice(&int32(0));
    debug.extend_from_slice(&int32(1));
    debug.extend_from_slice(&short_string(b"up"));
    debug.push(0xee);
    let mut proto = Proto::new();
    proto.numparams = 2;
    proto.upvalues = vec![
        Upvalue { name: vec![], instack: 1, idx: 4 },
        Upvalue { name: b"old".to_vec(), instack: 0, idx: 5 },
    ];
    let mut state = LoadState::new(debug, String::from("s"));
    assert!(state.load_debug(&mut proto).is_ok());
    assert_eq!(state.remaining(), 1);
    assert_eq!(proto.lineinfo, vec![7]);
    assert_eq!(proto.numparams, 2);
    assert_eq!(
        proto.upvalues,
        vec![
            Upvalue { name: b"up".to_vec(), instack: 1, idx: 4 },
            Upvalue { name: b"old".to_vec(), instack: 0, idx: 5 },
        ]
    );
}

#[test]
fn failed_function_leaves_the_prototype() {
    let mut block = rich_block();
    block.names = int32(3);
    for name in [b"a", b"b", b"c"] {
        block.names.extend_from_slice(&short_string(name));
    }
    let bytes = encode(&block);
    let mut proto = Proto::new();
    proto.source = String::from("@before");
    proto.linedefined = 77;
    proto.constants = vec![SyxValue::Bool(true)];
    let mut state = LoadState::new(bytes, String::from("s"));
    let e = state.load_function(&mut proto, String::new()).unwrap_err();
    assert_eq!(e.kind, ErrorKind::InvalidUpvalueIndex(2));
    // the third name was not read
    assert_eq!(state.remaining(), 2);
    assert_eq!(proto.source, "@before");
    assert_eq!(proto.linedefined, 77);
    assert_eq!(proto.constants, vec![SyxValue::Bool(true)]);
    assert!(proto.upvalues.is_empty());
    assert!(proto.instructions.is_empty());
}

#[test]
fn failed_pool_leaves_the_prototype() {
    let mut code = int32(2);
    code.extend_from_slice(&1u32.to_le_bytes());
    code.extend_from_slice(&63u32.to_le_bytes());
    code.push(0xee);
    let mut proto = Proto::new();
    proto.instructions = vec![Instruction { opcode: 9, a: 0, b: 0, c: 0 }];
    let mut state = LoadState::new(code, String::from("s"));
    let e = state.load_code(&mut proto).unwrap_err();
    assert_eq!(e.kind, ErrorKind::InvalidInstruction(63));
    // the failing word was read
    assert_eq!(state.remaining(), 1);
    assert_eq!(proto.instructions, vec![Instruction { opcode: 9, a: 0, b: 0, c: 0 }]);
    let mut constants = int32(1);
    constants.push(9);
    constants.push(0xee);
    let mut proto = Proto::new();
    proto.constants = vec![SyxValue::Nil];
    let mut state = LoadState::new(constants, String::from("s"));
    let e = state.load_constants(&mut proto).unwrap_err();
    assert_eq!(e.kind, ErrorKind::InvalidConstantType(9));
    assert_eq!(state.remaining(), 1);
    assert_eq!(proto.constants, vec![SyxValue::Nil]);
}

#[test]
fn byte_behind_the_header_changes_nothing() {
    let good = rich_block();
    let mut bad = rich_block();
    bad.constants = int32(1);
    bad.constants.push(9);
    let mut cut = dump_of(&rich_block());
    cut.truncate(60);
    for bytes in [dump_of(&good), dump_of(&bad), cut] {
        let mut with_zero = bytes.clone();
        with_zero[33] = 0;
        let mut with_other = bytes.clone();
        with_other[33] = 0xab;
        let mut a = LoadState::new(with_zero, String::from("s"));
        let mut b = LoadState::new(with_other, String::from("s"));
        let first = a.load_chunk();
        let second = b.load_chunk();
        assert_eq!(first, second);
        assert_eq!(a.remaining(), b.remaining());
    }
}

#[test]
fn chunk_stops_behind_what_it_read() {
    let mut bad = empty_block();
    bad.constants = int32(1);
    bad.constants.push(9);
    let bytes = dump_of(&bad);
    let len = bytes.len();
    let mut state = LoadState::new(bytes, String::from("s"));
    let e = state.load_chunk().unwrap_err();
    assert_eq!(e.kind, ErrorKind::InvalidConstantType(9));
    // header, passed-over byte, name, frame, empty code, count of constants, tag
    assert_eq!(state.remaining(), len - (33 + 1 + 1 + 11 + 4 + 4 + 1));
    let mut state = LoadState::new(dump_of(&rich_block()), String::from("s"));
    assert!(state.load_chunk().is_ok());
    assert_eq!(state.remaining(), 0);
}
