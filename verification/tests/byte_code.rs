use lox::byte_code::{ByteCode, JumpOffset, OpCode};
use lox::interner::StrId;

#[test]
fn test_write_read_op() {
    let mut bytes = ByteCode::default();
    bytes.write_op(OpCode::Add, 1);
    bytes.write_op(OpCode::Constant(20), 2);
    bytes.write_op(OpCode::GetGlobal(30.into()), 3);
    let (x1, s1) = bytes.read_next(0).unwrap().unwrap();
    let (x2, s2) = bytes.read_next(s1).unwrap().unwrap();
    let (x3, _) = bytes.read_next(s1 + s2).unwrap().unwrap();
    assert_eq!(
        vec![x1, x2, x3],
        vec![OpCode::Add, OpCode::Constant(20), OpCode::GetGlobal(30.into())]
    );
    assert_eq!(bytes.lines, vec![1, 2, 2, 2, 3, 3, 3])
}

#[test]
fn every_instruction_reads_back_as_written() {
    let ops = vec![
        OpCode::Constant(0x1234),
        OpCode::GetGlobal(StrId { idx: 7 }),
        OpCode::SetGlobal(StrId { idx: 65535 }),
        OpCode::SetLocal(3),
        OpCode::GetLocal(4),
        OpCode::GetUpvalue(5),
        OpCode::SetUpvalue(6),
        OpCode::Closure(8),
        OpCode::CloseUpvalue,
        OpCode::DeclareGlobal(StrId { idx: 9 }),
        OpCode::Jump(-2),
        OpCode::JumpIfFalse(300),
        OpCode::Loop(i16::MIN),
        OpCode::Call(255),
        OpCode::Ret,
        OpCode::Pop,
        OpCode::Add,
        OpCode::Multiply,
        OpCode::Subtract,
        OpCode::Divide,
        OpCode::Negate,
        OpCode::Not,
        OpCode::Print,
        OpCode::True,
        OpCode::False,
        OpCode::Nil,
        OpCode::Greater,
        OpCode::Less,
        OpCode::Equal,
        OpCode::Class(1),
        OpCode::GetProperty(2),
        OpCode::SetProperty(3),
        OpCode::Method(4),
        OpCode::Invoke(5, 6),
        OpCode::Inherit,
        OpCode::GetSuper(7),
        OpCode::SuperInvoke(8, 9),
    ];
    let mut code = ByteCode::new();
    for (i, op) in ops.iter().enumerate() {
        code.write_op(*op, i);
    }
    let mut ip = 0;
    let mut read = Vec::new();
    while let Some(r) = code.read_next(ip) {
        let (op, size) = r.unwrap();
        read.push(op);
        ip += size;
    }
    assert_eq!(read, ops);
    assert_eq!(ip, code.size());
    assert_eq!(code.code.len(), code.lines.len());
}

#[test]
fn operands_are_little_endian() {
    let mut code = ByteCode::new();
    code.write_op(OpCode::Constant(0x1234), 9);
    assert_eq!(code.code[1..], [0x34, 0x12]);
    assert_eq!(code.read_u16(1), 0x1234);
    assert_eq!(code.read_u8(0), code.code[0]);
    assert_eq!(code.line(2), 9);
}

#[test]
fn jumps_are_patched_with_the_distance() {
    let mut code = ByteCode::new();
    code.write_op(OpCode::JumpIfFalse(i16::MIN), 1);
    code.write_op(OpCode::Pop, 1);
    code.write_op(OpCode::Nil, 1);
    let offset = JumpOffset::new(0, code.size());
    assert_eq!(offset.0, 5);
    code.patch_offset(1, offset);
    let (op, _) = code.read_next(0).unwrap().unwrap();
    assert_eq!(op, OpCode::JumpIfFalse(5));
    assert_eq!(code.read_i16(1), 5);
}

#[test]
fn reading_past_the_end_gives_nothing() {
    let code = ByteCode::new();
    assert!(code.read_next(0).is_none());
    let mut one = ByteCode::new();
    one.write_op(OpCode::Ret, 1);
    assert!(one.read_next(1).is_none());
}
