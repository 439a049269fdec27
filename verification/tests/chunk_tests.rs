use ella::chunk::{Chunk, OpCode, ToByteCode};
use ella::value::Value;

#[test]
fn new_chunk_is_empty() {
    let chunk = Chunk::new();
    assert!(chunk.code().is_empty());
    assert!(chunk.lines().is_empty());
    assert!(chunk.constants().is_empty());
    let chunk = Chunk::default();
    assert!(chunk.code().is_empty());
}

#[test]
fn write_chunk_appends_byte_and_line() {
    let mut chunk = Chunk::new();
    chunk.write_chunk(OpCode::Ldc, 1);
    chunk.write_chunk(0u8, 1);
    chunk.write_chunk(OpCode::Ret, 2);
    chunk.write_chunk(200u8, 7);
    assert_eq!(chunk.code(), &vec![0u8, 0, 1, 200]);
    assert_eq!(chunk.lines(), &vec![1usize, 1, 2, 7]);
    assert!(chunk.constants().is_empty());
}

#[test]
fn add_constant_returns_its_index() {
    let mut chunk = Chunk::new();
    let one = Value::from_bits(1.0f64.to_bits());
    let two = Value::from_bits(2.5f64.to_bits());
    assert_eq!(chunk.add_constant(one), 0);
    assert_eq!(chunk.add_constant(two), 1);
    assert_eq!(chunk.add_constant(one), 2);
    assert_eq!(chunk.constants(), &vec![one, two, one]);
    assert_eq!(f64::from_bits(chunk.constants()[1].to_bits()), 2.5);
    assert!(chunk.code().is_empty());
}

#[test]
fn constant_table_holds_what_a_byte_can_index() {
    let mut chunk = Chunk::new();
    for i in 0..256u64 {
        assert_eq!(chunk.try_add_constant(Value::from_bits(i)), Some(i as u8));
    }
    assert_eq!(chunk.try_add_constant(Value::from_bits(256)), None);
    assert_eq!(chunk.constants().len(), 256);
    assert_eq!(chunk.constants()[255], Value { bits: 255 });
}

#[test]
fn opcodes_are_their_bytes() {
    assert_eq!(OpCode::Ldc.to_byte_code(), 0);
    assert_eq!(OpCode::Ret.to_byte_code(), 1);
    assert_eq!(7u8.to_byte_code(), 7);
    assert_eq!(OpCode::from_u8(0), Some(OpCode::Ldc));
    assert_eq!(OpCode::from_u8(1), Some(OpCode::Ret));
    assert_eq!(OpCode::from_u8(2), None);
    assert_eq!(OpCode::from_u8(255), None);
    for opcode in [OpCode::Ldc, OpCode::Ret] {
        assert_eq!(OpCode::from_u8(opcode.to_byte_code()), Some(opcode));
    }
}
