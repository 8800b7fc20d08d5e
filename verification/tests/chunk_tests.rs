use blintz_vm::chunk::{decode_address, encode_address, Chunk, LineEncoding};
use blintz_vm::opcode::OpCode;
use blintz_vm::value::{Value, ValueArray};

fn number(x: f64) -> Value {
    Value::from_bits(x.to_bits())
}

#[test]
fn a_new_chunk_is_empty() {
    let chunk = Chunk::new();
    assert_eq!(chunk.len(), 0);
    assert_eq!(chunk.code().len(), 0);
    assert_eq!(chunk.constants().len(), 0);
    assert_eq!(chunk.line_entries(), 0);
    assert_eq!(chunk.get_line(0), 0);
}

#[test]
fn value_bits_round_trip() {
    let value = number(1.2);
    assert_eq!(value.to_bits(), 1.2f64.to_bits());
    assert_eq!(f64::from_bits(value.to_bits()), 1.2);
}

#[test]
fn the_pool_hands_out_dense_indices() {
    let mut pool = ValueArray::new();
    assert_eq!(pool.len(), 0);
    pool.write_value(number(1.5));
    pool.write_value(number(2.5));
    assert_eq!(pool.len(), 2);
    assert_eq!(pool.values[0], number(1.5));
    assert_eq!(pool.values[1], number(2.5));
}

#[test]
fn add_constant_returns_the_index_and_keeps_code() {
    let mut chunk = Chunk::new();
    for i in 0..300usize {
        assert_eq!(chunk.add_constant(number(i as f64)), i);
    }
    assert_eq!(chunk.len(), 0);
    assert_eq!(chunk.constants().len(), 300);
    assert_eq!(chunk.constants().values[299], number(299.0));
    assert_eq!(chunk.constants().values[0], number(0.0));
}

#[test]
fn write_byte_appends_and_records_the_line() {
    let mut chunk = Chunk::new();
    chunk.write_byte(42, 7);
    chunk.write_byte(43, 9);
    assert_eq!(chunk.code(), &vec![42u8, 43u8]);
    assert_eq!(chunk.get_line(0), 7);
    assert_eq!(chunk.get_line(1), 9);
    assert_eq!(chunk.get_line(2), 0);
}

#[test]
fn write_op_writes_the_code_of_the_operation() {
    let mut chunk = Chunk::new();
    chunk.write_op(OpCode::OpAdd, 1);
    chunk.write_op(OpCode::OpReturn, 2);
    assert_eq!(chunk.code(), &vec![2u8, 99u8]);
    assert_eq!(chunk.len(), 2);
}

#[test]
fn write_constant_uses_the_short_form_below_256() {
    let mut chunk = Chunk::new();
    chunk.write_constant(number(1.2), 123);
    chunk.write_constant(number(3.4), 124);
    assert_eq!(chunk.code(), &vec![0u8, 0, 0, 1]);
    assert_eq!(chunk.constants().values[0], number(1.2));
    assert_eq!(chunk.constants().values[1], number(3.4));
}

#[test]
fn write_constant_switches_to_the_long_form_at_256() {
    let mut chunk = Chunk::new();
    for i in 0..256usize {
        chunk.write_constant(number(i as f64), 1);
    }
    assert_eq!(chunk.len(), 512);
    assert_eq!(chunk.code()[510], 0);
    assert_eq!(chunk.code()[511], 255);
    chunk.write_constant(number(256.0), 2);
    assert_eq!(chunk.len(), 516);
    assert_eq!(&chunk.code()[512..], &[1u8, 0, 1, 0]);
    chunk.write_constant(number(257.0), 3);
    assert_eq!(&chunk.code()[516..], &[1u8, 0, 1, 1]);
    assert_eq!(chunk.constants().len(), 258);
    assert_eq!(chunk.constants().values[256], number(256.0));
}

#[test]
fn get_line_gives_the_line_of_every_byte_of_an_instruction() {
    let mut chunk = Chunk::new();
    chunk.write_constant(number(1.0), 10);
    chunk.write_op(OpCode::OpNegate, 10);
    chunk.write_constant(number(2.0), 11);
    chunk.write_op(OpCode::OpAdd, 12);
    chunk.write_op(OpCode::OpReturn, 10);
    let expected = [10, 10, 10, 11, 11, 12, 10];
    assert_eq!(chunk.len(), expected.len());
    for (offset, line) in expected.iter().enumerate() {
        assert_eq!(chunk.get_line(offset), *line);
    }
    assert_eq!(chunk.get_line(expected.len()), 0);
    assert_eq!(chunk.get_line(usize::MAX), 0);
}

#[test]
fn get_line_covers_the_operands_of_a_long_load() {
    let mut chunk = Chunk::new();
    for i in 0..256usize {
        chunk.add_constant(number(i as f64));
    }
    chunk.write_op(OpCode::OpReturn, 5);
    chunk.write_constant(number(0.5), 6);
    chunk.write_op(OpCode::OpReturn, 7);
    assert_eq!(chunk.code(), &vec![99u8, 1, 0, 1, 0, 99]);
    assert_eq!(chunk.get_line(0), 5);
    assert_eq!(chunk.get_line(1), 6);
    assert_eq!(chunk.get_line(2), 6);
    assert_eq!(chunk.get_line(3), 6);
    assert_eq!(chunk.get_line(4), 6);
    assert_eq!(chunk.get_line(5), 7);
}

#[test]
fn the_table_has_one_entry_for_each_run_of_a_line() {
    let mut chunk = Chunk::new();
    chunk.write_constant(number(1.0), 1);
    assert_eq!(chunk.line_entries(), 1);
    chunk.write_op(OpCode::OpNegate, 1);
    assert_eq!(chunk.line_entries(), 1);
    chunk.write_op(OpCode::OpNegate, 2);
    assert_eq!(chunk.line_entries(), 2);
    chunk.write_byte(6, 2);
    assert_eq!(chunk.line_entries(), 2);
    chunk.write_op(OpCode::OpReturn, 1);
    assert_eq!(chunk.line_entries(), 3);
}

#[test]
fn the_table_has_as_many_entries_as_instructions_when_lines_alternate() {
    let mut chunk = Chunk::new();
    chunk.write_constant(number(1.0), 1);
    chunk.write_constant(number(2.0), 2);
    chunk.write_op(OpCode::OpAdd, 1);
    chunk.write_op(OpCode::OpReturn, 2);
    assert_eq!(chunk.line_entries(), 4);
}

#[test]
fn a_line_entry_counts_instructions_and_bytes() {
    let mut entry = LineEncoding::new(9);
    assert_eq!((entry.line, entry.run, entry.span), (9, 1, 1));
    entry.inc();
    assert_eq!((entry.line, entry.run, entry.span), (9, 2, 2));
    entry.widen();
    assert_eq!((entry.line, entry.run, entry.span), (9, 2, 3));
}

#[test]
fn addresses_are_written_most_significant_byte_first() {
    assert_eq!(encode_address(0x123456, 3), vec![0x12u8, 0x34, 0x56]);
    assert_eq!(encode_address(256, 3), vec![0u8, 1, 0]);
    assert_eq!(encode_address(200, 1), vec![200u8]);
    assert_eq!(encode_address(7, 0), Vec::<u8>::new());
    assert_eq!(encode_address(0x0102, 2), vec![1u8, 2]);
}

#[test]
fn an_address_too_wide_loses_its_high_bytes() {
    assert_eq!(encode_address(0x1234567, 3), vec![0x23u8, 0x45, 0x67]);
    assert_eq!(encode_address(256, 1), vec![0u8]);
}

#[test]
fn addresses_are_read_most_significant_byte_first() {
    let code = vec![9u8, 0x12, 0x34, 0x56, 7];
    assert_eq!(decode_address(&code, 1, 3), 0x123456);
    assert_eq!(decode_address(&code, 0, 1), 9);
    assert_eq!(decode_address(&code, 4, 1), 7);
    assert_eq!(decode_address(&code, 2, 0), 0);
}

#[test]
fn long_addresses_round_trip() {
    let samples = [0usize, 1, 255, 256, 257, 65535, 65536, 0x800000, 0xfffffe, 0xffffff];
    for index in samples.iter() {
        let bytes = encode_address(*index, 3);
        assert_eq!(bytes.len(), 3);
        assert_eq!(decode_address(&bytes, 0, 3), *index);
    }
}

#[test]
fn short_addresses_round_trip() {
    for index in 0..256usize {
        let bytes = encode_address(index, 1);
        assert_eq!(bytes, vec![index as u8]);
        assert_eq!(decode_address(&bytes, 0, 1), index);
    }
}

#[test]
fn holds_instruction_wants_operands_and_a_pool_entry() {
    let mut chunk = Chunk::new();
    chunk.write_op(OpCode::OpConstant, 1);
    assert!(!chunk.holds_instruction(0));
    chunk.write_byte(0, 1);
    assert!(!chunk.holds_instruction(0));
    chunk.add_constant(number(1.0));
    assert!(chunk.holds_instruction(0));
    assert!(!chunk.holds_instruction(2));
    chunk.write_byte(200, 1);
    assert!(chunk.holds_instruction(2));
    assert_eq!(chunk.read_operand(0, OpCode::OpConstant), 0);
}
