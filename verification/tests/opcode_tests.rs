use blintz_vm::opcode::OpCode;

#[test]
fn every_operation_has_its_code() {
    assert_eq!(OpCode::OpConstant.to_u8(), Some(0));
    assert_eq!(OpCode::OpConstantLong.to_u8(), Some(1));
    assert_eq!(OpCode::OpAdd.to_u8(), Some(2));
    assert_eq!(OpCode::OpSubtract.to_u8(), Some(3));
    assert_eq!(OpCode::OpMultiply.to_u8(), Some(4));
    assert_eq!(OpCode::OpDivide.to_u8(), Some(5));
    assert_eq!(OpCode::OpNegate.to_u8(), Some(6));
    assert_eq!(OpCode::OpReturn.to_u8(), Some(99));
}

#[test]
fn every_code_decodes_to_its_operation() {
    assert_eq!(OpCode::from_u8(0), Some(OpCode::OpConstant));
    assert_eq!(OpCode::from_u8(1), Some(OpCode::OpConstantLong));
    assert_eq!(OpCode::from_u8(2), Some(OpCode::OpAdd));
    assert_eq!(OpCode::from_u8(3), Some(OpCode::OpSubtract));
    assert_eq!(OpCode::from_u8(4), Some(OpCode::OpMultiply));
    assert_eq!(OpCode::from_u8(5), Some(OpCode::OpDivide));
    assert_eq!(OpCode::from_u8(6), Some(OpCode::OpNegate));
    assert_eq!(OpCode::from_u8(99), Some(OpCode::OpReturn));
}

#[test]
fn bytes_in_the_gaps_decode_to_nothing() {
    assert_eq!(OpCode::from_u8(7), None);
    assert_eq!(OpCode::from_u8(98), None);
    assert_eq!(OpCode::from_u8(100), None);
    assert_eq!(OpCode::from_u8(255), None);
}

#[test]
fn exactly_eight_bytes_are_codes_and_each_round_trips() {
    let mut known = 0;
    for byte in 0..=255u8 {
        if let Some(opcode) = OpCode::from_u8(byte) {
            known += 1;
            assert_eq!(opcode.to_u8(), Some(byte));
        }
    }
    assert_eq!(known, 8);
}

#[test]
fn operand_widths_are_as_declared() {
    assert_eq!(OpCode::OpConstant.operand_width(), 1);
    assert_eq!(OpCode::OpConstantLong.operand_width(), 3);
    assert_eq!(OpCode::OpAdd.operand_width(), 0);
    assert_eq!(OpCode::OpSubtract.operand_width(), 0);
    assert_eq!(OpCode::OpMultiply.operand_width(), 0);
    assert_eq!(OpCode::OpDivide.operand_width(), 0);
    assert_eq!(OpCode::OpNegate.operand_width(), 0);
    assert_eq!(OpCode::OpReturn.operand_width(), 0);
}

#[test]
fn arities_are_as_declared() {
    assert_eq!(OpCode::OpConstant.arity(), 0);
    assert_eq!(OpCode::OpConstantLong.arity(), 0);
    assert_eq!(OpCode::OpAdd.arity(), 2);
    assert_eq!(OpCode::OpSubtract.arity(), 2);
    assert_eq!(OpCode::OpMultiply.arity(), 2);
    assert_eq!(OpCode::OpDivide.arity(), 2);
    assert_eq!(OpCode::OpNegate.arity(), 1);
    assert_eq!(OpCode::OpReturn.arity(), 1);
}
