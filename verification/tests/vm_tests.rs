use blintz_vm::chunk::Chunk;
use blintz_vm::opcode::OpCode;
use blintz_vm::value::Value;
use blintz_vm::vm::{is_runnable, Operation, Step, VmError, VM};

fn number(x: f64) -> Value {
    Value::from_bits(x.to_bits())
}

fn float(value: Value) -> f64 {
    f64::from_bits(value.to_bits())
}

fn alu(operation: Operation) -> Value {
    match operation {
        Operation::Add { left, right } => number(float(left) + float(right)),
        Operation::Subtract { left, right } => number(float(left) - float(right)),
        Operation::Multiply { left, right } => number(float(left) * float(right)),
        Operation::Divide { left, right } => number(float(left) / float(right)),
        Operation::Negate { operand } => number(-float(operand)),
    }
}

fn run(chunk: &Chunk) -> Result<Value, VmError> {
    assert!(is_runnable(chunk));
    let mut vm = VM::new();
    vm.interpret(chunk, alu)
}

#[test]
fn the_sample_program_gives_its_output() {
    let mut chunk = Chunk::new();
    chunk.write_constant(number(1.2), 123);
    chunk.write_constant(number(3.4), 123);
    chunk.write_op(OpCode::OpAdd, 123);
    chunk.write_constant(number(5.6), 123);
    chunk.write_op(OpCode::OpDivide, 123);
    chunk.write_op(OpCode::OpNegate, 123);
    chunk.write_op(OpCode::OpReturn, 123);
    let output = run(&chunk).unwrap();
    assert_eq!(float(output), -0.8214285714285714);
    assert_eq!(float(output), -((1.2 + 3.4) / 5.6));
}

#[test]
fn an_unknown_byte_is_a_runtime_error() {
    let mut chunk = Chunk::new();
    chunk.write_byte(7, 1);
    chunk.write_op(OpCode::OpReturn, 1);
    assert_eq!(run(&chunk), Err(VmError::RuntimeError));
}

#[test]
fn an_unknown_byte_after_work_is_a_runtime_error() {
    let mut chunk = Chunk::new();
    chunk.write_constant(number(1.0), 1);
    chunk.write_op(OpCode::OpNegate, 1);
    chunk.write_byte(200, 2);
    assert_eq!(run(&chunk), Err(VmError::RuntimeError));
}

#[test]
fn the_right_operand_is_the_one_pushed_last() {
    let mut chunk = Chunk::new();
    chunk.write_constant(number(10.0), 1);
    chunk.write_constant(number(4.0), 1);
    chunk.write_op(OpCode::OpSubtract, 1);
    chunk.write_op(OpCode::OpReturn, 1);
    assert_eq!(float(run(&chunk).unwrap()), 6.0);

    let mut chunk = Chunk::new();
    chunk.write_constant(number(10.0), 1);
    chunk.write_constant(number(4.0), 1);
    chunk.write_op(OpCode::OpDivide, 1);
    chunk.write_op(OpCode::OpReturn, 1);
    assert_eq!(float(run(&chunk).unwrap()), 2.5);
}

#[test]
fn multiply_and_add_work_on_the_two_top_values() {
    let mut chunk = Chunk::new();
    chunk.write_constant(number(2.0), 1);
    chunk.write_constant(number(3.0), 1);
    chunk.write_constant(number(4.0), 1);
    chunk.write_op(OpCode::OpMultiply, 1);
    chunk.write_op(OpCode::OpAdd, 1);
    chunk.write_op(OpCode::OpReturn, 1);
    assert_eq!(float(run(&chunk).unwrap()), 14.0);
}

#[test]
fn return_ends_the_run_before_what_follows() {
    let mut chunk = Chunk::new();
    chunk.write_constant(number(1.0), 1);
    chunk.write_op(OpCode::OpReturn, 1);
    chunk.write_byte(250, 1);
    assert_eq!(run(&chunk), Ok(number(1.0)));
}

#[test]
fn every_short_index_loads_its_own_value() {
    let mut chunk = Chunk::new();
    for i in 0..256usize {
        assert_eq!(chunk.add_constant(number(i as f64 + 0.5)), i);
    }
    for i in 0..256usize {
        let mut program = Chunk::new();
        for j in 0..256usize {
            program.add_constant(number(j as f64 + 0.5));
        }
        program.write_op(OpCode::OpConstant, 1);
        program.write_byte(i as u8, 1);
        program.write_op(OpCode::OpReturn, 1);
        assert_eq!(run(&program), Ok(chunk.constants().values[i]));
        assert_eq!(float(run(&program).unwrap()), i as f64 + 0.5);
    }
}

#[test]
fn a_long_load_pushes_the_stored_value() {
    let mut chunk = Chunk::new();
    for i in 0..300usize {
        chunk.add_constant(number(i as f64));
    }
    chunk.write_constant(number(-7.25), 1);
    chunk.write_op(OpCode::OpReturn, 1);
    assert_eq!(chunk.code(), &vec![1u8, 0, 1, 44, 99]);
    assert_eq!(float(run(&chunk).unwrap()), -7.25);
}

#[test]
fn interpret_starts_afresh_each_time() {
    let mut first = Chunk::new();
    first.write_constant(number(1.0), 1);
    first.write_constant(number(2.0), 1);
    first.write_byte(77, 1);
    let mut second = Chunk::new();
    second.write_constant(number(5.0), 1);
    second.write_op(OpCode::OpReturn, 1);
    assert!(is_runnable(&first));
    assert!(is_runnable(&second));
    let mut vm = VM::new();
    assert_eq!(vm.interpret(&first, alu), Err(VmError::RuntimeError));
    assert_eq!(vm.depth(), 2);
    assert_eq!(vm.interpret(&second, alu), Ok(number(5.0)));
    assert_eq!(vm.depth(), 0);
    assert_eq!(vm.ip(), 3);
    assert_eq!(vm.interpret(&second, alu), Ok(number(5.0)));
}

#[test]
fn step_hands_out_the_operation_and_waits_for_the_result() {
    let mut chunk = Chunk::new();
    chunk.write_constant(number(8.0), 1);
    chunk.write_constant(number(2.0), 1);
    chunk.write_op(OpCode::OpSubtract, 1);
    chunk.write_op(OpCode::OpNegate, 1);
    chunk.write_op(OpCode::OpReturn, 1);
    let mut vm = VM::new();
    assert!(vm.ready(&chunk));
    assert_eq!(vm.step(&chunk), Ok(Step::Loaded));
    assert_eq!((vm.ip(), vm.depth()), (2, 1));
    assert_eq!(vm.step(&chunk), Ok(Step::Loaded));
    assert_eq!((vm.ip(), vm.depth()), (4, 2));
    assert!(vm.ready(&chunk));
    assert_eq!(
        vm.step(&chunk),
        Ok(Step::Compute(Operation::Subtract { left: number(8.0), right: number(2.0) }))
    );
    assert_eq!((vm.ip(), vm.depth()), (5, 0));
    assert!(!vm.ready(&chunk));
    vm.push(number(6.0));
    assert!(vm.ready(&chunk));
    assert_eq!(vm.step(&chunk), Ok(Step::Compute(Operation::Negate { operand: number(6.0) })));
    vm.push(number(-6.0));
    assert_eq!((vm.ip(), vm.depth()), (6, 1));
    assert_eq!(vm.step(&chunk), Ok(Step::Return(number(-6.0))));
    assert_eq!((vm.ip(), vm.depth()), (7, 0));
    assert!(!vm.ready(&chunk));
    vm.reset();
    assert_eq!((vm.ip(), vm.depth()), (0, 0));
}

#[test]
fn step_gives_a_runtime_error_for_an_unknown_byte() {
    let mut chunk = Chunk::new();
    chunk.write_byte(50, 1);
    let mut vm = VM::new();
    assert!(vm.ready(&chunk));
    assert_eq!(vm.step(&chunk), Err(VmError::RuntimeError));
    assert_eq!(vm.ip(), 1);
}

#[test]
fn a_chunk_that_underflows_is_not_runnable() {
    let mut chunk = Chunk::new();
    chunk.write_op(OpCode::OpReturn, 1);
    assert!(!is_runnable(&chunk));

    let mut chunk = Chunk::new();
    chunk.write_constant(number(1.0), 1);
    chunk.write_op(OpCode::OpAdd, 1);
    chunk.write_op(OpCode::OpReturn, 1);
    assert!(!is_runnable(&chunk));

    let mut chunk = Chunk::new();
    chunk.write_op(OpCode::OpNegate, 1);
    assert!(!is_runnable(&chunk));
}

#[test]
fn a_chunk_that_runs_off_its_end_is_not_runnable() {
    assert!(!is_runnable(&Chunk::new()));

    let mut chunk = Chunk::new();
    chunk.write_constant(number(1.0), 1);
    assert!(!is_runnable(&chunk));

    let mut chunk = Chunk::new();
    chunk.add_constant(number(1.0));
    chunk.write_op(OpCode::OpConstant, 1);
    assert!(!is_runnable(&chunk));

    let mut chunk = Chunk::new();
    chunk.add_constant(number(1.0));
    chunk.write_op(OpCode::OpConstantLong, 1);
    chunk.write_byte(0, 1);
    chunk.write_byte(0, 1);
    assert!(!is_runnable(&chunk));
}

#[test]
fn a_load_outside_the_pool_is_not_runnable() {
    let mut chunk = Chunk::new();
    chunk.add_constant(number(1.0));
    chunk.write_op(OpCode::OpConstant, 1);
    chunk.write_byte(1, 1);
    chunk.write_op(OpCode::OpReturn, 1);
    assert!(!is_runnable(&chunk));

    let mut chunk = Chunk::new();
    chunk.add_constant(number(1.0));
    chunk.write_op(OpCode::OpConstantLong, 1);
    chunk.write_byte(0, 1);
    chunk.write_byte(1, 1);
    chunk.write_byte(0, 1);
    chunk.write_op(OpCode::OpReturn, 1);
    assert!(!is_runnable(&chunk));
}

#[test]
fn a_long_load_by_hand_is_runnable() {
    let mut chunk = Chunk::new();
    chunk.add_constant(number(1.0));
    chunk.add_constant(number(2.0));
    chunk.write_op(OpCode::OpConstantLong, 1);
    chunk.write_byte(0, 1);
    chunk.write_byte(0, 1);
    chunk.write_byte(1, 1);
    chunk.write_op(OpCode::OpReturn, 1);
    assert!(is_runnable(&chunk));
    assert_eq!(run(&chunk), Ok(number(2.0)));
}

#[test]
fn the_errors_have_their_words() {
    assert_eq!(VmError::CompileError.message(), "Compile error");
    assert_eq!(VmError::RuntimeError.message(), "Runtime error");
}
