//! The stack machine. It fetches, decodes and executes the instructions of a
//! chunk. The machine moves values between the pool and its stack; what an
//! arithmetic operation makes of its operands is computed by the caller and
//! handed back.

use vstd::prelude::*;
use crate::chunk::{
    address_bytes, address_limit, address_value, decode_address, lemma_address_bytes_len,
    lemma_address_forms, lemma_address_round_trip, lemma_push_line, lemma_write_constant, Chunk,
    ChunkView, LineNum,
};
use crate::emission::{lemma_emit_all, Emission};
use crate::opcode::{decode, OpCode};
use crate::value::Value;

verus! {

/// Why an interpretation failed.
#[derive(Clone, Copy, Debug, PartialEq, Eq, Structural)]
pub enum VmError {
    /// Kept for a front end that turns source text into chunks. The machine
    /// never gives it.
    CompileError,
    /// The byte at the instruction pointer stands for no operation.
    RuntimeError,
}

impl VmError {
    /// The words that describe the error.
    pub fn message(&self) -> (text: &'static str)
        ensures
            *self == VmError::CompileError ==> text@ == "Compile error"@,
            *self == VmError::RuntimeError ==> text@ == "Runtime error"@,
    {
        match self {
            VmError::CompileError => "Compile error",
            VmError::RuntimeError => "Runtime error",
        }
    }
}

/// An arithmetic operation with its operands, taken off the stack. The
/// operand that was pushed last is the right one.
#[derive(Clone, Copy, Debug, PartialEq, Eq, Structural)]
pub enum Operation {
    /// `left + right`
    Add { left: Value, right: Value },
    /// `left - right`
    Subtract { left: Value, right: Value },
    /// `left * right`
    Multiply { left: Value, right: Value },
    /// `left / right`
    Divide { left: Value, right: Value },
    /// `- operand`
    Negate { operand: Value },
}

/// What the execution of one instruction leaves to be done.
#[derive(Clone, Copy, Debug, PartialEq, Eq, Structural)]
pub enum Step {
    /// A constant was pushed. The machine is ready for the next instruction.
    Loaded,
    /// The operands of an arithmetic instruction were popped. The result of
    /// the operation is to be pushed before the next instruction.
    Compute(Operation),
    /// The top of the stack was popped as the output, and the machine halted.
    Return(Value),
}

/// The state of a machine as a mathematical value.
pub struct MachineState {
    /// The offset in the code of the next instruction.
    pub ip: int,
    /// The operand stack, the top last.
    pub stack: Seq<Value>,
}

/// The machine can execute the instruction at `ip` with `depth` values on its
/// stack: the instruction lies in the code with all its operand bytes, a
/// load names an entry of the pool, and the stack holds what the instruction
/// pops. A byte that stands for no operation can always be executed: it ends
/// the run with an error.
pub open spec fn admits(chunk: ChunkView, ip: int, depth: nat) -> bool {
    &&& chunk.readable(ip)
    &&& match decode(chunk.code[ip]) {
        None => true,
        Some(opcode) => opcode.pops() <= depth,
    }
}

/// The operation that an arithmetic instruction performs on a stack.
pub open spec fn operation_of(opcode: OpCode, stack: Seq<Value>) -> Operation
    recommends
        opcode.pops() <= stack.len(),
{
    let right = stack[stack.len() - 1];
    let left = stack[stack.len() - 2];
    match opcode {
        OpCode::OpAdd => Operation::Add { left, right },
        OpCode::OpSubtract => Operation::Subtract { left, right },
        OpCode::OpMultiply => Operation::Multiply { left, right },
        OpCode::OpDivide => Operation::Divide { left, right },
        _ => Operation::Negate { operand: right },
    }
}

/// The state in which the execution of the instruction at `state.ip` leaves
/// the machine.
pub open spec fn state_after(chunk: ChunkView, state: MachineState) -> MachineState
    recommends
        admits(chunk, state.ip, state.stack.len()),
{
    match decode(chunk.code[state.ip]) {
        None => MachineState { ip: state.ip + 1, stack: state.stack },
        Some(opcode) => MachineState {
            ip: state.ip + 1 + opcode.operand_bytes(),
            stack: if opcode.operand_bytes() > 0 {
                state.stack.push(chunk.constants[chunk.operand(state.ip, opcode) as int])
            } else {
                state.stack.take(state.stack.len() - opcode.pops())
            },
        },
    }
}

/// What the execution of the instruction at `state.ip` gives: an error for a
/// byte that stands for no operation, and else what is left to be done.
pub open spec fn step_of(chunk: ChunkView, state: MachineState) -> Result<Step, VmError>
    recommends
        admits(chunk, state.ip, state.stack.len()),
{
    match decode(chunk.code[state.ip]) {
        None => Err(VmError::RuntimeError),
        Some(OpCode::OpConstant) | Some(OpCode::OpConstantLong) => Ok(Step::Loaded),
        Some(OpCode::OpReturn) => Ok(Step::Return(state.stack.last())),
        Some(opcode) => Ok(Step::Compute(operation_of(opcode, state.stack))),
    }
}

/// The machine: an instruction pointer and an operand stack.
pub struct VM {
    ip: usize,
    stack: Vec<Value>,
}

impl View for VM {
    type V = MachineState;

    closed spec fn view(&self) -> MachineState {
        MachineState { ip: self.ip as int, stack: self.stack@ }
    }
}

impl VM {
    /// A machine at the start of the code with an empty stack.
    pub fn new() -> (vm: VM)
        ensures
            vm@ == (MachineState { ip: 0, stack: Seq::empty() }),
    {
        VM { ip: 0, stack: Vec::new() }
    }

    /// The machine can execute the next instruction of `chunk`.
    pub open spec fn can_step(&self, chunk: &Chunk) -> bool {
        admits(chunk@, self@.ip, self@.stack.len())
    }

    /// The offset in the code of the next instruction.
    pub fn ip(&self) -> (ip: usize)
        ensures
            ip == self@.ip,
    {
        self.ip
    }

    /// The number of values on the stack.
    pub fn depth(&self) -> (depth: usize)
        ensures
            depth == self@.stack.len(),
    {
        self.stack.len()
    }

    /// The values on the stack, the top last.
    pub fn stack(&self) -> (stack: &Vec<Value>)
        ensures
            stack@ == self@.stack,
    {
        &self.stack
    }

    /// Puts the machine at the start of the code with an empty stack.
    pub fn reset(&mut self)
        ensures
            final(self)@ == (MachineState { ip: 0, stack: Seq::empty() }),
    {
        self.ip = 0;
        self.stack.clear();
    }

    /// Pushes a value: the result of an operation that `step` handed out.
    pub fn push(&mut self, value: Value)
        ensures
            final(self)@ == (MachineState { ip: old(self)@.ip, stack: old(self)@.stack.push(value) }),
    {
        self.stack.push(value);
    }

    /// Tells whether the machine can execute the next instruction of `chunk`.
    pub fn ready(&self, chunk: &Chunk) -> (ready: bool)
        ensures
            ready == self.can_step(chunk),
    {
        if !chunk.holds_instruction(self.ip) {
            return false;
        }
        match OpCode::from_u8(chunk.code()[self.ip]) {
            None => true,
            Some(opcode) => opcode.arity() <= self.stack.len(),
        }
    }

    /// Executes the next instruction of `chunk`, but for the arithmetic:
    /// a load pushes the constant that its operand names; an arithmetic
    /// instruction pops its operands, the right one first, and hands the
    /// operation out; a return pops the output and hands it out. A byte that
    /// stands for no operation gives a runtime error.
    pub fn step(&mut self, chunk: &Chunk) -> (result: Result<Step, VmError>)
        requires
            old(self).can_step(chunk),
        ensures
            final(self)@ == state_after(chunk@, old(self)@),
            result == step_of(chunk@, old(self)@),
    {
        let ghost before = self@;
        let byte = self.read_byte(chunk);
        match OpCode::from_u8(byte) {
            Some(opcode) => match opcode {
                OpCode::OpReturn => {
                    let output = self.pop();
                    assert(self@.stack == before.stack.take(before.stack.len() - 1));
                    Ok(Step::Return(output))
                },
                OpCode::OpConstant => {
                    let constant = self.read_constant(chunk);
                    self.stack.push(constant);
                    Ok(Step::Loaded)
                },
                OpCode::OpConstantLong => {
                    let constant = self.read_constant_long(chunk);
                    self.stack.push(constant);
                    Ok(Step::Loaded)
                },
                OpCode::OpAdd => {
                    let right = self.pop();
                    let left = self.pop();
                    assert(self@.stack == before.stack.take(before.stack.len() - 2));
                    Ok(Step::Compute(Operation::Add { left, right }))
                },
                OpCode::OpSubtract => {
                    let right = self.pop();
                    let left = self.pop();
                    assert(self@.stack == before.stack.take(before.stack.len() - 2));
                    Ok(Step::Compute(Operation::Subtract { left, right }))
                },
                OpCode::OpMultiply => {
                    let right = self.pop();
                    let left = self.pop();
                    assert(self@.stack == before.stack.take(before.stack.len() - 2));
                    Ok(Step::Compute(Operation::Multiply { left, right }))
                },
                OpCode::OpDivide => {
                    let right = self.pop();
                    let left = self.pop();
                    assert(self@.stack == before.stack.take(before.stack.len() - 2));
                    Ok(Step::Compute(Operation::Divide { left, right }))
                },
                OpCode::OpNegate => {
                    let operand = self.pop();
                    assert(self@.stack == before.stack.take(before.stack.len() - 1));
                    Ok(Step::Compute(Operation::Negate { operand }))
                },
            },
            None => Err(VmError::RuntimeError),
        }
    }

    /// Takes the top value off the stack.
    fn pop(&mut self) -> (value: Value)
        requires
            old(self)@.stack.len() > 0,
        ensures
            value == old(self)@.stack.last(),
            final(self)@ == (MachineState { ip: old(self)@.ip, stack: old(self)@.stack.drop_last() }),
    {
        self.stack.pop().unwrap()
    }

    /// Reads the byte at the instruction pointer and moves the pointer past
    /// it.
    fn read_byte(&mut self, chunk: &Chunk) -> (byte: u8)
        requires
            old(self)@.ip < chunk@.code.len(),
        ensures
            byte == chunk@.code[old(self)@.ip],
            final(self)@ == (MachineState { ip: old(self)@.ip + 1, stack: old(self)@.stack }),
    {
        proof {
            chunk.lemma_lengths_fit();
        }
        let code = chunk.code();
        self.ip = self.ip + 1;
        code[self.ip - 1]
    }

    /// Reads a one-byte pool index at the instruction pointer and gives the
    /// constant stored there.
    fn read_constant(&mut self, chunk: &Chunk) -> (constant: Value)
        requires
            old(self)@.ip + 1 <= chunk@.code.len(),
            address_value(chunk@.code.subrange(old(self)@.ip, old(self)@.ip + 1))
                < chunk@.constants.len(),
        ensures
            constant == chunk@.constants[address_value(
                chunk@.code.subrange(old(self)@.ip, old(self)@.ip + 1),
            ) as int],
            final(self)@ == (MachineState { ip: old(self)@.ip + 1, stack: old(self)@.stack }),
    {
        proof {
            chunk.lemma_lengths_fit();
        }
        let index: usize = decode_address(chunk.code(), self.ip, 1);
        self.ip = self.ip + 1;
        chunk.constants().values[index]
    }

    /// Reads a three-byte pool index at the instruction pointer, the most
    /// significant byte first, and gives the constant stored there.
    fn read_constant_long(&mut self, chunk: &Chunk) -> (constant: Value)
        requires
            old(self)@.ip + 3 <= chunk@.code.len(),
            address_value(chunk@.code.subrange(old(self)@.ip, old(self)@.ip + 3))
                < chunk@.constants.len(),
        ensures
            constant == chunk@.constants[address_value(
                chunk@.code.subrange(old(self)@.ip, old(self)@.ip + 3),
            ) as int],
            final(self)@ == (MachineState { ip: old(self)@.ip + 3, stack: old(self)@.stack }),
    {
        proof {
            chunk.lemma_lengths_fit();
        }
        let index: usize = decode_address(chunk.code(), self.ip, 3);
        self.ip = self.ip + 3;
        chunk.constants().values[index]
    }
}

/// A run of the machine from `ip` with `depth` values on its stack goes
/// through: every instruction on the way can be executed, and the run ends
/// with a return or with a byte that stands for no operation before the code
/// does. Instructions follow one another in the code, so this depends on the
/// code and on the size of the pool, and on no value.
pub open spec fn runnable(chunk: ChunkView, ip: int, depth: nat) -> bool
    decreases chunk.code.len() - ip,
{
    &&& admits(chunk, ip, depth)
    &&& match decode(chunk.code[ip]) {
        None => true,
        Some(OpCode::OpReturn) => true,
        Some(opcode) => runnable(
            chunk,
            ip + 1 + opcode.operand_bytes(),
            (depth - opcode.pops() + opcode.pushes()) as nat,
        ),
    }
}

/// What a run ends with: the state in which it leaves the machine, and its
/// output or its error.
pub struct Halt {
    /// The state of the machine behind the instruction that ended the run.
    pub state: MachineState,
    /// The output of the return that ended the run, or the error.
    pub outcome: Result<Value, VmError>,
}

/// `halt` is what a run from `state` ends with, where `alu` computes the
/// arithmetic: an error at a byte that stands for no operation, the top of
/// the stack at a return. After an arithmetic instruction the run goes on
/// with a result of `alu` for the operation on the stack.
pub open spec fn runs_to<F: Fn(Operation) -> Value>(
    alu: F,
    chunk: ChunkView,
    state: MachineState,
    halt: Halt,
) -> bool
    decreases chunk.code.len() - state.ip,
{
    &&& admits(chunk, state.ip, state.stack.len())
    &&& match step_of(chunk, state) {
        Err(error) => halt == (Halt {
            state: state_after(chunk, state),
            outcome: Err::<Value, VmError>(error),
        }),
        Ok(Step::Return(output)) => halt == (Halt {
            state: state_after(chunk, state),
            outcome: Ok::<Value, VmError>(output),
        }),
        Ok(Step::Loaded) => runs_to(alu, chunk, state_after(chunk, state), halt),
        Ok(Step::Compute(operation)) => exists|result: Value|
            #[trigger] call_ensures(alu, (operation,), result) && runs_to(
                alu,
                chunk,
                MachineState {
                    ip: state_after(chunk, state).ip,
                    stack: state_after(chunk, state).stack.push(result),
                },
                halt,
            ),
    }
}

/// Tells whether a run of `chunk` from its start goes through.
pub fn is_runnable(chunk: &Chunk) -> (ok: bool)
    ensures
        ok == runnable(chunk@, 0, 0),
{
    let code = chunk.code();
    let mut ip: usize = 0;
    let mut depth: usize = 0;
    loop
        invariant
            code@ == chunk@.code,
            depth <= ip,
            runnable(chunk@, 0, 0) == runnable(chunk@, ip as int, depth as nat),
        decreases code.len() - ip,
    {
        if !chunk.holds_instruction(ip) {
            return false;
        }
        match OpCode::from_u8(code[ip]) {
            None => {
                return true;
            },
            Some(opcode) => {
                if depth < opcode.arity() {
                    return false;
                }
                match opcode {
                    OpCode::OpReturn => {
                        return true;
                    },
                    OpCode::OpConstant | OpCode::OpConstantLong => {
                        depth = depth + 1;
                    },
                    OpCode::OpNegate => {},
                    _ => {
                        depth = depth - 1;
                    },
                }
                ip = ip + 1 + opcode.operand_width();
            },
        }
    }
}

impl VM {
    /// Runs `chunk` from its start with an empty stack to the first return
    /// or the first byte that stands for no operation. `alu` computes the
    /// arithmetic. The output of the return is handed out; a byte that
    /// stands for no operation gives a runtime error.
    pub fn interpret<F: Fn(Operation) -> Value>(&mut self, chunk: &Chunk, alu: F) -> (outcome:
        Result<Value, VmError>)
        requires
            runnable(chunk@, 0, 0),
            forall|operation: Operation| call_requires(alu, (operation,)),
        ensures
            runs_to(
                alu,
                chunk@,
                MachineState { ip: 0, stack: Seq::empty() },
                Halt { state: final(self)@, outcome },
            ),
    {
        self.reset();
        self.run(chunk, alu)
    }

    /// Runs `chunk` from where the machine stands to the first return or the
    /// first byte that stands for no operation.
    pub fn run<F: Fn(Operation) -> Value>(&mut self, chunk: &Chunk, alu: F) -> (outcome: Result<
        Value,
        VmError,
    >)
        requires
            runnable(chunk@, old(self)@.ip, old(self)@.stack.len()),
            forall|operation: Operation| call_requires(alu, (operation,)),
        ensures
            runs_to(alu, chunk@, old(self)@, Halt { state: final(self)@, outcome }),
    {
        let ghost start = self@;
        loop
            invariant
                start == old(self)@,
                runnable(chunk@, self@.ip, self@.stack.len()),
                forall|operation: Operation| call_requires(alu, (operation,)),
                forall|halt: Halt| #[trigger]
                    runs_to(alu, chunk@, self@, halt) ==> runs_to(alu, chunk@, start, halt),
            decreases chunk@.code.len() - self@.ip,
        {
            let ghost before = self@;
            match self.step(chunk) {
                Err(error) => {
                    assert(runs_to(
                        alu,
                        chunk@,
                        before,
                        Halt { state: self@, outcome: Err::<Value, VmError>(error) },
                    ));
                    return Err(error);
                },
                Ok(Step::Return(output)) => {
                    assert(runs_to(
                        alu,
                        chunk@,
                        before,
                        Halt { state: self@, outcome: Ok::<Value, VmError>(output) },
                    ));
                    return Ok(output);
                },
                Ok(Step::Loaded) => {
                    assert forall|halt: Halt| #[trigger]
                        runs_to(alu, chunk@, self@, halt) implies runs_to(
                        alu,
                        chunk@,
                        start,
                        halt,
                    ) by {
                        assert(runs_to(alu, chunk@, before, halt));
                    }
                },
                Ok(Step::Compute(operation)) => {
                    let result = alu(operation);
                    self.push(result);
                    assert forall|halt: Halt| #[trigger]
                        runs_to(alu, chunk@, self@, halt) implies runs_to(
                        alu,
                        chunk@,
                        start,
                        halt,
                    ) by {
                        assert(call_ensures(alu, (operation,), result));
                        assert(runs_to(alu, chunk@, before, halt));
                    }
                },
            }
        }
    }
}

/// A byte that stands for no operation ends every run that reaches it, and
/// ends it with a runtime error, whatever computes the arithmetic. The
/// machine is left behind the byte, with its stack as it was.
pub proof fn lemma_unknown_byte_is_runtime_error<F: Fn(Operation) -> Value>(
    alu: F,
    chunk: ChunkView,
    state: MachineState,
    halt: Halt,
)
    requires
        0 <= state.ip < chunk.code.len(),
        decode(chunk.code[state.ip]).is_none(),
    ensures
        step_of(chunk, state) == Err::<Step, VmError>(VmError::RuntimeError),
        runs_to(alu, chunk, state, halt) <==> halt == (Halt {
            state: MachineState { ip: state.ip + 1, stack: state.stack },
            outcome: Err::<Value, VmError>(VmError::RuntimeError),
        }),
{
}

/// Where `alu` gives one result for each operation, a run has one end: the
/// same chunk run again from the same state gives the same output or the
/// same error, and leaves the machine in the same state.
pub proof fn lemma_run_is_determined<F: Fn(Operation) -> Value>(
    alu: F,
    chunk: ChunkView,
    state: MachineState,
    first: Halt,
    second: Halt,
)
    requires
        forall|operation: Operation, one: Value, other: Value|
            call_ensures(alu, (operation,), one) && call_ensures(alu, (operation,), other)
                ==> one == other,
        runs_to(alu, chunk, state, first),
        runs_to(alu, chunk, state, second),
    ensures
        first == second,
    decreases chunk.code.len() - state.ip,
{
    let after = state_after(chunk, state);
    match step_of(chunk, state) {
        Ok(Step::Loaded) => {
            lemma_run_is_determined(alu, chunk, after, first, second);
        },
        Ok(Step::Compute(operation)) => {
            let one = choose|result: Value|
                #[trigger] call_ensures(alu, (operation,), result) && runs_to(
                    alu,
                    chunk,
                    MachineState { ip: after.ip, stack: after.stack.push(result) },
                    first,
                );
            let other = choose|result: Value|
                #[trigger] call_ensures(alu, (operation,), result) && runs_to(
                    alu,
                    chunk,
                    MachineState { ip: after.ip, stack: after.stack.push(result) },
                    second,
                );
            assert(one == other);
            lemma_run_is_determined(
                alu,
                chunk,
                MachineState { ip: after.ip, stack: after.stack.push(one) },
                first,
                second,
            );
        },
        _ => {},
    }
}

/// A load instruction whose operand bytes encode the index of a pool entry
/// pushes that entry and nothing else, and leaves the machine behind the
/// instruction.
pub proof fn lemma_load_executes(
    chunk: ChunkView,
    state: MachineState,
    opcode: OpCode,
    index: nat,
)
    requires
        opcode == OpCode::OpConstant || opcode == OpCode::OpConstantLong,
        0 <= state.ip,
        state.ip + opcode.operand_bytes() < chunk.code.len(),
        chunk.code[state.ip] == opcode.code(),
        chunk.code.subrange(state.ip + 1, state.ip + 1 + opcode.operand_bytes()) == address_bytes(
            index,
            opcode.operand_bytes(),
        ),
        index < address_limit(opcode.operand_bytes()),
        index < chunk.constants.len(),
    ensures
        admits(chunk, state.ip, state.stack.len()),
        step_of(chunk, state) == Ok::<Step, VmError>(Step::Loaded),
        state_after(chunk, state) == (MachineState {
            ip: state.ip + 1 + opcode.operand_bytes(),
            stack: state.stack.push(chunk.constants[index as int]),
        }),
{
    lemma_address_round_trip(index, opcode.operand_bytes());
}

/// A sequence agrees, place by place, with every sequence that it begins.
pub proof fn lemma_prefix_agrees<T>(part: Seq<T>, whole: Seq<T>)
    requires
        part.is_prefix_of(whole),
    ensures
        part.len() <= whole.len(),
        forall|i: int| 0 <= i < part.len() ==> part[i] == #[trigger] whole[i],
{
    assert forall|i: int| 0 <= i < part.len() implies part[i] == #[trigger] whole[i] by {
        assert(part[i] == whole.subrange(0, part.len() as int)[i]);
    }
}

/// A value that was added to the pool at one of its first 256 places, and
/// for which a short load was emitted, is what the load pushes when it is
/// executed, whatever was emitted after it.
pub proof fn lemma_short_load_pushes_stored(
    chunk: ChunkView,
    value: Value,
    line: LineNum,
    later: Seq<Emission>,
    stack: Seq<Value>,
)
    requires
        chunk.wf(),
        chunk.constants.len() <= 255,
    ensures
        ({
            let index = chunk.constants.len();
            let emitted = chunk.add_constant(value).write_byte(
                OpCode::OpConstant.code(),
                line,
            ).write_byte(index as u8, line);
            let built = emitted.emit_all(later);
            let state = MachineState { ip: chunk.code.len() as int, stack };
            &&& admits(built, state.ip, stack.len())
            &&& step_of(built, state) == Ok::<Step, VmError>(Step::Loaded)
            &&& state_after(built, state) == (MachineState {
                ip: state.ip + 2,
                stack: stack.push(value),
            })
        }),
{
    let index = chunk.constants.len();
    let stored = chunk.add_constant(value);
    let opened = stored.write_byte(OpCode::OpConstant.code(), line);
    let emitted = opened.write_byte(index as u8, line);
    let built = emitted.emit_all(later);
    let state = MachineState { ip: chunk.code.len() as int, stack };
    lemma_push_line(stored.lines, line);
    lemma_push_line(opened.lines, line);
    lemma_emit_all(emitted, later);
    lemma_address_forms(index);
    lemma_prefix_agrees(emitted.code, built.code);
    lemma_prefix_agrees(emitted.constants, built.constants);
    assert(built.code[state.ip] == emitted.code[state.ip]);
    let operand = built.code.subrange(state.ip + 1, state.ip + 2);
    assert(operand[0] == emitted.code[state.ip + 1]);
    assert(operand == address_bytes(index, 1));
    assert(built.constants[index as int] == emitted.constants[index as int]);
    lemma_load_executes(built, state, OpCode::OpConstant, index);
}

/// The load that `write_constant` emits for a value pushes that value when
/// it is executed, whatever was emitted after it: through the short form for
/// the first 256 entries of the pool, and through the long form for the
/// entries after them whose index fits into three bytes.
pub proof fn lemma_written_constant_is_loaded(
    chunk: ChunkView,
    value: Value,
    line: LineNum,
    later: Seq<Emission>,
    stack: Seq<Value>,
)
    requires
        chunk.wf(),
        chunk.constants.len() < 16777216,
    ensures
        ({
            let emitted = chunk.write_constant(value, line);
            let built = emitted.emit_all(later);
            let state = MachineState { ip: chunk.code.len() as int, stack };
            &&& built.code[state.ip] == ChunkView::load_op(chunk.constants.len()).code()
            &&& admits(built, state.ip, stack.len())
            &&& step_of(built, state) == Ok::<Step, VmError>(Step::Loaded)
            &&& state_after(built, state) == (MachineState {
                ip: emitted.code.len() as int,
                stack: stack.push(value),
            })
        }),
{
    let index = chunk.constants.len();
    let opcode = ChunkView::load_op(index);
    let emitted = chunk.write_constant(value, line);
    let built = emitted.emit_all(later);
    let state = MachineState { ip: chunk.code.len() as int, stack };
    lemma_write_constant(chunk, value, line);
    lemma_emit_all(emitted, later);
    lemma_address_forms(index);
    lemma_address_bytes_len(index, opcode.operand_bytes());
    lemma_prefix_agrees(emitted.code, built.code);
    lemma_prefix_agrees(emitted.constants, built.constants);
    assert(built.code[state.ip] == emitted.code[state.ip]);
    let operand = built.code.subrange(state.ip + 1, state.ip + 1 + opcode.operand_bytes());
    let written = address_bytes(index, opcode.operand_bytes());
    assert forall|i: int| 0 <= i < operand.len() implies operand[i] == written[i] by {
        assert(operand[i] == emitted.code[state.ip + 1 + i]);
    }
    assert(operand == written);
    assert(built.constants[index as int] == emitted.constants[index as int]);
    lemma_load_executes(built, state, opcode, index);
}

} // verus!
