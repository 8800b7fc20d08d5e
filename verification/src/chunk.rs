//! A chunk of bytecode: the code bytes, the constant pool and the line table
//! that says from which source line each instruction came.

use vstd::prelude::*;
use crate::opcode::{decode, OpCode};
use crate::value::{Value, ValueArray};

verus! {

/// A source line number.
pub type LineNum = u32;

/// One entry of the line table as a mathematical value: `run` consecutive
/// instructions, `span` bytes long together, all from source line `line`.
pub struct LineRun {
    pub line: LineNum,
    pub run: nat,
    pub span: nat,
}

/// One entry of the line table.
#[derive(Clone, Copy, Debug)]
pub struct LineEncoding {
    pub line: LineNum,
    pub run: usize,
    pub span: usize,
}

impl View for LineEncoding {
    type V = LineRun;

    open spec fn view(&self) -> LineRun {
        LineRun { line: self.line, run: self.run as nat, span: self.span as nat }
    }
}

impl LineEncoding {
    /// The entry for a single one-byte instruction from `line`.
    pub fn new(line: LineNum) -> (entry: LineEncoding)
        ensures
            entry@ == (LineRun { line, run: 1, span: 1 }),
    {
        LineEncoding { line, run: 1, span: 1 }
    }

    /// Takes in one more one-byte instruction from the same line.
    pub fn inc(&mut self)
        requires
            old(self).run < usize::MAX,
            old(self).span < usize::MAX,
        ensures
            final(self)@ == old(self)@.inc(),
    {
        self.run = self.run + 1;
        self.span = self.span + 1;
    }

    /// Takes in one more operand byte of the last instruction of the run.
    pub fn widen(&mut self)
        requires
            old(self).span < usize::MAX,
        ensures
            final(self)@ == old(self)@.widen(),
    {
        self.span = self.span + 1;
    }
}

impl LineRun {
    /// The run with one more one-byte instruction.
    pub open spec fn inc(self) -> LineRun {
        LineRun { line: self.line, run: self.run + 1, span: self.span + 1 }
    }

    /// The run with one more operand byte.
    pub open spec fn widen(self) -> LineRun {
        LineRun { line: self.line, run: self.run, span: self.span + 1 }
    }
}

/// The table written out byte by byte: for each byte of code, the line of the
/// instruction that the byte belongs to.
pub open spec fn byte_lines(table: Seq<LineRun>) -> Seq<LineNum>
    decreases table.len(),
{
    if table.len() == 0 {
        Seq::empty()
    } else {
        byte_lines(table.drop_last()) + Seq::new(table.last().span, |i: int| table.last().line)
    }
}

/// The table written out instruction by instruction: the line of each
/// instruction, in the order of emission.
pub open spec fn unit_lines(table: Seq<LineRun>) -> Seq<LineNum>
    decreases table.len(),
{
    if table.len() == 0 {
        Seq::empty()
    } else {
        unit_lines(table.drop_last()) + Seq::new(table.last().run, |i: int| table.last().line)
    }
}

/// What makes a sequence of runs a line table: every run holds at least one
/// instruction, every instruction at least one byte, and no two neighbours
/// share a line.
pub open spec fn table_wf(table: Seq<LineRun>) -> bool {
    &&& forall|i: int| 0 <= i < table.len() ==> 1 <= (#[trigger] table[i]).run <= table[i].span
    &&& forall|i: int| 0 < i < table.len() ==> table[i - 1].line != (#[trigger] table[i]).line
}

/// The table after a one-byte instruction from `line` was recorded: the last
/// run grows where it is of the same line, and a new run starts otherwise.
pub open spec fn push_line(table: Seq<LineRun>, line: LineNum) -> Seq<LineRun> {
    if table.len() > 0 && table.last().line == line {
        table.update(table.len() - 1, table.last().inc())
    } else {
        table.push(LineRun { line, run: 1, span: 1 })
    }
}

/// The table after one more operand byte of the last instruction was recorded.
pub open spec fn widen_last(table: Seq<LineRun>) -> Seq<LineRun>
    recommends
        table.len() > 0,
{
    table.update(table.len() - 1, table.last().widen())
}

/// Recording an instruction keeps a table a table, adds one byte and one
/// instruction, both of the given line, and leaves what was recorded before.
pub proof fn lemma_push_line(table: Seq<LineRun>, line: LineNum)
    requires
        table_wf(table),
    ensures
        table_wf(push_line(table, line)),
        byte_lines(push_line(table, line)) == byte_lines(table).push(line),
        unit_lines(push_line(table, line)) == unit_lines(table).push(line),
{
    let after = push_line(table, line);
    if table.len() > 0 && table.last().line == line {
        assert(after.drop_last() == table.drop_last());
        assert(Seq::new(after.last().span, |i: int| line) == Seq::new(
            table.last().span,
            |i: int| line,
        ).push(line));
        assert(Seq::new(after.last().run, |i: int| line) == Seq::new(
            table.last().run,
            |i: int| line,
        ).push(line));
        assert(byte_lines(after) == byte_lines(table).push(line));
        assert(unit_lines(after) == unit_lines(table).push(line));
    } else {
        assert(after.drop_last() == table);
        assert(Seq::new(1, |i: int| line) == seq![line]);
        assert(byte_lines(after) == byte_lines(table).push(line));
        assert(unit_lines(after) == unit_lines(table).push(line));
    }
}

/// Recording an operand byte keeps a table a table, adds one byte of the
/// last instruction's line, and adds no instruction.
pub proof fn lemma_widen_last(table: Seq<LineRun>)
    requires
        table_wf(table),
        table.len() > 0,
    ensures
        table_wf(widen_last(table)),
        byte_lines(widen_last(table)) == byte_lines(table).push(table.last().line),
        unit_lines(widen_last(table)) == unit_lines(table),
        widen_last(table).len() == table.len(),
        widen_last(table).last().line == table.last().line,
{
    let after = widen_last(table);
    let line = table.last().line;
    assert(after.drop_last() == table.drop_last());
    assert(Seq::new(after.last().span, |i: int| line) == Seq::new(
        table.last().span,
        |i: int| line,
    ).push(line));
    assert(byte_lines(after) == byte_lines(table).push(line));
    assert(Seq::new(after.last().run, |i: int| line) == Seq::new(
        table.last().run,
        |i: int| line,
    ));
}

/// The bytes of a part of the table from its start are the first bytes of the
/// whole table.
pub proof fn lemma_byte_lines_prefix(table: Seq<LineRun>, count: int)
    requires
        0 <= count <= table.len(),
    ensures
        byte_lines(table.take(count)).is_prefix_of(byte_lines(table)),
    decreases table.len() - count,
{
    if count == table.len() {
        assert(table.take(count) == table);
    } else {
        lemma_byte_lines_prefix(table, count + 1);
        assert(table.take(count + 1).drop_last() == table.take(count));
    }
}

/// The `width` low base-256 digits of `index`, the most significant first.
pub open spec fn address_bytes(index: nat, width: nat) -> Seq<u8>
    decreases width,
{
    if width == 0 {
        Seq::empty()
    } else {
        address_bytes(index / 256, (width - 1) as nat).push((index % 256) as u8)
    }
}

/// The number that a sequence of base-256 digits stands for, the most
/// significant first.
pub open spec fn address_value(bytes: Seq<u8>) -> nat
    decreases bytes.len(),
{
    if bytes.len() == 0 {
        0
    } else {
        address_value(bytes.drop_last()) * 256 + bytes.last() as nat
    }
}

/// The limit below which an address fits into `width` bytes: 256 to the
/// power of `width`.
pub open spec fn address_limit(width: nat) -> nat
    decreases width,
{
    if width == 0 {
        1
    } else {
        256 * address_limit((width - 1) as nat)
    }
}

/// An address is written in as many bytes as were asked for.
pub proof fn lemma_address_bytes_len(index: nat, width: nat)
    ensures
        address_bytes(index, width).len() == width,
    decreases width,
{
    if width > 0 {
        lemma_address_bytes_len(index / 256, (width - 1) as nat);
    }
}

/// Decoding what was encoded gives the address back, for every address that
/// fits into the width.
pub proof fn lemma_address_round_trip(index: nat, width: nat)
    requires
        index < address_limit(width),
    ensures
        address_value(address_bytes(index, width)) == index,
    decreases width,
{
    if width > 0 {
        let rest = (width - 1) as nat;
        assert(index / 256 < address_limit(rest)) by (nonlinear_arith)
            requires
                index < 256 * address_limit(rest),
        ;
        lemma_address_round_trip(index / 256, rest);
        assert(address_bytes(index, width).drop_last() == address_bytes(index / 256, rest));
        assert((index / 256) * 256 + index % 256 == index) by (nonlinear_arith);
    }
}

/// Encoding what was decoded gives the bytes back.
pub proof fn lemma_address_bytes_of_value(bytes: Seq<u8>)
    ensures
        address_bytes(address_value(bytes), bytes.len()) == bytes,
        address_value(bytes) < address_limit(bytes.len()),
    decreases bytes.len(),
{
    if bytes.len() > 0 {
        let front = bytes.drop_last();
        let high = address_value(front);
        let low = bytes.last() as nat;
        lemma_address_bytes_of_value(front);
        assert((high * 256 + low) / 256 == high && (high * 256 + low) % 256 == low)
            by (nonlinear_arith)
            requires
                low < 256,
        ;
        assert(address_bytes(address_value(bytes), bytes.len()) == address_bytes(
            high,
            front.len(),
        ).push(low as u8));
        assert(front.push(bytes.last()) == bytes);
        assert(high * 256 + low < 256 * address_limit(front.len())) by (nonlinear_arith)
            requires
                high < address_limit(front.len()),
                low < 256,
        ;
    }
}

/// The one-byte and the three-byte form written out: a short address is its
/// own single byte, and the limit of a long address is 2 to the power of 24.
pub proof fn lemma_address_forms(index: nat)
    ensures
        address_limit(1) == 256,
        address_limit(3) == 16777216,
        address_bytes(index, 1) == seq![(index % 256) as u8],
        address_bytes(index, 3) == seq![
            (index / 65536 % 256) as u8,
            (index / 256 % 256) as u8,
            (index % 256) as u8,
        ],
{
    reveal_with_fuel(address_limit, 4);
    reveal_with_fuel(address_bytes, 4);
    assert(index / 256 / 256 == index / 65536) by (nonlinear_arith);
}

/// The number that one byte, and that three bytes, stand for.
pub proof fn lemma_address_value_forms(high: u8, middle: u8, low: u8)
    ensures
        address_value(seq![low]) == low,
        address_value(seq![high, middle, low]) == high * 65536 + middle * 256 + low,
{
    let one = seq![low];
    assert(one.drop_last() == Seq::<u8>::empty());
    reveal_with_fuel(address_value, 2);
    let three = seq![high, middle, low];
    let two = seq![high, middle];
    let top = seq![high];
    assert(three.drop_last() == two);
    assert(two.drop_last() == top);
    assert(top.drop_last() == Seq::<u8>::empty());
    assert(address_value(top) == high);
    assert(address_value(two) == high * 256 + middle);
}

/// Writes an address in `width` bytes, the most significant first. What does
/// not fit into the width is left out.
pub fn encode_address(index: usize, width: usize) -> (bytes: Vec<u8>)
    ensures
        bytes@ == address_bytes(index as nat, width as nat),
    decreases width,
{
    if width == 0 {
        Vec::new()
    } else {
        let mut bytes: Vec<u8> = encode_address(index / 256, width - 1);
        bytes.push((index % 256) as u8);
        bytes
    }
}

/// Reads the address that the `width` bytes of `code` from `start` on stand
/// for.
pub fn decode_address(code: &Vec<u8>, start: usize, width: usize) -> (index: usize)
    requires
        start + width <= code.len(),
        address_value(code@.subrange(start as int, start + width)) <= usize::MAX,
    ensures
        index == address_value(code@.subrange(start as int, start + width)),
{
    let ghost digits = code@.subrange(start as int, start + width);
    let mut index: usize = 0;
    let mut done: usize = 0;
    while done < width
        invariant
            done <= width,
            start + width <= code.len(),
            digits == code@.subrange(start as int, start + width),
            address_value(digits) <= usize::MAX,
            index == address_value(digits.take(done as int)),
        decreases width - done,
    {
        proof {
            lemma_address_value_prefix(digits, done + 1);
            assert(digits.take(done + 1).drop_last() == digits.take(done as int));
        }
        index = index * 256 + code[start + done] as usize;
        done = done + 1;
    }
    proof {
        assert(digits.take(width as int) == digits);
    }
    index
}

/// The first digits of a number stand for no more than the whole.
pub proof fn lemma_address_value_prefix(bytes: Seq<u8>, count: int)
    requires
        0 <= count <= bytes.len(),
    ensures
        address_value(bytes.take(count)) <= address_value(bytes),
    decreases bytes.len() - count,
{
    if count == bytes.len() {
        assert(bytes.take(count) == bytes);
    } else {
        lemma_address_value_prefix(bytes, count + 1);
        assert(bytes.take(count + 1).drop_last() == bytes.take(count));
    }
}

/// A chunk as a mathematical value.
pub struct ChunkView {
    /// The code bytes.
    pub code: Seq<u8>,
    /// The constant pool.
    pub constants: Seq<Value>,
    /// The line table.
    pub lines: Seq<LineRun>,
}

impl ChunkView {
    /// The chunk that holds nothing.
    pub open spec fn empty() -> ChunkView {
        ChunkView { code: Seq::empty(), constants: Seq::empty(), lines: Seq::empty() }
    }

    /// The line table is a table and accounts for every byte of code.
    pub open spec fn wf(self) -> bool {
        &&& table_wf(self.lines)
        &&& byte_lines(self.lines).len() == self.code.len()
    }

    /// The line of each instruction, in the order of emission.
    pub open spec fn instruction_lines(self) -> Seq<LineNum> {
        unit_lines(self.lines)
    }

    /// The line of the instruction that holds the byte at `offset`, and 0
    /// where the code has no such byte.
    pub open spec fn line_at(self, offset: int) -> LineNum {
        if 0 <= offset < byte_lines(self.lines).len() {
            byte_lines(self.lines)[offset]
        } else {
            0
        }
    }

    /// The pool index that the operand bytes of a load at `offset` stand for.
    pub open spec fn operand(self, offset: int, opcode: OpCode) -> nat {
        address_value(self.code.subrange(offset + 1, offset + 1 + opcode.operand_bytes()))
    }

    /// An instruction can be read at `offset`: the byte there lies in the
    /// code, and where it stands for an operation, so do all the operand
    /// bytes of the operation, and a load names an entry of the pool.
    pub open spec fn readable(self, offset: int) -> bool {
        &&& 0 <= offset < self.code.len()
        &&& match decode(self.code[offset]) {
            None => true,
            Some(opcode) => {
                &&& offset + opcode.operand_bytes() < self.code.len()
                &&& opcode.operand_bytes() > 0 ==> self.operand(offset, opcode)
                    < self.constants.len()
            },
        }
    }

    /// The chunk after a one-byte instruction from `line` was emitted.
    pub open spec fn write_byte(self, byte: u8, line: LineNum) -> ChunkView {
        ChunkView {
            code: self.code.push(byte),
            constants: self.constants,
            lines: push_line(self.lines, line),
        }
    }

    /// The chunk after one operand byte of its last instruction was emitted.
    pub open spec fn write_operand(self, byte: u8) -> ChunkView
        recommends
            self.lines.len() > 0,
    {
        ChunkView {
            code: self.code.push(byte),
            constants: self.constants,
            lines: widen_last(self.lines),
        }
    }

    /// The chunk after the operand bytes of its last instruction were
    /// emitted, the first of them first.
    pub open spec fn write_operands(self, bytes: Seq<u8>) -> ChunkView
        recommends
            self.lines.len() > 0,
        decreases bytes.len(),
    {
        if bytes.len() == 0 {
            self
        } else {
            self.write_operands(bytes.drop_last()).write_operand(bytes.last())
        }
    }

    /// The chunk after a value was added to its pool.
    pub open spec fn add_constant(self, value: Value) -> ChunkView {
        ChunkView { code: self.code, constants: self.constants.push(value), lines: self.lines }
    }

    /// The operation that loads the constant stored at `index`: the short
    /// form for the first 256 entries of the pool, the long form after them.
    pub open spec fn load_op(index: nat) -> OpCode {
        if index < 256 {
            OpCode::OpConstant
        } else {
            OpCode::OpConstantLong
        }
    }

    /// The chunk after a value was added to its pool and the instruction
    /// that loads it was emitted from `line`.
    pub open spec fn write_constant(self, value: Value, line: LineNum) -> ChunkView {
        let index = self.constants.len();
        let op = Self::load_op(index);
        self.write_byte(op.code(), line).add_constant(value).write_operands(
            address_bytes(index, op.operand_bytes()),
        )
    }
}

/// Emitting operand bytes keeps a chunk well formed, appends the bytes to the
/// code, gives each of them the line of the instruction emitted last, and
/// adds no instruction and no constant.
pub proof fn lemma_write_operands(chunk: ChunkView, bytes: Seq<u8>)
    requires
        chunk.wf(),
        chunk.lines.len() > 0,
    ensures
        chunk.write_operands(bytes).wf(),
        chunk.write_operands(bytes).code == chunk.code + bytes,
        chunk.write_operands(bytes).constants == chunk.constants,
        chunk.write_operands(bytes).lines.len() == chunk.lines.len(),
        chunk.write_operands(bytes).lines.last().line == chunk.lines.last().line,
        unit_lines(chunk.write_operands(bytes).lines) == unit_lines(chunk.lines),
        byte_lines(chunk.write_operands(bytes).lines) == byte_lines(chunk.lines) + Seq::new(
            bytes.len(),
            |i: int| chunk.lines.last().line,
        ),
    decreases bytes.len(),
{
    let line = chunk.lines.last().line;
    if bytes.len() == 0 {
        assert(chunk.code + bytes == chunk.code);
        assert(byte_lines(chunk.lines) + Seq::new(bytes.len(), |i: int| line) == byte_lines(
            chunk.lines,
        ));
    } else {
        let front = bytes.drop_last();
        let before = chunk.write_operands(front);
        lemma_write_operands(chunk, front);
        lemma_widen_last(before.lines);
        assert((chunk.code + front).push(bytes.last()) == chunk.code + bytes);
        assert((byte_lines(chunk.lines) + Seq::new(front.len(), |i: int| line)).push(line)
            == byte_lines(chunk.lines) + Seq::new(bytes.len(), |i: int| line));
    }
}

/// What emitting a constant does, written out: the pool gets the value at
/// its end; the code gets the load operation and the new entry's index (one
/// byte in the short form, three in the long one, the most significant
/// first); the line table gets one instruction and accounts for its bytes.
pub proof fn lemma_write_constant(chunk: ChunkView, value: Value, line: LineNum)
    requires
        chunk.wf(),
    ensures
        ({
            let after = chunk.write_constant(value, line);
            let index = chunk.constants.len();
            let op = ChunkView::load_op(index);
            &&& after.wf()
            &&& after.constants == chunk.constants.push(value)
            &&& after.code == chunk.code.push(op.code()) + address_bytes(
                index,
                op.operand_bytes(),
            )
            &&& after.code.len() == chunk.code.len() + 1 + op.operand_bytes()
            &&& after.instruction_lines() == chunk.instruction_lines().push(line)
            &&& byte_lines(after.lines) == byte_lines(chunk.lines) + Seq::new(
                1 + op.operand_bytes(),
                |i: int| line,
            )
        }),
{
    let index = chunk.constants.len();
    let op = ChunkView::load_op(index);
    let width = op.operand_bytes();
    let bytes = address_bytes(index, width);
    let opened = chunk.write_byte(op.code(), line).add_constant(value);
    let after = chunk.write_constant(value, line);
    lemma_push_line(chunk.lines, line);
    lemma_address_bytes_len(index, width);
    lemma_write_operands(opened, bytes);
    assert(byte_lines(chunk.lines).push(line) + Seq::new(width, |i: int| line) == byte_lines(
        chunk.lines,
    ) + Seq::new(1 + width, |i: int| line));
}

/// A unit of bytecode. It is built by the emitting methods and read by the
/// machine and the disassembler.
pub struct Chunk {
    code: Vec<u8>,
    constants: ValueArray,
    lines: Vec<LineEncoding>,
}

impl View for Chunk {
    type V = ChunkView;

    closed spec fn view(&self) -> ChunkView {
        ChunkView {
            code: self.code@,
            constants: self.constants@,
            lines: self.lines@.map_values(|entry: LineEncoding| entry@),
        }
    }
}

impl Chunk {
    /// The line table accounts for every byte of code. Every chunk that the
    /// methods of this type hand out is well formed.
    pub open spec fn wf(&self) -> bool {
        self@.wf()
    }

    /// The code and the pool are no longer than a machine can count.
    pub proof fn lemma_lengths_fit(&self)
        ensures
            self@.code.len() <= usize::MAX,
            self@.constants.len() <= usize::MAX,
    {
        assert(self.code.len() == self.code@.len());
        assert(self.constants.values.len() == self.constants@.len());
    }

    /// The empty chunk.
    pub fn new() -> (chunk: Chunk)
        ensures
            chunk.wf(),
            chunk@ == ChunkView::empty(),
    {
        let chunk = Chunk { code: Vec::new(), constants: ValueArray::new(), lines: Vec::new() };
        assert(chunk@.lines == Seq::<LineRun>::empty());
        chunk
    }

    /// The number of code bytes.
    pub fn len(&self) -> (len: usize)
        ensures
            len == self@.code.len(),
    {
        self.code.len()
    }

    /// The number of entries of the line table.
    pub fn line_entries(&self) -> (count: usize)
        ensures
            count == self@.lines.len(),
    {
        self.lines.len()
    }

    /// The code bytes.
    pub fn code(&self) -> (code: &Vec<u8>)
        ensures
            code@ == self@.code,
    {
        &self.code
    }

    /// The constant pool.
    pub fn constants(&self) -> (constants: &ValueArray)
        ensures
            constants@ == self@.constants,
    {
        &self.constants
    }

    /// Tells whether an instruction can be read at `offset`.
    pub fn holds_instruction(&self, offset: usize) -> (holds: bool)
        ensures
            holds == self@.readable(offset as int),
    {
        if offset >= self.code.len() {
            return false;
        }
        match OpCode::from_u8(self.code[offset]) {
            None => true,
            Some(opcode) => {
                let width: usize = opcode.operand_width();
                if width >= self.code.len() - offset {
                    return false;
                }
                if width == 0 {
                    return true;
                }
                proof {
                    lemma_operand_fits(self@, offset as int, opcode);
                }
                decode_address(&self.code, offset + 1, width) < self.constants.len()
            },
        }
    }

    /// Reads the pool index that the operand bytes of the load at `offset`
    /// stand for.
    pub fn read_operand(&self, offset: usize, opcode: OpCode) -> (index: usize)
        requires
            offset + opcode.operand_bytes() < self@.code.len(),
        ensures
            index == self@.operand(offset as int, opcode),
    {
        proof {
            lemma_operand_fits(self@, offset as int, opcode);
            self.lemma_lengths_fit();
        }
        decode_address(&self.code, offset + 1, opcode.operand_width())
    }

    /// Emits a one-byte instruction from `line`.
    pub fn write_byte(&mut self, byte: u8, line: LineNum)
        requires
            old(self).wf(),
        ensures
            final(self).wf(),
            final(self)@ == old(self)@.write_byte(byte, line),
            final(self)@.instruction_lines() == old(self)@.instruction_lines().push(line),
            final(self)@.line_at(old(self)@.code.len() as int) == line,
            forall|offset: int|
                0 <= offset < old(self)@.code.len()
                    ==> final(self)@.line_at(offset) == old(self)@.line_at(offset),
    {
        proof {
            lemma_push_line(self@.lines, line);
        }
        self.code.push(byte);
        let ghost length = self.code.len();
        self.push_line(line);
    }

    /// Emits an operation from `line`.
    pub fn write_op(&mut self, opcode: OpCode, line: LineNum)
        requires
            old(self).wf(),
        ensures
            final(self).wf(),
            final(self)@ == old(self)@.write_byte(opcode.code(), line),
            final(self)@.instruction_lines() == old(self)@.instruction_lines().push(line),
            final(self)@.line_at(old(self)@.code.len() as int) == line,
            forall|offset: int|
                0 <= offset < old(self)@.code.len()
                    ==> final(self)@.line_at(offset) == old(self)@.line_at(offset),
    {
        match opcode.to_u8() {
            Some(byte) => self.write_byte(byte, line),
            None => unreached(),
        }
    }

    /// Adds a value to the pool and emits, from `line`, the instruction that
    /// loads it: the short form with a one-byte index while the pool holds
    /// fewer than 256 entries, and the long form with a three-byte index, the
    /// most significant byte first, after that.
    pub fn write_constant(&mut self, value: Value, line: LineNum)
        requires
            old(self).wf(),
        ensures
            final(self).wf(),
            final(self)@ == old(self)@.write_constant(value, line),
            final(self)@.constants == old(self)@.constants.push(value),
            final(self)@.code == old(self)@.code.push(
                ChunkView::load_op(old(self)@.constants.len()).code(),
            ) + address_bytes(
                old(self)@.constants.len(),
                ChunkView::load_op(old(self)@.constants.len()).operand_bytes(),
            ),
            final(self)@.instruction_lines() == old(self)@.instruction_lines().push(line),
            forall|offset: int|
                old(self)@.code.len() <= offset < final(self)@.code.len()
                    ==> final(self)@.line_at(offset) == line,
            forall|offset: int|
                0 <= offset < old(self)@.code.len()
                    ==> final(self)@.line_at(offset) == old(self)@.line_at(offset),
    {
        proof {
            lemma_write_constant(self@, value, line);
            lemma_push_line(self@.lines, line);
        }
        let op = if self.constants.len() < 256 {
            OpCode::OpConstant
        } else {
            OpCode::OpConstantLong
        };
        self.write_op(op, line);
        let index: usize = self.add_constant(value);
        let bytes = encode_address(index, op.operand_width());
        let ghost opened = self@;
        let mut done: usize = 0;
        while done < bytes.len()
            invariant
                done <= bytes.len(),
                opened.wf(),
                opened.lines.len() > 0,
                self@ == opened.write_operands(bytes@.take(done as int)),
            decreases bytes.len() - done,
        {
            proof {
                lemma_write_operands(opened, bytes@.take(done as int));
                assert(bytes@.take(done + 1).drop_last() == bytes@.take(done as int));
            }
            self.write_operand(bytes[done]);
            done = done + 1;
        }
        proof {
            assert(bytes@.take(done as int) == bytes@);
        }
    }

    /// Adds a value to the pool and returns its index, which stays the
    /// value's index from then on.
    pub fn add_constant(&mut self, value: Value) -> (index: usize)
        ensures
            index == old(self)@.constants.len(),
            final(self)@ == old(self)@.add_constant(value),
            old(self).wf() ==> final(self).wf(),
    {
        self.constants.write_value(value);
        self.constants.len() - 1
    }

    /// The source line of the instruction that holds the byte at `offset`,
    /// and 0 where the code has no such byte.
    pub fn get_line(&self, offset: usize) -> (line: LineNum)
        requires
            self.wf(),
        ensures
            line == self@.line_at(offset as int),
    {
        let ghost table = self@.lines;
        let mut covered: usize = 0;
        let mut at: usize = 0;
        while at < self.lines.len()
            invariant
                at <= self.lines.len(),
                table == self@.lines,
                byte_lines(table).len() == self.code.len(),
                covered == byte_lines(table.take(at as int)).len(),
                covered <= offset,
            decreases self.lines.len() - at,
        {
            proof {
                lemma_byte_lines_prefix(table, at + 1);
                assert(table.take(at + 1).drop_last() == table.take(at as int));
            }
            let ghost before = covered;
            covered = covered + self.lines[at].span;
            if offset < covered {
                proof {
                    let part = byte_lines(table.take(at + 1));
                    assert(part[offset as int] == Seq::new(
                        table[at as int].span,
                        |i: int| table[at as int].line,
                    )[offset - before]);
                    assert(byte_lines(table)[offset as int] == part[offset as int]);
                }
                return self.lines[at].line;
            }
            at = at + 1;
        }
        proof {
            assert(table.take(at as int) == table);
        }
        0
    }

    /// Emits one operand byte of the instruction emitted last.
    fn write_operand(&mut self, byte: u8)
        requires
            old(self).wf(),
            old(self)@.lines.len() > 0,
        ensures
            final(self)@ == old(self)@.write_operand(byte),
    {
        self.code.push(byte);
        let ghost length = self.code.len();
        let last: usize = self.lines.len() - 1;
        assert(byte_lines(old(self)@.lines).len() >= old(self)@.lines.last().span);
        self.lines[last].widen();
        assert(self@.lines == widen_last(old(self)@.lines));
    }

    /// Records the line of a one-byte instruction: the last entry of the
    /// table grows where it is of the same line, and a new entry starts
    /// otherwise.
    fn push_line(&mut self, line: LineNum)
        requires
            table_wf(old(self)@.lines),
            byte_lines(old(self)@.lines).len() < usize::MAX,
        ensures
            final(self)@.lines == push_line(old(self)@.lines, line),
            final(self)@.code == old(self)@.code,
            final(self)@.constants == old(self)@.constants,
    {
        if self.lines.len() > 0 {
            let last: usize = self.lines.len() - 1;
            if self.lines[last].line == line {
                assert(byte_lines(self@.lines).len() >= self@.lines.last().span);
                self.lines[last].inc();
                assert(self@.lines == push_line(old(self)@.lines, line));
                return ;
            }
        }
        self.lines.push(LineEncoding::new(line));
        assert(self@.lines == push_line(old(self)@.lines, line));
    }
}

/// The operand of an instruction that lies in the code is a number below 2
/// to the power of 24, which every machine can hold.
pub proof fn lemma_operand_fits(chunk: ChunkView, offset: int, opcode: OpCode)
    requires
        0 <= offset,
        offset + opcode.operand_bytes() < chunk.code.len(),
    ensures
        chunk.operand(offset, opcode) < 16777216,
        chunk.operand(offset, opcode) <= usize::MAX,
{
    let bytes = chunk.code.subrange(offset + 1, offset + 1 + opcode.operand_bytes());
    lemma_address_bytes_of_value(bytes);
    reveal_with_fuel(address_limit, 4);
}

/// The three-byte form gives back every index below 2 to the power of 24.
pub proof fn lemma_long_address_round_trip(index: nat)
    requires
        index < 16777216,
    ensures
        address_bytes(index, 3).len() == 3,
        address_value(address_bytes(index, 3)) == index,
{
    reveal_with_fuel(address_limit, 4);
    lemma_address_bytes_len(index, 3);
    lemma_address_round_trip(index, 3);
}

} // verus!
