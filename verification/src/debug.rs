//! The disassembler: a listing of the instructions of a chunk, one row for
//! each, for a reader to look at.

use vstd::prelude::*;
use vstd::string::*;
use crate::chunk::{Chunk, ChunkView, LineNum};
use crate::opcode::{decode, OpCode};
use crate::value::Value;

verus! {

/// What the disassembler found at an offset.
#[derive(Clone, Copy, Debug, PartialEq, Eq, Structural)]
pub enum Decoded {
    /// An operation without operands.
    Simple { opcode: OpCode },
    /// A load, with the pool index that its operand bytes stand for and the
    /// constant stored there.
    Constant { opcode: OpCode, index: usize, value: Value },
    /// A byte that stands for no operation.
    Unknown { byte: u8 },
}

/// One row of a listing.
#[derive(Clone, Copy, Debug, PartialEq, Eq, Structural)]
pub struct Row {
    /// The offset of the instruction in the code.
    pub offset: usize,
    /// The source line of the instruction, or nothing where it is the line
    /// of the instruction before: the row then shows a continuation mark.
    pub line: Option<LineNum>,
    /// The instruction.
    pub found: Decoded,
}

/// The line field of the row for the instruction at `offset`.
pub open spec fn line_field(chunk: ChunkView, offset: int) -> Option<LineNum> {
    if offset > 0 && chunk.line_at(offset) == chunk.line_at(offset - 1) {
        None
    } else {
        Some(chunk.line_at(offset))
    }
}

/// What stands at `offset`.
pub open spec fn found_at(chunk: ChunkView, offset: int) -> Decoded
    recommends
        chunk.readable(offset),
{
    match decode(chunk.code[offset]) {
        None => Decoded::Unknown { byte: chunk.code[offset] },
        Some(opcode) => if opcode.operand_bytes() > 0 {
            Decoded::Constant {
                opcode,
                index: chunk.operand(offset, opcode) as usize,
                value: chunk.constants[chunk.operand(offset, opcode) as int],
            }
        } else {
            Decoded::Simple { opcode }
        },
    }
}

/// The number of bytes that the instruction at `offset` takes: the code byte
/// and the operand bytes. A byte that stands for no operation takes one.
pub open spec fn width_at(chunk: ChunkView, offset: int) -> nat {
    match decode(chunk.code[offset]) {
        None => 1,
        Some(opcode) => opcode.operand_bytes() + 1,
    }
}

/// The row for the instruction at `offset`.
pub open spec fn row_at(chunk: ChunkView, offset: int) -> Row
    recommends
        chunk.readable(offset),
{
    Row { offset: offset as usize, line: line_field(chunk, offset), found: found_at(chunk, offset) }
}

/// Every instruction from `offset` on can be read, each where the one before
/// ends, up to the end of the code.
pub open spec fn listable(chunk: ChunkView, offset: int) -> bool
    decreases chunk.code.len() - offset,
{
    offset >= chunk.code.len() || (chunk.readable(offset) && listable(
        chunk,
        offset + width_at(chunk, offset),
    ))
}

/// The rows for the instructions from `offset` on, each read where the one
/// before ends, as far as instructions can be read.
pub open spec fn listing(chunk: ChunkView, offset: int) -> Seq<Row>
    decreases chunk.code.len() - offset,
{
    if chunk.readable(offset) {
        listing(chunk, offset + width_at(chunk, offset)).insert(0, row_at(chunk, offset))
    } else {
        Seq::empty()
    }
}

/// Tells whether the whole of `chunk` can be disassembled.
pub fn is_listable(chunk: &Chunk) -> (ok: bool)
    ensures
        ok == listable(chunk@, 0),
{
    let code = chunk.code();
    let mut offset: usize = 0;
    while offset < code.len()
        invariant
            code@ == chunk@.code,
            listable(chunk@, 0) == listable(chunk@, offset as int),
        decreases code.len() - offset,
    {
        if !chunk.holds_instruction(offset) {
            return false;
        }
        offset = offset + instruction_width(code[offset]);
    }
    true
}

/// The number of bytes that an instruction with the given code byte takes.
fn instruction_width(byte: u8) -> (width: usize)
    ensures
        width == match decode(byte) {
            None => 1,
            Some(opcode) => 1 + opcode.operand_bytes(),
        },
{
    match OpCode::from_u8(byte) {
        None => 1,
        Some(opcode) => 1 + opcode.operand_width(),
    }
}

/// Lists the chunk: a heading with the given name, and one row for each
/// instruction, from the start of the code to its end.
pub fn disassemble_chunk(chunk: &Chunk, name: &str) -> (listed: (String, Vec<Row>))
    requires
        chunk.wf(),
        listable(chunk@, 0),
    ensures
        listed.0@ == header_text(name@),
        listed.1@ == listing(chunk@, 0),
{
    let heading = header(name);
    let mut rows: Vec<Row> = Vec::new();
    let mut offset: usize = 0;
    while offset < chunk.len()
        invariant
            chunk.wf(),
            listable(chunk@, offset as int),
            listing(chunk@, 0) == rows@ + listing(chunk@, offset as int),
        decreases chunk@.code.len() - offset,
    {
        let (row, next) = disassemble_instruction(chunk, offset);
        proof {
            assert(rows@.push(row) + listing(chunk@, next as int) == rows@ + listing(
                chunk@,
                offset as int,
            ));
        }
        rows.push(row);
        offset = next;
    }
    proof {
        assert(rows@ + listing(chunk@, offset as int) == rows@);
    }
    (heading, rows)
}

/// Reads the instruction at `offset`: gives its row and the offset at which
/// the next instruction starts. The row shows the source line only where it
/// is not that of the instruction before. A load is shown with the constant
/// that it names. A byte that stands for no operation is shown as such and
/// taken for an instruction of one byte.
pub fn disassemble_instruction(chunk: &Chunk, offset: usize) -> (found: (Row, usize))
    requires
        chunk.wf(),
        chunk@.readable(offset as int),
    ensures
        found.0 == row_at(chunk@, offset as int),
        found.1 == offset + width_at(chunk@, offset as int),
{
    proof {
        chunk.lemma_lengths_fit();
    }
    let line = if offset > 0 && chunk.get_line(offset) == chunk.get_line(offset - 1) {
        None
    } else {
        Some(chunk.get_line(offset))
    };
    let instruction: u8 = chunk.code()[offset];
    match OpCode::from_u8(instruction) {
        Some(opcode) => match opcode {
            OpCode::OpConstant => constant_instruction(opcode, line, chunk, offset),
            OpCode::OpConstantLong => constant_long_instruction(opcode, line, chunk, offset),
            _ => simple_instruction(opcode, line, offset),
        },
        None => {
            (Row { offset, line, found: Decoded::Unknown { byte: instruction } }, offset + 1)
        },
    }
}

/// The row of a load with a one-byte operand.
fn constant_instruction(opcode: OpCode, line: Option<LineNum>, chunk: &Chunk, offset: usize) -> (found:
    (Row, usize))
    requires
        opcode == OpCode::OpConstant,
        chunk@.readable(offset as int),
        decode(chunk@.code[offset as int]) == Some(opcode),
    ensures
        found.0 == (Row { offset, line, found: found_at(chunk@, offset as int) }),
        found.1 == offset + 2,
{
    proof {
        chunk.lemma_lengths_fit();
    }
    let index: usize = chunk.read_operand(offset, opcode);
    let value = chunk.constants().values[index];
    (Row { offset, line, found: Decoded::Constant { opcode, index, value } }, offset + 2)
}

/// The row of a load with a three-byte operand.
fn constant_long_instruction(
    opcode: OpCode,
    line: Option<LineNum>,
    chunk: &Chunk,
    offset: usize,
) -> (found: (Row, usize))
    requires
        opcode == OpCode::OpConstantLong,
        chunk@.readable(offset as int),
        decode(chunk@.code[offset as int]) == Some(opcode),
    ensures
        found.0 == (Row { offset, line, found: found_at(chunk@, offset as int) }),
        found.1 == offset + 4,
{
    proof {
        chunk.lemma_lengths_fit();
    }
    let index: usize = chunk.read_operand(offset, opcode);
    let value = chunk.constants().values[index];
    (Row { offset, line, found: Decoded::Constant { opcode, index, value } }, offset + 4)
}

/// The row of an operation without operands.
fn simple_instruction(opcode: OpCode, line: Option<LineNum>, offset: usize) -> (found: (
    Row,
    usize,
))
    requires
        opcode.operand_bytes() == 0,
        offset < usize::MAX,
    ensures
        found.0 == (Row { offset, line, found: Decoded::Simple { opcode } }),
        found.1 == offset + 1,
{
    (Row { offset, line, found: Decoded::Simple { opcode } }, offset + 1)
}

/// The text of a decimal digit.
pub open spec fn digit(digit: nat) -> Seq<char>
    recommends
        digit < 10,
{
    if digit == 0 {
        "0"@
    } else if digit == 1 {
        "1"@
    } else if digit == 2 {
        "2"@
    } else if digit == 3 {
        "3"@
    } else if digit == 4 {
        "4"@
    } else if digit == 5 {
        "5"@
    } else if digit == 6 {
        "6"@
    } else if digit == 7 {
        "7"@
    } else if digit == 8 {
        "8"@
    } else {
        "9"@
    }
}

/// A number in decimal digits, without leading zeros.
pub open spec fn decimal(number: nat) -> Seq<char>
    decreases number,
{
    if number < 10 {
        digit(number)
    } else {
        decimal(number / 10) + digit(number % 10)
    }
}

/// A piece of text `count` times over.
pub open spec fn repeated(piece: Seq<char>, count: nat) -> Seq<char>
    decreases count,
{
    if count == 0 {
        Seq::empty()
    } else {
        repeated(piece, (count - 1) as nat) + piece
    }
}

/// The number of fillers that bring a text of `length` characters to `width`.
pub open spec fn padding(length: nat, width: nat) -> nat {
    if length < width {
        (width - length) as nat
    } else {
        0
    }
}

/// A text moved to the right end of a field of `width` characters, with
/// `filler` before it. A text longer than the field stays as it is.
pub open spec fn right_justified(text: Seq<char>, width: nat, filler: Seq<char>) -> Seq<char> {
    repeated(filler, padding(text.len(), width)) + text
}

/// A text at the left end of a field of `width` characters, with spaces
/// after it. A text longer than the field stays as it is.
pub open spec fn left_justified(text: Seq<char>, width: nat) -> Seq<char> {
    text + repeated(" "@, padding(text.len(), width))
}

/// The heading of a listing.
pub open spec fn header_text(name: Seq<char>) -> Seq<char> {
    "== "@ + name + " =="@
}

/// A row as a line of text: the offset in four digits; the source line in
/// a field of four, or the continuation mark; then the name of the
/// operation. A load goes on with its pool index in a field of four and,
/// between quotes, the text of the constant. A byte that stands for no
/// operation is shown as a number.
pub open spec fn row_text(row: Row, constant: Seq<char>) -> Seq<char> {
    right_justified(decimal(row.offset as nat), 4, "0"@) + " "@ + (match row.line {
        None => "   | "@,
        Some(line) => right_justified(decimal(line as nat), 4, " "@) + " "@,
    }) + (match row.found {
        Decoded::Simple { opcode } => opcode.mnemonic_text(),
        Decoded::Constant { opcode, index, .. } => left_justified(opcode.mnemonic_text(), 16)
            + " "@ + right_justified(decimal(index as nat), 4, " "@) + " '"@ + constant + "'"@,
        Decoded::Unknown { byte } => "Unknown opcode "@ + decimal(byte as nat),
    })
}

/// The text of a decimal digit.
fn digit_text(digit: usize) -> (text: &'static str)
    requires
        digit < 10,
    ensures
        text@ == self::digit(digit as nat),
{
    match digit {
        0 => "0",
        1 => "1",
        2 => "2",
        3 => "3",
        4 => "4",
        5 => "5",
        6 => "6",
        7 => "7",
        8 => "8",
        _ => "9",
    }
}

/// Writes a number in decimal digits, without leading zeros.
pub fn decimal_text(number: usize) -> (text: String)
    ensures
        text@ == decimal(number as nat),
    decreases number,
{
    if number < 10 {
        String::from_str(digit_text(number))
    } else {
        let mut text = decimal_text(number / 10);
        text.append(digit_text(number % 10));
        text
    }
}

/// Appends a piece of text `count` times.
fn append_repeated(text: &mut String, piece: &str, count: usize)
    ensures
        final(text)@ == old(text)@ + repeated(piece@, count as nat),
{
    let mut done: usize = 0;
    while done < count
        invariant
            done <= count,
            text@ == old(text)@ + repeated(piece@, done as nat),
        decreases count - done,
    {
        text.append(piece);
        done = done + 1;
    }
}

/// Moves a text to the right end of a field of `width` characters, with
/// `filler` before it.
pub fn right_justify(text: &str, width: usize, filler: &str) -> (field: String)
    ensures
        field@ == right_justified(text@, width as nat, filler@),
{
    let length: usize = text.unicode_len();
    let mut field = String::new();
    if length < width {
        append_repeated(&mut field, filler, width - length);
    }
    field.append(text);
    field
}

/// Puts a text at the left end of a field of `width` characters, with spaces
/// after it.
pub fn left_justify(text: &str, width: usize) -> (field: String)
    ensures
        field@ == left_justified(text@, width as nat),
{
    let length: usize = text.unicode_len();
    let mut field = String::from_str(text);
    if length < width {
        append_repeated(&mut field, " ", width - length);
    }
    field
}

/// The heading of the listing of a chunk with the given name.
fn header(name: &str) -> (text: String)
    ensures
        text@ == header_text(name@),
{
    let mut text = String::from_str("== ");
    text.append(name);
    text.append(" ==");
    text
}

impl Row {
    /// The row as a line of text. `constant` is the text of the constant
    /// that a load names; the rows of other instructions do not show it.
    pub fn text(&self, constant: &str) -> (text: String)
        ensures
            text@ == row_text(*self, constant@),
    {
        let mut text = right_justify(decimal_text(self.offset).as_str(), 4, "0");
        text.append(" ");
        match self.line {
            None => {
                text.append("   | ");
            },
            Some(line) => {
                text.append(right_justify(decimal_text(line as usize).as_str(), 4, " ").as_str());
                text.append(" ");
            },
        }
        match self.found {
            Decoded::Simple { opcode } => {
                text.append(opcode.mnemonic());
            },
            Decoded::Constant { opcode, index, .. } => {
                text.append(left_justify(opcode.mnemonic(), 16).as_str());
                text.append(" ");
                text.append(right_justify(decimal_text(index).as_str(), 4, " ").as_str());
                text.append(" '");
                text.append(constant);
                text.append("'");
            },
            Decoded::Unknown { byte } => {
                text.append("Unknown opcode ");
                text.append(decimal_text(byte as usize).as_str());
            },
        }
        text
    }
}

} // verus!
