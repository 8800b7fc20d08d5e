//! Sequences of emissions, and what holds of the chunk that they build.

use vstd::prelude::*;
use crate::chunk::{
    byte_lines, lemma_push_line, lemma_write_constant, table_wf, unit_lines, ChunkView, LineNum,
    LineRun,
};
use crate::opcode::OpCode;
use crate::value::Value;

verus! {

/// One call of an emitting method of a chunk.
pub enum Emission {
    /// `write_byte`
    Byte { byte: u8, line: LineNum },
    /// `write_op`
    Op { opcode: OpCode, line: LineNum },
    /// `write_constant`
    Constant { value: Value, line: LineNum },
}

impl Emission {
    /// The source line that the call names.
    pub open spec fn line(self) -> LineNum {
        match self {
            Emission::Byte { line, .. } => line,
            Emission::Op { line, .. } => line,
            Emission::Constant { line, .. } => line,
        }
    }
}

impl ChunkView {
    /// The chunk after one emission.
    pub open spec fn emit(self, emission: Emission) -> ChunkView {
        match emission {
            Emission::Byte { byte, line } => self.write_byte(byte, line),
            Emission::Op { opcode, line } => self.write_byte(opcode.code(), line),
            Emission::Constant { value, line } => self.write_constant(value, line),
        }
    }

    /// The chunk after a sequence of emissions, the first of them first.
    pub open spec fn emit_all(self, emissions: Seq<Emission>) -> ChunkView
        decreases emissions.len(),
    {
        if emissions.len() == 0 {
            self
        } else {
            self.emit_all(emissions.drop_last()).emit(emissions.last())
        }
    }
}

/// The lines that a sequence of emissions names, in order.
pub open spec fn emitted_lines(emissions: Seq<Emission>) -> Seq<LineNum> {
    emissions.map_values(|emission: Emission| emission.line())
}

/// One emission keeps a chunk well formed, adds at least one byte of code,
/// records one instruction, and gives every byte that it adds its own line.
/// The code, the pool and the lines that were there stay.
pub proof fn lemma_emit(chunk: ChunkView, emission: Emission)
    requires
        chunk.wf(),
    ensures
        chunk.emit(emission).wf(),
        chunk.emit(emission).code.len() > chunk.code.len(),
        chunk.code.is_prefix_of(chunk.emit(emission).code),
        chunk.constants.is_prefix_of(chunk.emit(emission).constants),
        chunk.emit(emission).instruction_lines() == chunk.instruction_lines().push(
            emission.line(),
        ),
        byte_lines(chunk.emit(emission).lines) == byte_lines(chunk.lines) + Seq::new(
            (chunk.emit(emission).code.len() - chunk.code.len()) as nat,
            |i: int| emission.line(),
        ),
{
    let line = emission.line();
    match emission {
        Emission::Constant { value, line } => {
            lemma_write_constant(chunk, value, line);
        },
        _ => {
            lemma_push_line(chunk.lines, line);
            assert(byte_lines(chunk.lines).push(line) == byte_lines(chunk.lines) + Seq::new(
                1,
                |i: int| line,
            ));
        },
    }
}

/// A sequence of emissions keeps a chunk well formed, leaves the code and
/// the pool that were there and only adds to them, records one instruction
/// for each emission, and leaves the line of every byte that was there
/// before.
pub proof fn lemma_emit_all(chunk: ChunkView, emissions: Seq<Emission>)
    requires
        chunk.wf(),
    ensures
        chunk.emit_all(emissions).wf(),
        chunk.code.is_prefix_of(chunk.emit_all(emissions).code),
        chunk.constants.is_prefix_of(chunk.emit_all(emissions).constants),
        chunk.emit_all(emissions).instruction_lines() == chunk.instruction_lines()
            + emitted_lines(emissions),
        byte_lines(chunk.lines).is_prefix_of(byte_lines(chunk.emit_all(emissions).lines)),
    decreases emissions.len(),
{
    if emissions.len() == 0 {
        assert(chunk.instruction_lines() + emitted_lines(emissions) == chunk.instruction_lines());
    } else {
        let front = emissions.drop_last();
        lemma_emit_all(chunk, front);
        lemma_emit(chunk.emit_all(front), emissions.last());
        assert((chunk.instruction_lines() + emitted_lines(front)).push(emissions.last().line())
            == chunk.instruction_lines() + emitted_lines(emissions));
    }
}

/// Emitting a sequence in two parts is emitting the whole.
pub proof fn lemma_emit_all_split(chunk: ChunkView, emissions: Seq<Emission>, count: int)
    requires
        0 <= count <= emissions.len(),
    ensures
        chunk.emit_all(emissions) == chunk.emit_all(emissions.take(count)).emit_all(
            emissions.skip(count),
        ),
    decreases emissions.len() - count,
{
    let rest = emissions.skip(count);
    if count == emissions.len() {
        assert(emissions.take(count) == emissions);
    } else {
        let front = emissions.drop_last();
        lemma_emit_all_split(chunk, front, count);
        assert(front.take(count) == emissions.take(count));
        assert(front.skip(count) == rest.drop_last());
    }
}

/// Whatever is emitted, and whatever is emitted after it, the line that the
/// table gives for a byte is the line named by the emission that wrote the
/// byte: emission number `which` wrote the bytes from the end of the code as
/// it stood before that emission up to the end of the code as it stood after.
pub proof fn lemma_line_recorded(
    chunk: ChunkView,
    emissions: Seq<Emission>,
    which: int,
    offset: int,
)
    requires
        chunk.wf(),
        0 <= which < emissions.len(),
        chunk.emit_all(emissions.take(which)).code.len() <= offset,
        offset < chunk.emit_all(emissions.take(which + 1)).code.len(),
    ensures
        0 <= offset < chunk.emit_all(emissions).code.len(),
        chunk.emit_all(emissions).line_at(offset) == emissions[which].line(),
{
    let before = chunk.emit_all(emissions.take(which));
    let after = chunk.emit_all(emissions.take(which + 1));
    let whole = chunk.emit_all(emissions);
    lemma_emit_all(chunk, emissions.take(which));
    assert(emissions.take(which + 1).drop_last() == emissions.take(which));
    lemma_emit(before, emissions[which]);
    lemma_emit_all_split(chunk, emissions, which + 1);
    lemma_emit_all(after, emissions.skip(which + 1));
    assert(byte_lines(after.lines)[offset] == emissions[which].line());
    assert(byte_lines(whole.lines)[offset] == byte_lines(after.lines)[offset]);
}

/// The last entry of a table is the line of the last instruction.
pub proof fn lemma_last_unit_line(table: Seq<LineRun>)
    requires
        table_wf(table),
        table.len() > 0,
    ensures
        unit_lines(table).len() > 0,
        unit_lines(table).last() == table.last().line,
{
}

/// No two neighbours in a sequence of lines are the same line.
pub open spec fn lines_alternate(lines: Seq<LineNum>) -> bool {
    forall|i: int| 0 < i < lines.len() ==> lines[i - 1] != #[trigger] lines[i]
}

/// A line table never has more entries than there are instructions, and it
/// has as many exactly when no two consecutive instructions share a line.
pub proof fn lemma_entries_at_most_instructions(table: Seq<LineRun>)
    requires
        table_wf(table),
    ensures
        table.len() <= unit_lines(table).len(),
        table.len() == unit_lines(table).len() <==> lines_alternate(unit_lines(table)),
    decreases table.len(),
{
    if table.len() > 0 {
        let front = table.drop_last();
        let last = table.last();
        let units = unit_lines(table);
        let before = unit_lines(front);
        lemma_entries_at_most_instructions(front);
        assert(units == before + Seq::new(last.run, |i: int| last.line));
        if front.len() > 0 {
            lemma_last_unit_line(front);
            assert(front.last() == table[table.len() - 2]);
        }
        if table.len() == units.len() {
            assert(last.run == 1);
            assert forall|i: int| 0 < i < units.len() implies units[i - 1] != #[trigger] units[i] by {
                if i < before.len() {
                    assert(units[i] == before[i]);
                    assert(units[i - 1] == before[i - 1]);
                } else {
                    assert(units[i] == last.line);
                    assert(units[i - 1] == before.last());
                }
            }
        }
        if lines_alternate(units) {
            if last.run > 1 {
                let i: int = before.len() as int + 1;
                assert(units[i] == last.line);
                assert(units[i - 1] == last.line);
            }
            assert forall|i: int| 0 < i < before.len() implies before[i - 1] != #[trigger] before[i] by {
                assert(units[i] == before[i]);
                assert(units[i - 1] == before[i - 1]);
            }
        }
    }
}

/// In a chunk built from nothing by emissions, the instructions are the
/// emissions: the table holds at most one entry for each emission, and
/// exactly one for each when no two consecutive emissions name the same line.
pub proof fn lemma_entries_at_most_emissions(emissions: Seq<Emission>)
    ensures
        ChunkView::empty().emit_all(emissions).instruction_lines() == emitted_lines(emissions),
        ChunkView::empty().emit_all(emissions).lines.len() <= emissions.len(),
        ChunkView::empty().emit_all(emissions).lines.len() == emissions.len() <==> forall|i: int|
            0 < i < emissions.len() ==> emissions[i - 1].line() != (#[trigger] emissions[i]).line(),
{
    let start = ChunkView::empty();
    let built = start.emit_all(emissions);
    let lines = emitted_lines(emissions);
    lemma_emit_all(start, emissions);
    assert(start.instruction_lines() + lines == lines);
    lemma_entries_at_most_instructions(built.lines);
    if lines_alternate(lines) {
        assert forall|i: int| 0 < i < emissions.len() implies emissions[i - 1].line()
            != (#[trigger] emissions[i]).line() by {
            assert(lines[i - 1] != lines[i]);
        }
    }
    if forall|i: int|
        0 < i < emissions.len() ==> emissions[i - 1].line() != (#[trigger] emissions[i]).line() {
        assert forall|i: int| 0 < i < lines.len() implies lines[i - 1] != #[trigger] lines[i] by {
            assert(emissions[i - 1].line() != emissions[i].line());
        }
    }
}

} // verus!
