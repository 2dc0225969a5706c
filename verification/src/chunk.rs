//! The bytecode container: an instruction stream, the pool of constants it
//! refers to, and a run-length table from code offsets to source lines.
use crate::opcode::Opcode;
use crate::value::{Value, ValueView};
use vstd::prelude::*;

verus! {

/// The largest number of constants a pool may hold: each index fits in the
/// four operand bytes of the long load instruction.
pub const MAX_CONSTANTS: u64 = 0x1_0000_0000;

/// A compiled unit. It only ever grows.
///
/// `lines` holds one `(line, offset)` pair for each run of code bytes that
/// come from the same source line; `offset` is where the run starts.
pub struct Chunk {
    pub code: Vec<u8>,
    pub constants: Vec<Value>,
    pub lines: Vec<(usize, usize)>,
    pub name: String,
}

/// A chunk as mathematics.
pub struct ChunkView {
    pub code: Seq<u8>,
    pub constants: Seq<ValueView>,
    pub lines: Seq<(usize, usize)>,
    pub name: Seq<char>,
}

/// The views of a sequence of values.
pub open spec fn value_views(values: Seq<Value>) -> Seq<ValueView> {
    Seq::new(values.len(), |i: int| values[i]@)
}

impl View for Chunk {
    type V = ChunkView;

    open spec fn view(&self) -> ChunkView {
        ChunkView {
            code: self.code@,
            constants: value_views(self.constants@),
            lines: self.lines@,
            name: self.name@,
        }
    }
}

/// The line table after `count` code bytes starting at `offset` were written
/// for `line`: a new run starts only where the line differs from that of the
/// last run.
pub open spec fn lines_after_write(lines: Seq<(usize, usize)>, line: usize, offset: usize) -> Seq<
    (usize, usize),
> {
    if lines.len() > 0 && lines.last().0 == line {
        lines
    } else {
        lines.push((line, offset))
    }
}

/// The source line of the code byte at `offset`: the line of the last run
/// that starts at or before `offset`, and 0 where there is none.
pub open spec fn line_at(lines: Seq<(usize, usize)>, offset: int) -> usize
    decreases lines.len(),
{
    if lines.len() == 0 {
        0
    } else if lines.last().1 <= offset {
        lines.last().0
    } else {
        line_at(lines.drop_last(), offset)
    }
}

/// A line table is well formed when its runs start at non-decreasing offsets
/// and neighbouring runs are of different lines.
pub open spec fn lines_wf(lines: Seq<(usize, usize)>, code_len: int) -> bool {
    &&& forall|i: int, j: int| 0 <= i <= j < lines.len() ==> lines[i].1 <= lines[j].1
    &&& forall|i: int| 0 <= i < lines.len() - 1 ==> lines[i].0 != (#[trigger] lines[i + 1]).0
    &&& forall|i: int| 0 <= i < lines.len() ==> (#[trigger] lines[i]).1 <= code_len
}

/// The four bytes of an index, most significant first.
pub open spec fn be_bytes(index: u32) -> Seq<u8> {
    seq![
        (index / 0x100_0000) as u8,
        (index / 0x1_0000 % 0x100) as u8,
        (index / 0x100 % 0x100) as u8,
        (index % 0x100) as u8,
    ]
}

/// The index that four bytes stand for, most significant first.
pub open spec fn be_value(b0: u8, b1: u8, b2: u8, b3: u8) -> u32 {
    (b0 * 0x100_0000 + b1 * 0x1_0000 + b2 * 0x100 + b3) as u32
}

/// The instruction that loads the constant at `index`: the short form with a
/// single operand byte while the index fits one, else the long form with four.
pub open spec fn constant_instruction(index: u32) -> Seq<u8> {
    if index < 256 {
        seq![Opcode::Constant.byte(), index as u8]
    } else {
        seq![Opcode::ConstantLong.byte()] + be_bytes(index)
    }
}

/// The operand of the short load instruction whose operand byte is at
/// `offset`, if the code reaches that far.
pub open spec fn short_operand(code: Seq<u8>, offset: int) -> Option<u32> {
    if 0 <= offset < code.len() {
        Some(code[offset] as u32)
    } else {
        None
    }
}

/// The operand of the long load instruction whose operand bytes start at
/// `offset`, if the code reaches that far.
pub open spec fn long_operand(code: Seq<u8>, offset: int) -> Option<u32> {
    if 0 <= offset && offset + 4 <= code.len() {
        Some(be_value(code[offset], code[offset + 1], code[offset + 2], code[offset + 3]))
    } else {
        None
    }
}

impl ChunkView {
    /// The invariant of a chunk: a well-formed line table, and a pool whose
    /// indices fit the long load instruction.
    pub open spec fn wf(self) -> bool {
        &&& lines_wf(self.lines, self.code.len() as int)
        &&& self.constants.len() <= MAX_CONSTANTS
    }

    /// The chunk after `bytes` were written for source line `line`.
    pub open spec fn write(self, bytes: Seq<u8>, line: usize) -> ChunkView {
        ChunkView {
            code: self.code + bytes,
            lines: lines_after_write(self.lines, line, self.code.len() as usize),
            ..self
        }
    }

    /// The chunk after `value` joined the pool.
    pub open spec fn add_constant(self, value: ValueView) -> ChunkView {
        ChunkView { constants: self.constants.push(value), ..self }
    }
}

impl Chunk {
    /// The invariant of a chunk, see [`ChunkView::wf`].
    pub open spec fn wf(&self) -> bool {
        self@.wf()
    }

    /// An empty chunk.
    pub fn new(name: String) -> (chunk: Chunk)
        ensures
            chunk@ == (ChunkView {
                code: Seq::empty(),
                constants: Seq::empty(),
                lines: Seq::empty(),
                name: name@,
            }),
            chunk.wf(),
    {
        let chunk = Chunk { code: Vec::new(), constants: Vec::new(), lines: Vec::new(), name };
        assert(chunk@.constants =~= Seq::empty());
        chunk
    }

    /// Appends raw bytes that come from source line `line`.
    pub fn write(&mut self, bytes: Vec<u8>, line: usize)
        ensures
            final(self)@ == old(self)@.write(bytes@, line),
            old(self).wf() ==> final(self).wf(),
    {
        let offset = self.code.len();
        let mut bytes = bytes;
        self.code.append(&mut bytes);
        self.add_line(line, offset);
    }

    /// Writes the instruction that loads the constant at `constant`, choosing
    /// between the short and the long form.
    pub fn write_constant(&mut self, constant: u32, line: usize)
        ensures
            final(self)@ == old(self)@.write(constant_instruction(constant), line),
            old(self).wf() ==> final(self).wf(),
    {
        let ghost before = self@;
        if constant < 256 {
            self.write(Opcode::Constant.to_bytes(), line);
            let mut operand: Vec<u8> = Vec::new();
            operand.push(constant as u8);
            self.write(operand, line);
            assert(seq![Opcode::Constant.byte()] + seq![constant as u8] =~= constant_instruction(
                constant,
            ));
        } else {
            self.write(Opcode::ConstantLong.to_bytes(), line);
            self.write(index_bytes(constant), line);
        }
        assert(self@.code =~= before.code + constant_instruction(constant));
    }

    /// Records that the code bytes from `offset` on come from `line`.
    fn add_line(&mut self, line: usize, offset: usize)
        ensures
            final(self).code == old(self).code,
            final(self).constants == old(self).constants,
            final(self).name == old(self).name,
            final(self).lines@ == lines_after_write(old(self).lines@, line, offset),
    {
        let count = self.lines.len();
        if count == 0 || self.lines[count - 1].0 != line {
            self.lines.push((line, offset));
        }
    }

    /// The source line of the code byte at offset `n`.
    pub fn line_for_instruction_n(&self, n: usize) -> (line: usize)
        ensures
            line == line_at(self.lines@, n as int),
    {
        let mut i = self.lines.len();
        assert(self.lines@.take(i as int) =~= self.lines@);
        while i > 0
            invariant
                i <= self.lines.len(),
                line_at(self.lines@, n as int) == line_at(self.lines@.take(i as int), n as int),
            decreases i,
        {
            let (line, offset) = self.lines[i - 1];
            proof {
                let prefix = self.lines@.take(i as int);
                assert(prefix.last() == self.lines@[i - 1]);
                assert(prefix.drop_last() =~= self.lines@.take(i - 1));
            }
            if offset <= n {
                return line;
            }
            i -= 1;
        }
        0
    }

    /// Appends a value to the pool and returns its index. Equal values are
    /// not shared: each call takes a new slot.
    pub fn add_constant(&mut self, value: Value) -> (index: u32)
        requires
            old(self).constants.len() < MAX_CONSTANTS,
        ensures
            index == old(self).constants.len(),
            final(self)@ == old(self)@.add_constant(value@),
            final(self).constants@ == old(self).constants@.push(value),
            old(self).wf() ==> final(self).wf(),
    {
        self.constants.push(value);
        assert(self@.constants =~= old(self)@.constants.push(value@));
        (self.constants.len() - 1) as u32
    }
}

/// Encodes an index as four bytes, most significant first.
pub fn index_bytes(index: u32) -> (bytes: Vec<u8>)
    ensures
        bytes@ == be_bytes(index),
{
    let mut bytes: Vec<u8> = Vec::new();
    bytes.push((index / 0x100_0000) as u8);
    bytes.push((index / 0x1_0000 % 0x100) as u8);
    bytes.push((index / 0x100 % 0x100) as u8);
    bytes.push((index % 0x100) as u8);
    assert(bytes@ =~= be_bytes(index));
    bytes
}

/// Decodes four bytes, most significant first, as an index.
pub fn index_of_bytes(b0: u8, b1: u8, b2: u8, b3: u8) -> (index: u32)
    ensures
        index == be_value(b0, b1, b2, b3),
{
    (b0 as u32) * 0x100_0000 + (b1 as u32) * 0x1_0000 + (b2 as u32) * 0x100 + (b3 as u32)
}

/// Reading back the operand of a load instruction gives the index it was
/// written for: from the one operand byte of the short form exactly when the
/// index is below 256, from the four of the long form otherwise.
pub proof fn lemma_constant_instruction_roundtrip(code: Seq<u8>, index: u32)
    ensures
        index < 256 ==> {
            let written = code + constant_instruction(index);
            &&& written.len() == code.len() + 2
            &&& Opcode::of_byte(written[code.len() as int]) == Some(Opcode::Constant)
            &&& short_operand(written, code.len() as int + 1) == Some(index)
        },
        index >= 256 ==> {
            let written = code + constant_instruction(index);
            &&& written.len() == code.len() + 5
            &&& Opcode::of_byte(written[code.len() as int]) == Some(Opcode::ConstantLong)
            &&& long_operand(written, code.len() as int + 1) == Some(index)
        },
{
    let bytes = be_bytes(index);
    assert(be_value(bytes[0], bytes[1], bytes[2], bytes[3]) == index);
}

/// Code that holds a load instruction holds its opcode and, behind it, the
/// operand that reads back as the index.
pub proof fn lemma_constant_instruction_at(code: Seq<u8>, offset: int, index: u32)
    requires
        0 <= offset,
        offset + constant_instruction(index).len() <= code.len(),
        code.subrange(offset, offset + constant_instruction(index).len()) == constant_instruction(
            index,
        ),
    ensures
        index < 256 ==> {
            &&& constant_instruction(index).len() == 2
            &&& Opcode::of_byte(code[offset]) == Some(Opcode::Constant)
            &&& short_operand(code, offset + 1) == Some(index)
        },
        index >= 256 ==> {
            &&& constant_instruction(index).len() == 5
            &&& Opcode::of_byte(code[offset]) == Some(Opcode::ConstantLong)
            &&& long_operand(code, offset + 1) == Some(index)
        },
{
    let written = constant_instruction(index);
    let piece = code.subrange(offset, offset + written.len());
    assert(code[offset] == piece[0]);
    assert(code[offset + 1] == piece[1]);
    if index >= 256 {
        assert(code[offset + 2] == piece[2]);
        assert(code[offset + 3] == piece[3]);
        assert(code[offset + 4] == piece[4]);
        let bytes = be_bytes(index);
        assert(be_value(bytes[0], bytes[1], bytes[2], bytes[3]) == index);
    }
}

/// In a well-formed line table, every offset from the start of a run up to
/// the start of the next run is attributed to the line of that run.
pub proof fn lemma_line_at_within_run(lines: Seq<(usize, usize)>, code_len: int, run: int, offset: int)
    requires
        lines_wf(lines, code_len),
        0 <= run < lines.len(),
        lines[run].1 <= offset,
        run + 1 < lines.len() ==> offset < lines[run + 1].1,
    ensures
        line_at(lines, offset) == lines[run].0,
    decreases lines.len(),
{
    if run + 1 < lines.len() {
        assert(lines[run + 1].1 <= lines.last().1);
        let shorter = lines.drop_last();
        assert(lines_wf(shorter, code_len)) by {
            assert forall|i: int| 0 <= i < shorter.len() - 1 implies shorter[i].0 != (
            #[trigger] shorter[i + 1]).0 by {
                assert(shorter[i + 1] == lines[i + 1]);
            }
        }
        lemma_line_at_within_run(shorter, code_len, run, offset);
    }
}

/// Offsets before the first run belong to no line: they are attributed to
/// line 0.
pub proof fn lemma_line_at_before_first_run(lines: Seq<(usize, usize)>, code_len: int, offset: int)
    requires
        lines_wf(lines, code_len),
        lines.len() > 0 ==> offset < lines[0].1,
    ensures
        line_at(lines, offset) == 0,
    decreases lines.len(),
{
    if lines.len() > 0 {
        assert(lines[0].1 <= lines.last().1);
        let shorter = lines.drop_last();
        assert(lines_wf(shorter, code_len)) by {
            assert forall|i: int| 0 <= i < shorter.len() - 1 implies shorter[i].0 != (
            #[trigger] shorter[i + 1]).0 by {
                assert(shorter[i + 1] == lines[i + 1]);
            }
        }
        lemma_line_at_before_first_run(shorter, code_len, offset);
    }
}

} // verus!
