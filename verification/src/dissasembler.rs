//! The bytecode listing: one line of text for each instruction, and a
//! header line apart from it.
//!
//! A line holds the offset of the instruction in four digits, the source
//! line where a run of the line table starts at the instruction, or a bar
//! where none does, and the name of the instruction. A load instruction
//! also shows its operand and, between quotes, the constant in print. The
//! printed forms of the constants are given by the caller, one for each
//! entry of the pool.
use crate::chunk::{long_operand, short_operand, Chunk, ChunkView};
use crate::opcode::Opcode;
use crate::text::{
    decimal, filler, padded_left, padded_right, push_blanks, push_column, push_decimal,
    string_views,
};
use crate::vm::read_operand;
use vstd::prelude::*;
use vstd::string::*;

verus! {

pub struct Dissasembler {}

/// The name of an instruction.
pub open spec fn mnemonic(opcode: Opcode) -> Seq<char> {
    match opcode {
        Opcode::Return => "Return"@,
        Opcode::Constant => "Constant"@,
        Opcode::ConstantLong => "ConstantLong"@,
        Opcode::Negate => "Negate"@,
        Opcode::Add => "Add"@,
        Opcode::Subtract => "Subtract"@,
        Opcode::Divide => "Divide"@,
        Opcode::Multiply => "Multiply"@,
        Opcode::Nil => "Nil"@,
        Opcode::True => "True"@,
        Opcode::False => "False"@,
        Opcode::Not => "Not"@,
        Opcode::Equal => "Equal"@,
        Opcode::Greater => "Greater"@,
        Opcode::Less => "Less"@,
    }
}

/// The line of the first run of the line table that starts at `offset`.
pub open spec fn run_starting_at(lines: Seq<(usize, usize)>, offset: int) -> Option<usize>
    decreases lines.len(),
{
    if lines.len() == 0 {
        None
    } else if lines[0].1 == offset {
        Some(lines[0].0)
    } else {
        run_starting_at(lines.drop_first(), offset)
    }
}

/// The column that tells the source line of the instruction at `offset`.
pub open spec fn line_column(lines: Seq<(usize, usize)>, offset: int) -> Seq<char> {
    match run_starting_at(lines, offset) {
        Some(line) => padded_left(decimal(line as nat), ' ', 4) + " "@,
        None => "   | "@,
    }
}

/// One instruction in print, and the offset of the instruction behind it.
pub struct Listed {
    pub text: Seq<char>,
    pub next: int,
}

/// A load instruction in print: the name in a column of sixteen, the
/// operand in a column of four, and the constant between quotes. Where the
/// printed forms hold none for the operand, nothing stands between the
/// quotes.
pub open spec fn constant_text(name: Seq<char>, index: u32, printed: Seq<Seq<char>>) -> Seq<char> {
    padded_right(name, ' ', 16) + " "@ + padded_left(decimal(index as nat), ' ', 4) + " '"@ + (
    if index < printed.len() {
        printed[index as int]
    } else {
        Seq::empty()
    }) + "'\n"@
}

/// What stands behind the two leading columns for the instruction at
/// `offset`. A byte that is no opcode is listed as unknown, and so is a load
/// instruction whose operand is cut off; both take one byte.
pub open spec fn instruction_text(chunk: ChunkView, printed: Seq<Seq<char>>, offset: int) -> Listed {
    match Opcode::of_byte(chunk.code[offset]) {
        None => Listed {
            text: "Unknown opcode "@ + decimal(chunk.code[offset] as nat) + "\n"@,
            next: offset + 1,
        },
        Some(opcode) => {
            let operand = match opcode {
                Opcode::Constant => short_operand(chunk.code, offset + 1),
                _ => long_operand(chunk.code, offset + 1),
            };
            match opcode {
                Opcode::Constant | Opcode::ConstantLong => match operand {
                    Some(index) => Listed {
                        text: constant_text(mnemonic(opcode), index, printed),
                        next: if opcode == Opcode::Constant {
                            offset + 2
                        } else {
                            offset + 5
                        },
                    },
                    None => Listed {
                        text: "Unknown opcode "@ + decimal(chunk.code[offset] as nat) + "\n"@,
                        next: offset + 1,
                    },
                },
                _ => Listed { text: mnemonic(opcode) + "\n"@, next: offset + 1 },
            }
        },
    }
}

/// The line of the listing for the instruction at `offset`.
pub open spec fn listed_instruction(chunk: ChunkView, printed: Seq<Seq<char>>, offset: int) -> Listed
    recommends
        0 <= offset < chunk.code.len(),
{
    let body = instruction_text(chunk, printed, offset);
    Listed {
        text: padded_left(decimal(offset as nat), '0', 4) + " "@ + line_column(chunk.lines, offset)
            + body.text,
        next: body.next,
    }
}

/// The lines of the listing from the instruction at `offset` to the end of
/// the code.
pub open spec fn listed_from(chunk: ChunkView, printed: Seq<Seq<char>>, offset: int) -> Seq<char>
    decreases chunk.code.len() - offset,
{
    if 0 <= offset < chunk.code.len() {
        let line = listed_instruction(chunk, printed, offset);
        line.text + listed_from(chunk, printed, offset + (if line.next > offset {
            line.next - offset
        } else {
            1
        }))
    } else {
        Seq::empty()
    }
}

/// The listing of a chunk: the lines of its instructions, from the first
/// to the last.
pub open spec fn listing(chunk: ChunkView, printed: Seq<Seq<char>>) -> Seq<char> {
    listed_from(chunk, printed, 0)
}

/// The line that heads a listing where one is shown: the name of the
/// chunk. It is no part of the listing.
pub open spec fn header(chunk: ChunkView) -> Seq<char> {
    "== "@ + chunk.name + " =="@
}

/// The name of an instruction.
fn mnemonic_str(opcode: Opcode) -> (name: &'static str)
    ensures
        name@ == mnemonic(opcode),
{
    match opcode {
        Opcode::Return => "Return",
        Opcode::Constant => "Constant",
        Opcode::ConstantLong => "ConstantLong",
        Opcode::Negate => "Negate",
        Opcode::Add => "Add",
        Opcode::Subtract => "Subtract",
        Opcode::Divide => "Divide",
        Opcode::Multiply => "Multiply",
        Opcode::Nil => "Nil",
        Opcode::True => "True",
        Opcode::False => "False",
        Opcode::Not => "Not",
        Opcode::Equal => "Equal",
        Opcode::Greater => "Greater",
        Opcode::Less => "Less",
    }
}

impl Dissasembler {
    /// The line that heads a listing of `chunk`, without its line feed.
    pub fn header(chunk: &Chunk) -> (line: String)
        ensures
            line@ == header(chunk@),
    {
        let mut line = String::from_str("== ");
        line.append(chunk.name.as_str());
        line.append(" ==");
        line
    }

    /// Appends the listing of `chunk` to `out`: one line for each
    /// instruction, and nothing else.
    pub fn disassemble(chunk: &Chunk, printed: &Vec<String>, out: &mut String)
        ensures
            final(out)@ == old(out)@ + listing(chunk@, string_views(printed@)),
    {
        let mut offset: usize = 0;
        assert(old(out)@ + Seq::<char>::empty() =~= old(out)@);
        while offset < chunk.code.len()
            invariant
                out@ + listed_from(chunk@, string_views(printed@), offset as int) == old(out)@
                    + listed_from(chunk@, string_views(printed@), 0),
            decreases chunk.code.len() - offset,
        {
            let ghost before = out@;
            let ghost line = listed_instruction(chunk@, string_views(printed@), offset as int);
            Self::disassemble_instruction(chunk, printed, &mut offset, out);
            assert(before + (line.text + listed_from(
                chunk@,
                string_views(printed@),
                offset as int,
            )) =~= (before + line.text) + listed_from(
                chunk@,
                string_views(printed@),
                offset as int,
            ));
        }
        assert(out@ + Seq::<char>::empty() =~= out@);
    }

    /// Appends the line for the instruction at `offset` to `out`, and moves
    /// `offset` to the instruction behind it.
    pub fn disassemble_instruction(
        chunk: &Chunk,
        printed: &Vec<String>,
        offset: &mut usize,
        out: &mut String,
    )
        requires
            *old(offset) < chunk.code@.len(),
        ensures
            final(out)@ == old(out)@ + listed_instruction(
                chunk@,
                string_views(printed@),
                *old(offset) as int,
            ).text,
            *final(offset) == listed_instruction(
                chunk@,
                string_views(printed@),
                *old(offset) as int,
            ).next,
            *old(offset) < *final(offset) <= chunk.code@.len(),
    {
        let ghost start = out@;
        let at = *offset;
        assert(chunk.code@.len() == chunk.code.len());
        push_column(out, at, true, 4);
        out.append(" ");
        Self::write_line_info(chunk, at, out);
        let ghost columns = out@;
        assert(columns =~= start + (padded_left(decimal(at as nat), '0', 4) + " "@ + line_column(
            chunk.lines@,
            at as int,
        )));

        let byte = chunk.code[at];
        match Opcode::from_byte(byte) {
            Some(Opcode::Constant) => {
                Self::dissassemble_constant_instruction(chunk, printed, offset, "Constant", out);
            },
            Some(Opcode::ConstantLong) => {
                Self::dissassemble_constant_long_instruction(
                    chunk,
                    printed,
                    offset,
                    "ConstantLong",
                    out,
                );
            },
            Some(opcode) => {
                *offset = at + 1;
                Self::disassemble_simple_instruction(mnemonic_str(opcode), out);
            },
            None => {
                *offset = at + 1;
                Self::unknown_instruction(byte, out);
            },
        }
        proof {
            let body = instruction_text(chunk@, string_views(printed@), at as int);
            assert(out@ == columns + body.text);
            assert(columns + body.text =~= start + (padded_left(decimal(at as nat), '0', 4) + " "@
                + line_column(chunk.lines@, at as int) + body.text));
            assert(out@ =~= start + listed_instruction(
                chunk@,
                string_views(printed@),
                at as int,
            ).text);
        }
    }

    /// The line for the instruction at `offset`, for a trace of execution.
    /// `offset` moves to the instruction behind it.
    pub fn trace_instruction(chunk: &Chunk, printed: &Vec<String>, offset: &mut usize) -> (line:
        String)
        requires
            *old(offset) < chunk.code@.len(),
        ensures
            line@ == listed_instruction(chunk@, string_views(printed@), *old(offset) as int).text,
            *final(offset) == listed_instruction(
                chunk@,
                string_views(printed@),
                *old(offset) as int,
            ).next,
    {
        let mut output = String::new();
        Self::disassemble_instruction(chunk, printed, offset, &mut output);
        assert(output@ =~= listed_instruction(
            chunk@,
            string_views(printed@),
            *old(offset) as int,
        ).text);
        output
    }

    /// Appends the column that tells the source line.
    fn write_line_info(chunk: &Chunk, offset: usize, out: &mut String)
        ensures
            final(out)@ == old(out)@ + line_column(chunk.lines@, offset as int),
    {
        let mut i: usize = 0;
        assert(chunk.lines@.skip(0) =~= chunk.lines@);
        while i < chunk.lines.len()
            invariant
                i <= chunk.lines.len(),
                run_starting_at(chunk.lines@, offset as int) == run_starting_at(
                    chunk.lines@.skip(i as int),
                    offset as int,
                ),
                out@ == old(out)@,
            decreases chunk.lines.len() - i,
        {
            let (line, start) = chunk.lines[i];
            proof {
                let rest = chunk.lines@.skip(i as int);
                assert(rest[0] == chunk.lines@[i as int]);
                assert(rest.drop_first() =~= chunk.lines@.skip(i + 1));
            }
            if start == offset {
                push_column(out, line, false, 4);
                out.append(" ");
                assert(out@ =~= old(out)@ + (padded_left(decimal(line as nat), ' ', 4) + " "@));
                return ;
            }
            i += 1;
        }
        out.append("   | ");
    }

    /// Appends the name of an instruction without operand.
    fn disassemble_simple_instruction(name: &str, out: &mut String)
        ensures
            final(out)@ == old(out)@ + (name@ + "\n"@),
    {
        out.append(name);
        out.append("\n");
        assert(out@ =~= old(out)@ + (name@ + "\n"@));
    }

    /// Appends what stands for a byte that cannot be listed.
    fn unknown_instruction(byte: u8, out: &mut String)
        ensures
            final(out)@ == old(out)@ + ("Unknown opcode "@ + decimal(byte as nat) + "\n"@),
    {
        out.append("Unknown opcode ");
        push_decimal(out, byte as usize);
        out.append("\n");
        assert(out@ =~= old(out)@ + ("Unknown opcode "@ + decimal(byte as nat) + "\n"@));
    }

    /// Appends name, operand and constant of a load instruction.
    fn constant_line(name: &str, index: u32, printed: &Vec<String>, out: &mut String)
        ensures
            final(out)@ == old(out)@ + constant_text(name@, index, string_views(printed@)),
    {
        out.append(name);
        let length = name.unicode_len();
        if length < 16 {
            push_blanks(out, 16 - length);
        } else {
            assert(filler(' ', 16 - length) =~= Seq::empty());
        }
        assert(out@ =~= old(out)@ + padded_right(name@, ' ', 16));
        out.append(" ");
        push_column(out, index as usize, false, 4);
        out.append(" '");
        let ghost quoted = out@;
        if (index as usize) < printed.len() {
            out.append(printed[index as usize].as_str());
        } else {
            assert(quoted + Seq::<char>::empty() =~= quoted);
        }
        out.append("'\n");
        assert(out@ =~= old(out)@ + constant_text(name@, index, string_views(printed@)));
    }

    /// Appends a load instruction with a one-byte operand.
    fn dissassemble_constant_instruction(
        chunk: &Chunk,
        printed: &Vec<String>,
        offset: &mut usize,
        name: &str,
        out: &mut String,
    )
        requires
            *old(offset) < chunk.code@.len(),
            Opcode::of_byte(chunk.code@[*old(offset) as int]) == Some(Opcode::Constant),
            name@ == mnemonic(Opcode::Constant),
        ensures
            final(out)@ == old(out)@ + instruction_text(
                chunk@,
                string_views(printed@),
                *old(offset) as int,
            ).text,
            *final(offset) == instruction_text(
                chunk@,
                string_views(printed@),
                *old(offset) as int,
            ).next,
            *old(offset) < *final(offset) <= chunk.code@.len(),
    {
        let at = *offset;
        assert(chunk.code@.len() == chunk.code.len());
        match read_operand(chunk, Opcode::Constant, at) {
            (Some(constant), next) => {
                *offset = next;
                Self::constant_line(name, constant, printed, out);
            },
            _ => {
                *offset = at + 1;
                Self::unknown_instruction(chunk.code[at], out);
            },
        }
    }

    /// Appends a load instruction with a four-byte operand.
    fn dissassemble_constant_long_instruction(
        chunk: &Chunk,
        printed: &Vec<String>,
        offset: &mut usize,
        name: &str,
        out: &mut String,
    )
        requires
            *old(offset) < chunk.code@.len(),
            Opcode::of_byte(chunk.code@[*old(offset) as int]) == Some(Opcode::ConstantLong),
            name@ == mnemonic(Opcode::ConstantLong),
        ensures
            final(out)@ == old(out)@ + instruction_text(
                chunk@,
                string_views(printed@),
                *old(offset) as int,
            ).text,
            *final(offset) == instruction_text(
                chunk@,
                string_views(printed@),
                *old(offset) as int,
            ).next,
            *old(offset) < *final(offset) <= chunk.code@.len(),
    {
        let at = *offset;
        assert(chunk.code@.len() == chunk.code.len());
        match read_operand(chunk, Opcode::ConstantLong, at) {
            (Some(constant), next) => {
                *offset = next;
                Self::constant_line(name, constant, printed, out);
            },
            _ => {
                *offset = at + 1;
                Self::unknown_instruction(chunk.code[at], out);
            },
        }
    }
}

} // verus!
