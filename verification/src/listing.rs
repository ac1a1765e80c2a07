//! The listing: a program as numbered lines.
use crate::instruction::{Instruction, InstructionView};
use crate::text::{digits, join, join_strings, usize_to_string};
use vstd::prelude::*;

verus! {

/// Whether an instruction gets a number: it is real, and no assertion.
pub open spec fn is_numbered(instruction: InstructionView) -> bool {
    instruction.is_real() && !instruction.is_assertion()
}

/// How many instructions of the program get a number.
pub open spec fn count_numbered(program: Seq<InstructionView>) -> nat
    decreases program.len(),
{
    if program.len() == 0 {
        0
    } else {
        count_numbered(program.drop_last()) + if is_numbered(program.last()) {
            1nat
        } else {
            0nat
        }
    }
}

/// The line of the listing for an instruction that is no assertion: a
/// comment in double quotes, a label after `LABEL: `, any other instruction
/// after its number and a colon.
pub open spec fn listing_line(instruction: InstructionView, number: nat) -> Seq<char> {
    match instruction {
        InstructionView::Comment { text } => "\""@ + text + "\""@,
        InstructionView::Label { label } => "LABEL: "@ + label,
        _ => digits(number) + ": "@ + instruction.text(),
    }
}

/// The lines of the listing: one for each instruction but the assertions,
/// the numbered ones counted from 1.
pub open spec fn listing_lines(program: Seq<InstructionView>) -> Seq<Seq<char>>
    decreases program.len(),
{
    if program.len() == 0 {
        Seq::empty()
    } else if program.last().is_assertion() {
        listing_lines(program.drop_last())
    } else {
        listing_lines(program.drop_last()).push(
            listing_line(program.last(), count_numbered(program)),
        )
    }
}

/// The listing of a program: its lines, one below the other.
pub open spec fn listing(program: Seq<InstructionView>) -> Seq<char> {
    join(listing_lines(program), "\n"@)
}

/// The listing of the instructions.
pub fn render_listing(instructions: &Vec<Instruction>) -> (r: String)
    ensures
        r@ == listing(instructions.deep_view()),
{
    let ghost program = instructions.deep_view();
    let mut lines: Vec<String> = Vec::new();
    let mut numbered: usize = 0;
    let mut i: usize = 0;
    assert(program.take(0) == Seq::<InstructionView>::empty());
    assert(lines.deep_view() == Seq::<Seq<char>>::empty());
    while i < instructions.len()
        invariant
            i <= instructions.len(),
            program == instructions.deep_view(),
            numbered == count_numbered(program.take(i as int)),
            numbered <= i,
            lines.deep_view() == listing_lines(program.take(i as int)),
        decreases instructions.len() - i,
    {
        let ghost upto = program.take(i + 1);
        let ghost before = lines.deep_view();
        assert(upto.drop_last() == program.take(i as int));
        assert(upto.last() == instructions[i as int]@);
        match &instructions[i] {
            Instruction::AssertValueIs { .. } | Instruction::AssertRegisterIs { .. } => {},
            Instruction::Comment { text } => {
                let mut line = String::from_str("\"");
                line.append(text.as_str());
                line.append("\"");
                lines.push(line);
                assert(lines.deep_view() == before.push(line@));
            },
            Instruction::Label { label } => {
                let mut line = String::from_str("LABEL: ");
                line.append(label.as_str());
                lines.push(line);
                assert(lines.deep_view() == before.push(line@));
            },
            instruction => {
                numbered += 1;
                let mut line = usize_to_string(numbered);
                line.append(": ");
                line.append(instruction.to_string().as_str());
                lines.push(line);
                assert(lines.deep_view() == before.push(line@));
            },
        }
        i += 1;
    }
    assert(program.take(i as int) == program);
    join_strings(&lines, "\n")
}

} // verus!
