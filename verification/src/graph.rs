//! The control-flow graph of a program, as a description in the DOT language.
use crate::instruction::{Instruction, InstructionView};
use crate::listing::count_numbered;
use crate::machine::jump_target;
use crate::program::Program;
use crate::text::{digits, join, join_strings, usize_to_string};
use vstd::prelude::*;

verus! {

/// Whether an instruction is a node of the graph: comments and assertions
/// are none.
pub open spec fn has_node(instruction: InstructionView) -> bool {
    !(instruction is Comment) && !instruction.is_assertion()
}

/// The number of the node of the instruction at `i`: how many numbered
/// instructions come before it.
pub open spec fn node_number(program: Seq<InstructionView>, i: int) -> nat {
    count_numbered(program.take(i))
}

/// The name of the node of the instruction at `i`: for a label its name in
/// double quotes, for any other instruction `instr_` and the node's number.
pub open spec fn node_id(program: Seq<InstructionView>, i: int) -> Seq<char> {
    match program[i] {
        InstructionView::Label { label } => "\""@ + label + "\""@,
        _ => "instr_"@ + digits(node_number(program, i)),
    }
}

/// The shape of the node of an instruction that is no label.
pub open spec fn node_shape(instruction: InstructionView) -> Seq<char> {
    if instruction.is_jump() {
        "diamond"@
    } else {
        "box"@
    }
}

/// The line that declares the node of the instruction at `i`.
pub open spec fn node_line(program: Seq<InstructionView>, i: int) -> Seq<char> {
    match program[i] {
        InstructionView::Label { .. } => "  "@ + node_id(program, i) + " [shape=plaintext];"@,
        instruction => "  "@ + node_id(program, i) + " [shape="@ + node_shape(instruction)
            + ", label=\""@ + digits(node_number(program, i)) + ": "@ + instruction.text()
            + "\"];"@,
    }
}

/// The position of the first node at or after `from`.
pub open spec fn next_node(program: Seq<InstructionView>, from: int) -> Option<int>
    decreases program.len() - from,
{
    if from < 0 || from >= program.len() {
        None
    } else if has_node(program[from]) {
        Some(from)
    } else {
        next_node(program, from + 1)
    }
}

/// The first node at or after `from`, if there is one, is a node at or after
/// `from`.
pub proof fn lemma_next_node_is_node(program: Seq<InstructionView>, from: int)
    ensures
        next_node(program, from) matches Some(next) ==> from <= next < program.len() && has_node(
            program[next],
        ),
    decreases program.len() - from,
{
    if 0 <= from < program.len() && !has_node(program[from]) {
        lemma_next_node_is_node(program, from + 1);
    }
}

/// The line of an edge without label.
pub open spec fn plain_edge(from: Seq<char>, to: Seq<char>) -> Seq<char> {
    "  "@ + from + " -> "@ + to + ";"@
}

/// The line of an edge with a label.
pub open spec fn labelled_edge(from: Seq<char>, to: Seq<char>, label: Seq<char>) -> Seq<char> {
    "  "@ + from + " -> "@ + to + " [label=\""@ + label + "\"];"@
}

/// The edges of a conditional jump at `i`: one to its target, labelled
/// `taken`, if the program has that label, and one to the node that follows,
/// labelled `passed`, if there is one.
pub open spec fn branch_edges(
    program: Seq<InstructionView>,
    i: int,
    label: Seq<char>,
    taken: Seq<char>,
    passed: Seq<char>,
) -> Seq<Seq<char>> {
    let to_target = match jump_target(program, label) {
        Some(target) => seq![
            labelled_edge(node_id(program, i), node_id(program, target), taken),
        ],
        None => Seq::empty(),
    };
    let to_next = match next_node(program, i + 1) {
        Some(next) => seq![labelled_edge(node_id(program, i), node_id(program, next), passed)],
        None => Seq::empty(),
    };
    to_target + to_next
}

/// The lines of the edges that leave the node of the instruction at `i`. A
/// jump has one edge, to its target, if the program has that label. A
/// conditional jump has up to two. Any other node has one edge to the node
/// that follows, if there is one.
pub open spec fn edge_lines(program: Seq<InstructionView>, i: int) -> Seq<Seq<char>> {
    match program[i] {
        InstructionView::Jump { label } => match jump_target(program, label) {
            Some(target) => seq![plain_edge(node_id(program, i), node_id(program, target))],
            None => Seq::empty(),
        },
        InstructionView::JumpIfZero { label } => branch_edges(
            program,
            i,
            label,
            "if zero"@,
            "not zero"@,
        ),
        InstructionView::JumpIfNegative { label } => branch_edges(
            program,
            i,
            label,
            "if negative"@,
            "not negative"@,
        ),
        _ => match next_node(program, i + 1) {
            Some(next) => seq![plain_edge(node_id(program, i), node_id(program, next))],
            None => Seq::empty(),
        },
    }
}

/// The lines that declare the nodes among the first `n` instructions.
pub open spec fn node_lines(program: Seq<InstructionView>, n: int) -> Seq<Seq<char>>
    decreases n,
{
    if n <= 0 {
        Seq::empty()
    } else if has_node(program[n - 1]) {
        node_lines(program, n - 1).push(node_line(program, n - 1))
    } else {
        node_lines(program, n - 1)
    }
}

/// The lines of the edges that leave the nodes among the first `n`
/// instructions.
pub open spec fn all_edge_lines(program: Seq<InstructionView>, n: int) -> Seq<Seq<char>>
    decreases n,
{
    if n <= 0 {
        Seq::empty()
    } else if has_node(program[n - 1]) {
        all_edge_lines(program, n - 1) + edge_lines(program, n - 1)
    } else {
        all_edge_lines(program, n - 1)
    }
}

/// The lines of the graph: the opening, the nodes, the edges, the closing.
pub open spec fn graph_lines(program: Seq<InstructionView>) -> Seq<Seq<char>> {
    seq!["digraph G {"@] + node_lines(program, program.len() as int) + all_edge_lines(
        program,
        program.len() as int,
    ) + seq!["}"@]
}

/// The graph of a program: its lines, one below the other.
pub open spec fn graph(program: Seq<InstructionView>) -> Seq<char> {
    join(graph_lines(program), "\n"@)
}

/// Whether the instruction is a node of the graph.
fn is_node(instruction: &Instruction) -> (r: bool)
    ensures
        r == has_node(instruction@),
{
    match instruction {
        Instruction::Comment { .. }
        | Instruction::AssertValueIs { .. }
        | Instruction::AssertRegisterIs { .. } => false,
        _ => true,
    }
}

/// The position of the first node at or after `from`.
fn find_next_node(instructions: &Vec<Instruction>, from: usize) -> (r: Option<usize>)
    ensures
        match next_node(instructions.deep_view(), from as int) {
            Some(next) => r matches Some(n) && n == next && from <= n < instructions.len(),
            None => r is None,
        },
{
    let ghost program = instructions.deep_view();
    let mut j: usize = from;
    while j < instructions.len()
        invariant
            from <= j,
            program == instructions.deep_view(),
            next_node(program, from as int) == next_node(program, j as int),
        decreases instructions.len() - j,
    {
        assert(program[j as int] == instructions[j as int]@);
        if is_node(&instructions[j]) {
            return Some(j);
        }
        j += 1;
    }
    None
}

/// The line of an edge, with a label if `label` is not empty.
fn edge(from: &str, to: &str, label: Option<&str>) -> (r: String)
    ensures
        r@ == match label {
            Some(text) => labelled_edge(from@, to@, text@),
            None => plain_edge(from@, to@),
        },
{
    let mut line = String::from_str("  ");
    line.append(from);
    line.append(" -> ");
    line.append(to);
    match label {
        Some(text) => {
            line.append(" [label=\"");
            line.append(text);
            line.append("\"];");
        },
        None => {
            line.append(";");
        },
    }
    line
}

/// The names of the nodes and the lines that declare them: the first pass
/// over the program.
fn declare_nodes(instructions: &Vec<Instruction>, lines: &mut Vec<String>) -> (ids: Vec<String>)
    ensures
        ids.len() == instructions.len(),
        forall|i: int|
            0 <= i < ids.len() && has_node(#[trigger] instructions.deep_view()[i]) ==> ids[i]@
                == node_id(instructions.deep_view(), i),
        final(lines).deep_view() == old(lines).deep_view() + node_lines(
            instructions.deep_view(),
            instructions.len() as int,
        ),
{
    let ghost program = instructions.deep_view();
    let ghost start = lines.deep_view();
    let mut ids: Vec<String> = Vec::new();
    let mut numbered: usize = 0;
    let mut i: usize = 0;
    assert(program.take(0) == Seq::<InstructionView>::empty());
    assert(lines.deep_view() == start + node_lines(program, 0));
    while i < instructions.len()
        invariant
            i <= instructions.len(),
            program == instructions.deep_view(),
            ids.len() == i,
            numbered == count_numbered(program.take(i as int)),
            numbered <= i,
            forall|j: int|
                0 <= j < i && has_node(#[trigger] program[j]) ==> ids[j]@ == node_id(program, j),
            lines.deep_view() == start + node_lines(program, i as int),
        decreases instructions.len() - i,
    {
        let ghost upto = program.take(i + 1);
        let ghost before = lines.deep_view();
        assert(upto.drop_last() == program.take(i as int));
        assert(upto.last() == instructions[i as int]@);
        assert(program[i as int] == instructions[i as int]@);
        match &instructions[i] {
            Instruction::Comment { .. }
            | Instruction::AssertValueIs { .. }
            | Instruction::AssertRegisterIs { .. } => {
                ids.push(String::new());
            },
            Instruction::Label { label } => {
                let mut id = String::from_str("\"");
                id.append(label.as_str());
                id.append("\"");
                let mut line = String::from_str("  ");
                line.append(id.as_str());
                line.append(" [shape=plaintext];");
                lines.push(line);
                assert(lines.deep_view() == before.push(line@));
                ids.push(id);
            },
            instruction => {
                let number = usize_to_string(numbered);
                let mut id = String::from_str("instr_");
                id.append(number.as_str());
                let shape = match instruction {
                    Instruction::Jump { .. }
                    | Instruction::JumpIfZero { .. }
                    | Instruction::JumpIfNegative { .. } => "diamond",
                    _ => "box",
                };
                let mut line = String::from_str("  ");
                line.append(id.as_str());
                line.append(" [shape=");
                line.append(shape);
                line.append(", label=\"");
                line.append(number.as_str());
                line.append(": ");
                line.append(instruction.to_string().as_str());
                line.append("\"];");
                lines.push(line);
                assert(lines.deep_view() == before.push(line@));
                ids.push(id);
                numbered += 1;
            },
        }
        assert(lines.deep_view() == start + node_lines(program, i + 1));
        i += 1;
    }
    ids
}

/// The description of the control-flow graph of the program.
pub fn render_graph(program: &Program) -> (r: String)
    ensures
        r@ == graph(program@),
{
    let instructions = program.instructions();
    let ghost model = program@;
    let mut lines: Vec<String> = Vec::new();
    lines.push(String::from_str("digraph G {"));
    assert(lines.deep_view() == seq!["digraph G {"@]);
    let ids = declare_nodes(instructions, &mut lines);
    let ghost declared = lines.deep_view();
    let mut i: usize = 0;
    assert(lines.deep_view() == declared + all_edge_lines(model, 0));
    while i < instructions.len()
        invariant
            i <= instructions.len(),
            model == instructions.deep_view(),
            model == program@,
            ids.len() == instructions.len(),
            forall|j: int|
                0 <= j < ids.len() && has_node(#[trigger] model[j]) ==> ids[j]@ == node_id(
                    model,
                    j,
                ),
            lines.deep_view() == declared + all_edge_lines(model, i as int),
        decreases instructions.len() - i,
    {
        let ghost before = lines.deep_view();
        assert(model[i as int] == instructions[i as int]@);
        if is_node(&instructions[i]) {
            let from = ids[i].as_str();
            let next = find_next_node(instructions, i + 1);
            proof {
                lemma_next_node_is_node(model, i + 1);
            }
            match &instructions[i] {
                Instruction::Jump { label } => {
                    proof {
                        crate::machine::lemma_jump_target_is_label(model, label@);
                    }
                    match program.target(label.as_str()) {
                        Some(target) => {
                            assert(has_node(model[target as int]));
                            let line = edge(from, ids[target].as_str(), None);
                            lines.push(line);
                            assert(lines.deep_view() == before.push(line@));
                        },
                        None => {},
                    }
                },
                Instruction::JumpIfZero { label } => {
                    proof {
                        crate::machine::lemma_jump_target_is_label(model, label@);
                    }
                    match program.target(label.as_str()) {
                        Some(target) => {
                            assert(has_node(model[target as int]));
                            let line = edge(from, ids[target].as_str(), Some("if zero"));
                            let ghost sofar = lines.deep_view();
                            lines.push(line);
                            assert(lines.deep_view() == sofar.push(line@));
                        },
                        None => {},
                    }
                    match next {
                        Some(n) => {
                            let line = edge(from, ids[n].as_str(), Some("not zero"));
                            let ghost sofar = lines.deep_view();
                            lines.push(line);
                            assert(lines.deep_view() == sofar.push(line@));
                        },
                        None => {},
                    }
                },
                Instruction::JumpIfNegative { label } => {
                    proof {
                        crate::machine::lemma_jump_target_is_label(model, label@);
                    }
                    match program.target(label.as_str()) {
                        Some(target) => {
                            assert(has_node(model[target as int]));
                            let line = edge(from, ids[target].as_str(), Some("if negative"));
                            let ghost sofar = lines.deep_view();
                            lines.push(line);
                            assert(lines.deep_view() == sofar.push(line@));
                        },
                        None => {},
                    }
                    match next {
                        Some(n) => {
                            let line = edge(from, ids[n].as_str(), Some("not negative"));
                            let ghost sofar = lines.deep_view();
                            lines.push(line);
                            assert(lines.deep_view() == sofar.push(line@));
                        },
                        None => {},
                    }
                },
                _ => {
                    match next {
                        Some(n) => {
                            let line = edge(from, ids[n].as_str(), None);
                            lines.push(line);
                            assert(lines.deep_view() == before.push(line@));
                        },
                        None => {},
                    }
                },
            }
            assert(lines.deep_view() == before + edge_lines(model, i as int));
        }
        assert(lines.deep_view() == declared + all_edge_lines(model, i + 1));
        i += 1;
    }
    let ghost body = lines.deep_view();
    lines.push(String::from_str("}"));
    assert(lines.deep_view() == body.push("}"@));
    assert(lines.deep_view() == graph_lines(model));
    join_strings(&lines, "\n")
}

} // verus!
