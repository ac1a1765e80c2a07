//! A program: its instructions, its jump table and its size.
use crate::instruction::{Instruction, InstructionView};
use crate::machine::{count_real, jump_target, lemma_jump_target_is_label};
use crate::text::str_equal;
use vstd::prelude::*;

verus! {

/// The position that the last of the entries for `label` records.
pub open spec fn last_position(entries: Seq<(Seq<char>, usize)>, label: Seq<char>) -> Option<int>
    decreases entries.len(),
{
    if entries.len() == 0 {
        None
    } else if entries.last().0 == label {
        Some(entries.last().1 as int)
    } else {
        last_position(entries.drop_last(), label)
    }
}

/// A program with what is derived from it once: the jump table and the count
/// of its real instructions. It never changes.
pub struct Program {
    instructions: Vec<Instruction>,
    /// One entry for each label, in the order of the program.
    jumps: Vec<(String, usize)>,
    instruction_count: usize,
}

impl View for Program {
    type V = Seq<InstructionView>;

    closed spec fn view(&self) -> Seq<InstructionView> {
        self.instructions.deep_view()
    }
}

impl Program {
    /// The jump table and the count are those of the instructions.
    #[verifier::type_invariant]
    spec fn well_formed(self) -> bool {
        &&& forall|label: Seq<char>| #[trigger]
            last_position(self.jumps.deep_view(), label) == jump_target(
                self.instructions.deep_view(),
                label,
            )
        &&& self.instruction_count == count_real(self.instructions.deep_view())
    }

    /// Scans the instructions once, for the labels and the real instructions.
    pub fn new(instructions: Vec<Instruction>) -> (r: Self)
        ensures
            r@ == instructions.deep_view(),
    {
        let mut jumps: Vec<(String, usize)> = Vec::new();
        let mut count: usize = 0;
        let mut index: usize = 0;
        let ghost program = instructions.deep_view();
        assert(program.take(0) == Seq::<InstructionView>::empty());
        assert(jumps.deep_view() == Seq::<(Seq<char>, usize)>::empty());
        while index < instructions.len()
            invariant
                index <= instructions.len(),
                program == instructions.deep_view(),
                count == count_real(program.take(index as int)),
                count <= index,
                forall|label: Seq<char>| #[trigger]
                    last_position(jumps.deep_view(), label) == jump_target(
                        program.take(index as int),
                        label,
                    ),
            decreases instructions.len() - index,
        {
            let ghost upto = program.take(index + 1);
            let ghost entries = jumps.deep_view();
            assert(upto.drop_last() == program.take(index as int));
            assert(upto.last() == instructions[index as int]@);
            match &instructions[index] {
                Instruction::Label { label } => {
                    jumps.push((label.clone(), index));
                    assert(jumps.deep_view() == entries.push((label@, index)));
                    assert(jumps.deep_view().drop_last() == entries);
                },
                Instruction::Comment { .. } => {},
                _ => {
                    count += 1;
                },
            }
            assert forall|label: Seq<char>| #[trigger]
                last_position(jumps.deep_view(), label) == jump_target(upto, label) by {
                assert(last_position(entries, label) == jump_target(
                    program.take(index as int),
                    label,
                ));
            }
            index += 1;
        }
        assert(program.take(index as int) == program);
        Program { instructions, jumps, instruction_count: count }
    }

    /// A program is no longer than a vector can be.
    pub proof fn lemma_len_fits(&self)
        ensures
            self@.len() <= usize::MAX,
    {
        assert(self.instructions.deep_view().len() == self.instructions.len());
    }

    /// The number of instructions.
    pub fn len(&self) -> (r: usize)
        ensures
            r == self@.len(),
    {
        assert(self.instructions.deep_view().len() == self.instructions.len());
        self.instructions.len()
    }

    /// The instructions, in order.
    pub fn instructions(&self) -> (r: &Vec<Instruction>)
        ensures
            r.deep_view() == self@,
    {
        &self.instructions
    }

    /// How many real instructions the program has.
    pub fn instruction_count(&self) -> (r: usize)
        ensures
            r == count_real(self@),
    {
        proof {
            use_type_invariant(self);
        }
        self.instruction_count
    }

    /// The position to which a jump to `label` goes: that of the last label
    /// of that name.
    pub fn target(&self, label: &str) -> (r: Option<usize>)
        ensures
            match jump_target(self@, label@) {
                Some(target) => r matches Some(t) && t == target && 0 <= target < self@.len(),
                None => r is None,
            },
    {
        proof {
            use_type_invariant(self);
            lemma_jump_target_is_label(self.instructions.deep_view(), label@);
        }
        let ghost entries = self.jumps.deep_view();
        let mut i: usize = self.jumps.len();
        assert(entries.take(i as int) == entries);
        while i > 0
            invariant
                i <= self.jumps.len(),
                entries == self.jumps.deep_view(),
                last_position(entries, label@) == last_position(entries.take(i as int), label@),
                last_position(entries, label@) == jump_target(
                    self.instructions.deep_view(),
                    label@,
                ),
                jump_target(self.instructions.deep_view(), label@) matches Some(target) ==> 0
                    <= target < self.instructions.len(),
            decreases i,
        {
            let ghost upto = entries.take(i as int);
            assert(upto.drop_last() == entries.take(i - 1));
            assert(upto.last() == (self.jumps[i - 1].0@, self.jumps[i - 1].1));
            if str_equal(self.jumps[i - 1].0.as_str(), label) {
                return Some(self.jumps[i - 1].1);
            }
            i -= 1;
        }
        None
    }
}

} // verus!
