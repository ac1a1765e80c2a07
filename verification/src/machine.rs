//! The machine as a mathematical object: its state, what one step does to
//! it, and what a whole run gives.
use crate::error::RuntimeErrorView;
use crate::instruction::{InstructionView, UsesRegisterView};
use crate::text::parsed_int;
use crate::value::ValueView;
use vstd::prelude::*;

verus! {

/// The position of the last label named `label` in the program.
pub open spec fn jump_target(program: Seq<InstructionView>, label: Seq<char>) -> Option<int>
    decreases program.len(),
{
    if program.len() == 0 {
        None
    } else if program.last() == (InstructionView::Label { label }) {
        Some(program.len() - 1)
    } else {
        jump_target(program.drop_last(), label)
    }
}

/// The number of real instructions in the program: those that are neither a
/// comment nor a label.
pub open spec fn count_real(program: Seq<InstructionView>) -> nat
    decreases program.len(),
{
    if program.len() == 0 {
        0
    } else {
        count_real(program.drop_last()) + if program.last().is_real() {
            1nat
        } else {
            0nat
        }
    }
}

/// A jump target is the position of a label of that name.
pub proof fn lemma_jump_target_is_label(program: Seq<InstructionView>, label: Seq<char>)
    ensures
        jump_target(program, label) matches Some(target) ==> 0 <= target < program.len()
            && program[target] == (InstructionView::Label { label }),
    decreases program.len(),
{
    if program.len() > 0 && program.last() != (InstructionView::Label { label }) {
        lemma_jump_target_is_label(program.drop_last(), label);
    }
}

/// The integer that a value is, for arithmetic: a text is none, whatever it
/// reads as.
pub open spec fn as_int(value: ValueView) -> Result<int, RuntimeErrorView> {
    match value {
        ValueView::Int(i) => Ok(i),
        ValueView::Text(s) => Err(RuntimeErrorView::ExpectedInteger { text: s }),
    }
}

/// The key of the register that a reference leads to: the key itself where
/// the reference is direct, the value bound to it where it is indirect.
pub open spec fn resolve(
    registers: Map<ValueView, ValueView>,
    reference: UsesRegisterView,
) -> Result<ValueView, RuntimeErrorView> {
    if !reference.indirect {
        Ok(reference.register)
    } else if registers.contains_key(reference.register) {
        Ok(registers[reference.register])
    } else {
        Err(RuntimeErrorView::RegisterNotFound { register: reference.register })
    }
}

/// The value of the register that a reference leads to.
pub open spec fn read(
    registers: Map<ValueView, ValueView>,
    reference: UsesRegisterView,
) -> Result<ValueView, RuntimeErrorView> {
    match resolve(registers, reference) {
        Err(e) => Err(e),
        Ok(key) => if registers.contains_key(key) {
            Ok(registers[key])
        } else if reference.indirect {
            Err(RuntimeErrorView::IndirectRegisterNotFound { register: key })
        } else {
            Err(RuntimeErrorView::RegisterNotFound { register: key })
        },
    }
}

/// The integer in the register that a reference leads to.
pub open spec fn read_int(
    registers: Map<ValueView, ValueView>,
    reference: UsesRegisterView,
) -> Result<int, RuntimeErrorView> {
    match read(registers, reference) {
        Err(e) => Err(e),
        Ok(value) => as_int(value),
    }
}

/// Whether a jump-if-zero is taken: the accumulator holds the integer 0 or
/// the text that is the one character `0`.
pub open spec fn holds_zero(accumulator: Option<ValueView>) -> bool {
    accumulator == Some(ValueView::Int(0)) || accumulator == Some(ValueView::Text(seq!['0']))
}

/// Whether a jump-if-negative is taken: the accumulator holds a negative
/// integer, or a text that reads as one.
pub open spec fn holds_negative(accumulator: Option<ValueView>) -> bool {
    match accumulator {
        Some(ValueView::Int(i)) => i < 0,
        Some(ValueView::Text(s)) => parsed_int(s) matches Some(i) && i < 0,
        None => false,
    }
}

/// The sum of `a` and `b`, or their difference where `subtract` is set.
pub open spec fn combination(a: int, b: int, subtract: bool) -> int {
    if subtract {
        a - b
    } else {
        a + b
    }
}

/// Whether `i` is a 32-bit signed integer.
pub open spec fn fits(i: int) -> bool {
    i32::MIN <= i <= i32::MAX
}

/// The state of a machine.
pub struct Machine {
    /// The program, which never changes.
    pub program: Seq<InstructionView>,
    /// The input tape, which never changes.
    pub input: Seq<ValueView>,
    /// The registers that were written, with what they hold.
    pub registers: Map<ValueView, ValueView>,
    /// The value in hand, if there is one.
    pub accumulator: Option<ValueView>,
    /// The position in the program of the instruction to execute next.
    pub counter: int,
    /// How many values of the input tape were read.
    pub input_index: nat,
    /// The output tape so far.
    pub output: Seq<ValueView>,
    /// How many real instructions were executed.
    pub executions: nat,
}

/// What one step of a machine comes to.
pub enum Step {
    /// The instruction was executed; the machine is in the given state.
    Running(Machine),
    /// The machine has come to its end: the program counter is past the
    /// program, or an inbox found the input tape used up. Nothing changed.
    Halted,
    /// The instruction failed. Nothing changed.
    Failed(RuntimeErrorView),
}

impl Machine {
    /// The machine before its first step.
    pub open spec fn initial(
        registers: Map<ValueView, ValueView>,
        program: Seq<InstructionView>,
        input: Seq<ValueView>,
    ) -> Machine {
        Machine {
            program,
            input,
            registers,
            accumulator: None,
            counter: 0,
            input_index: 0,
            output: Seq::empty(),
            executions: 0,
        }
    }

    /// The largest count of executed instructions that a machine keeps.
    pub open spec fn limit() -> nat {
        usize::MAX as nat
    }

    /// Whether the program counter is in the program.
    pub open spec fn in_program(self) -> bool {
        0 <= self.counter < self.program.len()
    }

    /// The instruction to execute next.
    pub open spec fn current(self) -> InstructionView
        recommends
            self.in_program(),
    {
        self.program[self.counter]
    }

    /// Whether the next step finds the input tape used up at an inbox.
    pub open spec fn starved(self) -> bool {
        self.in_program() && self.current() is Inbox && self.input_index >= self.input.len()
    }

    /// The machine after an instruction that does not count as executed.
    pub open spec fn passed(self) -> Machine {
        Machine { counter: self.counter + 1, ..self }
    }

    /// The machine after an executed instruction that leaves the accumulator
    /// holding `accumulator` and goes on with the instruction that follows.
    pub open spec fn advanced(self, accumulator: Option<ValueView>) -> Machine {
        Machine {
            accumulator,
            counter: self.counter + 1,
            executions: self.executions + 1,
            ..self
        }
    }

    /// What a jump to `label` comes to.
    pub open spec fn jumped(self, label: Seq<char>) -> Step {
        match jump_target(self.program, label) {
            Some(target) => Step::Running(
                Machine { counter: target, executions: self.executions + 1, ..self },
            ),
            None => Step::Failed(RuntimeErrorView::LabelNotFound { label }),
        }
    }

    /// What an addition comes to, or a subtraction where `subtract` is set:
    /// the accumulator takes its old value plus or minus that of the register.
    pub open spec fn combined(self, reference: UsesRegisterView, subtract: bool) -> Step {
        match self.accumulator {
            None => Step::Failed(
                RuntimeErrorView::EmptyAccumulator { instruction: self.current() },
            ),
            Some(held) => match as_int(held) {
                Err(e) => Step::Failed(e),
                Ok(a) => match read_int(self.registers, reference) {
                    Err(e) => Step::Failed(e),
                    Ok(b) => if fits(combination(a, b, subtract)) {
                        Step::Running(
                            self.advanced(Some(ValueView::Int(combination(a, b, subtract)))),
                        )
                    } else {
                        Step::Failed(RuntimeErrorView::Overflow { instruction: self.current() })
                    },
                },
            },
        }
    }

    /// What a bump by `delta` comes to: the register takes its old value plus
    /// `delta`, and so does the accumulator.
    pub open spec fn bumped(self, reference: UsesRegisterView, delta: int) -> Step {
        match resolve(self.registers, reference) {
            Err(e) => Step::Failed(e),
            Ok(key) => match read_int(self.registers, reference) {
                Err(e) => Step::Failed(e),
                Ok(old) => if fits(old + delta) {
                    Step::Running(
                        Machine {
                            registers: self.registers.insert(key, ValueView::Int(old + delta)),
                            ..self.advanced(Some(ValueView::Int(old + delta)))
                        },
                    )
                } else {
                    Step::Failed(RuntimeErrorView::Overflow { instruction: self.current() })
                },
            },
        }
    }

    /// What executing the current instruction comes to, for an instruction
    /// that counts as executed.
    pub open spec fn executed(self) -> Step
        recommends
            self.in_program(),
    {
        match self.current() {
            InstructionView::Inbox => Step::Running(
                Machine {
                    input_index: self.input_index + 1,
                    ..self.advanced(Some(self.input[self.input_index as int]))
                },
            ),
            InstructionView::Outbox => match self.accumulator {
                Some(held) => Step::Running(
                    Machine { output: self.output.push(held), ..self.advanced(None) },
                ),
                None => Step::Failed(
                    RuntimeErrorView::EmptyAccumulator { instruction: self.current() },
                ),
            },
            InstructionView::Add(reference) => self.combined(reference, false),
            InstructionView::Subtract(reference) => self.combined(reference, true),
            InstructionView::CopyTo(reference) => match self.accumulator {
                None => Step::Failed(
                    RuntimeErrorView::EmptyAccumulator { instruction: self.current() },
                ),
                Some(held) => match resolve(self.registers, reference) {
                    Err(e) => Step::Failed(e),
                    Ok(key) => Step::Running(
                        Machine {
                            registers: self.registers.insert(key, held),
                            ..self.advanced(self.accumulator)
                        },
                    ),
                },
            },
            InstructionView::CopyFrom(reference) => match read(self.registers, reference) {
                Err(e) => Step::Failed(e),
                Ok(value) => Step::Running(self.advanced(Some(value))),
            },
            InstructionView::BumpPlus(reference) => self.bumped(reference, 1),
            InstructionView::BumpMinus(reference) => self.bumped(reference, -1),
            InstructionView::Jump { label } => self.jumped(label),
            InstructionView::JumpIfZero { label } => if holds_zero(self.accumulator) {
                self.jumped(label)
            } else {
                Step::Running(self.advanced(self.accumulator))
            },
            InstructionView::JumpIfNegative { label } => if holds_negative(self.accumulator) {
                self.jumped(label)
            } else {
                Step::Running(self.advanced(self.accumulator))
            },
            _ => Step::Running(self.passed()),
        }
    }

    /// What checking the current instruction comes to, for an assertion.
    pub open spec fn checked(self) -> Step
        recommends
            self.in_program(),
    {
        match self.current() {
            InstructionView::AssertValueIs { value } => if self.accumulator == Some(value) {
                Step::Running(self.passed())
            } else {
                Step::Failed(
                    RuntimeErrorView::AssertionFailed {
                        expected: value,
                        found: self.accumulator,
                    },
                )
            },
            InstructionView::AssertRegisterIs { register, value } => {
                let key = ValueView::Text(register);
                if self.registers.contains_key(key) && self.registers[key] == value {
                    Step::Running(self.passed())
                } else {
                    Step::Failed(
                        RuntimeErrorView::RegisterAssertionFailed {
                            name: register,
                            expected: value,
                            found: if self.registers.contains_key(key) {
                                Some(self.registers[key])
                            } else {
                                None
                            },
                        },
                    )
                }
            },
            _ => Step::Running(self.passed()),
        }
    }

    /// What one step comes to.
    ///
    /// Past the end of the program the machine has halted, and so it has at
    /// an inbox once the input tape is used up. A comment or a label is
    /// passed over. An assertion is checked and passed over. Any other
    /// instruction is executed and counted, unless the count is at its limit.
    pub open spec fn step(self) -> Step {
        if !self.in_program() || self.starved() {
            Step::Halted
        } else if self.current().is_marker() {
            Step::Running(self.passed())
        } else if self.current().is_assertion() {
            self.checked()
        } else if self.executions >= Machine::limit() {
            Step::Failed(RuntimeErrorView::StepLimit)
        } else {
            self.executed()
        }
    }

    /// What is left of the two bounds of a run: the executions up to the
    /// limit, and the instructions up to the end of the program.
    pub open spec fn fuel(self) -> (int, int) {
        (Machine::limit() - self.executions, self.program.len() - self.counter)
    }

    /// The state in which a run from this state ends, and its result: the
    /// output tape where the machine halts, the error where a step fails.
    pub open spec fn run(self) -> (Machine, Result<Seq<ValueView>, RuntimeErrorView>)
        decreases self.fuel().0, self.fuel().1,
        via Self::run_terminates
    {
        match self.step() {
            Step::Running(next) => next.run(),
            Step::Halted => (self, Ok(self.output)),
            Step::Failed(e) => (self, Err(e)),
        }
    }

    #[via_fn]
    proof fn run_terminates(self) {
        self.lemma_step_progress();
    }

    /// A step that goes on either counts one more execution, below the
    /// limit, or counts none and moves one instruction on, inside the
    /// program. It leaves the program and the input tape as they are.
    pub proof fn lemma_step_progress(self)
        ensures
            self.step() matches Step::Running(next) ==> {
                &&& next.program == self.program
                &&& next.input == self.input
                &&& self.in_program()
                &&& {
                    ||| next.executions == self.executions + 1 && next.executions
                        <= Machine::limit()
                    ||| next.executions == self.executions && next.counter == self.counter + 1
                }
            },
    {
    }

    /// What a step that goes on changes, and what it leaves as it is. The
    /// program and the input tape stay. The program counter stays within the
    /// program or comes to stand at its end. The output tape grows by at most
    /// one value, and only an outbox makes it grow. At most one value is
    /// read, and only by an inbox, which never reads past the tape. The count of executed instructions grows
    /// by exactly one for an instruction that is neither a comment, a label
    /// nor an assertion, whether it jumps or not, and stays for those.
    pub proof fn lemma_step_effects(self)
        ensures
            self.step() matches Step::Running(next) ==> {
                &&& next.program == self.program
                &&& next.input == self.input
                &&& 0 <= next.counter <= self.program.len()
                &&& next.output == if self.current() is Outbox {
                    self.output.push(self.accumulator->Some_0)
                } else {
                    self.output
                }
                &&& next.input_index == self.input_index + if self.current() is Inbox {
                    1nat
                } else {
                    0nat
                }
                &&& self.input_index <= self.input.len() ==> next.input_index <= self.input.len()
                &&& next.executions == self.executions + if self.current().is_marker()
                    || self.current().is_assertion() {
                    0nat
                } else {
                    1nat
                }
            },
    {
        if self.in_program() {
            match self.current() {
                InstructionView::Jump { label }
                | InstructionView::JumpIfZero { label }
                | InstructionView::JumpIfNegative { label } => {
                    lemma_jump_target_is_label(self.program, label);
                },
                _ => {},
            }
        }
    }

    /// A bump of a register that holds an integer leaves the register and
    /// the accumulator both holding that integer plus one, for a bump up, or
    /// minus one, for a bump down. Every other register keeps what it holds,
    /// the tapes stay as they are, the machine goes on with the next
    /// instruction, and one more instruction counts as executed. Where the
    /// count is at its limit the step fails instead, and nothing changes.
    pub proof fn lemma_bump(self, reference: UsesRegisterView, held: int)
        requires
            self.in_program(),
            self.current() == InstructionView::BumpPlus(reference) || self.current()
                == InstructionView::BumpMinus(reference),
            resolve(self.registers, reference) is Ok,
            read(self.registers, reference) == Ok::<ValueView, RuntimeErrorView>(
                ValueView::Int(held),
            ),
            self.current() is BumpPlus ==> fits(held + 1),
            self.current() is BumpMinus ==> fits(held - 1),
        ensures
            ({
                let key = resolve(self.registers, reference)->Ok_0;
                let bumped = ValueView::Int(
                    if self.current() is BumpPlus {
                        held + 1
                    } else {
                        held - 1
                    },
                );
                self.step() == if self.executions >= Machine::limit() {
                    Step::Failed(RuntimeErrorView::StepLimit)
                } else {
                    Step::Running(
                        Machine {
                            registers: self.registers.insert(key, bumped),
                            accumulator: Some(bumped),
                            counter: self.counter + 1,
                            executions: self.executions + 1,
                            ..self
                        },
                    )
                }
            }),
    {
    }

    /// A jump-if-zero to a label of the program is taken where the
    /// accumulator holds the integer 0 or the text `0`, and for no other
    /// value and not where it is empty. Taken or not, it counts as executed,
    /// and changes nothing but the program counter and that count. Where the
    /// count is at its limit the step fails instead, and nothing changes.
    pub proof fn lemma_jump_if_zero(self, label: Seq<char>, target: int)
        requires
            self.in_program(),
            self.current() == (InstructionView::JumpIfZero { label }),
            jump_target(self.program, label) == Some(target),
        ensures
            ({
                let taken = self.accumulator == Some(ValueView::Int(0)) || self.accumulator
                    == Some(ValueView::Text("0"@));
                self.step() == if self.executions >= Machine::limit() {
                    Step::Failed(RuntimeErrorView::StepLimit)
                } else {
                    Step::Running(
                        Machine {
                            counter: if taken {
                                target
                            } else {
                                self.counter + 1
                            },
                            executions: self.executions + 1,
                            ..self
                        },
                    )
                }
            }),
    {
        reveal_strlit("0");
        assert("0"@ =~= seq!['0']);
    }

    /// An addition or a subtraction with a text in the accumulator fails,
    /// whatever the text reads as, and the run ends there with nothing
    /// changed. Where the count of executed instructions is at its limit, it
    /// is that limit that the step fails with.
    pub proof fn lemma_arithmetic_needs_integer(self, text: Seq<char>)
        requires
            self.in_program(),
            self.current() is Add || self.current() is Subtract,
            self.accumulator == Some(ValueView::Text(text)),
        ensures
            ({
                let error = if self.executions >= Machine::limit() {
                    RuntimeErrorView::StepLimit
                } else {
                    RuntimeErrorView::ExpectedInteger { text }
                };
                &&& self.step() == Step::Failed(error)
                &&& self.run() == (self, Err::<Seq<ValueView>, RuntimeErrorView>(error))
            }),
    {
    }

    /// Whether the program holds no jump.
    pub open spec fn jumps_nowhere(self) -> bool {
        forall|i: int| 0 <= i < self.program.len() ==> !(#[trigger] self.program[i]).is_jump()
    }

    /// The machine after `steps` steps, where each of them goes on; the
    /// machine at the first step that does not go on, where one does not.
    pub open spec fn after(self, steps: nat) -> Machine
        decreases steps,
    {
        if steps == 0 {
            self
        } else {
            match self.step() {
                Step::Running(next) => next.after((steps - 1) as nat),
                _ => self,
            }
        }
    }

    /// One step more is one step after the steps before.
    pub proof fn lemma_after_next(self, steps: nat)
        ensures
            self.after(steps + 1) == self.after(steps).after(1),
        decreases steps,
    {
        if steps > 0 {
            match self.step() {
                Step::Running(next) => {
                    next.lemma_after_next((steps - 1) as nat);
                },
                _ => {},
            }
        }
    }

    /// A program that holds neither a jump nor an inbox runs straight through:
    /// where its run gives the output tape, each instruction from the program
    /// counter on was executed once, in the order of the program, and the
    /// result is the output tape after the last of them.
    pub proof fn lemma_straight_run(self)
        requires
            self.jumps_nowhere(),
            self.reads_nothing(),
            0 <= self.counter <= self.program.len(),
        ensures
            self.run().1 is Ok ==> {
                let steps = (self.program.len() - self.counter) as nat;
                &&& self.run().0 == self.after(steps)
                &&& self.run().1 == Ok::<Seq<ValueView>, RuntimeErrorView>(
                    self.after(steps).output,
                )
                &&& self.after(steps).counter == self.program.len()
                &&& forall|k: nat|
                    k < steps ==> (#[trigger] self.after(k)).counter == self.counter + k
                        && self.after(k).step() is Running
            },
        decreases self.program.len() - self.counter,
    {
        let steps = (self.program.len() - self.counter) as nat;
        self.lemma_step_effects();
        if self.run().1 is Ok {
            match self.step() {
                Step::Running(next) => {
                    assert(next.counter == self.counter + 1);
                    next.lemma_straight_run();
                    assert(self.after(steps) == next.after((steps - 1) as nat));
                    assert forall|k: nat| k < steps implies (#[trigger] self.after(k)).counter
                        == self.counter + k && self.after(k).step() is Running by {
                        if k > 0 {
                            assert(self.after(k) == next.after((k - 1) as nat));
                        }
                    }
                },
                _ => {},
            }
        }
    }

    /// On such a straight run the output tape holds the values in the order
    /// of the outboxes that wrote them: the step from the state after `k`
    /// steps leads to the state after `k + 1` steps, and on the way an outbox
    /// puts the value that the accumulator held at the end of the tape, while
    /// no other instruction touches the tape.
    pub proof fn lemma_straight_outputs(self, k: nat)
        requires
            self.jumps_nowhere(),
            self.reads_nothing(),
            0 <= self.counter <= self.program.len(),
            self.run().1 is Ok,
            k < self.program.len() - self.counter,
        ensures
            self.after(k).step() == Step::Running(self.after(k + 1)),
            self.after(k + 1).output == if self.after(k).current() is Outbox {
                self.after(k).output.push(self.after(k).accumulator->Some_0)
            } else {
                self.after(k).output
            },
    {
        self.lemma_straight_run();
        self.lemma_after_next(k);
        let at = self.after(k);
        assert(at.step() is Running);
        let next = at.step()->Running_0;
        assert(next.after(0) == next);
        assert(at.after(1) == next);
        at.lemma_step_effects();
    }

    /// Whether the program holds no inbox.
    pub open spec fn reads_nothing(self) -> bool {
        forall|i: int| 0 <= i < self.program.len() ==> !(#[trigger] self.program[i] is Inbox)
    }

    /// An inbox that finds the input tape used up halts the machine: it is
    /// the end of the run, and never an error.
    pub proof fn lemma_starved_halts(self)
        ensures
            self.starved() ==> self.step() == Step::Halted && self.run() == (
                self,
                Ok::<Seq<ValueView>, RuntimeErrorView>(self.output),
            ),
    {
    }

    /// A run ends in a state that does not go on: where the run gives the
    /// output tape, the machine has halted there, and the tape is its output
    /// tape; where it gives an error, the step from there fails with it. The
    /// program and the input tape are those of the start, the output tape has
    /// only grown, and no fewer values were read and no fewer instructions
    /// executed than at the start.
    pub proof fn lemma_run_ends(self)
        ensures
            self.run().0.program == self.program,
            self.run().0.input == self.input,
            self.run().0.executions >= self.executions,
            self.run().0.input_index >= self.input_index,
            self.output.is_prefix_of(self.run().0.output),
            match self.run().1 {
                Ok(output) => self.run().0.step() == Step::Halted && output
                    == self.run().0.output,
                Err(e) => self.run().0.step() == Step::Failed(e),
            },
        decreases self.fuel().0, self.fuel().1,
    {
        self.lemma_step_progress();
        match self.step() {
            Step::Running(next) => {
                assert(self.output.is_prefix_of(next.output));
                assert(next.input_index >= self.input_index);
                next.lemma_run_ends();
            },
            _ => {},
        }
    }

    /// A machine whose program holds no inbox never reads its input tape,
    /// whatever the tape holds, and does not halt before it has run off the
    /// end of its program: its run gives either the output tape, with the
    /// program counter past the program, or the error of a failed step.
    pub proof fn lemma_run_without_inbox(self)
        requires
            self.reads_nothing(),
        ensures
            !self.starved(),
            self.run().0.input_index == self.input_index,
            self.run().1 is Ok ==> !self.run().0.in_program(),
        decreases self.fuel().0, self.fuel().1,
    {
        self.lemma_step_progress();
        match self.step() {
            Step::Running(next) => {
                assert(next.input_index == self.input_index);
                next.lemma_run_without_inbox();
            },
            _ => {},
        }
    }
}

} // verus!
