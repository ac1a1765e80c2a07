//! The interpreter: a machine that runs a program, one step at a time or to
//! its end.
use crate::error::{RuntimeError, RuntimeErrorView};
use crate::graph::{graph, render_graph};
use crate::instruction::{Instruction, InstructionView, UsesRegister};
use crate::listing::{listing, render_listing};
use crate::machine::{count_real, read, resolve, Machine, Step};
use crate::program::Program;
use crate::registers::RegisterFile;
use crate::text::{parse_int, str_equal};
use crate::value::{tape_text, value_vec_to_string, Value, ValueView};
use vstd::prelude::*;

verus! {

/// A machine with its program: registers, accumulator, program counter and
/// tapes.
pub struct Interpreter {
    program: Program,
    registers: RegisterFile,
    value: Option<Value>,
    input: Vec<Value>,
    input_index: usize,
    execution_count: usize,
    instruction_index: usize,
    output: Vec<Value>,
}

impl View for Interpreter {
    type V = Machine;

    closed spec fn view(&self) -> Machine {
        Machine {
            program: self.program@,
            input: self.input.deep_view(),
            registers: self.registers@,
            accumulator: self.value.deep_view(),
            counter: self.instruction_index as int,
            input_index: self.input_index as nat,
            output: self.output.deep_view(),
            executions: self.execution_count as nat,
        }
    }
}

impl Interpreter {
    /// A machine for the given program and input tape, with the given
    /// registers, an empty accumulator and an empty output tape, about to
    /// execute the first instruction.
    pub fn new(registers: RegisterFile, instructions: Vec<Instruction>, input: Vec<Value>) -> (r:
        Self)
        ensures
            r@ == Machine::initial(registers@, instructions.deep_view(), input.deep_view()),
    {
        let output: Vec<Value> = Vec::new();
        assert(output.deep_view() == Seq::<ValueView>::empty());
        Self {
            program: Program::new(instructions),
            registers,
            value: None,
            input,
            input_index: 0,
            execution_count: 0,
            instruction_index: 0,
            output,
        }
    }

    /// The output tape so far, copied.
    fn output_so_far(&self) -> (r: Vec<Value>)
        ensures
            r.deep_view() == self@.output,
    {
        let out = self.output.clone();
        assert(out.deep_view() =~= self.output.deep_view());
        out
    }

    /// The value of the register that a reference leads to.
    fn read_register(&self, uses_register: &UsesRegister) -> (r: Result<Value, RuntimeError>)
        ensures
            match read(self@.registers, uses_register@) {
                Ok(value) => r matches Ok(v) && v@ == value,
                Err(e) => r matches Err(x) && x@ == e,
            },
    {
        if uses_register.indirect {
            let indirect_key = match self.registers.get(&uses_register.register) {
                Some(key) => key,
                None => {
                    return Err(
                        RuntimeError::RegisterNotFound {
                            register: uses_register.register.clone(),
                        },
                    );
                },
            };
            match self.registers.get(indirect_key) {
                Some(value) => Ok(value.clone()),
                None => Err(
                    RuntimeError::IndirectRegisterNotFound { register: indirect_key.clone() },
                ),
            }
        } else {
            match self.registers.get(&uses_register.register) {
                Some(value) => Ok(value.clone()),
                None => Err(
                    RuntimeError::RegisterNotFound { register: uses_register.register.clone() },
                ),
            }
        }
    }

    /// The key of the register that a reference leads to.
    fn resolve_register(&self, uses_register: &UsesRegister) -> (r: Result<Value, RuntimeError>)
        ensures
            match resolve(self@.registers, uses_register@) {
                Ok(key) => r matches Ok(k) && k@ == key,
                Err(e) => r matches Err(x) && x@ == e,
            },
    {
        if uses_register.indirect {
            match self.registers.get(&uses_register.register) {
                Some(key) => Ok(key.clone()),
                None => Err(
                    RuntimeError::RegisterNotFound { register: uses_register.register.clone() },
                ),
            }
        } else {
            Ok(uses_register.register.clone())
        }
    }

    /// Writes the accumulator to the register that a reference leads to.
    fn write_register(&mut self, uses_register: &UsesRegister) -> (r: Result<(), RuntimeError>)
        ensures
            match old(self)@.accumulator {
                None => r matches Err(x) && x@ == (RuntimeErrorView::EmptyAccumulator {
                    instruction: InstructionView::CopyTo(uses_register@),
                }) && final(self)@ == old(self)@,
                Some(held) => match resolve(old(self)@.registers, uses_register@) {
                    Err(e) => r matches Err(x) && x@ == e && final(self)@ == old(self)@,
                    Ok(key) => r is Ok && final(self)@ == (Machine {
                        registers: old(self)@.registers.insert(key, held),
                        ..old(self)@
                    }),
                },
            },
    {
        let value = match &self.value {
            Some(value) => value.clone(),
            None => {
                return Err(
                    RuntimeError::EmptyAccumulator {
                        instruction: Instruction::CopyTo(uses_register.clone()),
                    },
                );
            },
        };
        let key = self.resolve_register(uses_register)?;
        self.registers.insert(key, value);
        Ok(())
    }

    /// Runs the program from where it stands to its end: until the machine
    /// halts, which gives the output tape, or a step fails, which gives its
    /// error.
    pub fn execute_program(&mut self) -> (r: Result<Vec<Value>, RuntimeError>)
        ensures
            final(self)@ == old(self)@.run().0,
            match old(self)@.run().1 {
                Ok(output) => r matches Ok(v) && v.deep_view() == output,
                Err(e) => r matches Err(x) && x@ == e,
            },
    {
        loop
            invariant
                self@.run() == old(self)@.run(),
            decreases self@.fuel().0, self@.fuel().1,
        {
            proof {
                self@.lemma_step_progress();
            }
            match self.step() {
                Ok(Some(output)) => {
                    return Ok(output);
                },
                Ok(None) => {},
                Err(e) => {
                    return Err(e);
                },
            }
        }
    }

    /// Moves the program counter to the label `label` and counts the jump.
    fn jump(&mut self, label: &String) -> (r: Result<(), RuntimeError>)
        requires
            old(self)@.executions < Machine::limit(),
        ensures
            match old(self)@.jumped(label@) {
                Step::Running(next) => r is Ok && final(self)@ == next,
                Step::Failed(e) => r matches Err(x) && x@ == e && final(self)@ == old(self)@,
                Step::Halted => false,
            },
    {
        match self.program.target(label.as_str()) {
            Some(target) => {
                self.instruction_index = target;
                self.execution_count += 1;
                Ok(())
            },
            None => Err(RuntimeError::LabelNotFound { label: label.clone() }),
        }
    }

    /// Goes on with the instruction that follows, and counts the one that
    /// was executed.
    fn advance(&mut self)
        requires
            old(self)@.in_program(),
            old(self)@.executions < Machine::limit(),
        ensures
            final(self)@ == old(self)@.advanced(old(self)@.accumulator),
    {
        proof {
            self.program.lemma_len_fits();
        }
        self.instruction_index += 1;
        self.execution_count += 1;
    }

    /// Adds the register to the accumulator, or subtracts it where `subtract`
    /// is set.
    fn combine(
        &mut self,
        instruction: &Instruction,
        uses_register: &UsesRegister,
        subtract: bool,
    ) -> (r: Result<(), RuntimeError>)
        requires
            old(self)@.in_program(),
            old(self)@.current() == instruction@,
            old(self)@.executions < Machine::limit(),
        ensures
            match old(self)@.combined(uses_register@, subtract) {
                Step::Running(next) => r is Ok && final(self)@ == next,
                Step::Failed(e) => r matches Err(x) && x@ == e && final(self)@ == old(self)@,
                Step::Halted => false,
            },
    {
        let current_value = match &self.value {
            Some(value) => value.as_int()?,
            None => {
                return Err(RuntimeError::EmptyAccumulator { instruction: instruction.clone() });
            },
        };
        let argument = self.read_register(uses_register)?.as_int()?;
        let result = if subtract {
            current_value.checked_sub(argument)
        } else {
            current_value.checked_add(argument)
        };
        match result {
            Some(value) => {
                self.value = Some(Value::Int(value));
                self.advance();
                Ok(())
            },
            None => Err(RuntimeError::Overflow { instruction: instruction.clone() }),
        }
    }

    /// Adds `delta` to the register, and loads the new value into the
    /// accumulator too.
    fn bump(&mut self, instruction: &Instruction, uses_register: &UsesRegister, delta: i32) -> (r:
        Result<(), RuntimeError>)
        requires
            old(self)@.in_program(),
            old(self)@.current() == instruction@,
            old(self)@.executions < Machine::limit(),
        ensures
            match old(self)@.bumped(uses_register@, delta as int) {
                Step::Running(next) => r is Ok && final(self)@ == next,
                Step::Failed(e) => r matches Err(x) && x@ == e && final(self)@ == old(self)@,
                Step::Halted => false,
            },
    {
        let key = self.resolve_register(uses_register)?;
        let current = self.read_register(uses_register)?.as_int()?;
        match current.checked_add(delta) {
            Some(value) => {
                self.registers.insert(key, Value::Int(value));
                self.value = Some(Value::Int(value));
                self.advance();
                Ok(())
            },
            None => Err(RuntimeError::Overflow { instruction: instruction.clone() }),
        }
    }

    /// Whether a jump-if-zero is taken.
    fn holds_zero(&self) -> (r: bool)
        ensures
            r == crate::machine::holds_zero(self@.accumulator),
    {
        proof {
            reveal_strlit("0");
        }
        match &self.value {
            Some(Value::Int(i)) => *i == 0,
            Some(Value::String(s)) => {
                assert("0"@ =~= seq!['0']);
                str_equal(s.as_str(), "0")
            },
            None => false,
        }
    }

    /// Whether a jump-if-negative is taken.
    fn holds_negative(&self) -> (r: bool)
        ensures
            r == crate::machine::holds_negative(self@.accumulator),
    {
        match &self.value {
            Some(Value::Int(i)) => *i < 0,
            Some(Value::String(s)) => match parse_int(s.as_str()) {
                Some(i) => i < 0,
                None => false,
            },
            None => false,
        }
    }

    /// Checks an assertion.
    fn check(&self, instruction: &Instruction) -> (r: Result<(), RuntimeError>)
        requires
            self@.in_program(),
            self@.current() == instruction@,
            instruction@.is_assertion(),
        ensures
            match self@.checked() {
                Step::Running(_) => r is Ok,
                Step::Failed(e) => r matches Err(x) && x@ == e,
                Step::Halted => false,
            },
    {
        match instruction {
            Instruction::AssertValueIs { value } => {
                let holds = match &self.value {
                    Some(held) => *held == *value,
                    None => false,
                };
                if holds {
                    Ok(())
                } else {
                    Err(
                        RuntimeError::AssertionFailed {
                            expected: value.clone(),
                            found: match &self.value {
                                Some(held) => Some(held.clone()),
                                None => None,
                            },
                        },
                    )
                }
            },
            Instruction::AssertRegisterIs { register, value } => {
                let register_key = Value::String(register.clone());
                let actual = self.registers.get(&register_key);
                let holds = match actual {
                    Some(held) => *held == *value,
                    None => false,
                };
                if holds {
                    Ok(())
                } else {
                    Err(
                        RuntimeError::RegisterAssertionFailed {
                            name: register.clone(),
                            expected: value.clone(),
                            found: match actual {
                                Some(held) => Some(held.clone()),
                                None => None,
                            },
                        },
                    )
                }
            },
            _ => Ok(()),
        }
    }

    /// Executes one instruction. `Ok(None)` says that the machine goes on;
    /// `Ok(Some(output))` that it has halted, with the output tape so far.
    /// A step that halts or fails changes nothing.
    pub fn step(&mut self) -> (r: Result<Option<Vec<Value>>, RuntimeError>)
        ensures
            match old(self)@.step() {
                Step::Running(next) => r matches Ok(None) && final(self)@ == next,
                Step::Halted => r matches Ok(Some(output)) && output.deep_view() == old(
                    self,
                )@.output && final(self)@ == old(self)@,
                Step::Failed(e) => r matches Err(x) && x@ == e && final(self)@ == old(self)@,
            },
    {
        assert(self.input.deep_view().len() == self.input.len());
        if self.instruction_index >= self.program.len() {
            return Ok(Some(self.output_so_far()));
        }
        let instruction = self.program.instructions()[self.instruction_index].clone();
        assert(instruction@ == self@.current());
        match &instruction {
            Instruction::Label { .. } | Instruction::Comment { .. } => {
                self.instruction_index += 1;
                return Ok(None);
            },
            Instruction::AssertValueIs { .. } | Instruction::AssertRegisterIs { .. } => {
                self.check(&instruction)?;
                self.instruction_index += 1;
                return Ok(None);
            },
            Instruction::Inbox => {
                if self.input_index >= self.input.len() {
                    return Ok(Some(self.output_so_far()));
                }
            },
            _ => {},
        }
        if self.execution_count == usize::MAX {
            return Err(RuntimeError::StepLimit);
        }
        match &instruction {
            Instruction::Inbox => {
                assert(self.input.deep_view()[self.input_index as int]
                    == self.input[self.input_index as int]@);
                self.value = Some(self.input[self.input_index].clone());
                self.input_index += 1;
                self.advance();
            },
            Instruction::Outbox => {
                let value = match self.value.take() {
                    Some(value) => value,
                    None => {
                        return Err(
                            RuntimeError::EmptyAccumulator { instruction: instruction.clone() },
                        );
                    },
                };
                let ghost before = self.output.deep_view();
                self.output.push(value);
                assert(self.output.deep_view() == before.push(value@));
                self.advance();
            },
            Instruction::Add(uses_register) => {
                self.combine(&instruction, uses_register, false)?;
            },
            Instruction::Subtract(uses_register) => {
                self.combine(&instruction, uses_register, true)?;
            },
            Instruction::CopyTo(uses_register) => {
                self.write_register(uses_register)?;
                self.advance();
            },
            Instruction::CopyFrom(uses_register) => {
                self.value = Some(self.read_register(uses_register)?);
                self.advance();
            },
            Instruction::BumpPlus(uses_register) => {
                self.bump(&instruction, uses_register, 1)?;
            },
            Instruction::BumpMinus(uses_register) => {
                self.bump(&instruction, uses_register, -1)?;
            },
            Instruction::Jump { label } => {
                self.jump(label)?;
            },
            Instruction::JumpIfZero { label } => {
                if self.holds_zero() {
                    self.jump(label)?;
                } else {
                    self.advance();
                }
            },
            Instruction::JumpIfNegative { label } => {
                if self.holds_negative() {
                    self.jump(label)?;
                } else {
                    self.advance();
                }
            },
            _ => {},
        }
        Ok(None)
    }

    /// The listing of the program: its instructions as numbered lines,
    /// without the assertions.
    pub fn to_string(&self) -> (r: String)
        ensures
            r@ == listing(self@.program),
    {
        render_listing(self.program.instructions())
    }

    /// The control-flow graph of the program, in the DOT language.
    pub fn to_dot(&self) -> (r: String)
        ensures
            r@ == graph(self@.program),
    {
        render_graph(&self.program)
    }

    /// The value in the accumulator, if it holds one.
    pub fn accumulator(&self) -> (r: Option<&Value>)
        ensures
            r.deep_view() == self@.accumulator,
    {
        self.value.as_ref()
    }

    /// The value that the register `key` holds, if it was ever written.
    pub fn register(&self, key: &Value) -> (r: Option<&Value>)
        ensures
            match r {
                Some(value) => self@.registers.contains_key(key@) && self@.registers[key@]
                    == value@,
                None => !self@.registers.contains_key(key@),
            },
    {
        self.registers.get(key)
    }

    /// The output tape so far.
    pub fn output(&self) -> (r: &Vec<Value>)
        ensures
            r.deep_view() == self@.output,
    {
        &self.output
    }

    /// The position in the program of the instruction to execute next.
    pub fn position(&self) -> (r: usize)
        ensures
            r == self@.counter,
    {
        self.instruction_index
    }

    /// How many real instructions were executed.
    pub fn executions(&self) -> (r: usize)
        ensures
            r == self@.executions,
    {
        self.execution_count
    }

    /// How many real instructions the program has.
    pub fn instruction_count(&self) -> (r: usize)
        ensures
            r == count_real(self@.program),
    {
        self.program.instruction_count()
    }

    /// How many registers were ever written.
    pub fn registers_len(&self) -> (r: usize)
        ensures
            self@.registers.dom().finite(),
            r == self@.registers.len(),
    {
        self.registers.len()
    }

    /// The input tape as one line of text.
    pub fn input_string(&self) -> (r: String)
        ensures
            r@ == tape_text(self@.input),
    {
        value_vec_to_string(self.input.as_slice())
    }
}

} // verus!
