//! What can go wrong while a program runs.
use crate::instruction::{Instruction, InstructionView};
use crate::value::{Value, ValueView};
use vstd::prelude::*;

verus! {

/// Why a step fails.
#[derive(Debug, PartialEq, Eq)]
pub enum RuntimeError {
    /// The instruction needs a value in the accumulator, which is empty.
    EmptyAccumulator { instruction: Instruction },
    /// An integer was needed where a text was found.
    ExpectedInteger { text: String },
    /// The register was never written.
    RegisterNotFound { register: Value },
    /// The register that an indirect reference leads to was never written.
    IndirectRegisterNotFound { register: Value },
    /// The program has no label of that name.
    LabelNotFound { label: String },
    /// The accumulator does not hold the expected value.
    AssertionFailed { expected: Value, found: Option<Value> },
    /// The register does not hold the expected value.
    RegisterAssertionFailed { name: String, expected: Value, found: Option<Value> },
    /// The result of the instruction is no 32-bit signed integer.
    Overflow { instruction: Instruction },
    /// The count of executed instructions cannot grow any further.
    StepLimit,
}

/// What a `RuntimeError` stands for.
pub enum RuntimeErrorView {
    EmptyAccumulator { instruction: InstructionView },
    ExpectedInteger { text: Seq<char> },
    RegisterNotFound { register: ValueView },
    IndirectRegisterNotFound { register: ValueView },
    LabelNotFound { label: Seq<char> },
    AssertionFailed { expected: ValueView, found: Option<ValueView> },
    RegisterAssertionFailed { name: Seq<char>, expected: ValueView, found: Option<ValueView> },
    Overflow { instruction: InstructionView },
    StepLimit,
}

/// The text that shows what was found where a value was expected.
pub open spec fn found_text(found: Option<ValueView>) -> Seq<char> {
    match found {
        Some(value) => value.text(),
        None => "nothing"@,
    }
}

impl RuntimeErrorView {
    /// The error as a message.
    pub open spec fn message(self) -> Seq<char> {
        match self {
            RuntimeErrorView::EmptyAccumulator { instruction } => "No value for "@
                + instruction.text(),
            RuntimeErrorView::ExpectedInteger { text } => "Expected integer, got string: "@
                + text,
            RuntimeErrorView::RegisterNotFound { register } => "Register "@ + register.text()
                + " not found"@,
            RuntimeErrorView::IndirectRegisterNotFound { register } => "Indirect register "@
                + register.text() + " not found"@,
            RuntimeErrorView::LabelNotFound { label } => "Label '"@ + label + "' not found"@,
            RuntimeErrorView::AssertionFailed { expected, found } => "Assertion failed: expected "@
                + expected.text() + ", got "@ + found_text(found),
            RuntimeErrorView::RegisterAssertionFailed {
                name,
                expected,
                found,
            } => "Assertion failed: expected register '"@ + name + "' to be "@
                + expected.text() + ", got "@ + found_text(found),
            RuntimeErrorView::Overflow { instruction } => "Integer overflow in "@
                + instruction.text(),
            RuntimeErrorView::StepLimit => "Execution count is at its limit"@,
        }
    }
}

impl View for RuntimeError {
    type V = RuntimeErrorView;

    open spec fn view(&self) -> RuntimeErrorView {
        match self {
            RuntimeError::EmptyAccumulator { instruction } => RuntimeErrorView::EmptyAccumulator {
                instruction: instruction@,
            },
            RuntimeError::ExpectedInteger { text } => RuntimeErrorView::ExpectedInteger {
                text: text@,
            },
            RuntimeError::RegisterNotFound { register } => RuntimeErrorView::RegisterNotFound {
                register: register@,
            },
            RuntimeError::IndirectRegisterNotFound {
                register,
            } => RuntimeErrorView::IndirectRegisterNotFound { register: register@ },
            RuntimeError::LabelNotFound { label } => RuntimeErrorView::LabelNotFound {
                label: label@,
            },
            RuntimeError::AssertionFailed { expected, found } => RuntimeErrorView::AssertionFailed {
                expected: expected@,
                found: found.deep_view(),
            },
            RuntimeError::RegisterAssertionFailed {
                name,
                expected,
                found,
            } => RuntimeErrorView::RegisterAssertionFailed {
                name: name@,
                expected: expected@,
                found: found.deep_view(),
            },
            RuntimeError::Overflow { instruction } => RuntimeErrorView::Overflow {
                instruction: instruction@,
            },
            RuntimeError::StepLimit => RuntimeErrorView::StepLimit,
        }
    }
}

/// The text that shows what was found where a value was expected.
fn found_to_string(found: &Option<Value>) -> (r: String)
    ensures
        r@ == found_text(found.deep_view()),
{
    match found {
        Some(value) => value.to_string(),
        None => String::from_str("nothing"),
    }
}

impl RuntimeError {
    /// The error as a message.
    pub fn to_string(&self) -> (r: String)
        ensures
            r@ == self@.message(),
    {
        match self {
            RuntimeError::EmptyAccumulator { instruction } => {
                let mut s = String::from_str("No value for ");
                s.append(instruction.to_string().as_str());
                s
            },
            RuntimeError::ExpectedInteger { text } => {
                let mut s = String::from_str("Expected integer, got string: ");
                s.append(text.as_str());
                s
            },
            RuntimeError::RegisterNotFound { register } => {
                let mut s = String::from_str("Register ");
                s.append(register.to_string().as_str());
                s.append(" not found");
                s
            },
            RuntimeError::IndirectRegisterNotFound { register } => {
                let mut s = String::from_str("Indirect register ");
                s.append(register.to_string().as_str());
                s.append(" not found");
                s
            },
            RuntimeError::LabelNotFound { label } => {
                let mut s = String::from_str("Label '");
                s.append(label.as_str());
                s.append("' not found");
                s
            },
            RuntimeError::AssertionFailed { expected, found } => {
                let mut s = String::from_str("Assertion failed: expected ");
                s.append(expected.to_string().as_str());
                s.append(", got ");
                s.append(found_to_string(found).as_str());
                s
            },
            RuntimeError::RegisterAssertionFailed { name, expected, found } => {
                let mut s = String::from_str("Assertion failed: expected register '");
                s.append(name.as_str());
                s.append("' to be ");
                s.append(expected.to_string().as_str());
                s.append(", got ");
                s.append(found_to_string(found).as_str());
                s
            },
            RuntimeError::Overflow { instruction } => {
                let mut s = String::from_str("Integer overflow in ");
                s.append(instruction.to_string().as_str());
                s
            },
            RuntimeError::StepLimit => String::from_str("Execution count is at its limit"),
        }
    }
}

} // verus!
