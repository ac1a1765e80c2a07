//! Atomic values: what a register, the accumulator and the tapes hold.
use crate::error::{RuntimeError, RuntimeErrorView};
use crate::text::{decimal, int_to_string, join, join_strings, parse_int, parsed_int};
use vstd::prelude::*;

verus! {

/// An atomic value: an integer or a text. An integer and the text that writes
/// it in decimal are different values.
#[derive(Debug, Hash)]
pub enum Value {
    Int(i32),
    String(String),
}

/// What a `Value` stands for.
pub enum ValueView {
    Int(int),
    Text(Seq<char>),
}

impl ValueView {
    /// The text that shows the value: an integer in decimal, a text as it is.
    pub open spec fn text(self) -> Seq<char> {
        match self {
            ValueView::Int(i) => decimal(i),
            ValueView::Text(s) => s,
        }
    }

    /// The value that a piece of source text denotes: an integer where the
    /// text reads as a 32-bit signed integer in decimal, else the text itself.
    pub open spec fn coerce(s: Seq<char>) -> ValueView {
        match parsed_int(s) {
            Some(i) => ValueView::Int(i),
            None => ValueView::Text(s),
        }
    }
}

impl View for Value {
    type V = ValueView;

    open spec fn view(&self) -> ValueView {
        match self {
            Value::Int(i) => ValueView::Int(*i as int),
            Value::String(s) => ValueView::Text(s@),
        }
    }
}

impl DeepView for Value {
    type V = ValueView;

    open spec fn deep_view(&self) -> ValueView {
        self@
    }
}

impl Clone for Value {
    fn clone(&self) -> (r: Self)
        ensures
            r == *self,
    {
        match self {
            Value::Int(i) => Value::Int(*i),
            Value::String(s) => Value::String(s.clone()),
        }
    }
}

impl PartialEq for Value {
    fn eq(&self, other: &Self) -> (r: bool) {
        match (self, other) {
            (Value::Int(a), Value::Int(b)) => *a == *b,
            (Value::String(a), Value::String(b)) => *a == *b,
            _ => false,
        }
    }
}

impl vstd::std_specs::cmp::PartialEqSpecImpl for Value {
    open spec fn obeys_eq_spec() -> bool {
        true
    }

    open spec fn eq_spec(&self, other: &Self) -> bool {
        self@ == other@
    }
}

impl Eq for Value {

}

impl Value {
    /// The integer that the value is; an error for a text, whatever it reads
    /// as.
    pub fn as_int(&self) -> (r: Result<i32, RuntimeError>)
        ensures
            match self@ {
                ValueView::Int(i) => r == Ok::<i32, RuntimeError>(i as i32),
                ValueView::Text(s) => r matches Err(e) && e@ == (
                RuntimeErrorView::ExpectedInteger { text: s }),
            },
    {
        match self {
            Value::Int(i) => Ok(*i),
            Value::String(s) => Err(RuntimeError::ExpectedInteger { text: s.clone() }),
        }
    }

    /// The text that shows the value.
    pub fn to_string(&self) -> (r: String)
        ensures
            r@ == self@.text(),
    {
        match self {
            Value::Int(i) => int_to_string(*i),
            Value::String(s) => s.clone(),
        }
    }
}

/// The value that a piece of source text denotes: an integer where the text
/// reads as one, else the text itself.
pub fn int_or_str(value: &str) -> (r: Value)
    ensures
        r@ == ValueView::coerce(value@),
{
    match parse_int(value) {
        Some(i) => Value::Int(i),
        None => Value::String(String::from_str(value)),
    }
}

/// The texts that show the values.
pub open spec fn texts(values: Seq<ValueView>) -> Seq<Seq<char>> {
    Seq::new(values.len(), |i: int| values[i].text())
}

/// The values as one line of text, a comma and a space between each two.
pub open spec fn tape_text(values: Seq<ValueView>) -> Seq<char> {
    join(texts(values), ", "@)
}

/// The values as one line of text, a comma and a space between each two.
pub fn value_vec_to_string(values: &[Value]) -> (r: String)
    ensures
        r@ == tape_text(values.deep_view()),
{
    let mut parts: Vec<String> = Vec::new();
    let mut i: usize = 0;
    assert(parts.deep_view() == texts(values.deep_view()).take(0));
    while i < values.len()
        invariant
            i <= values.len(),
            parts.deep_view() == texts(values.deep_view()).take(i as int),
        decreases values.len() - i,
    {
        let ghost before = parts.deep_view();
        let part = values[i].to_string();
        assert(values.deep_view()[i as int] == values[i as int]@);
        parts.push(part);
        assert(parts.deep_view() == before.push(part@));
        i += 1;
    }
    assert(texts(values.deep_view()).take(i as int) == texts(values.deep_view()));
    join_strings(&parts, ", ")
}

} // verus!
