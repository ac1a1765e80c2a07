//! A level: a program with the registers and the input tape it starts
//! from, and the two targets it is measured against.
use crate::registers::{bindings, RegisterFile};
use crate::text::{lines, split_lines};
use crate::value::{int_or_str, Value, ValueView};
use vstd::prelude::*;

verus! {

/// A level, as its definition gives it.
#[derive(Debug)]
pub struct Level {
    /// The source text of the program.
    pub source: String,
    /// The input tape, one value on each line.
    pub input: Option<String>,
    /// The registers that are written before the program starts: key and
    /// value, each as source text.
    pub registers: Vec<(String, String)>,
    /// The number of executed instructions to stay within.
    pub speed_challenge: i32,
    /// The number of real instructions to stay within.
    pub size_challenge: i32,
}

/// The values that the lines of an input tape denote, the empty lines left
/// out.
pub open spec fn input_values(ls: Seq<Seq<char>>) -> Seq<ValueView>
    decreases ls.len(),
{
    if ls.len() == 0 {
        Seq::empty()
    } else if ls.last().len() == 0 {
        input_values(ls.drop_last())
    } else {
        input_values(ls.drop_last()).push(ValueView::coerce(ls.last()))
    }
}

/// The bindings that pairs of source texts denote.
pub open spec fn register_entries(pairs: Seq<(Seq<char>, Seq<char>)>) -> Seq<
    (ValueView, ValueView),
> {
    Seq::new(
        pairs.len(),
        |i: int| (ValueView::coerce(pairs[i].0), ValueView::coerce(pairs[i].1)),
    )
}

impl Level {
    /// The input tape: one value for each line of the input text that is not
    /// empty; no value where the level has no input text.
    pub fn get_input(&self) -> (r: Vec<Value>)
        ensures
            r.deep_view() == match self.input {
                Some(text) => input_values(lines(text@)),
                None => Seq::empty(),
            },
    {
        let mut values: Vec<Value> = Vec::new();
        assert(values.deep_view() == Seq::<ValueView>::empty());
        match &self.input {
            None => {},
            Some(text) => {
                let ls = split_lines(text.as_str());
                let mut i: usize = 0;
                assert(ls.deep_view().take(0) == Seq::<Seq<char>>::empty());
                while i < ls.len()
                    invariant
                        i <= ls.len(),
                        values.deep_view() == input_values(ls.deep_view().take(i as int)),
                    decreases ls.len() - i,
                {
                    let ghost upto = ls.deep_view().take(i + 1);
                    let ghost before = values.deep_view();
                    assert(upto.drop_last() == ls.deep_view().take(i as int));
                    assert(upto.last() == ls[i as int]@);
                    if !ls[i].as_str().is_empty() {
                        let value = int_or_str(ls[i].as_str());
                        values.push(value);
                        assert(values.deep_view() == before.push(value@));
                    }
                    i += 1;
                }
                assert(ls.deep_view().take(i as int) == ls.deep_view());
            },
        }
        values
    }

    /// The registers before the program starts. Where two keys denote one
    /// value, the later pair stands.
    pub fn get_registers(&self) -> (r: RegisterFile)
        ensures
            r@ == bindings(register_entries(self.registers.deep_view())),
    {
        let ghost entries = register_entries(self.registers.deep_view());
        let mut registers = RegisterFile::new();
        let mut i: usize = 0;
        assert(entries.take(0) == Seq::<(ValueView, ValueView)>::empty());
        while i < self.registers.len()
            invariant
                i <= self.registers.len(),
                entries == register_entries(self.registers.deep_view()),
                registers@ == bindings(entries.take(i as int)),
            decreases self.registers.len() - i,
        {
            let ghost upto = entries.take(i + 1);
            assert(upto.drop_last() == entries.take(i as int));
            assert(self.registers.deep_view()[i as int] == (
                self.registers[i as int].0@,
                self.registers[i as int].1@,
            ));
            let key = int_or_str(self.registers[i].0.as_str());
            let value = int_or_str(self.registers[i].1.as_str());
            registers.insert(key, value);
            i += 1;
        }
        assert(entries.take(i as int) == entries);
        registers
    }
}

} // verus!
