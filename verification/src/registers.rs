//! The register file: a finite map from keys to values that grows when a
//! register is first written.
use crate::value::{Value, ValueView};
use vstd::prelude::*;

verus! {

/// The map that a sequence of bindings builds up, a later binding of a key
/// taking the place of an earlier one.
pub open spec fn bindings(entries: Seq<(ValueView, ValueView)>) -> Map<ValueView, ValueView>
    decreases entries.len(),
{
    if entries.len() == 0 {
        Map::empty()
    } else {
        bindings(entries.drop_last()).insert(entries.last().0, entries.last().1)
    }
}

/// No key is bound twice.
pub open spec fn distinct_keys(entries: Seq<(ValueView, ValueView)>) -> bool {
    forall|i: int, j: int| 0 <= i < j < entries.len() ==> entries[i].0 != entries[j].0
}

/// The keys of the map are the keys of the bindings.
pub proof fn lemma_bindings_keys(entries: Seq<(ValueView, ValueView)>, key: ValueView)
    ensures
        bindings(entries).contains_key(key) <==> exists|i: int|
            0 <= i < entries.len() && #[trigger] entries[i].0 == key,
        bindings(entries).dom().finite(),
    decreases entries.len(),
{
    if entries.len() > 0 {
        let front = entries.drop_last();
        lemma_bindings_keys(front, key);
        if bindings(entries).contains_key(key) {
            if entries.last().0 == key {
                assert(entries[entries.len() - 1].0 == key);
            } else {
                let i = choose|i: int| 0 <= i < front.len() && #[trigger] front[i].0 == key;
                assert(entries[i].0 == key);
            }
        }
        if exists|i: int| 0 <= i < entries.len() && #[trigger] entries[i].0 == key {
            let i = choose|i: int| 0 <= i < entries.len() && #[trigger] entries[i].0 == key;
            if i < entries.len() - 1 {
                assert(front[i].0 == key);
            }
        }
    }
}

/// Where no key is bound twice, each binding is what the map holds for its
/// key, and the map has as many keys as there are bindings.
pub proof fn lemma_bindings_distinct(entries: Seq<(ValueView, ValueView)>)
    requires
        distinct_keys(entries),
    ensures
        forall|i: int|
            0 <= i < entries.len() ==> bindings(entries).contains_key(#[trigger] entries[i].0)
                && bindings(entries)[entries[i].0] == entries[i].1,
        bindings(entries).dom().finite(),
        bindings(entries).dom().len() == entries.len(),
    decreases entries.len(),
{
    if entries.len() > 0 {
        let front = entries.drop_last();
        lemma_bindings_distinct(front);
        lemma_bindings_keys(front, entries.last().0);
        assert(!bindings(front).contains_key(entries.last().0)) by {
            if bindings(front).contains_key(entries.last().0) {
                let i = choose|i: int|
                    0 <= i < front.len() && #[trigger] front[i].0 == entries.last().0;
                assert(entries[i].0 == entries[entries.len() - 1].0);
            }
        }
        assert forall|i: int| 0 <= i < entries.len() implies bindings(entries).contains_key(
            #[trigger] entries[i].0,
        ) && bindings(entries)[entries[i].0] == entries[i].1 by {
            if i < entries.len() - 1 {
                assert(front[i] == entries[i]);
                assert(entries[i].0 != entries[entries.len() - 1].0);
            }
        }
    }
}

/// Replacing the value of a binding replaces the value that the map holds for
/// its key.
pub proof fn lemma_bindings_update(
    entries: Seq<(ValueView, ValueView)>,
    i: int,
    value: ValueView,
)
    requires
        distinct_keys(entries),
        0 <= i < entries.len(),
    ensures
        distinct_keys(entries.update(i, (entries[i].0, value))),
        bindings(entries.update(i, (entries[i].0, value))) == bindings(entries).insert(
            entries[i].0,
            value,
        ),
    decreases entries.len(),
{
    let updated = entries.update(i, (entries[i].0, value));
    assert(distinct_keys(updated)) by {
        assert forall|a: int, b: int| 0 <= a < b < updated.len() implies updated[a].0
            != updated[b].0 by {
            assert(updated[a].0 == entries[a].0);
            assert(updated[b].0 == entries[b].0);
        }
    }
    let front = entries.drop_last();
    if i == entries.len() - 1 {
        assert(updated.drop_last() == front);
        assert(bindings(updated) == bindings(entries).insert(entries[i].0, value));
    } else {
        assert(distinct_keys(front)) by {
            assert forall|a: int, b: int| 0 <= a < b < front.len() implies front[a].0
                != front[b].0 by {
                assert(front[a] == entries[a]);
                assert(front[b] == entries[b]);
            }
        }
        lemma_bindings_update(front, i, value);
        assert(updated.drop_last() == front.update(i, (front[i].0, value)));
        assert(entries[i].0 != entries[entries.len() - 1].0);
        assert(bindings(updated) == bindings(entries).insert(entries[i].0, value));
    }
}

/// The registers of a machine: each key that was ever written, with the value
/// it holds now.
pub struct RegisterFile {
    entries: Vec<(Value, Value)>,
}

impl View for RegisterFile {
    type V = Map<ValueView, ValueView>;

    closed spec fn view(&self) -> Map<ValueView, ValueView> {
        bindings(self.entries.deep_view())
    }
}

impl RegisterFile {
    /// No key is bound twice.
    #[verifier::type_invariant]
    spec fn well_formed(self) -> bool {
        distinct_keys(self.entries.deep_view())
    }

    /// A register file without registers.
    pub fn new() -> (r: Self)
        ensures
            r@ == Map::<ValueView, ValueView>::empty(),
    {
        let entries: Vec<(Value, Value)> = Vec::new();
        assert(entries.deep_view() == Seq::<(ValueView, ValueView)>::empty());
        Self { entries }
    }

    /// The index of the binding of `key`.
    fn find(&self, key: &Value) -> (r: Option<usize>)
        ensures
            match r {
                Some(i) => i < self.entries.len() && self.entries[i as int].0@ == key@,
                None => !self@.contains_key(key@),
            },
    {
        let mut i: usize = 0;
        while i < self.entries.len()
            invariant
                i <= self.entries.len(),
                forall|j: int| 0 <= j < i ==> self.entries[j].0@ != key@,
            decreases self.entries.len() - i,
        {
            if self.entries[i].0 == *key {
                return Some(i);
            }
            i += 1;
        }
        proof {
            lemma_bindings_keys(self.entries.deep_view(), key@);
            if self@.contains_key(key@) {
                let j = choose|j: int|
                    0 <= j < self.entries.deep_view().len()
                        && #[trigger] self.entries.deep_view()[j].0 == key@;
                assert(self.entries[j].0@ == key@);
            }
        }
        None
    }

    /// The value that the register `key` holds, if it was ever written.
    pub fn get(&self, key: &Value) -> (r: Option<&Value>)
        ensures
            match r {
                Some(v) => self@.contains_key(key@) && self@[key@] == v@,
                None => !self@.contains_key(key@),
            },
    {
        proof {
            use_type_invariant(self);
        }
        match self.find(key) {
            Some(i) => {
                proof {
                    lemma_bindings_distinct(self.entries.deep_view());
                    assert(self.entries.deep_view()[i as int].0 == key@);
                }
                Some(&self.entries[i].1)
            },
            None => None,
        }
    }

    /// Writes `value` to the register `key`.
    pub fn insert(&mut self, key: Value, value: Value)
        ensures
            final(self)@ == old(self)@.insert(key@, value@),
    {
        proof {
            use_type_invariant(&*self);
        }
        let ghost before = self.entries.deep_view();
        let found = self.find(&key);
        let mut entries: Vec<(Value, Value)> = Vec::new();
        assert(entries.deep_view() == Seq::<(ValueView, ValueView)>::empty());
        std::mem::swap(&mut entries, &mut self.entries);
        match found {
            Some(i) => {
                proof {
                    lemma_bindings_update(before, i as int, value@);
                    assert(before[i as int].0 == key@);
                }
                entries.set(i, (key, value));
                assert(entries.deep_view() == before.update(i as int, (key@, value@)));
            },
            None => {
                proof {
                    lemma_bindings_keys(before, key@);
                }
                entries.push((key, value));
                assert(entries.deep_view() == before.push((key@, value@)));
                assert(entries.deep_view().drop_last() == before);
                assert(distinct_keys(entries.deep_view())) by {
                    assert forall|a: int, b: int|
                        0 <= a < b < entries.deep_view().len() implies entries.deep_view()[a].0
                        != entries.deep_view()[b].0 by {
                        assert(before[a].0 == entries.deep_view()[a].0);
                        if b < before.len() {
                            assert(before[b].0 == entries.deep_view()[b].0);
                        }
                    }
                }
            },
        }
        self.entries = entries;
    }

    /// The number of registers that were ever written.
    pub fn len(&self) -> (r: usize)
        ensures
            self@.dom().finite(),
            r == self@.len(),
    {
        proof {
            use_type_invariant(self);
            lemma_bindings_distinct(self.entries.deep_view());
        }
        self.entries.len()
    }
}

} // verus!
