use vstd::prelude::*;

use crate::text::same_text;

verus! {

/// Values given by column name, each column at most once, in the order in
/// which the columns were first given.
#[derive(Debug)]
pub struct ColumnValues {
    entries: Vec<(String, String)>,
}

impl ColumnValues {
    #[verifier::type_invariant]
    spec fn distinct_columns(&self) -> bool {
        forall|i: int, j: int|
            0 <= i < j < self.entries@.len() ==> (#[trigger] self.entries@[i]).0@
                != (#[trigger] self.entries@[j]).0@
    }

    /// The number of columns given.
    pub closed spec fn count(&self) -> nat {
        self.entries@.len()
    }

    /// The column given in place `i`.
    pub closed spec fn key_at(&self, i: int) -> Seq<char> {
        self.entries@[i].0@
    }

    /// The columns given, in order.
    pub closed spec fn keys(&self) -> Seq<Seq<char>> {
        self.entries@.map_values(|e: (String, String)| e.0@)
    }

    /// Every column given is some `key_at(i)`, and each `key_at(i)` is given.
    pub broadcast proof fn lemma_keys(&self)
        ensures
            forall|k: Seq<char>| #[trigger]
                self@.contains_key(k) <==> exists|i: int|
                    0 <= i < self.count() && #[trigger] self.key_at(i) == k,
            self@.dom() == self.keys().to_set(),
            self.keys().len() == self.count(),
            forall|i: int| 0 <= i < self.count() ==> #[trigger] self.keys()[i] == self.key_at(i),
    {
        assert forall|k: Seq<char>|
            #![trigger self@.contains_key(k)]
            self@.contains_key(k) <==> self.keys().contains(k) by {
            if self@.contains_key(k) {
                let i = choose|i: int| 0 <= i < self.entries@.len() && self.entries@[i].0@ == k;
                assert(self.keys()[i] == k);
            }
            if self.keys().contains(k) {
                let i = choose|i: int| 0 <= i < self.keys().len() && self.keys()[i] == k;
                assert(self.entries@[i].0@ == k);
            }
        }
        assert forall|k: Seq<char>| #[trigger]
            self@.contains_key(k) <==> exists|i: int|
                0 <= i < self.count() && #[trigger] self.key_at(i) == k by {
            if self@.contains_key(k) {
                let i = choose|i: int| 0 <= i < self.entries@.len() && self.entries@[i].0@ == k;
                assert(self.key_at(i) == k);
            }
            if exists|i: int| 0 <= i < self.count() && #[trigger] self.key_at(i) == k {
                let i = choose|i: int| 0 <= i < self.count() && #[trigger] self.key_at(i) == k;
                assert(self.entries@[i].0@ == k);
            }
        }
        assert(self@.dom() =~= self.keys().to_set());
    }
}

impl View for ColumnValues {
    type V = Map<Seq<char>, Seq<char>>;

    closed spec fn view(&self) -> Map<Seq<char>, Seq<char>> {
        Map::new(
            |k: Seq<char>| exists|i: int| 0 <= i < self.entries@.len() && self.entries@[i].0@ == k,
            |k: Seq<char>|
                self.entries@[choose|i: int|
                    0 <= i < self.entries@.len() && self.entries@[i].0@ == k].1@,
        )
    }
}

impl ColumnValues {
    /// No values.
    pub fn new() -> (r: ColumnValues)
        ensures
            r@ == Map::<Seq<char>, Seq<char>>::empty(),
            r.count() == 0,
    {
        let r = ColumnValues { entries: Vec::new() };
        assert(r@ =~= Map::<Seq<char>, Seq<char>>::empty());
        r
    }

    /// The place of the column among the entries, if it is given.
    fn position(&self, column: &str) -> (r: Option<usize>)
        ensures
            match r {
                Some(i) => i < self.entries@.len() && self.entries@[i as int].0@ == column@,
                None => forall|i: int|
                    0 <= i < self.entries@.len() ==> self.entries@[i].0@ != column@,
            },
    {
        let mut i: usize = 0;
        while i < self.entries.len()
            invariant
                i <= self.entries@.len(),
                forall|j: int| 0 <= j < i ==> self.entries@[j].0@ != column@,
            decreases self.entries@.len() - i,
        {
            if same_text(self.entries[i].0.as_str(), column) {
                return Some(i);
            }
            i += 1;
        }
        None
    }

    /// Gives `value` for `column`, in place of any value it had.
    pub fn insert(&mut self, column: String, value: String)
        ensures
            final(self)@ == old(self)@.insert(column@, value@),
    {
        let place = self.position(column.as_str());
        let mut taken = ColumnValues::new();
        std::mem::swap(self, &mut taken);
        proof {
            use_type_invariant(&taken);
        }
        let ghost before = taken.entries@;
        let ghost n = before.len();
        let ColumnValues { mut entries } = taken;
        match place {
            Some(i) => {
                entries.set(i, (column, value));
            },
            None => {
                entries.push((column, value));
            },
        }
        let ghost after = entries@;
        assert forall|i: int, j: int|
            0 <= i < j < after.len() implies (#[trigger] after[i]).0@ != (#[trigger] after[j]).0@ by {
            if place is None && j == n {
                assert(before[i].0@ != column@);
            }
        }
        *self = ColumnValues { entries };
        let ghost expected = old(self)@.insert(column@, value@);
        assert forall|k: Seq<char>| #[trigger]
            self@.contains_key(k) == expected.contains_key(k) by {
            if old(self)@.contains_key(k) {
                let j = choose|j: int| 0 <= j < before.len() && before[j].0@ == k;
                assert(after[j].0@ == k || k == column@);
            }
            if k == column@ {
                match place {
                    Some(i) => assert(after[i as int].0@ == k),
                    None => assert(after[n as int].0@ == k),
                }
            }
            if self@.contains_key(k) && k != column@ {
                let j = choose|j: int| 0 <= j < after.len() && after[j].0@ == k;
                assert(before[j].0@ == k);
            }
        }
        assert forall|k: Seq<char>| #[trigger] self@.contains_key(k) implies self@[k]
            == expected[k] by {
            let j = choose|j: int| 0 <= j < after.len() && after[j].0@ == k;
            if k != column@ {
                assert(before[j].0@ == k);
                let j0 = choose|j0: int| 0 <= j0 < before.len() && before[j0].0@ == k;
                assert(j0 == j);
            } else {
                match place {
                    Some(i) => assert(j == i),
                    None => assert(j == n),
                }
            }
        }
        assert(self@ =~= expected);
    }

    /// The value given for `column`, if any.
    pub fn get(&self, column: &str) -> (r: Option<&String>)
        ensures
            match r {
                Some(v) => self@.contains_key(column@) && self@[column@] == v@,
                None => !self@.contains_key(column@),
            },
    {
        proof {
            use_type_invariant(self);
        }
        match self.position(column) {
            Some(i) => {
                let ghost j = choose|j: int|
                    0 <= j < self.entries@.len() && self.entries@[j].0@ == column@;
                assert(j == i);
                Some(&self.entries[i].1)
            },
            None => None,
        }
    }

    /// The number of columns given.
    pub fn len(&self) -> (r: usize)
        ensures
            r == self.count(),
            r == self@.len(),
    {
        proof {
            use_type_invariant(self);
            self.lemma_keys();
            assert(self.keys().no_duplicates()) by {
                assert forall|i: int, j: int|
                    0 <= i < self.keys().len() && 0 <= j < self.keys().len() && i != j implies
                    self.keys()[i] != self.keys()[j] by {
                    assert(self.keys()[i] == self.entries@[i].0@);
                    assert(self.keys()[j] == self.entries@[j].0@);
                    if i < j {
                        assert(self.entries@[i].0@ != self.entries@[j].0@);
                    } else {
                        assert(self.entries@[j].0@ != self.entries@[i].0@);
                    }
                }
            }
            self.keys().unique_seq_to_set();
        }
        self.entries.len()
    }

    /// The column given in place `i`, with its value.
    pub fn column_at(&self, i: usize) -> (r: (&String, &String))
        requires
            i < self.count(),
        ensures
            r.0@ == self.key_at(i as int),
            self@.contains_key(r.0@),
            self@[r.0@] == r.1@,
    {
        proof {
            use_type_invariant(self);
            let j = choose|j: int|
                0 <= j < self.entries@.len() && self.entries@[j].0@ == self.entries@[i as int].0@;
            assert(j == i);
        }
        (&self.entries[i].0, &self.entries[i].1)
    }
}

} // verus!
