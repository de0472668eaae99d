//! A table from texts to values.

use crate::text;
use vstd::prelude::*;

verus! {

/// One row of a table.
pub struct Row<V> {
    pub key: String,
    pub value: V,
}

/// A table in which each key has one row.
pub struct Table<V> {
    pub rows: Vec<Row<V>>,
}

impl<V: View> View for Table<V> {
    type V = Map<Seq<char>, V::V>;

    open spec fn view(&self) -> Map<Seq<char>, V::V> {
        Map::new(
            |k: Seq<char>| exists|i: int| self.has_at(k, i),
            |k: Seq<char>| self.rows@[choose|i: int| self.has_at(k, i)].value@,
        )
    }
}

impl<V> Table<V> {
    /// Row `i` has the key `k`.
    pub open spec fn has_at(&self, k: Seq<char>, i: int) -> bool {
        0 <= i < self.rows@.len() && self.rows@[i].key@ == k
    }

    /// No key has two rows.
    pub open spec fn wf(&self) -> bool {
        forall|k: Seq<char>, i: int, j: int|
            #![trigger self.has_at(k, i), self.has_at(k, j)]
            self.has_at(k, i) && self.has_at(k, j) ==> i == j
    }

    fn position(&self, key: &str) -> (r: Option<usize>)
        ensures
            match r {
                Some(i) => self.has_at(key@, i as int),
                None => forall|i: int| !#[trigger] self.has_at(key@, i),
            },
    {
        let mut i: usize = 0;
        while i < self.rows.len()
            invariant
                i <= self.rows.len(),
                forall|k: int| k < i ==> !#[trigger] self.has_at(key@, k),
            decreases self.rows.len() - i,
        {
            if text::same_text(self.rows[i].key.as_str(), key) {
                return Some(i);
            }
            i += 1;
        }
        None
    }
}

impl<V: View> Table<V> {
    /// A table without rows.
    pub fn new() -> (r: Table<V>)
        ensures
            r.wf(),
            r@ == Map::<Seq<char>, V::V>::empty(),
    {
        let r = Table { rows: Vec::new() };
        proof {
            assert(r@ =~= Map::<Seq<char>, V::V>::empty());
        }
        r
    }

    /// The value of a key.
    pub fn get(&self, key: &str) -> (r: Option<&V>)
        requires
            self.wf(),
        ensures
            match r {
                Some(v) => self@.dom().contains(key@) && self@[key@] == v@,
                None => !self@.dom().contains(key@),
            },
    {
        match self.position(key) {
            Some(i) => {
                proof {
                    assert(self.has_at(key@, i as int));
                }
                Some(&self.rows[i].value)
            },
            None => None,
        }
    }

    /// Takes a key out and returns the value it had.
    pub fn remove(&mut self, key: &str) -> (r: Option<V>)
        requires
            old(self).wf(),
        ensures
            final(self).wf(),
            final(self)@ == old(self)@.remove(key@),
            match r {
                Some(v) => old(self)@.dom().contains(key@) && old(self)@[key@] == v@,
                None => !old(self)@.dom().contains(key@),
            },
    {
        match self.position(key) {
            Some(at) => {
                let ghost before = *self;
                let row = self.rows.remove(at);
                proof {
                    assert(before.has_at(key@, at as int));
                    assert forall|k: Seq<char>, i: int| #[trigger] self.has_at(k, i) implies k
                        != key@ && before.has_at(
                        k,
                        if i < at {
                            i
                        } else {
                            i + 1
                        },
                    ) by {
                        if i < at {
                            assert(before.has_at(k, i));
                        } else {
                            assert(before.has_at(k, i + 1));
                        }
                    }
                    assert forall|k: Seq<char>, i: int| #[trigger] before.has_at(k, i) && k
                        != key@ implies self.has_at(
                        k,
                        if i < at {
                            i
                        } else {
                            i - 1
                        },
                    ) by {}
                    assert(self@ =~= before@.remove(key@));
                }
                Some(row.value)
            },
            None => {
                proof {
                    assert(self@.remove(key@) =~= self@);
                }
                None
            },
        }
    }

    /// Gives a key its value, in place of any it had.
    pub fn insert(&mut self, key: &str, value: V)
        requires
            old(self).wf(),
        ensures
            final(self).wf(),
            final(self)@ == old(self)@.insert(key@, value@),
    {
        let _ = self.remove(key);
        let ghost before = *self;
        self.rows.push(Row { key: key.to_owned(), value });
        proof {
            let n = before.rows@.len() as int;
            assert(!before@.dom().contains(key@));
            assert(self.has_at(key@, n));
            assert forall|k: Seq<char>, i: int| #[trigger] self.has_at(k, i) implies (if i < n {
                before.has_at(k, i) && k != key@
            } else {
                i == n && k == key@
            }) by {
                if i < n {
                    assert(before.has_at(k, i));
                }
            }
            assert forall|k: Seq<char>, i: int| #[trigger] before.has_at(k, i) implies self.has_at(
                k,
                i,
            ) by {}
            assert(self@ =~= before@.insert(key@, value@));
        }
    }
}

} // verus!
