//! Ids of open requests, as the protocol has them: integers and texts.

use crate::json::{self, Json, JsonView};
use crate::text;
use vstd::prelude::*;

verus! {

/// The value can be the id of a request.
pub open spec fn is_id(j: JsonView) -> bool {
    j is Text || j.uint() is Some || j.sint() is Some
}

/// Whether a value can be the id of a request.
pub fn usable(j: &Json) -> (r: bool)
    ensures
        r == is_id(j@),
{
    j.as_str().is_some() || j.as_u64().is_some() || j.as_i64().is_some()
}

/// Whether an id is the value.
pub fn same_id(id: &Json, j: &Json) -> (r: bool)
    requires
        is_id(id@),
    ensures
        r == (id@ == j@),
{
    match (id.as_str(), j.as_str()) {
        (Some(a), Some(b)) => return text::same_text(a, b),
        (Some(_), None) => return false,
        _ => {},
    }
    match (id.as_u64(), j.as_u64()) {
        (Some(a), Some(b)) => return a == b,
        (Some(_), None) => return false,
        _ => {},
    }
    match (id.as_i64(), j.as_i64()) {
        (Some(a), Some(b)) => a == b,
        _ => false,
    }
}

/// A set of ids.
pub struct Ids {
    pub items: Vec<Json>,
}

impl View for Ids {
    type V = Set<JsonView>;

    open spec fn view(&self) -> Set<JsonView> {
        json::list_view(self.items@).to_set()
    }
}

impl Ids {
    /// All items are ids.
    pub open spec fn wf(&self) -> bool {
        forall|j: JsonView| #[trigger] self@.contains(j) ==> is_id(j)
    }

    /// No ids.
    pub fn new() -> (r: Ids)
        ensures
            r.wf(),
            r@ == Set::<JsonView>::empty(),
    {
        let r = Ids { items: Vec::new() };
        proof {
            assert(r@ =~= Set::<JsonView>::empty());
        }
        r
    }

    /// Whether the value is among the ids.
    pub fn contains(&self, j: &Json) -> (r: bool)
        requires
            self.wf(),
        ensures
            r == self@.contains(j@),
    {
        let ghost all = json::list_view(self.items@);
        proof {
            json::lemma_list_view(self.items@);
        }
        let mut i: usize = 0;
        while i < self.items.len()
            invariant
                i <= self.items.len(),
                self.wf(),
                all == json::list_view(self.items@),
                all.len() == self.items@.len(),
                forall|k: int| 0 <= k < all.len() ==> #[trigger] all[k] == self.items@[k]@,
                forall|k: int| 0 <= k < i ==> #[trigger] all[k] != j@,
            decreases self.items.len() - i,
        {
            proof {
                assert(all[i as int] == self.items@[i as int]@);
                assert(self@.contains(all[i as int]));
            }
            if same_id(&self.items[i], j) {
                return true;
            }
            i += 1;
        }
        false
    }

    /// Adds an id.
    pub fn insert(&mut self, id: &Json)
        requires
            old(self).wf(),
            is_id(id@),
        ensures
            final(self).wf(),
            final(self)@ == old(self)@.insert(id@),
    {
        let ghost before = json::list_view(self.items@);
        json::push_item(&mut self.items, id.copy());
        proof {
            lemma_push_set(before, id@);
            assert(self@ =~= old(self)@.insert(id@));
        }
    }

    /// Removes an id; returns whether it was there.
    pub fn remove(&mut self, j: &Json) -> (r: bool)
        requires
            old(self).wf(),
        ensures
            final(self).wf(),
            final(self)@ == old(self)@.remove(j@),
            r == old(self)@.contains(j@),
    {
        if !self.contains(j) {
            proof {
                assert(self@ =~= old(self)@.remove(j@));
            }
            return false;
        }
        let ghost all = json::list_view(self.items@);
        let mut kept: Vec<Json> = Vec::new();
        let mut i: usize = 0;
        proof {
            json::lemma_list_view(self.items@);
            assert(json::list_view(kept@).to_set() =~= all.take(0).to_set().remove(j@));
        }
        while i < self.items.len()
            invariant
                i <= self.items.len(),
                self.wf(),
                all == json::list_view(self.items@),
                all.len() == self.items@.len(),
                forall|k: int| 0 <= k < all.len() ==> #[trigger] all[k] == self.items@[k]@,
                json::list_view(kept@).to_set() == all.take(i as int).to_set().remove(j@),
            decreases self.items.len() - i,
        {
            proof {
                assert(all[i as int] == self.items@[i as int]@);
                assert(self@.contains(all[i as int]));
                lemma_take_set(all, i as int);
            }
            let ghost before = json::list_view(kept@);
            if !same_id(&self.items[i], j) {
                json::push_item(&mut kept, self.items[i].copy());
                proof {
                    lemma_push_set(before, all[i as int]);
                }
            }
            proof {
                assert(json::list_view(kept@).to_set() =~= all.take(i + 1).to_set().remove(j@));
            }
            i += 1;
        }
        proof {
            assert(all.take(i as int) =~= all);
        }
        self.items = kept;
        true
    }
}

proof fn lemma_push_set(s: Seq<JsonView>, x: JsonView)
    ensures
        s.push(x).to_set() == s.to_set().insert(x),
{
    let t = s.push(x);
    assert forall|j: JsonView| #[trigger] t.to_set().contains(j) <==> s.to_set().insert(x).contains(
        j,
    ) by {
        if s.contains(j) {
            let k = choose|k: int| 0 <= k < s.len() && s[k] == j;
            assert(t[k] == j);
        }
        if j == x {
            assert(t[s.len() as int] == j);
        }
    }
    assert(t.to_set() =~= s.to_set().insert(x));
}

proof fn lemma_take_set(s: Seq<JsonView>, i: int)
    requires
        0 <= i < s.len(),
    ensures
        s.take(i + 1).to_set() == s.take(i).to_set().insert(s[i]),
{
    assert(s.take(i + 1) =~= s.take(i).push(s[i]));
    lemma_push_set(s.take(i), s[i]);
}

} // verus!
