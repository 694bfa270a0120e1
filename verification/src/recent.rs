//! A bounded record of recently seen message ids, oldest first.

use vstd::prelude::*;

use crate::text::{chars_eq, chars_of};

verus! {

/// Ids in the order they were first seen; no id occurs twice.
pub struct RecentIds {
    ids: Vec<String>,
}

impl View for RecentIds {
    type V = Seq<Seq<char>>;

    closed spec fn view(&self) -> Seq<Seq<char>> {
        self.ids@.map_values(|s: String| s@)
    }
}

impl RecentIds {
    /// No id is recorded twice.
    pub open spec fn wf(&self) -> bool {
        self@.no_duplicates()
    }

    pub fn new() -> (r: Self)
        ensures
            r@ == Seq::<Seq<char>>::empty(),
            r.wf(),
    {
        let r = RecentIds { ids: Vec::new() };
        assert(r@ =~= Seq::<Seq<char>>::empty());
        r
    }

    pub fn len(&self) -> (n: usize)
        ensures
            n == self@.len(),
    {
        self.ids.len()
    }

    pub fn contains(&self, id: &str) -> (r: bool)
        ensures
            r == self@.contains(id@),
    {
        let target = chars_of(id);
        let mut i: usize = 0;
        while i < self.ids.len()
            invariant
                i <= self.ids.len(),
                target@ == id@,
                forall|j: int| 0 <= j < i ==> self@[j] != id@,
            decreases self.ids.len() - i,
        {
            let c = chars_of(self.ids[i].as_str());
            if chars_eq(c.as_slice(), target.as_slice()) {
                assert(self@[i as int] == id@);
                return true;
            }
            i = i + 1;
        }
        false
    }

    /// Forgets the `n` oldest ids (all of them when there are fewer).
    pub fn remove_oldest(&mut self, n: usize)
        requires
            old(self).wf(),
        ensures
            final(self).wf(),
            final(self)@ == old(self)@.skip(
                if n <= old(self)@.len() {
                    n as int
                } else {
                    old(self)@.len() as int
                },
            ),
    {
        let k = if n <= self.ids.len() {
            n
        } else {
            self.ids.len()
        };
        let ghost before = self@;
        let rest = self.ids.split_off(k);
        self.ids = rest;
        proof {
            assert(self@ =~= before.skip(k as int));
            assert forall|i: int, j: int|
                0 <= i < self@.len() && 0 <= j < self@.len() && i != j implies self@[i]
                != self@[j] by {
                assert(self@[i] == before[i + k]);
                assert(self@[j] == before[j + k]);
            }
        }
    }

    /// Records an id not recorded yet, as the newest.
    pub fn push_new(&mut self, id: &str)
        requires
            old(self).wf(),
            !old(self)@.contains(id@),
        ensures
            final(self).wf(),
            final(self)@ == old(self)@.push(id@),
    {
        let ghost before = self@;
        self.ids.push(id.to_owned());
        proof {
            assert(self@ =~= before.push(id@));
            assert forall|i: int, j: int|
                0 <= i < self@.len() && 0 <= j < self@.len() && i != j implies self@[i]
                != self@[j] by {
                if i == before.len() as int {
                    assert(self@[j] == before[j]);
                } else if j == before.len() as int {
                    assert(self@[i] == before[i]);
                }
            }
        }
    }
}

} // verus!
