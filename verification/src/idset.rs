//! Sets of 32-bit identifiers, held in insertion order.
use vstd::prelude::*;

verus! {

/// A set of identifiers.
#[derive(Debug, Clone)]
pub struct IdSet {
    ids: Vec<u32>,
}

impl View for IdSet {
    type V = Set<u32>;

    closed spec fn view(&self) -> Set<u32> {
        self.ids@.to_set()
    }
}

impl IdSet {
    /// No identifier is held twice.
    pub closed spec fn wf(&self) -> bool {
        self.ids@.no_duplicates()
    }

    /// The empty set.
    pub fn new() -> (r: Self)
        ensures
            r.wf(),
            r@ == Set::<u32>::empty(),
    {
        let r = IdSet { ids: Vec::new() };
        assert(r@ =~= Set::<u32>::empty());
        r
    }

    /// The position of `id`.
    fn position(&self, id: u32) -> (r: Option<usize>)
        ensures
            match r {
                Some(i) => i < self.ids@.len() && self.ids@[i as int] == id,
                None => !self.ids@.contains(id),
            },
    {
        let mut i: usize = 0;
        while i < self.ids.len()
            invariant
                i <= self.ids.len(),
                forall|j: int| 0 <= j < i ==> self.ids@[j] != id,
            decreases self.ids.len() - i,
        {
            if self.ids[i] == id {
                return Some(i);
            }
            i = i + 1;
        }
        None
    }

    /// Whether `id` is in the set.
    pub fn contains(&self, id: u32) -> (r: bool)
        ensures
            r == self@.contains(id),
    {
        match self.position(id) {
            Some(_) => true,
            None => false,
        }
    }

    /// Puts `id` into the set, and says whether it was not there yet.
    pub fn insert(&mut self, id: u32) -> (r: bool)
        requires
            old(self).wf(),
        ensures
            final(self).wf(),
            final(self)@ == old(self)@.insert(id),
            r == !old(self)@.contains(id),
    {
        match self.position(id) {
            Some(_) => {
                assert(self@ =~= old(self)@.insert(id));
                false
            },
            None => {
                let ghost before = self.ids@;
                self.ids.push(id);
                assert forall|x: u32| self.ids@.contains(x) == (before.contains(x) || x == id) by {
                    if before.contains(x) {
                        let i = before.index_of(x);
                        assert(self.ids@[i] == x);
                    }
                    if x == id {
                        assert(self.ids@[before.len() as int] == x);
                    }
                }
                assert(self@ =~= old(self)@.insert(id));
                true
            },
        }
    }

    /// Takes `id` out of the set, and says whether it was there.
    pub fn remove(&mut self, id: u32) -> (r: bool)
        requires
            old(self).wf(),
        ensures
            final(self).wf(),
            final(self)@ == old(self)@.remove(id),
            r == old(self)@.contains(id),
    {
        match self.position(id) {
            Some(i) => {
                let ghost before = self.ids@;
                self.ids.remove(i);
                let ghost after = self.ids@;
                assert forall|x: u32| after.contains(x) == (before.contains(x) && x != id) by {
                    if after.contains(x) {
                        let j = after.index_of(x);
                        let k = if j < i { j } else { j + 1 };
                        assert(before[k] == x);
                    }
                    if before.contains(x) && x != id {
                        let k = before.index_of(x);
                        let j = if k < i { k } else { k - 1 };
                        assert(after[j] == x);
                    }
                }
                assert(self@ =~= old(self)@.remove(id));
                true
            },
            None => {
                assert(self@ =~= old(self)@.remove(id));
                false
            },
        }
    }
}

} // verus!
