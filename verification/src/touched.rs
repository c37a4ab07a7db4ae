//! The per-frame set of destinations already cleared by the view pass.
//! Created empty at frame start, populated while views are cleared, and
//! consumed by the orphan pass; nothing of it survives the frame.

use vstd::prelude::*;

use crate::model::Destination;

verus! {

/// An ephemeral set of destinations, stored as a duplicate-free list.
pub struct TouchedSet {
    pub items: Vec<Destination>,
}

impl View for TouchedSet {
    type V = Set<Destination>;

    open spec fn view(&self) -> Set<Destination> {
        self.items@.to_set()
    }
}

impl TouchedSet {
    /// Each destination appears at most once.
    pub open spec fn wf(&self) -> bool {
        forall|i: int, j: int|
            0 <= i < j < self.items@.len() ==> #[trigger] self.items@[i] != #[trigger] self.items@[j]
    }

    /// The empty set.
    pub fn new() -> (t: TouchedSet)
        ensures
            t.wf(),
            t@ == Set::<Destination>::empty(),
    {
        let t = TouchedSet { items: Vec::new() };
        proof {
            assert(t@ =~= Set::<Destination>::empty());
        }
        t
    }

    /// Whether `d` has been touched.
    pub fn contains(&self, d: &Destination) -> (b: bool)
        ensures
            b == self@.contains(*d),
    {
        let mut i: usize = 0;
        while i < self.items.len()
            invariant
                0 <= i <= self.items@.len(),
                forall|j: int| 0 <= j < i ==> #[trigger] self.items@[j] != *d,
            decreases self.items@.len() - i,
        {
            if self.items[i] == *d {
                return true;
            }
            i += 1;
        }
        proof {
            assert(!self.items@.contains(*d));
        }
        false
    }

    /// Marks `d` as touched.
    pub fn insert(&mut self, d: Destination)
        requires
            old(self).wf(),
        ensures
            final(self).wf(),
            final(self)@ == old(self)@.insert(d),
    {
        if !self.contains(&d) {
            self.items.push(d);
            proof {
                assert forall|x: Destination| #[trigger]
                    self.items@.contains(x) <==> old(self)@.insert(d).contains(x) by {
                    if self.items@.contains(x) {
                        let i = choose|i: int|
                            0 <= i < self.items@.len() && self.items@[i] == x;
                        if i < self.items@.len() - 1 {
                            assert(old(self).items@[i] == x);
                        }
                    }
                    if old(self)@.insert(d).contains(x) {
                        if x == d {
                            assert(self.items@[self.items@.len() - 1] == x);
                        } else {
                            let i = choose|i: int|
                                0 <= i < old(self).items@.len() && old(self).items@[i] == x;
                            assert(self.items@[i] == x);
                        }
                    }
                }
                assert(self@ =~= old(self)@.insert(d));
                assert forall|i: int, j: int|
                    0 <= i < j < self.items@.len() implies #[trigger] self.items@[i]
                    != #[trigger] self.items@[j] by {
                    if j < self.items@.len() - 1 {
                        assert(old(self).items@[i] != old(self).items@[j]);
                    } else {
                        assert(old(self).items@[i] == self.items@[i]);
                        assert(old(self).items@.contains(self.items@[i]));
                    }
                }
            }
        } else {
            proof {
                assert(self@ =~= old(self)@.insert(d));
            }
        }
    }

    /// How many destinations have been touched.
    pub fn len(&self) -> (n: usize)
        ensures
            n == self.items@.len(),
    {
        self.items.len()
    }
}

} // verus!
