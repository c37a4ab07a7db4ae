//! The destination-resolution service at the core's interface: a table that
//! maps a destination identifier to the concrete texture view the engine
//! resolved for it this frame.  A destination absent from the table cannot be
//! presented; clearing it is a fatal error for the frame.

use vstd::prelude::*;

use crate::assoc::{assoc_get, assoc_keys_unique, assoc_map, assoc_set, unique_keys};
use crate::model::Destination;

verus! {

/// A per-frame table from destination to resolved texture view, with unique
/// keys.
pub struct ResolutionTable {
    pub entries: Vec<(Destination, u64)>,
}

impl View for ResolutionTable {
    type V = Map<Destination, u64>;

    open spec fn view(&self) -> Map<Destination, u64> {
        assoc_map(self.entries@)
    }
}

impl ResolutionTable {
    /// The table carries each destination at most once.
    pub open spec fn wf(&self) -> bool {
        unique_keys(self.entries@)
    }

    /// An empty table.
    pub fn new() -> (t: ResolutionTable)
        ensures
            t.wf(),
            t@ == Map::<Destination, u64>::empty(),
    {
        ResolutionTable { entries: Vec::new() }
    }

    /// Records that `d` resolves to `texture`; a later registration for the
    /// same destination replaces the earlier one.
    pub fn register(&mut self, d: Destination, texture: u64)
        requires
            old(self).wf(),
        ensures
            final(self).wf(),
            final(self)@ == old(self)@.insert(d, texture),
    {
        assoc_set(&mut self.entries, d, texture);
    }

    /// Resolves `d` to its concrete texture view, or reports that the
    /// destination is unknown this frame.
    pub fn resolve(&self, d: &Destination) -> (r: Option<u64>)
        requires
            self.wf(),
        ensures
            match r {
                Some(texture) => self@.contains_key(*d) && self@[*d] == texture,
                None => !self@.contains_key(*d),
            },
    {
        assoc_get(&self.entries, d)
    }

    /// Whether the table is well formed; lets unverified callers test the
    /// invariant before handing the table in.
    pub fn is_well_formed(&self) -> (b: bool)
        ensures
            b == self.wf(),
    {
        assoc_keys_unique(&self.entries)
    }
}

} // verus!
