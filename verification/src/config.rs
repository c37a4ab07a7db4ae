//! The shared clear-color configuration: a global default color plus
//! per-destination overrides.  Read-only during a frame; mutated only at
//! configuration time, where the last write for a destination wins.

use vstd::prelude::*;

use crate::assoc::{assoc_get, assoc_keys_unique, assoc_map, assoc_set, key_seq, unique_keys};
use crate::model::{Color, Destination};

verus! {

/// A default clear color and a list of per-destination overrides with unique
/// keys.  The effective color of a destination is its override when one is
/// configured, else the default.
pub struct ClearColorConfig {
    pub default_color: Color,
    pub overrides: Vec<(Destination, Color)>,
}

impl ClearColorConfig {
    /// The override list carries each destination at most once.
    pub open spec fn wf(&self) -> bool {
        unique_keys(self.overrides@)
    }

    /// The overrides as a map from destination to color.
    pub open spec fn overrides_map(&self) -> Map<Destination, Color> {
        assoc_map(self.overrides@)
    }

    /// The overridden destinations, in stored order.
    pub open spec fn override_keys(&self) -> Seq<Destination> {
        key_seq(self.overrides@)
    }

    /// The effective clear color of a destination.
    pub open spec fn spec_get(&self, d: Destination) -> Color {
        if self.overrides_map().contains_key(d) {
            self.overrides_map()[d]
        } else {
            self.default_color
        }
    }

    /// The effective clear color of a view's destination association:
    /// a view with no association is cleared with the default.
    pub open spec fn effective_color(&self, dest: Option<Destination>) -> Color {
        match dest {
            Some(d) => self.spec_get(d),
            None => self.default_color,
        }
    }

    /// A configuration with no overrides.
    pub fn new(default_color: Color) -> (c: ClearColorConfig)
        ensures
            c.wf(),
            c.default_color == default_color,
            c.overrides_map() == Map::<Destination, Color>::empty(),
            c.override_keys() == Seq::<Destination>::empty(),
    {
        let c = ClearColorConfig { default_color, overrides: Vec::new() };
        proof {
            assert(c.override_keys() =~= Seq::<Destination>::empty());
        }
        c
    }

    /// Configures `color` as the override for `d`; a later write for the
    /// same destination replaces the earlier one.
    pub fn set_override(&mut self, d: Destination, color: Color)
        requires
            old(self).wf(),
        ensures
            final(self).wf(),
            final(self).default_color == old(self).default_color,
            final(self).overrides_map() == old(self).overrides_map().insert(d, color),
            final(self).override_keys() == if old(self).overrides_map().contains_key(d) {
                old(self).override_keys()
            } else {
                old(self).override_keys().push(d)
            },
    {
        assoc_set(&mut self.overrides, d, color);
    }

    /// The effective clear color of `d`: its override when configured, else
    /// the default.
    pub fn get(&self, d: &Destination) -> (c: Color)
        requires
            self.wf(),
        ensures
            c == self.spec_get(*d),
    {
        match assoc_get(&self.overrides, d) {
            Some(c) => c,
            None => self.default_color,
        }
    }

    /// Whether the override list is well formed; lets unverified callers
    /// test the invariant before handing the configuration in.
    pub fn is_well_formed(&self) -> (b: bool)
        ensures
            b == self.wf(),
    {
        assoc_keys_unique(&self.overrides)
    }
}

} // verus!
