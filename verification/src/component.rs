//! The capability every circuit element must expose to the simulation
//! substrate, and the stable opaque identity used to address registry
//! entries safely across insertions and removals.

use vstd::prelude::*;

verus! {

/// Stable opaque identity of a registry entry: a slot together with the
/// generation the slot had when the entry was inserted. Equality requires
/// both parts to match, so an identity captured before a slot was freed and
/// reused compares unequal to the new occupant's identity.
#[derive(Debug, Clone, Copy, PartialEq, Eq, Hash, Structural)]
pub struct ArenaIndex {
    pub slot: usize,
    pub generation: u64,
}

impl ArenaIndex {
    /// Builds an identity from its two parts.
    pub fn new(slot: usize, generation: u64) -> (r: ArenaIndex)
        ensures
            r.slot == slot,
            r.generation == generation,
    {
        ArenaIndex { slot, generation }
    }
}

/// Contract of a circuit element. The substrate treats components
/// polymorphically over this capability set; concrete gates, flip-flops and
/// ICs are supplied by external implementers.
///
/// `update` must read only the active values of nets bound to input pins and
/// write only the future values of nets bound to output pins; the external
/// driver calls it once per tick for every live component, before that
/// tick's commits. `connect` must overwrite any prior binding of the pin;
/// `disconnect` must be idempotent.
pub trait Component {
    /// One evaluation step of this component.
    fn update(&mut self);

    /// Records that `pin` is no longer connected to any net.
    fn disconnect(&mut self, pin: usize);

    /// Records that `pin` is now connected to the net with identity `net`.
    fn connect(&mut self, pin: usize, net: ArenaIndex);
}

} // verus!
