//! Simulation substrate for a digital logic circuit simulator.
//!
//! Nets (wires or multi-bit buses) carry four-valued signals, hold the set of
//! component pins bound to them, and advance in two phases per tick: every
//! component evaluates against the frozen `active` buffer and writes the
//! `future` buffer, then a commit swaps the buffers atomically per net.

use vstd::prelude::*;

mod component;
mod error;
mod net;
mod registry;
mod tristate;

pub use component::ArenaIndex;
pub use component::Component;
pub use error::LogicError;
pub use error::LogicResult;
pub use net::Net;
pub use net::all_driven;
pub use net::bit_of;
pub use net::bits_value;
pub use net::lemma_bits_value_bound;
pub use net::lemma_connect_then_disconnect;
pub use net::lemma_integer_round_trip;
pub use net::lemma_resize_lossy;
pub use net::merge_prefix;
pub use net::resized;
pub use registry::Registry;
pub use registry::RegistryRef;
pub use tristate::Tristate;
pub use tristate::lemma_gate_laws;
pub use tristate::lemma_merge_commutes;
pub use tristate::lemma_merge_laws;
pub use tristate::lemma_not_laws;
pub use tristate::spec_and;
pub use tristate::spec_merge;
pub use tristate::spec_not;
pub use tristate::spec_or;
pub use tristate::spec_xor;

verus! {

} // verus!
