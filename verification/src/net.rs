//! A net: one wire or one multi-bit bus. Holds double-buffered signal
//! state (`active` visible to readers, `future` written by this tick's
//! evaluations) and the set of component pins bound to it, and keeps the
//! component side of every binding consistent through the shared registry.

use vstd::prelude::*;

use crate::component::ArenaIndex;
use crate::error::LogicError;
use crate::registry::RegistryRef;
use crate::tristate::Tristate;
use crate::tristate::lemma_merge_commutes;
use crate::tristate::spec_merge;
use vstd::arithmetic::div_mod::lemma_add_mod_noop;
use vstd::arithmetic::div_mod::lemma_mod_bound;
use vstd::arithmetic::div_mod::lemma_mul_mod_noop_right;
use vstd::arithmetic::div_mod::lemma_small_mod;
use vstd::arithmetic::power2::lemma2_to64;
use vstd::arithmetic::power2::lemma_pow2_pos;
use vstd::arithmetic::power2::lemma_pow2_strictly_increases;
use vstd::arithmetic::power2::lemma_pow2_unfold;
use vstd::arithmetic::power2::pow2;
use vstd::bits::lemma_u64_shr_is_div;

verus! {

/// A wire or one bit-lane of a bus.
pub struct Net {
    future_value: Vec<Tristate>,
    active_value: Vec<Tristate>,
    bit_width: usize,
    own_index: Option<ArenaIndex>,
    arena: RegistryRef,
    neighbors: Vec<(ArenaIndex, usize)>,
}

impl Net {
    /// The signal values currently visible to readers, one per bit.
    pub closed spec fn active(&self) -> Seq<Tristate> {
        self.active_value@
    }

    /// The signal values being written by this tick's evaluations.
    pub closed spec fn future(&self) -> Seq<Tristate> {
        self.future_value@
    }

    /// The number of bits of this net.
    pub closed spec fn width(&self) -> nat {
        self.bit_width as nat
    }

    /// The net's own identity within whatever registry holds nets, once the
    /// owner has assigned one.
    pub closed spec fn identity(&self) -> Option<ArenaIndex> {
        self.own_index
    }

    /// The set of (component identity, pin) pairs currently attached.
    pub closed spec fn bindings(&self) -> Set<(ArenaIndex, usize)> {
        self.neighbors@.to_set()
    }

    /// Structural invariant: both buffers are exactly `bit_width` long and
    /// the binding list holds no pair twice.
    pub closed spec fn wf(&self) -> bool {
        &&& self.active_value@.len() == self.bit_width
        &&& self.future_value@.len() == self.bit_width
        &&& self.neighbors@.no_duplicates()
    }

    /// Creates an all-`Floating`, unbound net of `bit_width` bits with no
    /// identity assigned yet.
    pub fn new(bit_width: usize, component_arena: RegistryRef) -> (r: Net)
        ensures
            r.wf(),
            r.width() == bit_width,
            r.active() == Seq::new(bit_width as nat, |i: int| Tristate::Floating),
            r.future() == Seq::new(bit_width as nat, |i: int| Tristate::Floating),
            r.identity() is None,
            r.bindings() == Set::<(ArenaIndex, usize)>::empty(),
    {
        let r = Net {
            future_value: floating_buffer(bit_width),
            active_value: floating_buffer(bit_width),
            bit_width,
            own_index: None,
            arena: component_arena,
            neighbors: Vec::new(),
        };
        proof {
            assert(r.bindings() =~= Set::<(ArenaIndex, usize)>::empty());
        }
        r
    }

    /// Assigns the net's own identity; to be called exactly once by
    /// whatever structure registers the net.
    pub fn set_index(&mut self, index: ArenaIndex)
        ensures
            final(self).identity() == Some(index),
            final(self).active() == old(self).active(),
            final(self).future() == old(self).future(),
            final(self).width() == old(self).width(),
            final(self).bindings() == old(self).bindings(),
            old(self).wf() ==> final(self).wf(),
    {
        self.own_index = Some(index);
    }

    /// The active value at `bit`, or `Floating` if `bit` is out of range.
    pub fn get(&self, bit: usize) -> (r: Tristate)
        ensures
            r == if bit < self.active().len() {
                self.active()[bit as int]
            } else {
                Tristate::Floating
            },
    {
        if bit < self.active_value.len() {
            self.active_value[bit]
        } else {
            Tristate::Floating
        }
    }

    /// Writes `value` into the future buffer at `bit`; silently ignored if
    /// `bit` is out of range. Never touches the active buffer, so readers of
    /// this tick are unaffected.
    pub fn set(&mut self, bit: usize, value: Tristate)
        ensures
            final(self).future() == if bit < old(self).future().len() {
                old(self).future().update(bit as int, value)
            } else {
                old(self).future()
            },
            final(self).active() == old(self).active(),
            final(self).width() == old(self).width(),
            final(self).identity() == old(self).identity(),
            final(self).bindings() == old(self).bindings(),
            old(self).wf() ==> final(self).wf(),
    {
        if bit < self.future_value.len() {
            self.future_value[bit] = value;
        }
    }

    /// Reads the pending (future) value at `bit` without waiting for the
    /// commit, or `Floating` if `bit` is out of range.
    pub fn spy(&self, bit: usize) -> (r: Tristate)
        ensures
            r == if bit < self.future().len() {
                self.future()[bit as int]
            } else {
                Tristate::Floating
            },
    {
        if bit < self.future_value.len() {
            self.future_value[bit]
        } else {
            Tristate::Floating
        }
    }

    /// Force-writes the active buffer at `bit` directly, bypassing the
    /// future buffer and the settle semantics; silently ignored if `bit` is
    /// out of range. Used for external forcing such as test probes.
    pub fn overwrite(&mut self, bit: usize, value: Tristate)
        ensures
            final(self).active() == if bit < old(self).active().len() {
                old(self).active().update(bit as int, value)
            } else {
                old(self).active()
            },
            final(self).future() == old(self).future(),
            final(self).width() == old(self).width(),
            final(self).identity() == old(self).identity(),
            final(self).bindings() == old(self).bindings(),
            old(self).wf() ==> final(self).wf(),
    {
        if bit < self.active_value.len() {
            self.active_value[bit] = value;
        }
    }

    /// Commits the tick: every bit of the future buffer becomes active, and
    /// the future buffer is reset to all `Floating`. This is the only
    /// operation that advances visible state between ticks.
    pub fn update(&mut self)
        requires
            old(self).wf(),
        ensures
            final(self).wf(),
            final(self).active() == old(self).future(),
            final(self).future() == Seq::new(old(self).width(), |i: int| Tristate::Floating),
            final(self).width() == old(self).width(),
            final(self).identity() == old(self).identity(),
            final(self).bindings() == old(self).bindings(),
    {
        core::mem::swap(&mut self.active_value, &mut self.future_value);
        self.future_value = floating_buffer(self.bit_width);
    }

    /// Forces every bit of both buffers back to `Floating`; bindings are
    /// untouched.
    pub fn reset(&mut self)
        ensures
            final(self).active() == Seq::new(old(self).width(), |i: int| Tristate::Floating),
            final(self).future() == Seq::new(old(self).width(), |i: int| Tristate::Floating),
            final(self).width() == old(self).width(),
            final(self).identity() == old(self).identity(),
            final(self).bindings() == old(self).bindings(),
            old(self).wf() ==> final(self).wf(),
    {
        self.active_value = floating_buffer(self.bit_width);
        self.future_value = floating_buffer(self.bit_width);
    }

    /// Sets the bit width to exactly `new_size`: grows by appending
    /// `Floating` bits to the end of both buffers, or shrinks by truncating
    /// bits from the end of both. Shrinking is lossy: the removed values are
    /// gone, and growing back only appends fresh `Floating` bits.
    pub fn resize(&mut self, new_size: usize)
        requires
            old(self).wf(),
        ensures
            final(self).wf(),
            final(self).width() == new_size,
            final(self).active() == resized(old(self).active(), new_size as nat),
            final(self).future() == resized(old(self).future(), new_size as nat),
            final(self).identity() == old(self).identity(),
            final(self).bindings() == old(self).bindings(),
    {
        if self.bit_width < new_size {
            while self.active_value.len() < new_size
                invariant
                    old(self).bit_width <= self.active_value@.len() <= new_size,
                    self.future_value@.len() == self.active_value@.len(),
                    self.active_value@ == resized(
                        old(self).active_value@,
                        self.active_value@.len(),
                    ),
                    self.future_value@ == resized(
                        old(self).future_value@,
                        self.future_value@.len(),
                    ),
                    self.bit_width == old(self).bit_width,
                    self.own_index == old(self).own_index,
                    self.neighbors@ == old(self).neighbors@,
                    old(self).wf(),
                decreases new_size - self.active_value@.len(),
            {
                self.active_value.push(Tristate::Floating);
                self.future_value.push(Tristate::Floating);
                proof {
                    assert(self.active_value@ =~= resized(
                        old(self).active_value@,
                        self.active_value@.len(),
                    ));
                    assert(self.future_value@ =~= resized(
                        old(self).future_value@,
                        self.future_value@.len(),
                    ));
                }
            }
        } else {
            while self.active_value.len() > new_size
                invariant
                    new_size <= self.active_value@.len() <= old(self).bit_width,
                    self.future_value@.len() == self.active_value@.len(),
                    self.active_value@ == resized(
                        old(self).active_value@,
                        self.active_value@.len(),
                    ),
                    self.future_value@ == resized(
                        old(self).future_value@,
                        self.future_value@.len(),
                    ),
                    self.bit_width == old(self).bit_width,
                    self.own_index == old(self).own_index,
                    self.neighbors@ == old(self).neighbors@,
                    old(self).wf(),
                decreases self.active_value@.len(),
            {
                self.active_value.pop();
                self.future_value.pop();
                proof {
                    assert(self.active_value@ =~= resized(
                        old(self).active_value@,
                        self.active_value@.len(),
                    ));
                    assert(self.future_value@ =~= resized(
                        old(self).future_value@,
                        self.future_value@.len(),
                    ));
                }
            }
        }
        self.bit_width = new_size;
    }

    /// Packs the active buffer into an unsigned integer, bit index 0 most
    /// significant; returns the value only if every bit is a definite `Low`
    /// or `High`, and nothing the instant any bit is `Floating` or `Error`.
    /// A bus wider than the integer yields the low-order words's worth of
    /// bits, as only the last 64 positions carry weight.
    pub fn read_u64(&self) -> (r: Option<u64>)
        requires
            self.wf(),
        ensures
            r is Some <==> all_driven(self.active()),
            r matches Some(v) ==> v as nat == bits_value(self.active()) % pow2(64),
            self.active().len() <= 64 ==> (r matches Some(v) ==> v as nat == bits_value(
                self.active(),
            )),
    {
        let ghost s = self.active_value@;
        let mut result: u64 = 0;
        let mut i: usize = 0;
        proof {
            lemma_pow2_pos(64);
            assert(s.subrange(0, 0) =~= Seq::<Tristate>::empty());
            lemma_small_mod(0, pow2(64));
        }
        while i < self.bit_width
            invariant
                self.wf(),
                s == self.active_value@,
                i <= self.bit_width,
                all_driven(s.subrange(0, i as int)),
                result as nat == bits_value(s.subrange(0, i as int)) % pow2(64),
            decreases self.bit_width - i,
        {
            let ghost pre = s.subrange(0, i as int);
            let bit = match self.active_value[i] {
                Tristate::Floating => return None,
                Tristate::Error => return None,
                Tristate::High => 1u64,
                Tristate::Low => 0u64,
            };
            proof {
                lemma_accumulate_bit(bits_value(pre), bit, result);
            }
            result = result.wrapping_mul(2).wrapping_add(bit);
            i = i + 1;
            proof {
                let cur = s.subrange(0, i as int);
                assert(cur.drop_last() =~= pre);
                assert(cur.last() == s[i - 1]);
            }
        }
        proof {
            assert(s.subrange(0, self.bit_width as int) =~= s);
            if s.len() <= 64 {
                lemma_bits_value_bound(s);
                if s.len() < 64 {
                    lemma_pow2_strictly_increases(s.len(), 64);
                }
                lemma_small_mod(bits_value(s), pow2(64));
            }
        }
        Some(result)
    }

    /// Unpacks `value` onto the future buffer, bit index 0 most
    /// significant, driving every bit to a definite `Low` or `High` (never
    /// `Floating` or `Error` through this path). Bits farther than the
    /// integer's width from the least significant end are driven `Low`.
    pub fn write_u64(&mut self, value: u64)
        requires
            old(self).wf(),
        ensures
            final(self).wf(),
            final(self).future() == Seq::new(
                old(self).width(),
                |i: int| bit_of(value, (old(self).width() - 1 - i) as nat),
            ),
            final(self).active() == old(self).active(),
            final(self).width() == old(self).width(),
            final(self).identity() == old(self).identity(),
            final(self).bindings() == old(self).bindings(),
    {
        let width = self.bit_width;
        let mut k: usize = 0;
        while k < width
            invariant
                self.wf(),
                self.bit_width == width,
                k <= width,
                forall|j: int|
                    width - k <= j < width ==> self.future_value@[j] == bit_of(
                        value,
                        (width - 1 - j) as nat,
                    ),
                forall|j: int|
                    0 <= j < width - k ==> self.future_value@[j] == old(self).future_value@[j],
                self.active_value@ == old(self).active_value@,
                self.own_index == old(self).own_index,
                self.neighbors@ == old(self).neighbors@,
            decreases width - k,
        {
            let idx = width - 1 - k;
            let driven = if k < 64 {
                proof {
                    lemma_u64_shr_is_div(value, k as u64);
                }
                let shifted = value >> (k as u64);
                proof {
                    assert(shifted & 1 == shifted % 2) by (bit_vector);
                }
                (shifted & 1) == 1
            } else {
                false
            };
            self.future_value[idx] = if driven {
                Tristate::High
            } else {
                Tristate::Low
            };
            k = k + 1;
        }
        proof {
            assert(self.future_value@ =~= Seq::new(
                old(self).width(),
                |i: int| bit_of(value, (old(self).width() - 1 - i) as nat),
            ));
        }
    }

    /// Records `(component, pin)` locally, once.
    fn insert_binding(&mut self, component: ArenaIndex, pin: usize)
        requires
            old(self).wf(),
        ensures
            final(self).wf(),
            final(self).bindings() == old(self).bindings().insert((component, pin)),
            final(self).active() == old(self).active(),
            final(self).future() == old(self).future(),
            final(self).width() == old(self).width(),
            final(self).identity() == old(self).identity(),
    {
        match find_binding(&self.neighbors, component, pin) {
            Some(_) => {
                proof {
                    assert(old(self).bindings().insert((component, pin)) =~= old(self).bindings());
                }
            },
            None => {
                self.neighbors.push((component, pin));
                proof {
                    lemma_push_to_set(old(self).neighbors@, (component, pin));
                }
            },
        }
    }

    /// Drops `(component, pin)` locally, if present.
    fn remove_binding(&mut self, component: ArenaIndex, pin: usize)
        requires
            old(self).wf(),
        ensures
            final(self).wf(),
            final(self).bindings() == old(self).bindings().remove((component, pin)),
            final(self).active() == old(self).active(),
            final(self).future() == old(self).future(),
            final(self).width() == old(self).width(),
            final(self).identity() == old(self).identity(),
    {
        match find_binding(&self.neighbors, component, pin) {
            Some(i) => {
                self.neighbors.remove(i);
                proof {
                    lemma_remove_to_set(old(self).neighbors@, i as int);
                }
            },
            None => {
                proof {
                    assert(old(self).bindings().remove((component, pin)) =~= old(self).bindings());
                }
            },
        }
    }

    /// Attaches the component's pin to this net: looks the component up in
    /// the shared registry, instructs it to bind the pin to this net's
    /// identity, then records the pair locally. Requires this net's own
    /// identity to be set and the registry to be reachable; on any failure
    /// the net is left unchanged.
    pub fn connect(&mut self, component: ArenaIndex, pin: usize) -> (r: Result<(), LogicError>)
        requires
            old(self).wf(),
        ensures
            final(self).wf(),
            final(self).active() == old(self).active(),
            final(self).future() == old(self).future(),
            final(self).width() == old(self).width(),
            final(self).identity() == old(self).identity(),
            r == Err::<(), LogicError>(LogicError::InvalidNet) <==> old(self).identity() is None,
            r matches Err(e) ==> final(self).bindings() == old(self).bindings() && (e
                == LogicError::InvalidNet || e == LogicError::InvalidArena || e
                == LogicError::InvalidComponent),
            r is Ok ==> final(self).bindings() == old(self).bindings().insert((component, pin)),
    {
        match self.own_index {
            None => Err(LogicError::InvalidNet),
            Some(own) => match crate::registry::notify_connect(&self.arena, component, pin, own) {
                Err(e) => Err(e),
                Ok(_) => {
                    self.insert_binding(component, pin);
                    Ok(())
                },
            },
        }
    }

    /// Detaches the component's pin from this net: drops the pair locally,
    /// then looks the component up and instructs it to unbind, so that the
    /// component side is cleared even when the pair was not recorded here.
    /// When the registry is unreachable nothing changes; a stale component
    /// identity still costs the local record (not rolled back).
    pub fn disconnect(&mut self, component: ArenaIndex, pin: usize) -> (r: Result<(), LogicError>)
        requires
            old(self).wf(),
        ensures
            final(self).wf(),
            final(self).active() == old(self).active(),
            final(self).future() == old(self).future(),
            final(self).width() == old(self).width(),
            final(self).identity() == old(self).identity(),
            r matches Err(e) ==> e == LogicError::InvalidArena || e == LogicError::InvalidComponent,
            r == Err::<(), LogicError>(LogicError::InvalidArena) ==> final(self).bindings()
                == old(self).bindings(),
            (r is Ok || r == Err::<(), LogicError>(LogicError::InvalidComponent))
                ==> final(self).bindings() == old(self).bindings().remove((component, pin)),
    {
        match crate::registry::notify_disconnect(&self.arena, component, pin) {
            Err(LogicError::InvalidArena) => Err(LogicError::InvalidArena),
            r => {
                self.remove_binding(component, pin);
                r
            },
        }
    }

    /// Severs everything: forces both buffers back to `Floating`, then
    /// notifies every bound component to unbind its pin and empties the
    /// binding set. Callers must clear a net before disposing of it, since
    /// a net does not notify its neighbors on destruction. The signal state
    /// is reset even when the registry is unreachable; a component whose
    /// identity has gone stale is dropped from the set without complaint.
    pub fn clear(&mut self) -> (r: Result<(), LogicError>)
        requires
            old(self).wf(),
        ensures
            final(self).wf(),
            final(self).active() == Seq::new(old(self).width(), |i: int| Tristate::Floating),
            final(self).future() == Seq::new(old(self).width(), |i: int| Tristate::Floating),
            final(self).width() == old(self).width(),
            final(self).identity() == old(self).identity(),
            r matches Err(e) ==> e == LogicError::InvalidArena,
            r is Ok ==> final(self).bindings() == Set::<(ArenaIndex, usize)>::empty(),
            r matches Err(e) ==> final(self).bindings().subset_of(old(self).bindings()),
    {
        self.active_value = floating_buffer(self.bit_width);
        self.future_value = floating_buffer(self.bit_width);
        if !crate::registry::registry_reachable(&self.arena) {
            return Err(LogicError::InvalidArena);
        }
        proof {
            assert(self.neighbors@ =~= old(self).neighbors@.subrange(
                0,
                self.neighbors@.len() as int,
            ));
        }
        while self.neighbors.len() > 0
            invariant
                self.active_value@ == Seq::new(old(self).width(), |i: int| Tristate::Floating),
                self.future_value@ == Seq::new(old(self).width(), |i: int| Tristate::Floating),
                self.bit_width == old(self).bit_width,
                self.own_index == old(self).own_index,
                self.neighbors@.len() <= old(self).neighbors@.len(),
                self.neighbors@ == old(self).neighbors@.subrange(0, self.neighbors@.len() as int),
                self.neighbors@.no_duplicates(),
                old(self).wf(),
            decreases self.neighbors@.len(),
        {
            let last = self.neighbors.len() - 1;
            let entry = self.neighbors[last];
            match crate::registry::notify_disconnect(&self.arena, entry.0, entry.1) {
                Err(LogicError::InvalidArena) => {
                    proof {
                        lemma_take_to_set_subset(
                            old(self).neighbors@,
                            self.neighbors@.len() as int,
                        );
                    }
                    return Err(LogicError::InvalidArena);
                },
                _ => {
                    self.neighbors.pop();
                    proof {
                        assert(self.neighbors@ =~= old(self).neighbors@.subrange(
                            0,
                            self.neighbors@.len() as int,
                        ));
                        lemma_take_to_set_subset(
                            old(self).neighbors@,
                            self.neighbors@.len() as int,
                        );
                    }
                },
            }
        }
        proof {
            assert(self.neighbors@.to_set() =~= Set::<(ArenaIndex, usize)>::empty());
        }
        Ok(())
    }

    /// Merges `net` into this net, modeling two wires being physically
    /// joined into one node. Every bit position common to both nets takes
    /// the merge of the two drivers, in both nets' buffers; then every
    /// binding held by `net` is drained, its component is told to unbind
    /// and rebind the pin to this net's identity, and the pair moves to
    /// this net's binding set. `net` ends with an empty binding set and is
    /// expected to be discarded by the caller. The values are merged even
    /// when this net has no identity yet or the registry is unreachable; a
    /// binding whose component has gone stale is dropped silently.
    pub fn absorb(&mut self, net: &mut Net) -> (r: Result<(), LogicError>)
        requires
            old(self).wf(),
            old(net).wf(),
        ensures
            final(self).wf(),
            final(net).wf(),
            final(self).width() == old(self).width(),
            final(net).width() == old(net).width(),
            final(self).identity() == old(self).identity(),
            final(net).identity() == old(net).identity(),
            final(self).active() == merge_prefix(old(self).active(), old(net).active()),
            final(self).future() == merge_prefix(old(self).future(), old(net).future()),
            final(net).active() == merge_prefix(old(net).active(), old(self).active()),
            final(net).future() == merge_prefix(old(net).future(), old(self).future()),
            r == Err::<(), LogicError>(LogicError::InvalidNet) <==> old(self).identity() is None,
            r matches Err(e) ==> e == LogicError::InvalidNet || e == LogicError::InvalidArena,
            r == Err::<(), LogicError>(LogicError::InvalidNet) ==> final(self).bindings()
                == old(self).bindings() && final(net).bindings() == old(net).bindings(),
            r is Ok ==> final(net).bindings() == Set::<(ArenaIndex, usize)>::empty(),
            old(self).bindings().subset_of(final(self).bindings()),
            final(self).bindings().subset_of(old(self).bindings().union(old(net).bindings())),
            r == Err::<(), LogicError>(LogicError::InvalidArena) ==> final(net).bindings().subset_of(
                old(net).bindings(),
            ),
    {
        let ghost sa0 = old(self).active_value@;
        let ghost sf0 = old(self).future_value@;
        let ghost na0 = old(net).active_value@;
        let ghost nf0 = old(net).future_value@;
        let common = if self.bit_width < net.bit_width {
            self.bit_width
        } else {
            net.bit_width
        };
        let mut i: usize = 0;
        while i < common
            invariant
                common <= self.bit_width,
                common <= net.bit_width,
                i <= common,
                self.bit_width == old(self).bit_width,
                net.bit_width == old(net).bit_width,
                self.active_value@.len() == self.bit_width,
                self.future_value@.len() == self.bit_width,
                net.active_value@.len() == net.bit_width,
                net.future_value@.len() == net.bit_width,
                forall|j: int|
                    0 <= j < i ==> #[trigger] self.active_value@[j] == spec_merge(sa0[j], na0[j]),
                forall|j: int|
                    0 <= j < i ==> #[trigger] self.future_value@[j] == spec_merge(sf0[j], nf0[j]),
                forall|j: int|
                    0 <= j < i ==> #[trigger] net.active_value@[j] == spec_merge(sa0[j], na0[j]),
                forall|j: int|
                    0 <= j < i ==> #[trigger] net.future_value@[j] == spec_merge(sf0[j], nf0[j]),
                forall|j: int| i <= j < self.bit_width ==> #[trigger] self.active_value@[j] == sa0[j],
                forall|j: int| i <= j < self.bit_width ==> #[trigger] self.future_value@[j] == sf0[j],
                forall|j: int| i <= j < net.bit_width ==> #[trigger] net.active_value@[j] == na0[j],
                forall|j: int| i <= j < net.bit_width ==> #[trigger] net.future_value@[j] == nf0[j],
                self.own_index == old(self).own_index,
                net.own_index == old(net).own_index,
                self.neighbors@ == old(self).neighbors@,
                net.neighbors@ == old(net).neighbors@,
                old(self).wf(),
                old(net).wf(),
            decreases common - i,
        {
            let ma = self.active_value[i].merge(net.active_value[i]);
            self.active_value[i] = ma;
            net.active_value[i] = ma;
            let mf = self.future_value[i].merge(net.future_value[i]);
            self.future_value[i] = mf;
            net.future_value[i] = mf;
            i = i + 1;
        }
        proof {
            assert forall|j: int| 0 <= j < net.active_value@.len() implies net.active_value@[j]
                == merge_prefix(na0, sa0)[j] && net.future_value@[j] == merge_prefix(
                nf0,
                sf0,
            )[j] by {
                if j < common {
                    lemma_merge_commutes(sa0[j], na0[j]);
                    lemma_merge_commutes(sf0[j], nf0[j]);
                }
            }
            assert(self.active_value@ =~= merge_prefix(sa0, na0));
            assert(self.future_value@ =~= merge_prefix(sf0, nf0));
            assert(net.active_value@ =~= merge_prefix(na0, sa0));
            assert(net.future_value@ =~= merge_prefix(nf0, sf0));
        }
        let own = match self.own_index {
            None => {
                return Err(LogicError::InvalidNet);
            },
            Some(own) => own,
        };
        if !crate::registry::registry_reachable(&self.arena) {
            return Err(LogicError::InvalidArena);
        }
        proof {
            assert(net.neighbors@ =~= old(net).neighbors@.subrange(
                0,
                net.neighbors@.len() as int,
            ));
        }
        while net.neighbors.len() > 0
            invariant
                sa0 == old(self).active_value@,
                sf0 == old(self).future_value@,
                na0 == old(net).active_value@,
                nf0 == old(net).future_value@,
                self.active_value@ == merge_prefix(sa0, na0),
                self.future_value@ == merge_prefix(sf0, nf0),
                net.active_value@ == merge_prefix(na0, sa0),
                net.future_value@ == merge_prefix(nf0, sf0),
                self.bit_width == old(self).bit_width,
                net.bit_width == old(net).bit_width,
                self.active_value@.len() == self.bit_width,
                self.future_value@.len() == self.bit_width,
                net.active_value@.len() == net.bit_width,
                net.future_value@.len() == net.bit_width,
                self.own_index == old(self).own_index,
                self.own_index == Some(own),
                net.own_index == old(net).own_index,
                self.neighbors@.no_duplicates(),
                net.neighbors@.len() <= old(net).neighbors@.len(),
                net.neighbors@ == old(net).neighbors@.subrange(0, net.neighbors@.len() as int),
                net.neighbors@.no_duplicates(),
                old(self).bindings().subset_of(self.bindings()),
                self.bindings().subset_of(old(self).bindings().union(old(net).bindings())),
                old(self).wf(),
                old(net).wf(),
            decreases net.neighbors@.len(),
        {
            let last = net.neighbors.len() - 1;
            let entry = net.neighbors[last];
            proof {
                assert(old(net).neighbors@[last as int] == entry);
                assert(old(net).neighbors@.contains(entry));
            }
            match crate::registry::notify_rebind(&self.arena, entry.0, entry.1, own) {
                Err(LogicError::InvalidArena) => {
                    proof {
                        lemma_take_to_set_subset(old(net).neighbors@, net.neighbors@.len() as int);
                    }
                    return Err(LogicError::InvalidArena);
                },
                Err(_) => {
                    net.neighbors.pop();
                    proof {
                        assert(net.neighbors@ =~= old(net).neighbors@.subrange(
                            0,
                            net.neighbors@.len() as int,
                        ));
                        lemma_take_to_set_subset(old(net).neighbors@, net.neighbors@.len() as int);
                    }
                },
                Ok(_) => {
                    net.neighbors.pop();
                    proof {
                        assert(net.neighbors@ =~= old(net).neighbors@.subrange(
                            0,
                            net.neighbors@.len() as int,
                        ));
                        lemma_take_to_set_subset(old(net).neighbors@, net.neighbors@.len() as int);
                    }
                    self.insert_binding(entry.0, entry.1);
                },
            }
        }
        proof {
            assert(net.neighbors@.to_set() =~= Set::<(ArenaIndex, usize)>::empty());
        }
        Ok(())
    }

    /// The current binding set as a list of pairs, each exactly once, in no
    /// particular order.
    pub fn binding_pairs(&self) -> (r: Vec<(ArenaIndex, usize)>)
        requires
            self.wf(),
        ensures
            r@.to_set() == self.bindings(),
            r@.no_duplicates(),
    {
        let mut r: Vec<(ArenaIndex, usize)> = Vec::new();
        let mut i: usize = 0;
        while i < self.neighbors.len()
            invariant
                i <= self.neighbors@.len(),
                r@ == self.neighbors@.subrange(0, i as int),
            decreases self.neighbors@.len() - i,
        {
            r.push(self.neighbors[i]);
            proof {
                assert(r@ =~= self.neighbors@.subrange(0, i + 1));
            }
            i = i + 1;
        }
        proof {
            assert(r@ =~= self.neighbors@);
        }
        r
    }
}

/// The buffer after a resize to `n` bits: truncated at the end when
/// shrinking, or grown with fresh undriven bits at the end.
pub open spec fn resized(s: Seq<Tristate>, n: nat) -> Seq<Tristate> {
    if n <= s.len() {
        s.take(n as int)
    } else {
        s + Seq::new((n - s.len()) as nat, |i: int| Tristate::Floating)
    }
}

/// `a` after merging, bit by bit, the prefix it shares with `b`; bits of
/// `a` beyond `b`'s width keep their value.
pub open spec fn merge_prefix(a: Seq<Tristate>, b: Seq<Tristate>) -> Seq<Tristate> {
    Seq::new(
        a.len(),
        |i: int|
            if i < b.len() {
                spec_merge(a[i], b[i])
            } else {
                a[i]
            },
    )
}

/// Whether every bit of the buffer is a definite `Low` or `High`.
pub open spec fn all_driven(s: Seq<Tristate>) -> bool {
    forall|i: int| 0 <= i < s.len() ==> s[i] == Tristate::Low || s[i] == Tristate::High
}

/// The unsigned value of a buffer read as a binary number with bit index 0
/// most significant and the last index least significant; `High` counts as
/// a one bit, anything else as a zero bit.
pub open spec fn bits_value(s: Seq<Tristate>) -> nat
    decreases s.len(),
{
    if s.len() == 0 {
        0
    } else {
        2 * bits_value(s.drop_last()) + (if s.last() == Tristate::High {
            1nat
        } else {
            0nat
        })
    }
}

/// The signal driven onto the bit at distance `k` from the least
/// significant end when the integer `value` is unpacked onto a bus; only
/// `Low` and `High` are ever driven this way.
pub open spec fn bit_of(value: u64, k: nat) -> Tristate {
    if k < 64 && (value as nat / pow2(k)) % 2 == 1 {
        Tristate::High
    } else {
        Tristate::Low
    }
}

/// Shrinking a buffer is lossy: after a shrink to `w1` and a grow to `w2`,
/// every bit at or beyond the truncation point is `Floating` rather than
/// its pre-shrink value, and shrinking back to `w1` yields exactly what the
/// first shrink yielded.
pub proof fn lemma_resize_lossy(s: Seq<Tristate>, w1: nat, w2: nat)
    requires
        w1 < w2,
    ensures
        resized(resized(s, w1), w2).len() == w2,
        forall|i: int| w1 <= i < w2 ==> resized(resized(s, w1), w2)[i] == Tristate::Floating,
        resized(resized(resized(s, w1), w2), w1) == resized(s, w1),
{
    assert(resized(resized(resized(s, w1), w2), w1) =~= resized(s, w1));
}

/// Attaching a pair that was not bound and then detaching it leaves the
/// binding set exactly as it was, as the contracts of `connect` and
/// `disconnect` describe their effect on it.
pub proof fn lemma_connect_then_disconnect(
    bindings: Set<(ArenaIndex, usize)>,
    component: ArenaIndex,
    pin: usize,
)
    requires
        !bindings.contains((component, pin)),
    ensures
        bindings.insert((component, pin)).remove((component, pin)) == bindings,
{
    assert(bindings.insert((component, pin)).remove((component, pin)) =~= bindings);
}

/// The integer bridge is a round trip: the buffer that unpacking `value`
/// drives (as the commit will expose it) is fully driven, and packing it
/// again yields `value` back, whenever the bus is wide enough to hold the
/// value and no wider than the machine word.
pub proof fn lemma_integer_round_trip(value: u64, width: nat)
    requires
        width <= 64,
        (value as nat) < pow2(width),
    ensures
        all_driven(Seq::new(width, |i: int| bit_of(value, (width - 1 - i) as nat))),
        bits_value(Seq::new(width, |i: int| bit_of(value, (width - 1 - i) as nat)))
            == value as nat,
    decreases width,
{
    let s = Seq::new(width, |i: int| bit_of(value, (width - 1 - i) as nat));
    if width == 0 {
        lemma2_to64();
    } else {
        lemma2_to64();
        lemma_pow2_unfold(width);
        let half = value / 2;
        assert(value == 2 * (value as int / 2) + (value as int % 2) && 0 <= value as int % 2
            < 2) by {
            vstd::arithmetic::div_mod::lemma_fundamental_div_mod(value as int, 2);
            lemma_mod_bound(value as int, 2);
        }
        assert((half as nat) < pow2((width - 1) as nat));
        lemma_integer_round_trip(half, (width - 1) as nat);
        let s2 = Seq::new(
            (width - 1) as nat,
            |i: int| bit_of(half, (width - 2 - i) as nat),
        );
        assert forall|i: int| 0 <= i < width - 1 implies s[i] == s2[i] by {
            let k = (width - 1 - i) as nat;
            lemma_pow2_pos((k - 1) as nat);
            lemma_pow2_unfold(k);
            vstd::arithmetic::div_mod::lemma_div_denominator(
                value as int,
                2,
                pow2((k - 1) as nat) as int,
            );
        }
        assert(s.drop_last() =~= s2);
        assert(s.last() == bit_of(value, 0));
        assert(value as int / pow2(0) as int == value as int);
        assert(bits_value(s) == 2 * bits_value(s2) + (value as nat) % 2);
    }
}

/// One step of accumulating a binary number modulo two to the sixty-four:
/// doubling and adding the next bit, with wrapping operators, tracks the
/// mathematical value modulo the machine word's range.
proof fn lemma_accumulate_bit(x: nat, b: u64, r: u64)
    requires
        b <= 1,
        r as nat == x % pow2(64),
    ensures
        r.wrapping_mul(2).wrapping_add(b) as nat == (2 * x + b) % pow2(64) as int,
{
    lemma2_to64();
    let m = pow2(64) as int;
    lemma_mul_mod_noop_right(2, x as int, m);
    lemma_small_mod(b as nat, pow2(64));
    lemma_add_mod_noop(2 * (x as int), b as int, m);
    lemma_mod_bound(2 * (x as int), m);
    let wm = (r as nat * 2) % pow2(64);
    assert(wm == (2 * x) % pow2(64));
    if wm + b == pow2(64) {
        vstd::arithmetic::div_mod::lemma_mod_self_0(m);
    } else {
        lemma_small_mod((wm + b) as nat, pow2(64));
    }
}

/// A buffer's value as a binary number is below two to its length.
pub proof fn lemma_bits_value_bound(s: Seq<Tristate>)
    ensures
        bits_value(s) < pow2(s.len()),
    decreases s.len(),
{
    if s.len() == 0 {
        lemma2_to64();
    } else {
        lemma_pow2_unfold(s.len());
        lemma_bits_value_bound(s.drop_last());
    }
}

/// Appending a fresh pair extends the binding set by exactly that pair and
/// keeps the list duplicate-free.
proof fn lemma_push_to_set<T>(s: Seq<T>, x: T)
    ensures
        s.push(x).to_set() == s.to_set().insert(x),
        s.no_duplicates() && !s.contains(x) ==> s.push(x).no_duplicates(),
{
    assert forall|a: T| #[trigger] s.push(x).contains(a) implies s.to_set().insert(x).contains(
        a,
    ) by {
        let i = choose|i: int| 0 <= i < s.push(x).len() && s.push(x)[i] == a;
        if i < s.len() {
            assert(s[i] == a);
        }
    }
    assert forall|a: T| #[trigger] s.to_set().insert(x).contains(a) implies s.push(x).contains(
        a,
    ) by {
        if s.contains(a) {
            let i = choose|i: int| 0 <= i < s.len() && s[i] == a;
            assert(s.push(x)[i] == a);
        } else {
            assert(s.push(x)[s.len() as int] == x);
        }
    }
    assert(s.push(x).to_set() =~= s.to_set().insert(x));
}

/// Removing the list entry at `i` removes exactly its pair from the binding
/// set, provided the list is duplicate-free.
proof fn lemma_remove_to_set<T>(s: Seq<T>, i: int)
    requires
        0 <= i < s.len(),
        s.no_duplicates(),
    ensures
        s.remove(i).to_set() == s.to_set().remove(s[i]),
        s.remove(i).no_duplicates(),
{
    s.remove_ensures(i);
    assert forall|a: T| #[trigger] s.remove(i).to_set().contains(a) implies s.to_set().remove(
        s[i],
    ).contains(a) by {
        let j = choose|j: int| 0 <= j < s.remove(i).len() && s.remove(i)[j] == a;
        if j < i {
            assert(s[j] == a);
        } else {
            assert(s[j + 1] == a);
        }
    }
    assert forall|a: T| #[trigger] s.to_set().remove(s[i]).contains(a) implies s.remove(
        i,
    ).to_set().contains(a) by {
        let j = choose|j: int| 0 <= j < s.len() && s[j] == a;
        if j < i {
            assert(s.remove(i)[j] == a);
        } else {
            assert(j != i);
            assert(s.remove(i)[j - 1] == a);
        }
    }
    assert(s.remove(i).to_set() =~= s.to_set().remove(s[i]));
}

/// Every element of a prefix of the list is an element of the list, so the
/// prefix's binding set is a subset.
proof fn lemma_take_to_set_subset<T>(s: Seq<T>, k: int)
    requires
        0 <= k <= s.len(),
    ensures
        s.subrange(0, k).to_set().subset_of(s.to_set()),
        s.no_duplicates() ==> s.subrange(0, k).no_duplicates(),
{
    assert forall|a: T| #[trigger] s.subrange(0, k).to_set().contains(a) implies s.to_set().contains(
        a,
    ) by {
        let i = choose|i: int| 0 <= i < k && s.subrange(0, k)[i] == a;
        assert(s[i] == a);
    }
}

/// Looks `(component, pin)` up in a binding list.
fn find_binding(neighbors: &Vec<(ArenaIndex, usize)>, component: ArenaIndex, pin: usize) -> (r:
    Option<usize>)
    ensures
        r matches Some(i) ==> i < neighbors@.len() && neighbors@[i as int] == (component, pin),
        r is None ==> !neighbors@.contains((component, pin)),
{
    let mut i: usize = 0;
    while i < neighbors.len()
        invariant
            i <= neighbors@.len(),
            forall|j: int| 0 <= j < i ==> neighbors@[j] != (component, pin),
        decreases neighbors@.len() - i,
    {
        let entry = neighbors[i];
        if entry.0 == component && entry.1 == pin {
            return Some(i);
        }
        i = i + 1;
    }
    None
}

/// A fresh buffer of `n` undriven bits.
fn floating_buffer(n: usize) -> (r: Vec<Tristate>)
    ensures
        r@ == Seq::new(n as nat, |i: int| Tristate::Floating),
{
    let r = vec![Tristate::Floating; n];
    proof {
        assert(r@ =~= Seq::new(n as nat, |i: int| Tristate::Floating));
    }
    r
}

} // verus!
