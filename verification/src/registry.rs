//! The shared component registry: a single lock-guarded generational arena
//! of boxed component instances, owned by whatever owns the whole circuit.
//! Nets keep only a non-owning handle and upgrade it on demand; every
//! mutation acquires the write lock without blocking and fails fast when the
//! registry is gone or contended.
//!
//! Everything in this module is a trusted boundary: the bodies call into
//! `std::sync` and `generational_arena`, and Verus believes only the stated
//! contracts.

use vstd::prelude::*;

use crate::component::ArenaIndex;
use crate::component::Component;
use crate::error::LogicError;

verus! {

/// Owning handle to the shared component registry. The circuit owner holds
/// this; everything else reaches the arena through a `RegistryRef`.
#[verifier::external_body]
pub struct Registry {
    handle: std::sync::Arc<
        std::sync::RwLock<generational_arena::Arena<Box<dyn Component>>>,
    >,
}

/// Non-owning handle to the shared component registry, held by nets so that
/// the registry's lifetime is governed by the circuit owner, never by an
/// individual net. Using it fails once the registry has been torn down.
#[verifier::external_body]
pub struct RegistryRef {
    handle: std::sync::Weak<
        std::sync::RwLock<generational_arena::Arena<Box<dyn Component>>>,
    >,
}

impl Registry {
    /// Creates a registry around an empty arena.
    ///
    /// Relies on `generational_arena::Arena::new` for the empty arena and on
    /// `std::sync::Arc::new` / `RwLock::new` for the shared locked cell.
    #[verifier::external_body]
    pub fn new() -> (r: Registry) {
        Registry {
            handle: std::sync::Arc::new(std::sync::RwLock::new(
                generational_arena::Arena::new(),
            )),
        }
    }

    /// Inserts a component and returns its fresh identity.
    ///
    /// Relies on `std::sync::RwLock::try_write` (fails fast when the lock is
    /// held) and on `generational_arena::Arena::insert` /
    /// `Index::into_raw_parts`, which return the slot and generation of the
    /// newly occupied entry.
    #[verifier::external_body]
    pub fn insert<C: Component + 'static>(&mut self, component: C) -> (r: Result<
        ArenaIndex,
        LogicError,
    >)
        ensures
            r matches Err(e) ==> e == LogicError::InvalidArena,
    {
        match self.handle.try_write() {
            Ok(mut arena) => {
                let (slot, generation) = arena.insert(Box::new(component)).into_raw_parts();
                Ok(ArenaIndex { slot, generation })
            },
            Err(_) => Err(LogicError::InvalidArena),
        }
    }

    /// Removes the component with the given identity; returns whether a
    /// live entry was removed.
    ///
    /// Relies on `std::sync::RwLock::try_write` and on
    /// `generational_arena::Arena::remove` / `Index::from_raw_parts`:
    /// `remove` returns `None` when the slot is vacant or its generation no
    /// longer matches, so a stale identity is rejected rather than aliased.
    #[verifier::external_body]
    pub fn remove(&mut self, component: ArenaIndex) -> (r: Result<bool, LogicError>)
        ensures
            r matches Err(e) ==> e == LogicError::InvalidArena,
    {
        match self.handle.try_write() {
            Ok(mut arena) => {
                let index = generational_arena::Index::from_raw_parts(
                    component.slot,
                    component.generation,
                );
                Ok(arena.remove(index).is_some())
            },
            Err(_) => Err(LogicError::InvalidArena),
        }
    }

    /// Hands out a non-owning handle for a net to keep.
    ///
    /// Relies on `std::sync::Arc::downgrade`.
    #[verifier::external_body]
    pub fn downgrade(&self) -> (r: RegistryRef) {
        RegistryRef { handle: std::sync::Arc::downgrade(&self.handle) }
    }
}

/// Checks that the shared registry is still alive and that its write lock
/// can be taken without blocking right now. Operations that walk a whole
/// binding set probe this first, so that an unreachable registry fails the
/// operation before any neighbor has been notified.
///
/// Relies on `std::sync::Weak::upgrade` and `std::sync::RwLock::try_write`.
#[verifier::external_body]
pub(crate) fn registry_reachable(registry: &RegistryRef) -> (r: bool) {
    registry.handle.upgrade().as_ref().and_then(|l| l.try_write().ok()).is_some()
}

/// Tells the component `component` that its `pin` is now bound to the net
/// with identity `net`.
///
/// Relies on `std::sync::Weak::upgrade` and `std::sync::RwLock::try_write`
/// to reach the shared arena without blocking, and on
/// `generational_arena::Arena::get_mut` / `Index::from_raw_parts`: `get_mut`
/// returns the live entry for an index, or `None` when the slot is vacant or
/// its generation differs. On a live entry it calls `Component::connect`.
#[verifier::external_body]
pub(crate) fn notify_connect(
    registry: &RegistryRef,
    component: ArenaIndex,
    pin: usize,
    net: ArenaIndex,
) -> (r: Result<(), LogicError>)
    ensures
        r matches Err(e) ==> e == LogicError::InvalidArena || e == LogicError::InvalidComponent,
{
    let index = generational_arena::Index::from_raw_parts(component.slot, component.generation);
    match registry.handle.upgrade().as_ref().and_then(|l| l.try_write().ok()) {
        None => Err(LogicError::InvalidArena),
        Some(mut arena) => match arena.get_mut(index) {
            None => Err(LogicError::InvalidComponent),
            Some(neighbor) => {
                neighbor.connect(pin, net);
                Ok(())
            },
        },
    }
}

/// Tells the component `component` that its `pin` is no longer bound.
///
/// Relies on `std::sync::Weak::upgrade`, `std::sync::RwLock::try_write` and
/// `generational_arena::Arena::get_mut` / `Index::from_raw_parts` exactly as
/// `notify_connect` does; on a live entry it calls `Component::disconnect`.
#[verifier::external_body]
pub(crate) fn notify_disconnect(
    registry: &RegistryRef,
    component: ArenaIndex,
    pin: usize,
) -> (r: Result<(), LogicError>)
    ensures
        r matches Err(e) ==> e == LogicError::InvalidArena || e == LogicError::InvalidComponent,
{
    let index = generational_arena::Index::from_raw_parts(component.slot, component.generation);
    match registry.handle.upgrade().as_ref().and_then(|l| l.try_write().ok()) {
        None => Err(LogicError::InvalidArena),
        Some(mut arena) => match arena.get_mut(index) {
            None => Err(LogicError::InvalidComponent),
            Some(neighbor) => {
                neighbor.disconnect(pin);
                Ok(())
            },
        },
    }
}

/// Tells the component `component` that its `pin` has moved to the net with
/// identity `net`: first unbinds the pin, then binds it anew, under one
/// arena lookup, as a net absorbing another rewrites its neighbors.
///
/// Relies on `std::sync::Weak::upgrade`, `std::sync::RwLock::try_write` and
/// `generational_arena::Arena::get_mut` / `Index::from_raw_parts` exactly as
/// `notify_connect` does; on a live entry it calls `Component::disconnect`
/// then `Component::connect`.
#[verifier::external_body]
pub(crate) fn notify_rebind(
    registry: &RegistryRef,
    component: ArenaIndex,
    pin: usize,
    net: ArenaIndex,
) -> (r: Result<(), LogicError>)
    ensures
        r matches Err(e) ==> e == LogicError::InvalidArena || e == LogicError::InvalidComponent,
{
    let index = generational_arena::Index::from_raw_parts(component.slot, component.generation);
    match registry.handle.upgrade().as_ref().and_then(|l| l.try_write().ok()) {
        None => Err(LogicError::InvalidArena),
        Some(mut arena) => match arena.get_mut(index) {
            None => Err(LogicError::InvalidComponent),
            Some(neighbor) => {
                neighbor.disconnect(pin);
                neighbor.connect(pin, net);
                Ok(())
            },
        },
    }
}

} // verus!
