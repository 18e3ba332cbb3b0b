use std::cell::RefCell;
use std::rc::Rc;

use circa::ArenaIndex;
use circa::Component;
use circa::LogicError;
use circa::Net;
use circa::Registry;
use circa::Tristate;

#[derive(Clone, Copy, Debug, PartialEq, Eq)]
enum Event {
    Bound(usize, ArenaIndex),
    Unbound(usize),
}

/// A test component that records every bind and unbind it is told about.
struct Recorder {
    log: Rc<RefCell<Vec<Event>>>,
}

impl Component for Recorder {
    fn update(&mut self) {}

    fn disconnect(&mut self, pin: usize) {
        self.log.borrow_mut().push(Event::Unbound(pin));
    }

    fn connect(&mut self, pin: usize, net: ArenaIndex) {
        self.log.borrow_mut().push(Event::Bound(pin, net));
    }
}

fn recorder() -> (Recorder, Rc<RefCell<Vec<Event>>>) {
    let log = Rc::new(RefCell::new(Vec::new()));
    (Recorder { log: log.clone() }, log)
}

#[test]
fn connect_then_disconnect_restores_bindings_and_pin() {
    let mut registry = Registry::new();
    let (component, log) = recorder();
    let id = registry.insert(component).unwrap();
    let mut net = Net::new(1, registry.downgrade());
    let net_id = ArenaIndex::new(40, 2);
    net.set_index(net_id);

    assert!(net.binding_pairs().is_empty());
    net.connect(id, 3).unwrap();
    assert_eq!(net.binding_pairs(), vec![(id, 3)]);
    net.disconnect(id, 3).unwrap();
    assert!(net.binding_pairs().is_empty());
    assert_eq!(*log.borrow(), vec![Event::Bound(3, net_id), Event::Unbound(3)]);
}

#[test]
fn connect_without_identity_is_invalid_net() {
    let mut registry = Registry::new();
    let (component, log) = recorder();
    let id = registry.insert(component).unwrap();
    let mut net = Net::new(1, registry.downgrade());
    assert_eq!(net.connect(id, 0), Err(LogicError::InvalidNet));
    assert!(net.binding_pairs().is_empty());
    assert!(log.borrow().is_empty());
}

#[test]
fn stale_component_identity_is_invalid_component() {
    let mut registry = Registry::new();
    let (component, _log) = recorder();
    let id = registry.insert(component).unwrap();
    assert_eq!(registry.remove(id), Ok(true));
    assert_eq!(registry.remove(id), Ok(false));
    let mut net = Net::new(1, registry.downgrade());
    net.set_index(ArenaIndex::new(41, 0));
    assert_eq!(net.connect(id, 0), Err(LogicError::InvalidComponent));
    assert!(net.binding_pairs().is_empty());
}

#[test]
fn disconnect_of_stale_component_still_drops_local_record() {
    let mut registry = Registry::new();
    let (component, _log) = recorder();
    let id = registry.insert(component).unwrap();
    let mut net = Net::new(1, registry.downgrade());
    net.set_index(ArenaIndex::new(42, 0));
    net.connect(id, 5).unwrap();
    assert_eq!(registry.remove(id), Ok(true));
    assert_eq!(net.disconnect(id, 5), Err(LogicError::InvalidComponent));
    assert!(net.binding_pairs().is_empty());
}

#[test]
fn torn_down_registry_is_invalid_arena() {
    let registry = Registry::new();
    let handle = registry.downgrade();
    drop(registry);
    let mut net = Net::new(1, handle);
    net.set_index(ArenaIndex::new(43, 0));
    let id = ArenaIndex::new(0, 0);
    assert_eq!(net.connect(id, 0), Err(LogicError::InvalidArena));
    assert_eq!(net.disconnect(id, 0), Err(LogicError::InvalidArena));
    assert_eq!(net.clear(), Err(LogicError::InvalidArena));
    let mut other = Net::new(1, net_with_dead_registry());
    other.set_index(ArenaIndex::new(44, 0));
    assert_eq!(net.absorb(&mut other), Err(LogicError::InvalidArena));
}

fn net_with_dead_registry() -> circa::RegistryRef {
    let registry = Registry::new();
    registry.downgrade()
}

#[test]
fn clear_resets_state_and_unbinds_every_neighbor() {
    let mut registry = Registry::new();
    let (component, log) = recorder();
    let id = registry.insert(component).unwrap();
    let mut net = Net::new(2, registry.downgrade());
    let net_id = ArenaIndex::new(45, 1);
    net.set_index(net_id);
    net.connect(id, 0).unwrap();
    net.connect(id, 1).unwrap();
    net.overwrite(0, Tristate::High);
    net.set(1, Tristate::Error);

    net.clear().unwrap();
    assert!(net.binding_pairs().is_empty());
    assert_eq!(net.get(0), Tristate::Floating);
    assert_eq!(net.spy(1), Tristate::Floating);
    let events = log.borrow();
    assert_eq!(events[0], Event::Bound(0, net_id));
    assert_eq!(events[1], Event::Bound(1, net_id));
    assert_eq!(events.len(), 4);
    assert!(events[2..].contains(&Event::Unbound(0)));
    assert!(events[2..].contains(&Event::Unbound(1)));
}

#[test]
fn absorb_merges_values_and_moves_bindings() {
    let mut registry = Registry::new();
    let (component, log) = recorder();
    let id = registry.insert(component).unwrap();

    let mut a = Net::new(2, registry.downgrade());
    let a_id = ArenaIndex::new(46, 0);
    a.set_index(a_id);
    a.overwrite(0, Tristate::High);
    a.overwrite(1, Tristate::Low);

    let mut b = Net::new(2, registry.downgrade());
    let b_id = ArenaIndex::new(47, 0);
    b.set_index(b_id);
    b.overwrite(1, Tristate::High);
    b.connect(id, 7).unwrap();

    a.absorb(&mut b).unwrap();

    assert_eq!(a.get(0), Tristate::High);
    assert_eq!(a.get(1), Tristate::Error);
    // The absorbed net holds the merged result too, but only as a side
    // effect: it is now a dangling duplicate of the unified node.
    assert_eq!(b.get(0), Tristate::High);
    assert_eq!(b.get(1), Tristate::Error);
    assert!(b.binding_pairs().is_empty());
    assert_eq!(a.binding_pairs(), vec![(id, 7)]);
    assert_eq!(
        *log.borrow(),
        vec![Event::Bound(7, b_id), Event::Unbound(7), Event::Bound(7, a_id)],
    );
}

#[test]
fn absorb_without_identity_still_merges_values() {
    let registry = Registry::new();
    let mut a = Net::new(1, registry.downgrade());
    a.overwrite(0, Tristate::Low);
    let mut b = Net::new(1, registry.downgrade());
    b.overwrite(0, Tristate::High);
    assert_eq!(a.absorb(&mut b), Err(LogicError::InvalidNet));
    assert_eq!(a.get(0), Tristate::Error);
}

#[test]
fn absorb_of_different_widths_merges_common_prefix() {
    let registry = Registry::new();
    let mut a = Net::new(3, registry.downgrade());
    a.set_index(ArenaIndex::new(48, 0));
    a.overwrite(0, Tristate::Low);
    a.overwrite(2, Tristate::High);
    let mut b = Net::new(1, registry.downgrade());
    b.overwrite(0, Tristate::High);
    a.absorb(&mut b).unwrap();
    assert_eq!(a.get(0), Tristate::Error);
    assert_eq!(a.get(1), Tristate::Floating);
    assert_eq!(a.get(2), Tristate::High);
    assert_eq!(b.get(0), Tristate::Error);
}

#[test]
fn error_descriptions_name_the_failure() {
    assert_eq!(LogicError::InvalidNet.describe(), "net identity is not set");
    assert_eq!(LogicError::InvalidArena.describe(), "component registry unavailable");
    assert_eq!(LogicError::InvalidComponent.describe(), "stale component identity");
}
