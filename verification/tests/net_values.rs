use circa::Net;
use circa::Registry;
use circa::Tristate;

fn fresh_net(width: usize) -> (Registry, Net) {
    let registry = Registry::new();
    let net = Net::new(width, registry.downgrade());
    (registry, net)
}

#[test]
fn new_net_is_all_floating() {
    let (_registry, net) = fresh_net(3);
    for bit in 0..3 {
        assert_eq!(net.get(bit), Tristate::Floating);
        assert_eq!(net.spy(bit), Tristate::Floating);
    }
    assert!(net.binding_pairs().is_empty());
}

#[test]
fn commit_exposes_future_and_clears_it() {
    let (_registry, mut net) = fresh_net(3);
    net.set(0, Tristate::High);
    net.set(1, Tristate::Low);
    net.set(2, Tristate::Error);
    // Still invisible before the commit.
    for bit in 0..3 {
        assert_eq!(net.get(bit), Tristate::Floating);
    }
    net.update();
    assert_eq!(net.get(0), Tristate::High);
    assert_eq!(net.get(1), Tristate::Low);
    assert_eq!(net.get(2), Tristate::Error);
    for bit in 0..3 {
        assert_eq!(net.spy(bit), Tristate::Floating);
    }
}

#[test]
fn settle_writes_never_disturb_reads() {
    let (_registry, mut net) = fresh_net(1);
    net.set(0, Tristate::High);
    net.update();
    assert_eq!(net.get(0), Tristate::High);
    // However many evaluations write the future buffer this tick, every
    // reader keeps seeing the value frozen at the last commit.
    net.set(0, Tristate::Low);
    assert_eq!(net.get(0), Tristate::High);
    net.set(0, Tristate::Error);
    assert_eq!(net.get(0), Tristate::High);
    net.update();
    assert_eq!(net.get(0), Tristate::Error);
}

#[test]
fn spy_sees_pending_value() {
    let (_registry, mut net) = fresh_net(2);
    net.set(1, Tristate::High);
    assert_eq!(net.spy(1), Tristate::High);
    assert_eq!(net.spy(0), Tristate::Floating);
    assert_eq!(net.get(1), Tristate::Floating);
}

#[test]
fn overwrite_forces_active_directly() {
    let (_registry, mut net) = fresh_net(2);
    net.overwrite(0, Tristate::High);
    assert_eq!(net.get(0), Tristate::High);
    assert_eq!(net.spy(0), Tristate::Floating);
}

#[test]
fn out_of_range_bits_are_clamped_to_no_ops() {
    let (_registry, mut net) = fresh_net(2);
    assert_eq!(net.get(5), Tristate::Floating);
    assert_eq!(net.spy(5), Tristate::Floating);
    net.set(5, Tristate::High);
    net.overwrite(5, Tristate::High);
    net.update();
    assert_eq!(net.get(0), Tristate::Floating);
    assert_eq!(net.get(1), Tristate::Floating);
    assert_eq!(net.get(5), Tristate::Floating);
}

#[test]
fn reset_clears_both_buffers() {
    let (_registry, mut net) = fresh_net(2);
    net.overwrite(0, Tristate::High);
    net.set(1, Tristate::Error);
    net.reset();
    assert_eq!(net.get(0), Tristate::Floating);
    assert_eq!(net.spy(1), Tristate::Floating);
}

#[test]
fn write_nine_commit_read_nine() {
    let (_registry, mut net) = fresh_net(4);
    net.write_u64(9);
    net.update();
    assert_eq!(net.read_u64(), Some(9));
    // Big-endian convention: index 0 is the most significant bit.
    assert_eq!(net.get(0), Tristate::High);
    assert_eq!(net.get(1), Tristate::Low);
    assert_eq!(net.get(2), Tristate::Low);
    assert_eq!(net.get(3), Tristate::High);
}

#[test]
fn read_is_undetermined_on_floating_or_error() {
    let (_registry, mut net) = fresh_net(2);
    net.overwrite(0, Tristate::High);
    // Active is [High, Floating]: undetermined.
    assert_eq!(net.read_u64(), None);
    net.overwrite(1, Tristate::Error);
    assert_eq!(net.read_u64(), None);
    net.overwrite(1, Tristate::Low);
    assert_eq!(net.read_u64(), Some(2));
}

#[test]
fn read_of_wide_bus_keeps_low_order_word() {
    let (_registry, mut net) = fresh_net(65);
    for bit in 0..65 {
        net.overwrite(bit, Tristate::Low);
    }
    // Index 0 of a 65-bit bus weighs two to the sixty-fourth: beyond u64.
    net.overwrite(0, Tristate::High);
    assert_eq!(net.read_u64(), Some(0));
    net.overwrite(64, Tristate::High);
    assert_eq!(net.read_u64(), Some(1));
}

#[test]
fn resize_grows_with_floating_and_shrinks_lossily() {
    let (_registry, mut net) = fresh_net(4);
    net.write_u64(0b1111);
    net.update();
    assert_eq!(net.read_u64(), Some(0b1111));
    net.resize(2);
    assert_eq!(net.read_u64(), Some(0b11));
    net.resize(4);
    // The two truncated bits are gone: grown bits are fresh Floating ones.
    assert_eq!(net.get(0), Tristate::High);
    assert_eq!(net.get(1), Tristate::High);
    assert_eq!(net.get(2), Tristate::Floating);
    assert_eq!(net.get(3), Tristate::Floating);
    assert_eq!(net.read_u64(), None);
    net.resize(2);
    assert_eq!(net.read_u64(), Some(0b11));
}
