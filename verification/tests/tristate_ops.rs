use circa::Tristate;

const ALL: [Tristate; 4] = [Tristate::Low, Tristate::High, Tristate::Floating, Tristate::Error];

#[test]
fn merge_is_idempotent_and_floating_yields() {
    for x in ALL {
        assert_eq!(x.merge(x), x);
        assert_eq!(Tristate::Floating.merge(x), x);
        assert_eq!(x.merge(Tristate::Floating), x);
        assert_eq!(Tristate::Error.merge(x), Tristate::Error);
        assert_eq!(x.merge(Tristate::Error), Tristate::Error);
    }
    assert_eq!(Tristate::Low.merge(Tristate::High), Tristate::Error);
    assert_eq!(Tristate::High.merge(Tristate::Low), Tristate::Error);
}

#[test]
fn merge_is_commutative() {
    for a in ALL {
        for b in ALL {
            assert_eq!(a.merge(b), b.merge(a));
        }
    }
}

#[test]
fn gate_truth_tables_are_exhaustive() {
    for a in ALL {
        for b in ALL {
            let expected_and = if a == Tristate::Error || b == Tristate::Error {
                Tristate::Error
            } else if a == Tristate::Floating || b == Tristate::Floating {
                Tristate::Floating
            } else if a == Tristate::High && b == Tristate::High {
                Tristate::High
            } else {
                Tristate::Low
            };
            let expected_or = if a == Tristate::Error || b == Tristate::Error {
                Tristate::Error
            } else if a == Tristate::Floating || b == Tristate::Floating {
                Tristate::Floating
            } else if a == Tristate::High || b == Tristate::High {
                Tristate::High
            } else {
                Tristate::Low
            };
            let expected_xor = if a == Tristate::Error || b == Tristate::Error {
                Tristate::Error
            } else if a == Tristate::Floating || b == Tristate::Floating {
                Tristate::Floating
            } else if a != b {
                Tristate::High
            } else {
                Tristate::Low
            };
            assert_eq!(a.and(b), expected_and);
            assert_eq!(a.or(b), expected_or);
            assert_eq!(a.xor(b), expected_xor);
        }
    }
}

#[test]
fn gate_spot_checks() {
    assert_eq!(Tristate::High.and(Tristate::High), Tristate::High);
    assert_eq!(Tristate::High.and(Tristate::Low), Tristate::Low);
    assert_eq!(Tristate::Low.or(Tristate::High), Tristate::High);
    assert_eq!(Tristate::Low.or(Tristate::Low), Tristate::Low);
    assert_eq!(Tristate::High.xor(Tristate::Low), Tristate::High);
    assert_eq!(Tristate::High.xor(Tristate::High), Tristate::Low);
    assert_eq!(Tristate::High.and(Tristate::Floating), Tristate::Floating);
    assert_eq!(Tristate::High.or(Tristate::Floating), Tristate::Floating);
    assert_eq!(Tristate::Low.xor(Tristate::Error), Tristate::Error);
}

#[test]
fn not_swaps_driven_and_fixes_undetermined() {
    assert_eq!(Tristate::Low.not(), Tristate::High);
    assert_eq!(Tristate::High.not(), Tristate::Low);
    assert_eq!(Tristate::Floating.not(), Tristate::Floating);
    assert_eq!(Tristate::Error.not(), Tristate::Error);
}

#[test]
fn default_signal_is_floating() {
    assert_eq!(Tristate::default(), Tristate::Floating);
}
