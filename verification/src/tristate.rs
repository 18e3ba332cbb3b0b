//! Four-valued signal algebra: `Low`, `High`, `Floating` (undriven),
//! `Error` (conflicting drivers), with a conflict-resolving merge and the
//! boolean gate operators.

use vstd::prelude::*;

verus! {

/// One signal value on one bit of a wire.
#[derive(Debug, Clone, Copy, PartialEq, Eq, Structural)]
pub enum Tristate {
    Low,
    High,
    Floating,
    Error,
}

/// Resolution of two drivers on the same bit: equal drivers agree, an
/// `Error` poisons the wire, an undriven line yields to any driven value,
/// and `Low` against `High` is a definite electrical conflict.
pub open spec fn spec_merge(a: Tristate, b: Tristate) -> Tristate {
    if a == b {
        a
    } else if a == Tristate::Error || b == Tristate::Error {
        Tristate::Error
    } else if a == Tristate::Floating {
        b
    } else if b == Tristate::Floating {
        a
    } else {
        Tristate::Error
    }
}

/// Idealized AND gate: an `Error` input dominates, else an undetermined
/// input leaves the output undetermined, else boolean AND on `Low`/`High`.
pub open spec fn spec_and(a: Tristate, b: Tristate) -> Tristate {
    if a == Tristate::Error || b == Tristate::Error {
        Tristate::Error
    } else if a == Tristate::Floating || b == Tristate::Floating {
        Tristate::Floating
    } else if a == Tristate::High && b == Tristate::High {
        Tristate::High
    } else {
        Tristate::Low
    }
}

/// Idealized OR gate; `Error` then `Floating` dominate as in `spec_and`.
pub open spec fn spec_or(a: Tristate, b: Tristate) -> Tristate {
    if a == Tristate::Error || b == Tristate::Error {
        Tristate::Error
    } else if a == Tristate::Floating || b == Tristate::Floating {
        Tristate::Floating
    } else if a == Tristate::High || b == Tristate::High {
        Tristate::High
    } else {
        Tristate::Low
    }
}

/// Idealized XOR gate; `Error` then `Floating` dominate as in `spec_and`.
pub open spec fn spec_xor(a: Tristate, b: Tristate) -> Tristate {
    if a == Tristate::Error || b == Tristate::Error {
        Tristate::Error
    } else if a == Tristate::Floating || b == Tristate::Floating {
        Tristate::Floating
    } else if a != b {
        Tristate::High
    } else {
        Tristate::Low
    }
}

/// Idealized inverter: swaps `Low` and `High`, leaves `Floating` and
/// `Error` unchanged.
pub open spec fn spec_not(a: Tristate) -> Tristate {
    match a {
        Tristate::Low => Tristate::High,
        Tristate::High => Tristate::Low,
        x => x,
    }
}

impl Tristate {
    /// Resolves two drivers on the same bit.
    pub fn merge(self, rhs: Tristate) -> (r: Tristate)
        ensures
            r == spec_merge(self, rhs),
    {
        if self == rhs {
            self
        } else if self == Tristate::Error || rhs == Tristate::Error {
            Tristate::Error
        } else if self == Tristate::Floating {
            rhs
        } else if rhs == Tristate::Floating {
            self
        } else {
            Tristate::Error
        }
    }

    /// AND gate on two signals.
    pub fn and(self, rhs: Tristate) -> (r: Tristate)
        ensures
            r == spec_and(self, rhs),
    {
        if self == Tristate::Error || rhs == Tristate::Error {
            Tristate::Error
        } else if self == Tristate::Floating || rhs == Tristate::Floating {
            Tristate::Floating
        } else if self == Tristate::High && rhs == Tristate::High {
            Tristate::High
        } else {
            Tristate::Low
        }
    }

    /// OR gate on two signals.
    pub fn or(self, rhs: Tristate) -> (r: Tristate)
        ensures
            r == spec_or(self, rhs),
    {
        if self == Tristate::Error || rhs == Tristate::Error {
            Tristate::Error
        } else if self == Tristate::Floating || rhs == Tristate::Floating {
            Tristate::Floating
        } else if self == Tristate::High || rhs == Tristate::High {
            Tristate::High
        } else {
            Tristate::Low
        }
    }

    /// XOR gate on two signals.
    pub fn xor(self, rhs: Tristate) -> (r: Tristate)
        ensures
            r == spec_xor(self, rhs),
    {
        if self == Tristate::Error || rhs == Tristate::Error {
            Tristate::Error
        } else if self == Tristate::Floating || rhs == Tristate::Floating {
            Tristate::Floating
        } else if self != rhs {
            Tristate::High
        } else {
            Tristate::Low
        }
    }

    /// Inverter on one signal.
    pub fn not(self) -> (r: Tristate)
        ensures
            r == spec_not(self),
    {
        match self {
            Tristate::Low => Tristate::High,
            Tristate::High => Tristate::Low,
            x => x,
        }
    }
}

impl Default for Tristate {
    /// An unset signal defaults to the undriven state.
    fn default() -> (r: Tristate)
        ensures
            r == Tristate::Floating,
    {
        Tristate::Floating
    }
}

/// Laws of the merge operator: it is idempotent, `Floating` is its neutral
/// element, `Error` is absorbing, and opposite driven values conflict.
pub proof fn lemma_merge_laws(x: Tristate)
    ensures
        spec_merge(x, x) == x,
        spec_merge(Tristate::Floating, x) == x,
        spec_merge(x, Tristate::Floating) == x,
        spec_merge(Tristate::Error, x) == Tristate::Error,
        spec_merge(x, Tristate::Error) == Tristate::Error,
        spec_merge(Tristate::Low, Tristate::High) == Tristate::Error,
        spec_merge(Tristate::High, Tristate::Low) == Tristate::Error,
{
}

/// Merging two drivers does not depend on which side drives which: the
/// resolution of a physical junction is symmetric.
pub proof fn lemma_merge_commutes(a: Tristate, b: Tristate)
    ensures
        spec_merge(a, b) == spec_merge(b, a),
{
}

/// On any two signals the gates follow one priority: an `Error` input wins
/// outright, a `Floating` input wins next, and otherwise the ordinary
/// boolean rules on `Low` and `High` decide.
pub proof fn lemma_gate_laws(a: Tristate, b: Tristate)
    ensures
        (a == Tristate::Error || b == Tristate::Error) ==> spec_and(a, b) == Tristate::Error
            && spec_or(a, b) == Tristate::Error && spec_xor(a, b) == Tristate::Error,
        (a != Tristate::Error && b != Tristate::Error && (a == Tristate::Floating || b
            == Tristate::Floating)) ==> spec_and(a, b) == Tristate::Floating && spec_or(a, b)
            == Tristate::Floating && spec_xor(a, b) == Tristate::Floating,
        (matches!(a, Tristate::Low | Tristate::High) && matches!(b, Tristate::Low | Tristate::High))
            ==> spec_and(a, b) == (if a == Tristate::High && b == Tristate::High {
            Tristate::High
        } else {
            Tristate::Low
        }) && spec_or(a, b) == (if a == Tristate::High || b == Tristate::High {
            Tristate::High
        } else {
            Tristate::Low
        }) && spec_xor(a, b) == (if a != b {
            Tristate::High
        } else {
            Tristate::Low
        }),
{
}

/// Laws of the inverter: it swaps the two driven values and fixes the
/// undetermined ones.
pub proof fn lemma_not_laws()
    ensures
        spec_not(Tristate::Low) == Tristate::High,
        spec_not(Tristate::High) == Tristate::Low,
        spec_not(Tristate::Floating) == Tristate::Floating,
        spec_not(Tristate::Error) == Tristate::Error,
{
}

} // verus!
