//! The abstract values of the flow analyses that run in full mode, and how
//! two values meet where control-flow paths join.
use vstd::prelude::*;
use core::cmp::Ordering;

verus! {

// ---------------------------------------------------------------------------
// Capability use
// ---------------------------------------------------------------------------
/// What is known of a capability parameter's use; `L` is a source location.
/// The values form a lattice: `Unused < AccessedNotValidated <
/// PendingValidation < Validated`.
#[derive(Copy, Clone, Debug, PartialEq, Eq)]
pub enum CapValue<L> {
    /// Never accessed.
    Unused,
    /// Accessed, but the result never reached a guard.
    AccessedNotValidated(L),
    /// A validation was computed but has not reached a guard yet.
    PendingValidation(L),
    /// Validated through a guard (`assert!` or `if`).
    Validated(L),
}

/// A capability value's place in the lattice.
pub open spec fn cap_rank<L>(v: CapValue<L>) -> nat {
    match v {
        CapValue::Unused => 0,
        CapValue::AccessedNotValidated(_) => 1,
        CapValue::PendingValidation(_) => 2,
        CapValue::Validated(_) => 3,
    }
}

/// The order of two ranks.
pub open spec fn rank_order(a: nat, b: nat) -> Ordering {
    if a < b {
        Ordering::Less
    } else if a == b {
        Ordering::Equal
    } else {
        Ordering::Greater
    }
}

/// Where two paths meet: the higher value, the first on a tie.
pub open spec fn cap_join<L>(a: CapValue<L>, b: CapValue<L>) -> CapValue<L> {
    if cap_rank(a) >= cap_rank(b) {
        a
    } else {
        b
    }
}

impl<L: Copy> CapValue<L> {
    /// The value's place in the lattice.
    pub fn rank(&self) -> (r: u8)
        ensures
            r == cap_rank(*self),
    {
        match self {
            CapValue::Unused => 0,
            CapValue::AccessedNotValidated(_) => 1,
            CapValue::PendingValidation(_) => 2,
            CapValue::Validated(_) => 3,
        }
    }

    /// Compares two values by their place in the lattice (locations aside).
    pub fn cmp(&self, other: &Self) -> (r: Ordering)
        ensures
            r == rank_order(cap_rank(*self), cap_rank(*other)),
    {
        let a = self.rank();
        let b = other.rank();
        if a < b {
            Ordering::Less
        } else if a == b {
            Ordering::Equal
        } else {
            Ordering::Greater
        }
    }

    /// The value where two paths meet: the higher in the lattice (once
    /// validated on any path, validated), with the location of the argument
    /// it comes from, the first on a tie.
    pub fn join(v1: &Self, v2: &Self) -> (r: Self)
        ensures
            r == cap_join(*v1, *v2),
    {
        match (v1, v2) {
            (CapValue::Validated(loc), _) | (_, CapValue::Validated(loc)) => CapValue::Validated(*loc),
            (CapValue::PendingValidation(loc), _) | (_, CapValue::PendingValidation(loc)) => CapValue::PendingValidation(*loc),
            (CapValue::AccessedNotValidated(loc), _) | (_, CapValue::AccessedNotValidated(loc)) => {
                CapValue::AccessedNotValidated(*loc)
            },
            (CapValue::Unused, CapValue::Unused) => CapValue::Unused,
        }
    }
}

impl<L: Copy> Default for CapValue<L> {
    /// A parameter starts unused.
    fn default() -> (r: Self)
        ensures
            r == CapValue::<L>::Unused,
    {
        CapValue::Unused
    }
}

impl<L: Copy + PartialEq> PartialOrd for CapValue<L> {
    fn partial_cmp(&self, other: &Self) -> (r: Option<Ordering>) {
        Some(self.cmp(other))
    }
}

impl<L: Copy + PartialEq> vstd::std_specs::cmp::PartialOrdSpecImpl for CapValue<L> {
    open spec fn obeys_partial_cmp_spec() -> bool {
        true
    }

    open spec fn partial_cmp_spec(&self, other: &CapValue<L>) -> Option<Ordering> {
        Some(rank_order(cap_rank(*self), cap_rank(*other)))
    }
}

// ---------------------------------------------------------------------------
// Divisors
// ---------------------------------------------------------------------------
/// What is known of a divisor.
#[derive(Copy, Clone, Debug, PartialEq, Eq, Structural, PartialOrd, Ord, Default)]
pub enum DivisorValue {
    /// Nothing known.
    #[default]
    Unknown,
    /// Proven non-zero by an assertion.
    Validated,
    /// A constant.
    Constant,
}

/// A divisor value's strength: `Unknown < Validated < Constant`.
pub open spec fn divisor_rank(v: DivisorValue) -> nat {
    match v {
        DivisorValue::Unknown => 0,
        DivisorValue::Validated => 1,
        DivisorValue::Constant => 2,
    }
}

/// Where two paths meet: the weaker value.
pub open spec fn divisor_join(a: DivisorValue, b: DivisorValue) -> DivisorValue {
    if divisor_rank(a) <= divisor_rank(b) {
        a
    } else {
        b
    }
}

impl DivisorValue {
    /// The value where two paths meet: the weaker of the two, so a divisor
    /// is safe after the join only if it is safe on both paths.
    pub fn join(v1: &Self, v2: &Self) -> (r: Self)
        ensures
            r == divisor_join(*v1, *v2),
    {
        match (v1, v2) {
            (DivisorValue::Constant, DivisorValue::Constant) => DivisorValue::Constant,
            (DivisorValue::Validated, DivisorValue::Validated) => DivisorValue::Validated,
            (DivisorValue::Constant, DivisorValue::Validated) | (DivisorValue::Validated, DivisorValue::Constant) => {
                DivisorValue::Validated
            },
            _ => DivisorValue::Unknown,
        }
    }
}

// ---------------------------------------------------------------------------
// Zero checks
// ---------------------------------------------------------------------------
/// What is known of a value that is about to be destroyed as zero.
#[derive(Copy, Clone, Debug, PartialEq, Eq, Structural, PartialOrd, Ord, Default)]
pub enum ZeroCheckValue {
    /// No zero check seen.
    #[default]
    Unknown,
    /// Checked to be zero by an `assert!` or `if`.
    CheckedZero,
    /// A constant zero.
    ConstantZero,
}

/// A zero-check value's strength: `Unknown < CheckedZero < ConstantZero`.
pub open spec fn zero_check_rank(v: ZeroCheckValue) -> nat {
    match v {
        ZeroCheckValue::Unknown => 0,
        ZeroCheckValue::CheckedZero => 1,
        ZeroCheckValue::ConstantZero => 2,
    }
}

/// Where two paths meet: the weaker value.
pub open spec fn zero_check_join(a: ZeroCheckValue, b: ZeroCheckValue) -> ZeroCheckValue {
    if zero_check_rank(a) <= zero_check_rank(b) {
        a
    } else {
        b
    }
}

impl ZeroCheckValue {
    /// The value where two paths meet: the weaker of the two (pessimistic:
    /// unchecked on either path, unknown).
    pub fn join(v1: &Self, v2: &Self) -> (r: Self)
        ensures
            r == zero_check_join(*v1, *v2),
    {
        match (v1, v2) {
            (ZeroCheckValue::CheckedZero, ZeroCheckValue::CheckedZero) => ZeroCheckValue::CheckedZero,
            (ZeroCheckValue::ConstantZero, ZeroCheckValue::ConstantZero) => ZeroCheckValue::ConstantZero,
            (ZeroCheckValue::CheckedZero, ZeroCheckValue::ConstantZero) | (
                ZeroCheckValue::ConstantZero,
                ZeroCheckValue::CheckedZero,
            ) => ZeroCheckValue::CheckedZero,
            _ => ZeroCheckValue::Unknown,
        }
    }
}

// ---------------------------------------------------------------------------
// Fresh addresses
// ---------------------------------------------------------------------------
/// What is known of an address from `fresh_object_address`.
#[derive(Copy, Clone, Debug, PartialEq, Eq, PartialOrd, Ord)]
pub enum FreshAddressValue<L> {
    /// Not a fresh address.
    NotFresh,
    /// Fresh and not used yet.
    Fresh(L),
    /// Used once already: another use reuses it.
    UsedOnce(L),
}

/// A fresh-address value's place: `NotFresh < Fresh < UsedOnce`.
pub open spec fn fresh_rank<L>(v: FreshAddressValue<L>) -> nat {
    match v {
        FreshAddressValue::NotFresh => 0,
        FreshAddressValue::Fresh(_) => 1,
        FreshAddressValue::UsedOnce(_) => 2,
    }
}

impl<L: Copy> FreshAddressValue<L> {
    /// The value where two paths meet: the higher one (pessimistic: used on
    /// any path, used), with its location, the first on a tie.
    pub fn join(v1: &Self, v2: &Self) -> (r: Self)
        ensures
            r == (if fresh_rank(*v1) >= fresh_rank(*v2) { *v1 } else { *v2 }),
    {
        match (v1, v2) {
            (FreshAddressValue::UsedOnce(loc), _) | (_, FreshAddressValue::UsedOnce(loc)) => FreshAddressValue::UsedOnce(*loc),
            (FreshAddressValue::Fresh(loc), _) | (_, FreshAddressValue::Fresh(loc)) => FreshAddressValue::Fresh(*loc),
            _ => FreshAddressValue::NotFresh,
        }
    }
}

// ---------------------------------------------------------------------------
// Capability escapes
// ---------------------------------------------------------------------------
/// How a capability leaves its function.
#[derive(Copy, Clone, Debug, PartialEq, Eq, Structural)]
pub enum EscapeKind {
    ToParameterAddress,
    ToExternalModule,
    ToSharedObject,
    UnconditionalTransfer,
}

impl EscapeKind {
    /// How serious the escape is.
    pub fn severity(&self) -> (r: &'static str)
        ensures
            r@ == match self {
                EscapeKind::ToParameterAddress => "suspicious"@,
                EscapeKind::ToExternalModule => "dangerous"@,
                EscapeKind::ToSharedObject => "dangerous"@,
                EscapeKind::UnconditionalTransfer => "warning"@,
            },
    {
        match self {
            EscapeKind::ToParameterAddress => "suspicious",
            EscapeKind::ToExternalModule => "dangerous",
            EscapeKind::ToSharedObject => "dangerous",
            EscapeKind::UnconditionalTransfer => "warning",
        }
    }

    /// What the escape is.
    pub fn description(&self) -> (r: &'static str)
        ensures
            r@ == match self {
                EscapeKind::ToParameterAddress => "capability transferred to address from function parameter"@,
                EscapeKind::ToExternalModule => "capability passed to external module function"@,
                EscapeKind::ToSharedObject => "capability stored in shared object"@,
                EscapeKind::UnconditionalTransfer => "capability transferred without authorization check"@,
            },
    {
        match self {
            EscapeKind::ToParameterAddress => "capability transferred to address from function parameter",
            EscapeKind::ToExternalModule => "capability passed to external module function",
            EscapeKind::ToSharedObject => "capability stored in shared object",
            EscapeKind::UnconditionalTransfer => "capability transferred without authorization check",
        }
    }
}

/// What is known of where a capability went.
#[derive(Copy, Clone, Debug, PartialEq, Eq, PartialOrd, Ord)]
pub enum EscapeValue<L> {
    NotTracked,
    Contained(L),
    Validated(L),
    EscapedSafe(L),
    EscapedSuspicious(L),
    EscapedDangerous(L),
}

/// An escape value's severity: `NotTracked < Contained < Validated <
/// EscapedSafe < EscapedSuspicious < EscapedDangerous`.
pub open spec fn escape_rank<L>(v: EscapeValue<L>) -> nat {
    match v {
        EscapeValue::NotTracked => 0,
        EscapeValue::Contained(_) => 1,
        EscapeValue::Validated(_) => 2,
        EscapeValue::EscapedSafe(_) => 3,
        EscapeValue::EscapedSuspicious(_) => 4,
        EscapeValue::EscapedDangerous(_) => 5,
    }
}

impl<L: Copy> EscapeValue<L> {
    /// The value where two paths meet: the more severe, with its location,
    /// the first on a tie.
    pub fn join(v1: &Self, v2: &Self) -> (r: Self)
        ensures
            r == (if escape_rank(*v1) >= escape_rank(*v2) { *v1 } else { *v2 }),
    {
        match (v1, v2) {
            (EscapeValue::EscapedDangerous(loc), _) | (_, EscapeValue::EscapedDangerous(loc)) => EscapeValue::EscapedDangerous(*loc),
            (EscapeValue::EscapedSuspicious(loc), _) | (_, EscapeValue::EscapedSuspicious(loc)) => {
                EscapeValue::EscapedSuspicious(*loc)
            },
            (EscapeValue::EscapedSafe(loc), _) | (_, EscapeValue::EscapedSafe(loc)) => EscapeValue::EscapedSafe(*loc),
            (EscapeValue::Validated(loc), _) | (_, EscapeValue::Validated(loc)) => EscapeValue::Validated(*loc),
            (EscapeValue::Contained(loc), _) | (_, EscapeValue::Contained(loc)) => EscapeValue::Contained(*loc),
            (EscapeValue::NotTracked, EscapeValue::NotTracked) => EscapeValue::NotTracked,
        }
    }
}

// ---------------------------------------------------------------------------
// Oracle prices
// ---------------------------------------------------------------------------
/// What is known of an oracle price's freshness.
#[derive(Copy, Clone, Debug, PartialEq, Eq, PartialOrd, Ord)]
pub enum PriceValidationValue<L> {
    /// Not a tracked price.
    NotTracked,
    /// From an unsafe getter, not validated yet.
    Unvalidated(L),
    /// Validated for freshness.
    Validated(L),
}

/// A price value's place: `NotTracked < Unvalidated < Validated`.
pub open spec fn price_rank<L>(v: PriceValidationValue<L>) -> nat {
    match v {
        PriceValidationValue::NotTracked => 0,
        PriceValidationValue::Unvalidated(_) => 1,
        PriceValidationValue::Validated(_) => 2,
    }
}

impl<L: Copy> PriceValidationValue<L> {
    /// The value where two paths meet: the higher one (optimistic: validated
    /// on any path, validated), with its location, the first on a tie.
    pub fn join(v1: &Self, v2: &Self) -> (r: Self)
        ensures
            r == (if price_rank(*v1) >= price_rank(*v2) { *v1 } else { *v2 }),
    {
        match (v1, v2) {
            (PriceValidationValue::Validated(loc), _) | (_, PriceValidationValue::Validated(loc)) => {
                PriceValidationValue::Validated(*loc)
            },
            (PriceValidationValue::Unvalidated(loc), _) | (_, PriceValidationValue::Unvalidated(loc)) => {
                PriceValidationValue::Unvalidated(*loc)
            },
            (PriceValidationValue::NotTracked, PriceValidationValue::NotTracked) => PriceValidationValue::NotTracked,
        }
    }
}

// ---------------------------------------------------------------------------
// Lattice laws
// ---------------------------------------------------------------------------
/// Capability values form a lattice under their join: joining a value with
/// itself changes nothing, joins can be grouped either way, the join is at
/// least as high as either side, and the order of the sides changes at most
/// which of two equally high values (and so which location) is kept.
pub proof fn law_cap_join_lattice<L>(a: CapValue<L>, b: CapValue<L>, c: CapValue<L>)
    ensures
        cap_join(a, a) == a,
        cap_join(cap_join(a, b), c) == cap_join(a, cap_join(b, c)),
        cap_rank(cap_join(a, b)) >= cap_rank(a) && cap_rank(cap_join(a, b)) >= cap_rank(b),
        cap_rank(cap_join(a, b)) == cap_rank(cap_join(b, a)),
        cap_rank(a) != cap_rank(b) ==> cap_join(a, b) == cap_join(b, a),
{
}

/// Divisor values meet pessimistically: the join is the weaker side, and it
/// is idempotent, commutative and associative.
pub proof fn law_divisor_join_meet(a: DivisorValue, b: DivisorValue, c: DivisorValue)
    ensures
        divisor_join(a, a) == a,
        divisor_join(a, b) == divisor_join(b, a),
        divisor_join(divisor_join(a, b), c) == divisor_join(a, divisor_join(b, c)),
        divisor_rank(divisor_join(a, b)) <= divisor_rank(a) && divisor_rank(divisor_join(a, b)) <= divisor_rank(b),
{
}

/// Zero-check values meet pessimistically: the join is the weaker side, and
/// it is idempotent, commutative and associative.
pub proof fn law_zero_check_join_meet(a: ZeroCheckValue, b: ZeroCheckValue, c: ZeroCheckValue)
    ensures
        zero_check_join(a, a) == a,
        zero_check_join(a, b) == zero_check_join(b, a),
        zero_check_join(zero_check_join(a, b), c) == zero_check_join(a, zero_check_join(b, c)),
        zero_check_rank(zero_check_join(a, b)) <= zero_check_rank(a) && zero_check_rank(zero_check_join(a, b))
            <= zero_check_rank(b),
{
}

} // verus!
