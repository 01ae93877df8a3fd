//! Descriptors of the flow-analysis lints that run in full mode, and the
//! lookup of a lint by its diagnostic code.
use vstd::prelude::*;
use crate::lint::{AnalysisKind, FixDescriptor, FixSafety, LintCategory, LintDescriptor, RuleGroup, TypeSystemGap};
use crate::text::str_eq;

verus! {

/// How many flow-analysis lints there are.
pub open spec fn flow_count() -> int {
    6
}

/// Flow-analysis lint descriptor `k`, in listing order.
pub open spec fn flow_descriptor(k: int) -> LintDescriptor {
    if k <= 0 {
        LintDescriptor {
            name: "phantom_capability",
            category: LintCategory::Security,
            description: "Capability parameter unused or not validated - may be phantom security (type-based CFG-aware, requires --mode full --experimental)",
            group: RuleGroup::Experimental,
            fix: FixDescriptor { available: false, safety: FixSafety::Safe, description: "" },
            analysis: AnalysisKind::TypeBasedCFG,
            gap: Some(TypeSystemGap::CapabilityEscape),
        }
    } else if k == 1 {
        LintDescriptor {
            name: "unchecked_division_v2",
            category: LintCategory::Security,
            description: "Division without zero-check (type-based CFG-aware, requires --mode full --preview)",
            group: RuleGroup::Preview,
            fix: FixDescriptor { available: false, safety: FixSafety::Safe, description: "" },
            analysis: AnalysisKind::TypeBasedCFG,
            gap: Some(TypeSystemGap::ArithmeticSafety),
        }
    } else if k == 2 {
        LintDescriptor {
            name: "destroy_zero_unchecked_v2",
            category: LintCategory::Security,
            description: "destroy_zero called without verifying value is zero (CFG-aware, requires --mode full --preview)",
            group: RuleGroup::Preview,
            fix: FixDescriptor { available: false, safety: FixSafety::Safe, description: "" },
            analysis: AnalysisKind::TypeBasedCFG,
            gap: Some(TypeSystemGap::ValueFlow),
        }
    } else if k == 3 {
        LintDescriptor {
            name: "fresh_address_reuse_v2",
            category: LintCategory::Security,
            description: "fresh_object_address result used multiple times (CFG-aware, requires --mode full --preview)",
            group: RuleGroup::Preview,
            fix: FixDescriptor { available: false, safety: FixSafety::Safe, description: "" },
            analysis: AnalysisKind::TypeBasedCFG,
            gap: Some(TypeSystemGap::OwnershipViolation),
        }
    } else if k == 4 {
        LintDescriptor {
            name: "capability_escape",
            category: LintCategory::Security,
            description: "Capability object escapes to potentially unauthorized context (CFG-aware, requires --mode full --experimental)",
            group: RuleGroup::Experimental,
            fix: FixDescriptor { available: false, safety: FixSafety::Safe, description: "" },
            analysis: AnalysisKind::TypeBasedCFG,
            gap: Some(TypeSystemGap::CapabilityEscape),
        }
    } else {
        LintDescriptor {
            name: "stale_oracle_price_v3",
            category: LintCategory::Security,
            description: "Oracle price used without freshness validation (CFG-aware dataflow, requires --mode full --preview)",
            group: RuleGroup::Preview,
            fix: FixDescriptor { available: false, safety: FixSafety::Safe, description: "" },
            analysis: AnalysisKind::TypeBasedCFG,
            gap: Some(TypeSystemGap::TemporalOrdering),
        }
    }
}

fn descriptor_at(k: usize) -> (r: LintDescriptor)
    requires
        k < 6,
    ensures
        r == flow_descriptor(k as int),
{
    match k {
        0 => LintDescriptor {
            name: "phantom_capability",
            category: LintCategory::Security,
            description: "Capability parameter unused or not validated - may be phantom security (type-based CFG-aware, requires --mode full --experimental)",
            group: RuleGroup::Experimental,
            fix: FixDescriptor { available: false, safety: FixSafety::Safe, description: "" },
            analysis: AnalysisKind::TypeBasedCFG,
            gap: Some(TypeSystemGap::CapabilityEscape),
        },
        1 => LintDescriptor {
            name: "unchecked_division_v2",
            category: LintCategory::Security,
            description: "Division without zero-check (type-based CFG-aware, requires --mode full --preview)",
            group: RuleGroup::Preview,
            fix: FixDescriptor { available: false, safety: FixSafety::Safe, description: "" },
            analysis: AnalysisKind::TypeBasedCFG,
            gap: Some(TypeSystemGap::ArithmeticSafety),
        },
        2 => LintDescriptor {
            name: "destroy_zero_unchecked_v2",
            category: LintCategory::Security,
            description: "destroy_zero called without verifying value is zero (CFG-aware, requires --mode full --preview)",
            group: RuleGroup::Preview,
            fix: FixDescriptor { available: false, safety: FixSafety::Safe, description: "" },
            analysis: AnalysisKind::TypeBasedCFG,
            gap: Some(TypeSystemGap::ValueFlow),
        },
        3 => LintDescriptor {
            name: "fresh_address_reuse_v2",
            category: LintCategory::Security,
            description: "fresh_object_address result used multiple times (CFG-aware, requires --mode full --preview)",
            group: RuleGroup::Preview,
            fix: FixDescriptor { available: false, safety: FixSafety::Safe, description: "" },
            analysis: AnalysisKind::TypeBasedCFG,
            gap: Some(TypeSystemGap::OwnershipViolation),
        },
        4 => LintDescriptor {
            name: "capability_escape",
            category: LintCategory::Security,
            description: "Capability object escapes to potentially unauthorized context (CFG-aware, requires --mode full --experimental)",
            group: RuleGroup::Experimental,
            fix: FixDescriptor { available: false, safety: FixSafety::Safe, description: "" },
            analysis: AnalysisKind::TypeBasedCFG,
            gap: Some(TypeSystemGap::CapabilityEscape),
        },
        _ => LintDescriptor {
            name: "stale_oracle_price_v3",
            category: LintCategory::Security,
            description: "Oracle price used without freshness validation (CFG-aware dataflow, requires --mode full --preview)",
            group: RuleGroup::Preview,
            fix: FixDescriptor { available: false, safety: FixSafety::Safe, description: "" },
            analysis: AnalysisKind::TypeBasedCFG,
            gap: Some(TypeSystemGap::TemporalOrdering),
        },
    }
}

/// The descriptors of the flow-analysis lints, in listing order.
pub fn descriptors() -> (r: Vec<LintDescriptor>)
    ensures
        r@.len() == flow_count(),
        forall|k: int| 0 <= k < flow_count() ==> r@[k] == flow_descriptor(k),
{
    let mut r: Vec<LintDescriptor> = Vec::new();
    let mut k: usize = 0;
    while k < 6
        invariant
            k <= 6,
            r@.len() == k,
            forall|j: int| 0 <= j < k ==> r@[j] == flow_descriptor(j),
        decreases 6 - k,
    {
        r.push(descriptor_at(k));
        k = k + 1;
    }
    r
}

/// The first flow-analysis descriptor at or after `k` named `name`.
pub open spec fn find_flow_from(name: Seq<char>, k: int) -> Option<LintDescriptor>
    decreases flow_count() - k,
{
    if k < 0 || k >= flow_count() {
        None
    } else if flow_descriptor(k).name@ == name {
        Some(flow_descriptor(k))
    } else {
        find_flow_from(name, k + 1)
    }
}

/// The flow-analysis descriptor named `name`.
pub fn find_descriptor(name: &str) -> (r: Option<LintDescriptor>)
    ensures
        r == find_flow_from(name@, 0),
{
    let mut k: usize = 0;
    while k < 6
        invariant
            k <= 6,
            find_flow_from(name@, 0) == find_flow_from(name@, k as int),
        decreases 6 - k,
    {
        let d = descriptor_at(k);
        if str_eq(d.name, name) {
            return Some(d);
        }
        k = k + 1;
    }
    None
}

proof fn lemma_find_flow_from(name: Seq<char>, k: int)
    requires
        0 <= k <= flow_count(),
    ensures
        (find_flow_from(name, k) is Some) == exists|j: int| k <= j < flow_count() && (#[trigger] flow_descriptor(j)).name@ == name,
        find_flow_from(name, k) matches Some(d) ==> d.name@ == name && exists|j: int| k <= j < flow_count() && #[trigger] flow_descriptor(j) == d,
    decreases flow_count() - k,
{
    if k < flow_count() {
        lemma_find_flow_from(name, k + 1);
        if flow_descriptor(k).name@ == name {
            assert(k <= k < flow_count() && flow_descriptor(k).name@ == name);
        } else {
            assert forall|j: int| k <= j < flow_count() && (#[trigger] flow_descriptor(j)).name@ == name implies k + 1 <= j by {}
        }
    }
}

/// `find_descriptor` finds a flow-analysis descriptor exactly when one of
/// that name is listed by `descriptors`, and what it finds is a listed
/// descriptor of that name.
pub proof fn law_find_flow_descriptor_lists(name: Seq<char>)
    ensures
        (find_flow_from(name, 0) is Some) == exists|j: int| 0 <= j < flow_count() && (#[trigger] flow_descriptor(j)).name@ == name,
        find_flow_from(name, 0) matches Some(d) ==> d.name@ == name && exists|j: int| 0 <= j < flow_count() && #[trigger] flow_descriptor(j) == d,
{
    lemma_find_flow_from(name, 0);
}

/// The listing position of the lint that reports diagnostic code `code`:
/// an unused and an unvalidated capability both report `phantom_capability`;
/// code 6 is no longer used.
pub open spec fn diag_code_position(code: u8) -> Option<int> {
    if code == 1 || code == 3 {
        Some(0)
    } else if code == 2 {
        Some(1)
    } else if code == 4 {
        Some(2)
    } else if code == 5 {
        Some(3)
    } else if code == 7 {
        Some(4)
    } else if code == 8 {
        Some(5)
    } else {
        None
    }
}

/// The descriptor of the lint that reports diagnostic code `code`.
pub fn descriptor_for_diag_code(code: u8) -> (r: Option<LintDescriptor>)
    ensures
        r == (match diag_code_position(code) {
            Some(k) => Some(flow_descriptor(k)),
            None => None,
        }),
{
    match code {
        1 | 3 => Some(descriptor_at(0)),
        2 => Some(descriptor_at(1)),
        4 => Some(descriptor_at(2)),
        5 => Some(descriptor_at(3)),
        7 => Some(descriptor_at(4)),
        8 => Some(descriptor_at(5)),
        _ => None,
    }
}

} // verus!
