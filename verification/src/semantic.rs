//! Descriptors of the lints that need the Move compiler's type information.
//!
//! Those lints run only in full mode; this build checks syntax alone, so it
//! knows their descriptors (for configuration and listings) but cannot run them.
use vstd::prelude::*;
use crate::diagnostics::Diagnostic;
use crate::lint::{
    AnalysisKind, FixDescriptor, FixSafety, LintCategory, LintDescriptor, LintSettings, RuleGroup,
    TypeSystemGap,
};
use crate::text::{str_eq, to_owned_string};

verus! {

/// Number of type-based lint descriptors.
pub open spec fn semantic_count() -> int {
    25
}

/// Type-based lint descriptor `k`.
pub open spec fn semantic_descriptor(k: int) -> LintDescriptor {
    if k <= 0 {
        LintDescriptor {
            name: "share_owned",
            category: LintCategory::Suspicious,
            description: "[Sui Linter] Possible owned object share (from sui_mode::linters)",
            group: RuleGroup::Stable,
            fix: FixDescriptor { available: false, safety: FixSafety::Safe, description: "" },
            analysis: AnalysisKind::TypeBased,
            gap: Some(TypeSystemGap::OwnershipViolation),
        }
    } else if k == 1 {
        LintDescriptor {
            name: "self_transfer",
            category: LintCategory::Suspicious,
            description: "[Sui Linter] Transferring object to self - consider returning instead (from sui_mode::linters)",
            group: RuleGroup::Stable,
            fix: FixDescriptor { available: false, safety: FixSafety::Safe, description: "" },
            analysis: AnalysisKind::TypeBased,
            gap: Some(TypeSystemGap::OwnershipViolation),
        }
    } else if k == 2 {
        LintDescriptor {
            name: "custom_state_change",
            category: LintCategory::Suspicious,
            description: "[Sui Linter] Custom transfer/share/freeze should call private variants (from sui_mode::linters)",
            group: RuleGroup::Stable,
            fix: FixDescriptor { available: false, safety: FixSafety::Safe, description: "" },
            analysis: AnalysisKind::TypeBased,
            gap: Some(TypeSystemGap::ApiMisuse),
        }
    } else if k == 3 {
        LintDescriptor {
            name: "coin_field",
            category: LintCategory::Suspicious,
            description: "[Sui Linter] Use Balance instead of Coin in struct fields (from sui_mode::linters)",
            group: RuleGroup::Stable,
            fix: FixDescriptor { available: false, safety: FixSafety::Safe, description: "" },
            analysis: AnalysisKind::TypeBased,
            gap: Some(TypeSystemGap::ApiMisuse),
        }
    } else if k == 4 {
        LintDescriptor {
            name: "freeze_wrapped",
            category: LintCategory::Suspicious,
            description: "[Sui Linter] Do not freeze objects containing wrapped objects (from sui_mode::linters)",
            group: RuleGroup::Stable,
            fix: FixDescriptor { available: false, safety: FixSafety::Safe, description: "" },
            analysis: AnalysisKind::TypeBased,
            gap: Some(TypeSystemGap::OwnershipViolation),
        }
    } else if k == 5 {
        LintDescriptor {
            name: "collection_equality",
            category: LintCategory::Suspicious,
            description: "[Sui Linter] Avoid equality checks on collections (from sui_mode::linters)",
            group: RuleGroup::Stable,
            fix: FixDescriptor { available: false, safety: FixSafety::Safe, description: "" },
            analysis: AnalysisKind::TypeBased,
            gap: Some(TypeSystemGap::ApiMisuse),
        }
    } else if k == 6 {
        LintDescriptor {
            name: "public_random",
            category: LintCategory::Suspicious,
            description: "[Sui Linter] Random state should remain private (from sui_mode::linters)",
            group: RuleGroup::Stable,
            fix: FixDescriptor { available: false, safety: FixSafety::Safe, description: "" },
            analysis: AnalysisKind::TypeBased,
            gap: Some(TypeSystemGap::ApiMisuse),
        }
    } else if k == 7 {
        LintDescriptor {
            name: "missing_key",
            category: LintCategory::Suspicious,
            description: "[Sui Linter] Shared/transferred object missing key ability (from sui_mode::linters)",
            group: RuleGroup::Stable,
            fix: FixDescriptor { available: false, safety: FixSafety::Safe, description: "" },
            analysis: AnalysisKind::TypeBased,
            gap: Some(TypeSystemGap::AbilityMismatch),
        }
    } else if k == 8 {
        LintDescriptor {
            name: "freezing_capability",
            category: LintCategory::Suspicious,
            description: "[Sui Linter] Avoid freezing capability objects (from sui_mode::linters)",
            group: RuleGroup::Stable,
            fix: FixDescriptor { available: false, safety: FixSafety::Safe, description: "" },
            analysis: AnalysisKind::TypeBased,
            gap: Some(TypeSystemGap::OwnershipViolation),
        }
    } else if k == 9 {
        LintDescriptor {
            name: "event_emit_type_sanity",
            category: LintCategory::Security,
            description: "Emitting non-event-like type via event::emit (type-based, requires --mode full)",
            group: RuleGroup::Stable,
            fix: FixDescriptor { available: false, safety: FixSafety::Safe, description: "" },
            analysis: AnalysisKind::TypeBased,
            gap: Some(TypeSystemGap::ApiMisuse),
        }
    } else if k == 10 {
        LintDescriptor {
            name: "entry_function_returns_value",
            category: LintCategory::Suspicious,
            description: "Entry function returns a value that will be discarded by the runtime (type-based)",
            group: RuleGroup::Stable,
            fix: FixDescriptor { available: false, safety: FixSafety::Safe, description: "" },
            analysis: AnalysisKind::TypeBased,
            gap: Some(TypeSystemGap::ValueFlow),
        }
    } else if k == 11 {
        LintDescriptor {
            name: "private_entry_function",
            category: LintCategory::Suspicious,
            description: "Private entry function is unreachable - remove `entry` or make it public (type-based)",
            group: RuleGroup::Stable,
            fix: FixDescriptor { available: false, safety: FixSafety::Safe, description: "" },
            analysis: AnalysisKind::TypeBased,
            gap: None,
        }
    } else if k == 12 {
        LintDescriptor {
            name: "share_owned_authority",
            category: LintCategory::Security,
            description: "Sharing key+store object makes it publicly accessible - dangerous for authority objects (type-based)",
            group: RuleGroup::Stable,
            fix: FixDescriptor { available: false, safety: FixSafety::Safe, description: "" },
            analysis: AnalysisKind::TypeBased,
            gap: Some(TypeSystemGap::OwnershipViolation),
        }
    } else if k == 13 {
        LintDescriptor {
            name: "copyable_capability",
            category: LintCategory::Security,
            description: "Struct is key+store+copy - transferable authority/asset can be duplicated (type-based, zero FP)",
            group: RuleGroup::Stable,
            fix: FixDescriptor { available: false, safety: FixSafety::Safe, description: "" },
            analysis: AnalysisKind::TypeBased,
            gap: Some(TypeSystemGap::AbilityMismatch),
        }
    } else if k == 14 {
        LintDescriptor {
            name: "droppable_capability",
            category: LintCategory::Security,
            description: "Struct is key+store+drop (and not copy) - transferable authority/asset can be silently discarded (type-based, zero FP)",
            group: RuleGroup::Stable,
            fix: FixDescriptor { available: false, safety: FixSafety::Safe, description: "" },
            analysis: AnalysisKind::TypeBased,
            gap: Some(TypeSystemGap::AbilityMismatch),
        }
    } else if k == 15 {
        LintDescriptor {
            name: "non_transferable_fungible_object",
            category: LintCategory::Security,
            description: "Struct is key without store but has copy/drop - incoherent non-transferable fungible object (type-based, zero FP)",
            group: RuleGroup::Stable,
            fix: FixDescriptor { available: false, safety: FixSafety::Safe, description: "" },
            analysis: AnalysisKind::TypeBased,
            gap: Some(TypeSystemGap::AbilityMismatch),
        }
    } else if k == 16 {
        LintDescriptor {
            name: "public_random_access_v2",
            category: LintCategory::Security,
            description: "Public function exposes sui::random::Random object - enables front-running (type-based, requires --mode full)",
            group: RuleGroup::Stable,
            fix: FixDescriptor { available: false, safety: FixSafety::Safe, description: "" },
            analysis: AnalysisKind::TypeBased,
            gap: Some(TypeSystemGap::ApiMisuse),
        }
    } else if k == 17 {
        LintDescriptor {
            name: "shared_capability_object",
            category: LintCategory::Security,
            description: "Capability-like object is shared - potential authorization leak (type-based, preview)",
            group: RuleGroup::Preview,
            fix: FixDescriptor { available: false, safety: FixSafety::Safe, description: "" },
            analysis: AnalysisKind::TypeBased,
            gap: Some(TypeSystemGap::CapabilityEscape),
        }
    } else if k == 18 {
        LintDescriptor {
            name: "unused_return_value",
            category: LintCategory::Security,
            description: "Important return value is ignored, may indicate bug (type-based)",
            group: RuleGroup::Stable,
            fix: FixDescriptor { available: false, safety: FixSafety::Safe, description: "" },
            analysis: AnalysisKind::TypeBased,
            gap: Some(TypeSystemGap::ApiMisuse),
        }
    } else if k == 19 {
        LintDescriptor {
            name: "droppable_hot_potato_v2",
            category: LintCategory::Security,
            description: "Struct has only `drop` ability - likely a broken hot potato (type-based, zero FP)",
            group: RuleGroup::Stable,
            fix: FixDescriptor { available: false, safety: FixSafety::Safe, description: "" },
            analysis: AnalysisKind::TypeBased,
            gap: Some(TypeSystemGap::ApiMisuse),
        }
    } else if k == 20 {
        LintDescriptor {
            name: "capability_transfer_literal_address",
            category: LintCategory::Security,
            description: "Capability-like object transferred to a literal address - likely authorization leak (type-based, preview)",
            group: RuleGroup::Preview,
            fix: FixDescriptor { available: false, safety: FixSafety::Safe, description: "" },
            analysis: AnalysisKind::TypeBased,
            gap: Some(TypeSystemGap::CapabilityEscape),
        }
    } else if k == 21 {
        LintDescriptor {
            name: "mut_key_param_missing_authority",
            category: LintCategory::Security,
            description: "Public entry takes &mut key object without explicit authority param (type-based, preview)",
            group: RuleGroup::Preview,
            fix: FixDescriptor { available: false, safety: FixSafety::Safe, description: "" },
            analysis: AnalysisKind::TypeBased,
            gap: Some(TypeSystemGap::CapabilityEscape),
        }
    } else if k == 22 {
        LintDescriptor {
            name: "unbounded_iteration_over_param_vector",
            category: LintCategory::Security,
            description: "Loop bound depends on vector parameter length - add explicit bound (type-based, preview)",
            group: RuleGroup::Preview,
            fix: FixDescriptor { available: false, safety: FixSafety::Safe, description: "" },
            analysis: AnalysisKind::TypeBased,
            gap: Some(TypeSystemGap::ResourceExhaustion),
        }
    } else if k == 23 {
        LintDescriptor {
            name: "capability_transfer_v2",
            category: LintCategory::Security,
            description: "Capability transferred to non-sender address (type-based, requires --mode full --experimental)",
            group: RuleGroup::Experimental,
            fix: FixDescriptor { available: false, safety: FixSafety::Safe, description: "" },
            analysis: AnalysisKind::TypeBased,
            gap: Some(TypeSystemGap::OwnershipViolation),
        }
    } else if k == 24 {
        LintDescriptor {
            name: "generic_type_witness_unused",
            category: LintCategory::Security,
            description: "Generic function takes TypeName witness but never uses it (type-based, experimental)",
            group: RuleGroup::Experimental,
            fix: FixDescriptor { available: false, safety: FixSafety::Safe, description: "" },
            analysis: AnalysisKind::TypeBased,
            gap: Some(TypeSystemGap::TypeConfusion),
        }
    } else {
        LintDescriptor {
            name: "share_owned",
            category: LintCategory::Suspicious,
            description: "[Sui Linter] Possible owned object share (from sui_mode::linters)",
            group: RuleGroup::Stable,
            fix: FixDescriptor { available: false, safety: FixSafety::Safe, description: "" },
            analysis: AnalysisKind::TypeBased,
            gap: Some(TypeSystemGap::OwnershipViolation),
        }
    }
}

fn descriptor_at(k: usize) -> (r: LintDescriptor)
    requires
        k < 25,
    ensures
        r == semantic_descriptor(k as int),
{
    match k {
        0 => LintDescriptor {
            name: "share_owned",
            category: LintCategory::Suspicious,
            description: "[Sui Linter] Possible owned object share (from sui_mode::linters)",
            group: RuleGroup::Stable,
            fix: FixDescriptor { available: false, safety: FixSafety::Safe, description: "" },
            analysis: AnalysisKind::TypeBased,
            gap: Some(TypeSystemGap::OwnershipViolation),
        },
        1 => LintDescriptor {
            name: "self_transfer",
            category: LintCategory::Suspicious,
            description: "[Sui Linter] Transferring object to self - consider returning instead (from sui_mode::linters)",
            group: RuleGroup::Stable,
            fix: FixDescriptor { available: false, safety: FixSafety::Safe, description: "" },
            analysis: AnalysisKind::TypeBased,
            gap: Some(TypeSystemGap::OwnershipViolation),
        },
        2 => LintDescriptor {
            name: "custom_state_change",
            category: LintCategory::Suspicious,
            description: "[Sui Linter] Custom transfer/share/freeze should call private variants (from sui_mode::linters)",
            group: RuleGroup::Stable,
            fix: FixDescriptor { available: false, safety: FixSafety::Safe, description: "" },
            analysis: AnalysisKind::TypeBased,
            gap: Some(TypeSystemGap::ApiMisuse),
        },
        3 => LintDescriptor {
            name: "coin_field",
            category: LintCategory::Suspicious,
            description: "[Sui Linter] Use Balance instead of Coin in struct fields (from sui_mode::linters)",
            group: RuleGroup::Stable,
            fix: FixDescriptor { available: false, safety: FixSafety::Safe, description: "" },
            analysis: AnalysisKind::TypeBased,
            gap: Some(TypeSystemGap::ApiMisuse),
        },
        4 => LintDescriptor {
            name: "freeze_wrapped",
            category: LintCategory::Suspicious,
            description: "[Sui Linter] Do not freeze objects containing wrapped objects (from sui_mode::linters)",
            group: RuleGroup::Stable,
            fix: FixDescriptor { available: false, safety: FixSafety::Safe, description: "" },
            analysis: AnalysisKind::TypeBased,
            gap: Some(TypeSystemGap::OwnershipViolation),
        },
        5 => LintDescriptor {
            name: "collection_equality",
            category: LintCategory::Suspicious,
            description: "[Sui Linter] Avoid equality checks on collections (from sui_mode::linters)",
            group: RuleGroup::Stable,
            fix: FixDescriptor { available: false, safety: FixSafety::Safe, description: "" },
            analysis: AnalysisKind::TypeBased,
            gap: Some(TypeSystemGap::ApiMisuse),
        },
        6 => LintDescriptor {
            name: "public_random",
            category: LintCategory::Suspicious,
            description: "[Sui Linter] Random state should remain private (from sui_mode::linters)",
            group: RuleGroup::Stable,
            fix: FixDescriptor { available: false, safety: FixSafety::Safe, description: "" },
            analysis: AnalysisKind::TypeBased,
            gap: Some(TypeSystemGap::ApiMisuse),
        },
        7 => LintDescriptor {
            name: "missing_key",
            category: LintCategory::Suspicious,
            description: "[Sui Linter] Shared/transferred object missing key ability (from sui_mode::linters)",
            group: RuleGroup::Stable,
            fix: FixDescriptor { available: false, safety: FixSafety::Safe, description: "" },
            analysis: AnalysisKind::TypeBased,
            gap: Some(TypeSystemGap::AbilityMismatch),
        },
        8 => LintDescriptor {
            name: "freezing_capability",
            category: LintCategory::Suspicious,
            description: "[Sui Linter] Avoid freezing capability objects (from sui_mode::linters)",
            group: RuleGroup::Stable,
            fix: FixDescriptor { available: false, safety: FixSafety::Safe, description: "" },
            analysis: AnalysisKind::TypeBased,
            gap: Some(TypeSystemGap::OwnershipViolation),
        },
        9 => LintDescriptor {
            name: "event_emit_type_sanity",
            category: LintCategory::Security,
            description: "Emitting non-event-like type via event::emit (type-based, requires --mode full)",
            group: RuleGroup::Stable,
            fix: FixDescriptor { available: false, safety: FixSafety::Safe, description: "" },
            analysis: AnalysisKind::TypeBased,
            gap: Some(TypeSystemGap::ApiMisuse),
        },
        10 => LintDescriptor {
            name: "entry_function_returns_value",
            category: LintCategory::Suspicious,
            description: "Entry function returns a value that will be discarded by the runtime (type-based)",
            group: RuleGroup::Stable,
            fix: FixDescriptor { available: false, safety: FixSafety::Safe, description: "" },
            analysis: AnalysisKind::TypeBased,
            gap: Some(TypeSystemGap::ValueFlow),
        },
        11 => LintDescriptor {
            name: "private_entry_function",
            category: LintCategory::Suspicious,
            description: "Private entry function is unreachable - remove `entry` or make it public (type-based)",
            group: RuleGroup::Stable,
            fix: FixDescriptor { available: false, safety: FixSafety::Safe, description: "" },
            analysis: AnalysisKind::TypeBased,
            gap: None,
        },
        12 => LintDescriptor {
            name: "share_owned_authority",
            category: LintCategory::Security,
            description: "Sharing key+store object makes it publicly accessible - dangerous for authority objects (type-based)",
            group: RuleGroup::Stable,
            fix: FixDescriptor { available: false, safety: FixSafety::Safe, description: "" },
            analysis: AnalysisKind::TypeBased,
            gap: Some(TypeSystemGap::OwnershipViolation),
        },
        13 => LintDescriptor {
            name: "copyable_capability",
            category: LintCategory::Security,
            description: "Struct is key+store+copy - transferable authority/asset can be duplicated (type-based, zero FP)",
            group: RuleGroup::Stable,
            fix: FixDescriptor { available: false, safety: FixSafety::Safe, description: "" },
            analysis: AnalysisKind::TypeBased,
            gap: Some(TypeSystemGap::AbilityMismatch),
        },
        14 => LintDescriptor {
            name: "droppable_capability",
            category: LintCategory::Security,
            description: "Struct is key+store+drop (and not copy) - transferable authority/asset can be silently discarded (type-based, zero FP)",
            group: RuleGroup::Stable,
            fix: FixDescriptor { available: false, safety: FixSafety::Safe, description: "" },
            analysis: AnalysisKind::TypeBased,
            gap: Some(TypeSystemGap::AbilityMismatch),
        },
        15 => LintDescriptor {
            name: "non_transferable_fungible_object",
            category: LintCategory::Security,
            description: "Struct is key without store but has copy/drop - incoherent non-transferable fungible object (type-based, zero FP)",
            group: RuleGroup::Stable,
            fix: FixDescriptor { available: false, safety: FixSafety::Safe, description: "" },
            analysis: AnalysisKind::TypeBased,
            gap: Some(TypeSystemGap::AbilityMismatch),
        },
        16 => LintDescriptor {
            name: "public_random_access_v2",
            category: LintCategory::Security,
            description: "Public function exposes sui::random::Random object - enables front-running (type-based, requires --mode full)",
            group: RuleGroup::Stable,
            fix: FixDescriptor { available: false, safety: FixSafety::Safe, description: "" },
            analysis: AnalysisKind::TypeBased,
            gap: Some(TypeSystemGap::ApiMisuse),
        },
        17 => LintDescriptor {
            name: "shared_capability_object",
            category: LintCategory::Security,
            description: "Capability-like object is shared - potential authorization leak (type-based, preview)",
            group: RuleGroup::Preview,
            fix: FixDescriptor { available: false, safety: FixSafety::Safe, description: "" },
            analysis: AnalysisKind::TypeBased,
            gap: Some(TypeSystemGap::CapabilityEscape),
        },
        18 => LintDescriptor {
            name: "unused_return_value",
            category: LintCategory::Security,
            description: "Important return value is ignored, may indicate bug (type-based)",
            group: RuleGroup::Stable,
            fix: FixDescriptor { available: false, safety: FixSafety::Safe, description: "" },
            analysis: AnalysisKind::TypeBased,
            gap: Some(TypeSystemGap::ApiMisuse),
        },
        19 => LintDescriptor {
            name: "droppable_hot_potato_v2",
            category: LintCategory::Security,
            description: "Struct has only `drop` ability - likely a broken hot potato (type-based, zero FP)",
            group: RuleGroup::Stable,
            fix: FixDescriptor { available: false, safety: FixSafety::Safe, description: "" },
            analysis: AnalysisKind::TypeBased,
            gap: Some(TypeSystemGap::ApiMisuse),
        },
        20 => LintDescriptor {
            name: "capability_transfer_literal_address",
            category: LintCategory::Security,
            description: "Capability-like object transferred to a literal address - likely authorization leak (type-based, preview)",
            group: RuleGroup::Preview,
            fix: FixDescriptor { available: false, safety: FixSafety::Safe, description: "" },
            analysis: AnalysisKind::TypeBased,
            gap: Some(TypeSystemGap::CapabilityEscape),
        },
        21 => LintDescriptor {
            name: "mut_key_param_missing_authority",
            category: LintCategory::Security,
            description: "Public entry takes &mut key object without explicit authority param (type-based, preview)",
            group: RuleGroup::Preview,
            fix: FixDescriptor { available: false, safety: FixSafety::Safe, description: "" },
            analysis: AnalysisKind::TypeBased,
            gap: Some(TypeSystemGap::CapabilityEscape),
        },
        22 => LintDescriptor {
            name: "unbounded_iteration_over_param_vector",
            category: LintCategory::Security,
            description: "Loop bound depends on vector parameter length - add explicit bound (type-based, preview)",
            group: RuleGroup::Preview,
            fix: FixDescriptor { available: false, safety: FixSafety::Safe, description: "" },
            analysis: AnalysisKind::TypeBased,
            gap: Some(TypeSystemGap::ResourceExhaustion),
        },
        23 => LintDescriptor {
            name: "capability_transfer_v2",
            category: LintCategory::Security,
            description: "Capability transferred to non-sender address (type-based, requires --mode full --experimental)",
            group: RuleGroup::Experimental,
            fix: FixDescriptor { available: false, safety: FixSafety::Safe, description: "" },
            analysis: AnalysisKind::TypeBased,
            gap: Some(TypeSystemGap::OwnershipViolation),
        },
        24 => LintDescriptor {
            name: "generic_type_witness_unused",
            category: LintCategory::Security,
            description: "Generic function takes TypeName witness but never uses it (type-based, experimental)",
            group: RuleGroup::Experimental,
            fix: FixDescriptor { available: false, safety: FixSafety::Safe, description: "" },
            analysis: AnalysisKind::TypeBased,
            gap: Some(TypeSystemGap::TypeConfusion),
        },
        _ => LintDescriptor {
            name: "share_owned",
            category: LintCategory::Suspicious,
            description: "[Sui Linter] Possible owned object share (from sui_mode::linters)",
            group: RuleGroup::Stable,
            fix: FixDescriptor { available: false, safety: FixSafety::Safe, description: "" },
            analysis: AnalysisKind::TypeBased,
            gap: Some(TypeSystemGap::OwnershipViolation),
        },
    }
}

/// The descriptors of the type-based lints, in listing order.
pub fn descriptors() -> (r: Vec<LintDescriptor>)
    ensures
        r@.len() == semantic_count(),
        forall|k: int| 0 <= k < semantic_count() ==> r@[k] == semantic_descriptor(k),
{
    let mut r: Vec<LintDescriptor> = Vec::new();
    let mut k: usize = 0;
    while k < 25
        invariant
            k <= 25,
            r@.len() == k,
            forall|j: int| 0 <= j < k ==> r@[j] == semantic_descriptor(j),
        decreases 25 - k,
    {
        r.push(descriptor_at(k));
        k = k + 1;
    }
    r
}

/// The first type-based descriptor at or after `k` named `name`.
pub open spec fn find_semantic_from(name: Seq<char>, k: int) -> Option<LintDescriptor>
    decreases semantic_count() - k,
{
    if k < 0 || k >= semantic_count() {
        None
    } else if semantic_descriptor(k).name@ == name {
        Some(semantic_descriptor(k))
    } else {
        find_semantic_from(name, k + 1)
    }
}

/// The type-based descriptor named `name`.
pub fn find_descriptor(name: &str) -> (r: Option<LintDescriptor>)
    ensures
        r == find_semantic_from(name@, 0),
{
    let mut k: usize = 0;
    while k < 25
        invariant
            k <= 25,
            find_semantic_from(name@, 0) == find_semantic_from(name@, k as int),
        decreases 25 - k,
    {
        let d = descriptor_at(k);
        if str_eq(d.name, name) {
            return Some(d);
        }
        k = k + 1;
    }
    None
}

/// Why type-based linting could not run.
#[derive(Debug)]
pub enum SemanticError {
    /// Type-based lints need the Move compiler, which this build does not include.
    FullModeUnavailable(String),
}

/// Runs the type-based lints on a package. This build has no Move compiler,
/// so it always answers that full mode is unavailable.
pub fn lint_package(
    package_path: &str,
    settings: &LintSettings,
    preview: bool,
    experimental: bool,
) -> (r: Result<Vec<Diagnostic>, SemanticError>)
    ensures
        r matches Err(SemanticError::FullModeUnavailable(m)) && m@
            == "full mode requires building with --features full"@,
{
    Err(SemanticError::FullModeUnavailable(to_owned_string("full mode requires building with --features full")))
}

} // verus!
