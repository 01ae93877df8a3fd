//! Cells of the generated lint reference tables.
use vstd::prelude::*;
use crate::lint::{AnalysisKind, RuleGroup};
use crate::rules::style::{replace_all, replace_str};
use crate::text::{push_str, to_owned_string};

verus! {

/// The opt-in flag of a tier, as `RuleGroup::required_flag` gives it.
pub open spec fn tier_flag(tier: RuleGroup) -> Option<Seq<char>> {
    match tier {
        RuleGroup::Stable => None,
        RuleGroup::Preview => Some("--preview"@),
        RuleGroup::Experimental => Some("--experimental"@),
        RuleGroup::Deprecated => Some("--experimental"@),
    }
}

/// What a lint needs on the command line: `--mode full` when its analysis
/// needs the compiler, then its tier's flag, separated by one space; `fast`
/// when it needs neither.
pub open spec fn requirements_text(analysis: AnalysisKind, tier: RuleGroup) -> Seq<char> {
    let full = analysis != AnalysisKind::Syntactic;
    match tier_flag(tier) {
        None => if full {
            "--mode full"@
        } else {
            "fast"@
        },
        Some(flag) => if full {
            "--mode full"@ + " "@ + flag
        } else {
            flag
        },
    }
}

/// The "Requires" cell of a lint's row.
pub fn requirements(analysis: AnalysisKind, tier: RuleGroup) -> (r: String)
    ensures
        r@ == requirements_text(analysis, tier),
{
    let full = analysis.requires_full_mode();
    let flag = tier.required_flag();
    if !full && flag.is_none() {
        return to_owned_string("fast");
    }
    let mut out = String::new();
    if full {
        push_str(&mut out, "--mode full");
    }
    if let Some(f) = flag {
        if full {
            push_str(&mut out, " ");
        }
        push_str(&mut out, f);
    }
    out
}

/// A Markdown table cell holding `s`: every `|` escaped with a backslash, every
/// newline turned into a space.
pub open spec fn md_cell(s: Seq<char>) -> Seq<char> {
    replace_all(replace_all(s, "|"@, "\\|"@), "\n"@, " "@)
}

/// Escapes `s` for use inside a Markdown table cell.
pub fn escape_md_cell(s: &str) -> (r: String)
    ensures
        r@ == md_cell(s@),
{
    proof {
        reveal_strlit("|");
        reveal_strlit("\n");
        assert("|"@.len() == 1);
        assert("\n"@.len() == 1);
    }
    let a = replace_str(s, "|", "\\|");
    replace_str(a.as_str(), "\n", " ")
}

} // verus!
