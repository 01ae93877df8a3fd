//! Severity levels.
use vstd::prelude::*;

verus! {

/// Per-lint severity level used by diagnostics and configuration.
#[derive(Debug, Clone, Copy, PartialEq, Eq, Structural)]
pub enum LintLevel {
    Allow,
    Warn,
    Error,
}

impl Default for LintLevel {
    fn default() -> (r: Self)
        ensures
            r == LintLevel::Warn,
    {
        LintLevel::Warn
    }
}

impl LintLevel {
    /// String representation used in CLI output and config files.
    pub fn as_str(&self) -> (r: &'static str)
        ensures
            r@ == (match self {
                LintLevel::Allow => "allow"@,
                LintLevel::Warn => "warning"@,
                LintLevel::Error => "error"@,
            }),
    {
        match self {
            LintLevel::Allow => "allow",
            LintLevel::Warn => "warning",
            LintLevel::Error => "error",
        }
    }
}

} // verus!
