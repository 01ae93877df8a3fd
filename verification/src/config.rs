//! The contents of `move-clippy.toml`, as plain values.
use vstd::prelude::*;
use crate::level::LintLevel;

verus! {

/// The configuration file's name, searched for from the linted directory up.
pub const DEFAULT_CONFIG_FILE_NAME: &'static str = "move-clippy.toml";

/// The whole configuration.
#[derive(Debug)]
pub struct MoveClippyConfig {
    pub lints: LintsConfig,
}

/// The `[lints]` section.
#[derive(Debug)]
pub struct LintsConfig {
    /// Lints treated as disabled.
    pub disabled: Vec<String>,
    /// Enable preview rules.
    pub preview: bool,
    /// Apply unsafe fixes with `--fix`.
    pub unsafe_fixes: bool,
    /// Explicit per-lint levels.
    pub levels: Vec<(String, LintLevel)>,
}

impl Default for LintsConfig {
    /// No disabled lints, no preview, no unsafe fixes, no levels.
    fn default() -> (r: Self)
        ensures
            r.disabled@.len() == 0,
            !r.preview,
            !r.unsafe_fixes,
            r.levels@.len() == 0,
    {
        LintsConfig { disabled: Vec::new(), preview: false, unsafe_fixes: false, levels: Vec::new() }
    }
}

impl Default for MoveClippyConfig {
    /// The configuration of an empty file.
    fn default() -> (r: Self)
        ensures
            r.lints.disabled@.len() == 0,
            !r.lints.preview,
            !r.lints.unsafe_fixes,
            r.lints.levels@.len() == 0,
    {
        MoveClippyConfig { lints: LintsConfig::default() }
    }
}

} // verus!
