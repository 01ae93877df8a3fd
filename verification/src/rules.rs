//! The syntactic lint rules, and the string helpers they share.
pub mod util;
pub mod patterns;
pub mod modernization;
pub mod style;
pub mod conventions;
pub mod test_quality;
pub mod security;
