//! Move Clippy: a linter for Sui Move sources.
pub mod text;
pub mod fix;
pub mod names;
pub mod annotations;
pub mod parser;
pub mod level;
pub mod diagnostics;
pub mod lint;
pub mod syntax;
pub mod order;
pub mod context;
pub mod fixer;
pub mod rules;
pub mod semantic;
pub mod engine;
pub mod cli;
pub mod config;
pub mod absint;
pub mod flow_lints;
pub mod error;
pub mod catalog;
pub mod cross_module;
pub mod laws;
