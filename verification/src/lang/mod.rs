//! Per-language extraction of symbols, references and imports from syntax
//! trees.

pub mod common;
pub mod extract;
pub mod langs;
pub mod registry;
pub mod support;
pub mod syntax;
pub mod ts;
