//! Verified core of a call-graph indexer: token budgets, audit coverage,
//! content hashes, repository paths, symbol records, walk classification,
//! reference resolution and the small parsers used by the command line.

pub mod audit;
pub mod budget;
pub mod cli;
pub mod text;
pub mod report;
pub mod resolve;
pub mod index;
pub mod lang;
pub mod mcp;
pub mod num;
pub mod order;
pub mod diff;
pub mod error;
pub mod hash;
pub mod path;
pub mod query;
pub mod store;
pub mod symbol;
pub mod walk;
