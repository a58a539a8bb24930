//! The languages the library reads.

pub mod rust;
pub mod python;
pub mod typescript;
pub mod javascript;
pub mod tsx;
