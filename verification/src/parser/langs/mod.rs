//! The languages the query-driven parser is configured for.

pub mod bash;
pub mod go;
pub mod haskell;
pub mod java;
pub mod julia;
pub mod python;
pub mod rust;
pub mod kotlin;
pub mod scala;
pub mod typescript;
