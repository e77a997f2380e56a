//! A simulator for single-tape Turing machines.

pub mod decimal;
pub mod engine;
pub mod error;
pub mod format;
pub mod json;
pub mod machine;
pub mod structured;
pub mod table;
pub mod tabular;
pub mod text;
pub mod writer;
