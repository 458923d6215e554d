//! Converts a parsed YAML document into the dynamic value model of an embedding
//! host runtime, with a fixed, proved set of mapping rules.
pub mod value;
pub mod error;
pub mod bridge;
pub mod parse;
pub mod laws;
