//! Flattens a JSON value tree into the entries of a `.properties` file.
pub mod config;
pub mod flatten;
pub mod json;
pub mod laws;
pub mod prop_key;
pub mod props;
pub mod text;
