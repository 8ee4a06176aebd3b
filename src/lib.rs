//! Clipping of digital-logic simulation traces.
//!
//! A trace is a hierarchy of scopes, variables and attributes together with a
//! stream of timestamped value changes. This library selects a subset of the
//! variables and a time window of a trace and writes the result into a new
//! trace, keeping the hierarchy balanced, sharing the output identifiers of
//! aliased variables, and carrying the values in effect at the start of the
//! window into its first time step.
//!
//! It also holds the value matching used to search a trace for a value, and
//! the naming of the trace's numeric codes used to list its contents.
pub mod types;
pub mod error;
pub mod writer;
pub mod filter;
pub mod hiers;
pub mod vcd;
pub mod clip;
pub mod laws;
pub mod vars;
pub mod text;
pub mod info;
pub mod matcher;
pub mod checker;
pub mod find;
pub mod search;
