//! Composition engine for a small e-paper environmental dashboard: readings
//! are normalised from untyped documents, laid out on a fixed canvas and
//! turned into a list of draw operations.

pub mod number;
pub mod document;
pub mod layout;
pub mod readings;
pub mod schedule;
