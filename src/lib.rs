//! A line-oriented text search library: it resolves path arguments into
//! sources, selects the lines of a source that a pattern accepts, and shapes
//! what is printed for each source.
pub mod lines;
pub mod matcher;
pub mod output;
pub mod resolve;
