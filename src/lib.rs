//! Conversion of a small markdown-like syntax into standalone HTML documents.
//!
//! The text is handled line by line: every rule of the pipeline rewrites a
//! single line, and the title pre-pass picks (and blanks) at most one line.
pub mod text;
pub mod rules;
pub mod pipeline;
pub mod source;
pub mod server;
pub mod laws;
