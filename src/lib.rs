//! Parsing of `key | value` configuration lines.
//!
//! A line holds a key and a value separated by the first `|`; everything from
//! the first `#` on is a comment. Leading and trailing spaces of key and value
//! are dropped and each run of spaces inside them becomes a single space.
//! A line whose key is empty yields no pair.

pub mod model;
pub mod parse;
pub mod laws;

pub use model::Step;
pub use parse::parse_line;
