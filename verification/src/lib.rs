//! A verified interpreter front end for a small expression scripting language:
//! bracket-aware string splitting, a precedence-ordered recursive-descent
//! parser that turns a normalized script into an expression tree, and a
//! session cache that maps raw scripts to their compiled trees.
//!
//! Numeric evaluation of the trees uses floating point and therefore lives
//! with the host, outside this library; literals are carried as their text.
pub mod ast;
pub mod laws;
pub mod parser;
pub mod session;
pub mod splitter;
pub mod text;

pub use parser::is_string_number;
pub use parser::parse_string_slice;
pub use parser::to_variable_name;
pub use splitter::can_trim_brackets;
pub use splitter::split_string;
pub use splitter::split_string_multiple;
pub use splitter::split_string_reverse;
pub use splitter::trim_brackets;

pub use session::create_expression_tree;
pub use session::ParseCache;
pub use session::ScriptOutcome;

pub use text::normalize;
pub use text::subvec;
pub use text::text_eq;
