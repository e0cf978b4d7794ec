//! Compiles a terse, indentation-sensitive markup into an HTML element tree.
//!
//! Every line of the input describes one element by a short header (tag
//! name, `#id`, `.class` list, `(key="value", ...)` attribute list, inline
//! text); the number of leading tabs gives its nesting level.

pub mod diagnostics;
pub mod document;
pub mod header;
pub mod invariants;
pub mod machine;
pub mod model;
pub mod nesting;
pub mod parser;
pub mod render;
pub mod source;
pub mod tags;
pub mod text;
pub mod trace;
pub mod tree;
