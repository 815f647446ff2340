//! Schema-driven validation for tagged configuration trees.
//!
//! A document is a tree of tagged, position-annotated nodes ([`ast::Ast`]).
//! A schema is a tree of validator nodes ([`validate::Schema`]); each node
//! both checks and coerces an input tree and can synthesize a conforming
//! default when input is absent.  Violations are accumulated in an
//! [`errors::ErrorCollector`] so that one pass surfaces every independent
//! problem; validation always returns a structurally usable tree.

pub mod ast;
pub mod text;
pub mod numerals;
pub mod errors;
pub mod validate;
pub mod laws;
pub mod options;

pub use errors::{Error, ErrorCollector, ErrorList};
pub use ast::Pos;
pub use options::{Options, Embed, DoEmbed};
