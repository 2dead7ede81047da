//! A dependency-boundary linter for code organised into nested namespaces.
//!
//! A scan yields a corpus of namespace definitions and references. A box is a
//! directory with allow-lists of what may cross its edge; enforcement finds the
//! references that cross without permission, and the generator derives the
//! smallest allow-lists that would permit them.

pub mod corpus;
pub mod generator;
pub mod matching;
pub mod namespace;
pub mod parser;
pub mod ruby_box;
