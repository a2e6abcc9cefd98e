//! A declarative template-expansion engine driven by a small configuration
//! language.
//!
//! The configuration input is a tree of [`node::Node`] values describing a
//! sequence of target declarations (build artifacts tagged with a type, a
//! source location, and an optional dependency list).  The [`target`] module
//! parses that tree into an ordered script of [`target::TargetsCollection`]
//! records.  The [`replacing`] module then expands a template tree by
//! repeating marked sub-trees once per declared target and, within such a
//! body, once per listed dependency, substituting typed placeholders.

pub mod lexer;
pub mod node;
pub mod replacing;
pub mod target;
