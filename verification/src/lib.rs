//! Rendering of an in-memory XML document tree to text.
//!
//! A [`document::Document`] is an arena of nodes addressed by opaque
//! [`document::NodeKey`]s, with element attributes stored out of line in
//! insertion-ordered maps. The printer walks the tree under a
//! [`config::Config`] and produces compact or pretty-printed markup with
//! entity escaping; its output is pinned down, character for character, by
//! specification functions that the executable code is proved against.

pub mod attrs;
pub mod config;
pub mod document;
pub mod entities;
pub mod printer;
