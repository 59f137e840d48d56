//! Normalizes a concrete syntax tree (CST) of the pywire template language
//! into a typed document model: a list of directives, the frontmatter source,
//! and a tree of template nodes.
//!
//! The CST itself is produced by an external grammar and is modelled here as
//! the plain data type [`cst::CstNode`]: a kind from a fixed vocabulary, an
//! optional field label, character offsets into the source, a start position,
//! and child nodes in source order.

use vstd::prelude::*;

pub mod attrs;
pub mod block;
pub mod chars;
pub mod cst;
pub mod directive;
pub mod document;
pub mod node;
pub mod text;

verus! {

/// Version tag of the document model produced by this crate.
pub fn version() -> (r: &'static str)
    ensures
        r@ == "0.2.0-unified-v2"@,
{
    "0.2.0-unified-v2"
}

} // verus!
