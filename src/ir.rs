//! Identifiers shared by the whole representation.
use vstd::prelude::*;

verus! {

/// An opaque handle of one node of the representation: an index into the
/// entity store.
#[derive(Clone, Copy, Debug, PartialEq, Eq, PartialOrd, Ord, Hash, Structural)]
pub struct Entity(pub usize);

/// An interned name: a symbol label, a record field or a module member.
#[derive(Clone, Copy, Debug, PartialEq, Eq, PartialOrd, Ord, Hash, Structural)]
pub struct Ident(pub u32);

/// A span of source text, as byte offsets, that anchors diagnostics.
#[derive(Clone, Copy, Debug, PartialEq, Eq, Hash, Structural)]
pub struct Location {
    pub start: u32,
    pub end: u32,
}

} // verus!
