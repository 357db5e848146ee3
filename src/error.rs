//! Failures of the inference phase as a whole.  Type mismatches are not
//! among them: those are `Conflict` types, stored on the entities.
use vstd::prelude::*;

use crate::ir::Entity;

verus! {

#[derive(Clone, Copy, Debug, PartialEq, Eq, Structural)]
pub enum Error {
    /// An element applies an operator that has no typing rule.
    NotImplemented,
    /// The entity's type could not be inferred: a type annotation it needs
    /// is missing.
    Unresolved(Entity),
    /// An element's type could not be inferred: it needs a type annotation
    /// that it lacks.
    MissingAnnotation,
    /// Resolving the entity's type needed the entity's own type.
    CyclicDependency(Entity),
    /// The entity is not in the store.
    UnknownEntity(Entity),
}

} // verus!
