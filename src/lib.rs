//! Type inference for an entity-graph intermediate representation.
//!
//! Every node of a program is an [`ir::Entity`] whose structure is an
//! [`element::Element`].  The engine assigns each entity a [`ty::Type`];
//! type errors are themselves types (`Type::Conflict`), so they are stored and
//! propagated like any other result.
//!
//! Two strategies drive the rules of [`infer`]: the fixpoint strategy of
//! [`infer_types`], which runs rounds over all entities until nothing changes,
//! and the memoizing pull strategy of [`db`], which resolves one entity on
//! demand.
pub mod ir;
pub mod ty;
pub mod element;
pub mod infer;
pub mod error;
pub mod store;
pub mod infer_types;
pub mod db;
pub mod graph;
pub mod abi_type;
