//! Semantic three-way merging of `use` declarations.
//!
//! The library models the names that import declarations bring into scope,
//! compares snapshots of them, reconciles two branches against their common
//! base and splices the reconciled block back into source text.

pub mod binding;
pub mod extract;
pub mod diff;
pub mod reconcile;
pub mod text;
pub mod splice;
pub mod merge;
