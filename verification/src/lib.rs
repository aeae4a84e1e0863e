//! Compiler core for a directory-based service-supervision layout.
//!
//! Declarative service records are resolved against an enable-list
//! (transitive closure over dependency edges), rewritten by extension
//! expansion to a fixed point, and classified for bundle membership.

pub mod model;
pub mod resolve;
pub mod expand;
pub mod driver;
pub mod bundle;
pub mod logterm;
pub mod compile;
pub mod laws;
