//! Compile-time code-generation engine for enumerated contract types.
//!
//! Given structural descriptions of enums (variants with shapes and
//! annotations), the crate synthesizes two kinds of derived artifacts:
//! a unified error-type definition that merges user variants with a fixed
//! standard catalog, and a query/response registry that maps each query
//! variant to a response-type descriptor, either from per-variant `returns`
//! annotations or by delegating to nested registries.
//!
//! Alongside the generators stand the runtime helpers that generated
//! contracts use: paging arithmetic, inclusive ranges, fund splitting and
//! message metadata.

pub mod config;
pub mod descriptor;
pub mod error;
pub mod errors;
pub mod funds;
pub mod generics;
pub mod ident;
pub mod math;
pub mod msg;
pub mod page;
pub mod query_responses;
pub mod strutil;
pub mod utility;
