//! Registration of GraphQL types for async-graphql's dynamic schema: type
//! definitions and deferred object expansions are collected in a registry
//! that resolves the expansions and assembles a schema builder.
pub use async_graphql::dynamic;

pub mod engine;
pub mod laws;
mod objects;
mod pending;
pub mod registry;
pub mod type_ref;
pub mod types;

pub use registry::{ObjectExpansion, Register, Registry, RegistryError, TypeDefinition};
pub use type_ref::{TypeRefExt, TypeRefInner};
