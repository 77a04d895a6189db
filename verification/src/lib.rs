//! A minimal entity-component-system (ECS) runtime core.
//!
//! The crate manages a dynamic collection of entities, each an arbitrary bag
//! of typed data fragments ("components"), and drives a pipeline of systems
//! that, once per external tick, read a declared subset of components across
//! all live entities, compute new values, and write them back.
//!
//! Component kinds are identified by a stable numeric descriptor
//! ([`heterogenous_set::KindId`]); the value type of components is a type
//! parameter throughout, so an application chooses one closed component type
//! (typically an enum) and tags each value with its kind.

pub mod components;
pub mod either;
pub mod entity;
pub mod heterogenous_set;
pub mod system;
