//! An entity-component store: a sparse-indexed container, per-type component
//! pools, a world that owns entities and pools, queries that join pools by
//! entity, and a scheduler that derives read/write sets of systems.
pub mod sparse_set;
pub mod entity;
pub mod component;
pub mod component_pool;
pub mod world;
pub mod query_param;
pub mod query;
pub mod schedule;
