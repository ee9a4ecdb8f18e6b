//! Core of a reconnaissance orchestrator: content-addressable evidence
//! storage, deterministic invocation caching, a sandboxed bytecode runtime,
//! a mutation parser/validator, a graph merge engine, and the scheduler
//! that drives them.

pub mod bytes;
pub mod cachekey;
pub mod cacheindex;
pub mod cas;
pub mod graph;
pub mod keys;
pub mod mutation;
pub mod parser;
pub mod sandbox;
pub mod scheduler;
