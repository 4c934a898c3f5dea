//! Kannaka Crystal — the verified core of a platform for informational
//! materials and resonant memory systems.
//!
//! The wave simulation itself is floating-point numerics and lives in the
//! application layer. This library holds the discrete logic around it:
//! the Crystal Registry (identity, lineage, dedup, growth caps, search),
//! the evidence ladder and behavioral capability records, the Crystal
//! Language front end, deterministic seed and schedule bookkeeping, and
//! the text/identifier encodings all of that relies on.

pub mod text;
pub mod ranking;
pub mod ids;
pub mod primitives;
pub mod registry;
pub mod behavior;
pub mod evidence;
pub mod lang;
pub mod engine;
pub mod dream;
pub mod bench;
pub mod api;
pub mod commands;
pub mod swarm;
pub mod publish;
pub mod discovery;
pub mod regions;
