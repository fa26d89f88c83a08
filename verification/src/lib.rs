//! Verified merge engine for two-part scientific-array containers.
//!
//! The library models a container's schema and payload in memory
//! ([`model`]), reconciles two containers' schemas and copies their payloads
//! into a fresh destination ([`merge`]), states and proves the engine's
//! algebraic laws ([`laws`]), and keeps the uploaded part pairs that feed a
//! merge ([`store`]). Parsing and serializing the binary container format is
//! the codec boundary around the library, which hands containers in and
//! carries merged containers out.

pub mod errors;
pub mod laws;
pub mod merge;
pub mod model;
pub mod store;
