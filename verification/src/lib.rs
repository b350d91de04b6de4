//! Collection of per-container block-I/O statistics from cgroup v2
//! accounting files, rendered as line-oriented metrics text.
//!
//! The crate holds the pure pipeline: parsing `io.stat` and `io.pressure`
//! contents, resolving block-device identifiers to names, deriving cgroup
//! paths, and rendering metric lines into an append-only buffer. All I/O
//! (container runtime calls, filesystem reads, HTTP) lives outside, in the
//! surrounding binary, which feeds this crate plain values.

mod errors;
pub mod container;
pub mod device;
pub mod format;
pub mod laws;
pub mod parse;
pub mod text;

pub use errors::CollectError;
