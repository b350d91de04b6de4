//! The error taxonomy of the collection pipeline.
//!
//! Per-container failures are isolated at the orchestration boundary: the
//! cycle goes on with the next container. Only an enumeration failure is
//! fatal to a whole cycle; a container whose display name cannot be
//! resolved is skipped silently.

use vstd::prelude::*;

verus! {

/// One failure class of the collection pipeline.
#[derive(Clone, Copy, Debug, PartialEq, Eq, Structural)]
pub enum CollectError {
    /// The runtime reported no process id for the container.
    InspectionError,
    /// The process's cgroup membership file could not be read.
    CgroupReadError,
    /// The cgroup membership file does not carry the unified-hierarchy
    /// marker, so the host is not on cgroup v2.
    UnsupportedCgroupVersionError,
    /// An `io.stat` or `io.pressure` file could not be read.
    StatFileReadError,
    /// A line of `io.stat` or `io.pressure` is malformed: it is empty, or
    /// one of its tokens after the first lacks a `=` separator.
    MalformedLineError,
    /// A block-device identifier could not be resolved to a device name.
    DeviceResolutionError,
    /// Enumerating containers failed; this aborts the whole cycle.
    EnumerationError,
}

impl CollectError {
    /// A short human-readable description, for logging by the caller.
    pub fn describe(&self) -> &'static str {
        match self {
            CollectError::InspectionError => "container inspection reported no process id",
            CollectError::CgroupReadError => "error reading cgroup information",
            CollectError::UnsupportedCgroupVersionError => "error parsing cgroup: the host does not use cgroup v2",
            CollectError::StatFileReadError => "error reading a cgroup statistics file",
            CollectError::MalformedLineError => "malformed statistics line",
            CollectError::DeviceResolutionError => "could not resolve a block-device name",
            CollectError::EnumerationError => "error enumerating containers",
        }
    }
}

} // verus!
