//! captrack — capacity telemetry for Rust collections, and the decision
//! logic of its profile-guided capacity optimiser.
//!
//! The library holds the parts that compute: the capacity rules, the
//! distribution classifier, the byte-splice patcher and its undo, profile
//! merging, report rendering, manifest checks and the small text scanners
//! over Cargo manifests and profiler frames.  Every function carries a
//! contract that Verus checks.
use vstd::prelude::*;

pub mod analyze;
pub mod apply;
pub mod autodump;
pub mod collections;
pub mod ctor;
pub mod dhat;
pub mod dump;
pub mod digest;
pub mod lint_apply;
pub mod lint_instrument;
pub mod measure;
pub mod merge;
pub mod model;
pub mod options;
pub mod order;
pub mod paths;
pub mod plan;
pub mod profile;
pub mod report;
pub mod registry;
pub mod reservoir;
pub mod roundtrip;
pub mod rules;
pub mod samples;
pub mod staleness;
pub mod scan;
pub mod stats;
pub mod text;
pub mod undo;
pub mod wide;
pub mod wire;
pub mod workspace;

verus! {

} // verus!
