//! Orchestration core for a directory-watching media transcoding pipeline.
//!
//! The library holds the verified decision logic of the pipeline: selecting a
//! watch strategy, classifying filesystem events, pairing container files with
//! subtitle candidates, keeping an idempotency ledger, choosing a hardware
//! acceleration capability, and driving one transcoding job as a state machine
//! whose filesystem and process side effects are performed by the caller.

pub mod config;
pub mod discovery;
pub mod events;
pub mod job;
pub mod gpu;
pub mod invocation;
pub mod ledger;
pub mod paths;
pub mod schedule;
pub mod text;

use vstd::prelude::*;

verus! {

} // verus!
