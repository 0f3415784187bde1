//! Core of an interactive remote-file browser and downloader: the
//! navigation/selection state machine, the recursive enumerator that turns a
//! directory request into a flat list of leaf files, the per-file download
//! worker's progress accounting, the paced launcher, and the progress
//! aggregator that reduces worker events into the visible transfer slot.
//!
//! All remote and local I/O (the SSH session, terminal drawing, the local
//! files) lives outside this crate; the state machines here are driven with
//! plain values and hand back plain values.

use vstd::prelude::*;

pub mod bytes;
pub mod enumerate;
pub mod launch;
pub mod order;
pub mod state;
pub mod transfer;

verus! {

/// Fixed size, in bytes, of one read chunk used by a download worker.
pub const CHUNK_SIZE: usize = 8192;

/// Fixed delay, in milliseconds, between two successive worker launches.
pub const LAUNCH_DELAY_MS: u64 = 100;

} // verus!
