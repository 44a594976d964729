//! Metric updates made in a child process, gathered into one batch, carried
//! to the parent process in binary form, and applied there to the metric
//! stores.
//!
//! - `metric_id`: identifiers and their static or dynamic tag.
//! - `wire`: the binary form of each kind of value, and its reading.
//! - `payload`: the batch, one container per kind of metric.
//! - `codec`: a whole batch to bytes and back.
//! - `buffer`: the pending batch, its access count and the flush watermark.
//! - `replay`: routing each update of a received batch to its store.
//! - `role`: whether the process ships its metrics elsewhere.

use vstd::prelude::*;

pub mod buffer;
pub mod codec;
pub mod metric_id;
pub mod payload;
pub mod replay;
pub mod role;
pub mod wire;

verus! {

} // verus!
