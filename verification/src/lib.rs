//! Verified core of a line-oriented pipe between standard streams and a
//! partitioned message broker topic.
//!
//! The crate holds the logic of the two pipelines: how a drained input buffer
//! becomes publishable records, how a consumed batch becomes output bytes,
//! how a fill pass decides where to stop reading, and how the consume loop's
//! sequential-error counter advances and triggers shutdown. The broker client,
//! the interrupt handler and the standard streams themselves are collaborators
//! that a thin unverified front end drives with these functions.

pub mod consume;
pub mod lines;
pub mod produce;
pub mod utils;
