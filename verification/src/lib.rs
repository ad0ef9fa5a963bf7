//! Playback-queue engine: a bounded history ring, a per-queue core with a
//! verified exclusive lock, and a generic shared multi-queue primitive.

pub mod handlers;
pub mod history;
pub mod queue;
pub mod smq;
