//! A verified multi-track audio sequencer for a four-channel synthesizer
//! driven by a fixed frame tick.
//!
//! The crate models musical tracks (notes and rests), advances any number of
//! concurrently playing tracks one tick at a time, resolves contention for the
//! physical channels by a last-write-wins rule, and produces hardware tone
//! commands with a bit-exact parameter encoding. Issuing the commands to the
//! synthesizer registers is left to the embedding application.

pub mod laws;
pub mod notes;
pub mod player;
pub mod tracks;
