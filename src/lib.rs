//! Splits a stream of raw 16-bit PCM audio chunks into segments of sustained
//! activity, and frames finished segments for upload to object storage.

pub mod gcs;
pub mod laws;
pub mod naming;
pub mod seg;
