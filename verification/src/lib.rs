//! Detection of source-level string literals that survive, byte for byte,
//! into compiled binaries: transcoding of literal tokens into the bytes a
//! compiler emits, suppression-filtered catalog construction, exact-match
//! binary scanning, and the deterministic ordering of the confirmed leaks.

pub mod catalog;
pub mod information_leak;
pub mod pipeline;
pub mod report;
pub mod scanner;
pub mod suppressions;
pub mod transcode;
