//! A resumable, multi-source, chunked file-transfer engine.
//!
//! A transfer (a job) splits a file of known size into fixed-size byte
//! ranges, pulls each range from whichever candidate origin is least
//! loaded, persists its progress so an interrupted transfer can resume
//! without re-fetching completed data, verifies end-to-end integrity,
//! and reports throttled progress to an observer.
//!
//! This crate holds the verified core: the chunk planner, the source
//! pool, the job state machine with its scheduling decisions, the
//! progress-emission throttle, and the integrity check. The unverified
//! shell around it performs the network and file I/O and feeds the
//! results back into these functions as plain values.

pub mod status;

pub mod text;

pub mod chunk;

pub mod source;

pub mod job;

pub mod integrity;
