//! Recreates a radio station's daily playlist on a streaming service.
//!
//! The library holds the verified logic of the tool: parsing the date
//! argument, building the archive URL, decoding the playlist document,
//! and the per-track synchronization policy. The surrounding binary
//! performs the network calls and feeds their outcomes back in.

pub mod date;
pub mod digits;
pub mod fetch;
pub mod playlist;
pub mod synchronizer;
