//! Periodic stock report pipeline: the decisions behind fetching, ordering,
//! formatting, buffering and persisting per-symbol price reports.
//!
//! Everything here is pure state and text handling with machine-checked
//! contracts; a host program performs the network calls, file access and
//! timing around it.

pub mod actors;
pub mod quotes;
pub mod records;
pub mod report;
pub mod scheduler;
pub mod text;
pub mod types;
