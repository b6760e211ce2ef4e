//! Correlation of two one-directional packet captures of the same traffic.
//!
//! A frame that crosses both capture points is recognised by an identity
//! derived from its headers; the difference of the two capture timestamps is
//! its latency. The modules, leaves first: timestamps, frame headers, packet
//! identities, the record source's decisions, the correlation table, the
//! latency statistics, whole-run correlation, and the laws that relate them.

pub mod time;
pub mod headers;
pub mod identity;
pub mod source;
pub mod table;
pub mod stats;
pub mod correlate;
pub mod laws;
