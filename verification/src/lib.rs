//! Session statistics engine for a continuous network-reachability probe.
//!
//! The library accumulates probe outcomes (round-trip latencies or losses)
//! over a session and over auto-save intervals, computes aggregate
//! statistics (loss rate, latency extremes and average, a latency
//! histogram), and renders and re-reads snapshots in the two persistent
//! encodings (a JSON history list and a CSV table).
//!
//! Latencies and the derived min/max/avg are held in hundredths of a
//! millisecond ("centi-ms"), and the loss rate in hundredths of a percent:
//! fixed-point values that match the two-decimal precision of the
//! persisted records.

pub mod clock;
pub mod config;
pub mod csv_codec;
pub mod histogram;
pub mod json_codec;
pub mod session;
pub mod stats;
pub mod text;
