//! Indoor localization from Wi-Fi signal strength.
//!
//! The crate decodes monitor-mode radio captures into per-access-point
//! signal-strength readings, aggregates them into labeled fingerprints of a
//! location's radio environment, matches a live sample against stored
//! fingerprints by nearest-neighbor distance, and detects nearby motion from
//! the variance of one access point's signal-strength stream.
//!
//! Everything here is pure computation over byte buffers and plain values;
//! capture devices, wall-clock loops and on-disk persistence live with the
//! caller.

pub mod decoder;
pub mod fingerprint;
pub mod macaddr;
pub mod matcher;
pub mod motion;
pub mod session;
pub mod signals;
