//! Wall-clock timestamps.
//!
//! The book and cache logic is verified for every timestamp value; only the
//! reading of the clock itself is trusted.

use vstd::prelude::*;

verus! {

/// Milliseconds since the Unix epoch.
///
/// Relies on std::time::SystemTime::now and duration_since(UNIX_EPOCH):
/// the current wall-clock time; nothing can be promised about its value.
#[verifier::external_body]
pub fn now_timestamp_ms() -> u64 {
    std::time::SystemTime::now().duration_since(std::time::UNIX_EPOCH).map(
        |d| d.as_millis() as u64,
    ).unwrap_or(0)
}

/// Microseconds since the Unix epoch.
///
/// Relies on std::time::SystemTime::now and duration_since(UNIX_EPOCH):
/// the current wall-clock time; nothing can be promised about its value.
#[verifier::external_body]
pub fn now_timestamp_us() -> u64 {
    std::time::SystemTime::now().duration_since(std::time::UNIX_EPOCH).map(
        |d| d.as_micros() as u64,
    ).unwrap_or(0)
}

/// Nanoseconds since the Unix epoch.
///
/// Relies on std::time::SystemTime::now and duration_since(UNIX_EPOCH):
/// the current wall-clock time; nothing can be promised about its value.
#[verifier::external_body]
pub fn now_timestamp_ns() -> u64 {
    std::time::SystemTime::now().duration_since(std::time::UNIX_EPOCH).map(
        |d| d.as_nanos() as u64,
    ).unwrap_or(0)
}

} // verus!
