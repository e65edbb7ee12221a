//! Fixed values shared by the protocol engine and the event store.

use vstd::prelude::*;

verus! {

/// Enables verbose diagnostics in the surrounding program.
pub const DEBUG: bool = false;

pub const APPNAME: &'static str = "S7 Event Monitor";

pub const APPVERSION: &'static str = "0.0.1";

/// Data type of the frames that report special events such as downtime.
pub const EVENT_TYPE_SPECIAL: u32 = 1;

/// Data type of liveness-only frames, which are never persisted.
pub const EVENT_TYPE_KEEPALIVE: u32 = 12;

/// Data type of ordinary controller event frames.
pub const EVENT_TYPE_PLC: u32 = 50;

/// Sub-code that opens a downtime interval.
pub const DOWNTIME_START_CODE: u32 = 41;

/// Sub-code that closes a downtime interval.
pub const DOWNTIME_END_CODE: u32 = 42;

/// Seconds added to every reconstructed downtime to make up for the lag
/// with which the upstream sensor reports a stop.
pub const DOWNTIME_CORRECTION_SECS: i64 = 60;

/// Seconds a connection may stay silent before it is flagged as not alive.
pub const IDLE_TIMEOUT_SECS: u64 = 30;

/// Seconds a stopping listener is given before it is forcibly dropped.
pub const SHUTDOWN_GRACE_SECS: u64 = 5;

/// Seconds between two attempts to bind a listener.
pub const BIND_RETRY_DELAY_SECS: u64 = 10;

/// Size of the buffer a connection reads into.
pub const READ_BUFFER_SIZE: usize = 512;

} // verus!
