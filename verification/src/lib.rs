//! Telemetry ingestion core for industrial controllers: the wire-frame codec,
//! the event store's query rules, downtime reconstruction, and the lifecycle
//! state machine that supervises the configured listeners.

pub mod comms;
pub mod connection;
pub mod constants;
pub mod downtime;
pub mod event_data;
pub mod filehandling;
pub mod ipv6;
pub mod sql;
pub mod text;
pub mod timestamps;
pub mod utils;
pub mod xmlhandling;
