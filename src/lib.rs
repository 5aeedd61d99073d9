//! Notification dispatcher core: decoding of inbound update messages,
//! fan-out of an update into per-ticket notification jobs, rendering of
//! the notification mail, and the per-message job state machine.
pub mod codec;
pub mod compose;
pub mod config;
pub mod dispatch;
pub mod model;
pub mod wire;
