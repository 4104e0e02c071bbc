//! Lifecycle and event dispatch for a one-way, server-pushed event stream.
//!
//! The platform's streaming transport raises raw notifications. This crate
//! decides what becomes of each one: which event the caller's handler is
//! told, how the connection's state moves, and when the transport is handed
//! back to be closed. It never talks to the platform itself: the caller
//! acquires the transport, reduces each notification to plain values, and
//! closes the transport when a connection releases it.

pub mod connection;
pub mod error;
pub mod event;
pub mod lifecycle;

pub use connection::{Connection, ConnectionView};
pub use error::EsError;
pub use event::{translate, EsEvent, EventView, Notification, NotificationView};
pub use lifecycle::ConnectionState;
