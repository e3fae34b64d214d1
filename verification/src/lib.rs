//! Core logic of a collaborative-canvas backend: per-canvas fan-out of drawing
//! events to subscribed connections, append-only persistence with history
//! replay, a rights model with live moderation, and the control-bus messages
//! that re-authorize long-lived connections.
//!
//! Everything here is pure logic over plain values; the surrounding transport,
//! database and HTTP plumbing live outside this crate and call into it.

pub mod rights;
pub mod text;
pub mod event;
pub mod hub;
pub mod bus;
pub mod conn;
pub mod store;
pub mod world;
pub mod identity;
pub mod control;
pub mod laws;
