//! Verified core of a real-time planning-poker service.
//!
//! The crate owns the session registry (rooms and players) and the whole
//! mutation protocol: create, join, vote, reveal, reset, leave, the
//! disconnect sweep and host election. Every transition is an executable
//! function whose contract pins the new registry state and the exact
//! sequence of outbound emissions against a mathematical model; the
//! transport that carries events and payloads is left to the embedding
//! program.

pub mod engine;
pub mod ids;
pub mod laws;
pub mod model;
pub mod types;
