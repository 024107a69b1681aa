//! An event-sourced entity protocol engine.
//!
//! A remote proxy owns durable storage and drives a bidirectional stream of
//! protocol messages; this library holds the in-process half: an entity
//! registry that resolves a session to a concrete handler, an envelope codec
//! keyed by type-url, a command-execution context that collects emitted
//! events, and the per-connection session state machine that sequences
//! `Init` -> `Command`/`Event` -> `Reply`.

pub mod codec;
pub mod discovery;
pub mod eventsourced;
pub mod messages;
pub mod proto;
pub mod registry;
pub mod session;
pub mod shopping_cart;
