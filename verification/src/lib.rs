//! An event emitter: listeners are registered per event type, events are
//! emitted to the listeners of their type, and listeners registered with
//! `once` are forgotten after the first event they receive.
//!
//! The registry logic is verified: which listeners an event reaches, which
//! ones stay registered, and how many are registered. Running the handlers
//! themselves is left to the caller of `EventEmitter::emit`.

mod event;
mod table;
mod listener;
mod model;
mod event_emitter;
pub mod laws;

pub use event::{Event, EventError};
pub use listener::{Listener, ListenerId, lists_listeners};
pub use model::{EmitterModel, Op, adds, persistent};
pub use event_emitter::EventEmitter;
