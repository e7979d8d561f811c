//! Input bindings: raw key and button events become a conflict-free set of
//! player actions, published once per frame and accumulated per fixed tick.
//!
//! * [`symbols`] names the raw input symbols and the actions.
//! * [`input`] collects the frame's press and release events.
//! * [`bindings`] holds the table from actions to symbol combinations.
//! * [`actions`] resolves the held symbols into actions and their
//!   transitions, for the frame and for the fixed-rate step.
//! * [`session`] puts the phases of a frame in order.
//! * [`laws`] states what holds over whole runs of frames.
//! * [`sets`] and [`store`] are the sets underneath, kept in the engine's
//!   hash collections.

pub mod symbols;
pub mod store;
pub mod sets;
pub mod input;
pub mod bindings;
pub mod actions;
pub mod session;
pub mod laws;
