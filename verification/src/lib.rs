//! A dynamic overflow voice-room controller.
//!
//! The library keeps a designated category of voice rooms in a simple
//! steady state: exactly one trailing room stays empty and ready to be
//! filled, a fresh numbered room is provisioned as soon as the trailing
//! room is occupied, and any other room is reclaimed once it becomes
//! empty. The decisions — when to create, what to name, when to delete —
//! are pure functions verified here; an unverified shell performs the
//! remote directory calls and feeds the results back in.

pub mod laws;
pub mod naming;
pub mod reconcile;
pub mod rooms;
pub mod state;
