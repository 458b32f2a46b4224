//! Client-side engine for the wlr output-management protocol: an event-driven
//! model of the compositor's heads and modes, a transactional configuration
//! planner, and the pure mode-selection and geometry algorithms built on top.
//!
//! Everything protocol-transport related (the Wayland connection, dispatching,
//! printing) lives outside this crate; the engine works on plain values.

pub mod commands;
pub mod compat;
pub mod error;
pub mod events;
pub mod geometry;
pub mod model;
pub mod parse;
pub mod strutil;
pub mod transact;
