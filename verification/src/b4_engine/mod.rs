//! The B4 engine: how a flow that policy admitted is delivered under present
//! conditions, never what should happen to it.
//!
//! Each cycle observes a flow, classifies what was seen, adapts the direct path
//! within what policy allows, and recovers or fails strictly.
pub mod classify;
pub mod config;
pub mod controller;
pub mod host;
pub mod observe;
pub mod policy;
pub mod state;
