//! Drivers of runtime components: their configuration, their life, and their
//! health.
pub mod config;
pub mod dummy;
pub mod factory;
pub mod health;
pub mod lifecycle;
pub mod map;
