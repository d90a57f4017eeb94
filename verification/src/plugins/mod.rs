//! In-process plugins: their flow control, their registry, the events they
//! handle and the built-in filters.
pub mod auth;
pub mod events;
pub mod registry;
pub mod sensitive;
