//! The retained context: spans, their provenance and the events that moved them.

pub mod event;
pub mod rope;

pub use event::CacheTtl;
