//! A registry of named metric instruments.
//!
//! Each instrument name is bound to at most one backend handle. The handle is
//! created the first time the name is asked for and shared by every later
//! request, so all values recorded under one name reach one accumulator.

pub mod error;
pub mod laws;
pub mod model;
pub mod names;
pub mod registry;

pub use error::TelemetryError;
pub use registry::Registry;
