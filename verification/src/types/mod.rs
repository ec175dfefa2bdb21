//! The model: resources, live observations and drift.

pub mod drift;
pub mod resource;
