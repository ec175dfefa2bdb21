//! # uncia
//!
//! Drift detection for IaC that goes beyond value diffs: it catches infrastructure that looks
//! unchanged but no longer means what it used to.
//!
//! Declared state ([`state`]) and what a cloud reports ([`collector`]) are joined by cloud id and
//! compared ([`diff`]): first field by field, then by what the fields mean. The result is a
//! [`DriftReport`], which [`report`] writes as text and [`tui`] browses.
//!
//! Every function states in its contract what it returns. What is proved of several functions
//! together stands beside them as public proof functions.

pub mod collector;
pub mod config;
pub mod diff;
pub mod document;
pub mod error;
pub mod json;
pub mod laws;
pub mod ordered;
pub mod report;
pub mod set;
pub mod state;
pub mod store;
pub mod text;
pub mod tui;
pub mod types;

pub use collector::LiveResource;
pub use config::Config;
pub use error::{Result, UnciaError};
pub use types::drift::{Drift, DriftKind, DriftReport, Severity};
pub use types::resource::{Resource, ResourceId, ResourceKind};
