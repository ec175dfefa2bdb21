//! The interactive browser over one report: its state, and what each screen shows.

pub mod app;
pub mod views;
