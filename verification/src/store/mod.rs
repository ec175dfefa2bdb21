//! Persistence of drift history.

pub mod sqlite;
