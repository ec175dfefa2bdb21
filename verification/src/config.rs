//! Configuration: config-file loading merged with CLI flag resolution.

use vstd::prelude::*;

verus! {

/// Resolved runtime configuration.
///
/// Built by layering CLI flags on top of any config file, on top of defaults.
#[derive(Debug, Clone, Copy)]
pub struct Config {}

impl Default for Config {
    fn default() -> (r: Self)
        ensures
            r == (Config {  }),
    {
        Config {  }
    }
}

impl Config {
    /// Resolve configuration from defaults, config file, and CLI flags.
    pub fn resolve() -> (r: crate::error::Result<Self>)
        ensures
            r == Ok::<Config, crate::error::UnciaError>(Config {  }),
    {
        Ok(Config::default())
    }
}

} // verus!
