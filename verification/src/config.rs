//! Configuration handed to the hardware abstraction layer at start-up.

use vstd::prelude::*;

verus! {

/// HAL configuration passed when initializing.
///
/// The configuration carries no settings yet; the type exists so that
/// start-up code has a stable signature once settings are added.
#[non_exhaustive]
pub struct Config {}

impl Config {
    /// Creates the default configuration.
    pub fn new() -> (config: Self)
        ensures
            config == (Config {}),
    {
        Config {}
    }
}

impl Default for Config {
    /// The default configuration.
    fn default() -> (config: Self)
        ensures
            config == (Config {}),
    {
        Config {}
    }
}

} // verus!
