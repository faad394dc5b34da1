//! The server's configuration, as its configuration file gives it.

use vstd::prelude::*;

verus! {

/// Where the game cache lives.
pub struct Cache {
    pub path: String,
}

/// The server's configuration.
pub struct Config {
    pub cache: Cache,
}

} // verus!
