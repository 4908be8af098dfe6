//! Command-line configuration and the stored router configuration.
pub mod router_config;

use vstd::prelude::*;

verus! {

/// The daemon's command-line options: the interfaces to use and the system name.
#[derive(Debug)]
pub struct Config {
    pub interfaces: Vec<String>,
    pub sysname: String,
}

} // verus!
