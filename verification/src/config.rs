//! The options of the launcher that its core reads.

use vstd::prelude::*;

verus! {

/// The options that govern a session. They are set once and never change.
#[derive(Clone, Copy, Debug, PartialEq, Eq)]
pub struct Config {
    /// Whether recently used applications are shown at the start and
    /// recorded at each launch.
    pub enable_recent_apps: bool,
    /// Whether the inputs for power off, restart and logout are obeyed.
    pub enable_power_options: bool,
    /// The greatest number of results shown.
    pub max_search_results: usize,
}

} // verus!
