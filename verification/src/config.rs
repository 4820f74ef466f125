//! Runtime configuration for a tree comparison.

use vstd::prelude::*;

verus! {

/// Options recognised by the comparison engine and by the reporting layer
/// around it.  `compare_modification_times` and `follow_softlinks` change
/// which pipeline stages run; `single_threaded` selects the sequential work
/// distribution; the remaining flags are consumed only by the printing and
/// totals consumers outside the engine.
#[derive(Clone, Copy, Debug)]
pub struct Config {
    /// Enables the final pipeline stage that compares modification times.
    pub compare_modification_times: bool,
    /// When comparing modification times of a symbolic link, use the
    /// timestamp of the link's target instead of the link itself.
    pub follow_softlinks: bool,
    /// Report matching paths as well as mismatching ones.
    pub matches: bool,
    /// Colourise the report.
    pub pretty: bool,
    /// Suppress per-path reporting.
    pub silent: bool,
    /// Force sequential evaluation of the unified path set.
    pub single_threaded: bool,
    /// Print aggregate match totals after the comparison.
    pub totals: bool,
}

/// Returns the default configuration: every option switched off.
pub fn default_config() -> (c: Config)
    ensures
        !c.compare_modification_times,
        !c.follow_softlinks,
        !c.matches,
        !c.pretty,
        !c.silent,
        !c.single_threaded,
        !c.totals,
{
    Config {
        compare_modification_times: false,
        follow_softlinks: false,
        matches: false,
        pretty: false,
        silent: false,
        single_threaded: false,
        totals: false,
    }
}

} // verus!
