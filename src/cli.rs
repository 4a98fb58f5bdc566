use vstd::prelude::*;

verus! {

/// A parsed command line.
#[derive(Debug)]
pub struct Cli {
    pub command: Command,
}

/// The subcommands.
#[derive(Debug)]
pub enum Command {
    /// Show the controller's version.
    Version,
    /// List the proxy groups.
    Proxies,
    /// Show one proxy group, by number or by name or name prefix.
    Proxy { name: String },
    /// Show the mode and the proxy chain from the root group.
    Current,
    /// Switch a group's selection; what is left out is asked for.
    Switch { group: Option<String>, proxy: Option<String> },
    /// Set the mode (global, rule or direct, in any case); asked for when left out.
    Mode { mode: Option<String> },
}

} // verus!
