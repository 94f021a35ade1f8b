use vstd::prelude::*;

verus! {

/// The command line: one subcommand.
pub struct Cli {
    pub command: Commands,
}

/// The subcommands.
pub enum Commands {
    /// Observe file access in a directory.
    Monitor {
        /// The directory to observe.
        directory: String,
        /// Output format, `text` or `json`.
        format: String,
        /// Show every event, with deduplication off.
        verbose: bool,
    },
    /// Report on the Docker host and its containers.
    Check {
        /// One container id or name; all containers when absent.
        container: Option<String>,
        /// Output format, `text` or `json`.
        output: String,
        /// Show detailed information.
        verbose: bool,
    },
}

} // verus!
