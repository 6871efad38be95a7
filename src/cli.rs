//! The commands the tool accepts.
use vstd::prelude::*;

verus! {

/// A parsed command line.
#[derive(Debug)]
pub struct Cli {
    pub command: Commands,
}

/// The subcommands.
#[derive(Debug)]
pub enum Commands {
    /// List all installed JDKs.
    List,
    /// Show the current active JDK.
    Current,
    /// Switch to a JDK version, e.g. 8, 11, 17 or 21.
    Use { version: String },
    /// Download a JDK version from a vendor.
    Download { version: String, vendor: String },
    /// Search the JDK versions available for download.
    Search { keyword: Option<String> },
}

} // verus!
