//! The commands of the command line, as plain values.
use vstd::prelude::*;

verus! {

/// A parsed command line.
#[derive(Clone, Debug)]
pub struct Cli {
    pub command: Commands,
}

/// What the command line asks for.
#[derive(Clone, Debug)]
pub enum Commands {
    /// Analyze the dependencies of a manifest or project directory.
    Analyze { path: Option<String>, name: Option<String>, format: Option<String> },
    /// Show the vulnerable packages of an analysis.
    Security { target: Option<String> },
    /// Write a report of an analysis.
    Report { target: Option<String>, format: Option<String>, output: Option<String> },
    /// Show the dependency tree of a project.
    Tree { target: Option<String> },
    /// Compare two analyses.
    Diff { id1: String, id2: String },
    /// Serve the web interface.
    Ui { port: u16, path: Option<String> },
}

} // verus!
