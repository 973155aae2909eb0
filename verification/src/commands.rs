//! The plain shapes of the command-line commands whose options the
//! library's logic reads.  Argument parsing itself stays with the host
//! process; it hands over these values.

use vstd::prelude::*;

verus! {

/// Shows the last command that was run, and where it stands.
#[derive(Debug)]
pub struct WhatUpCommand {
    /// Show the status as of this event offset, instead of now.
    pub after: Option<u64>,
}

/// Common options of a script-evaluation command.
#[derive(Debug)]
pub struct BxlCoreOpts {
    /// The label of the script function to run.
    pub bxl_label: String,
    /// Arguments handed to the script, after `--`.
    pub bxl_args: Vec<String>,
}

/// Runs a script against the build graph.
#[derive(Debug)]
pub struct BxlCommand {
    pub bxl_core: BxlCoreOpts,
}

/// Generates the documentation of the global symbols.
#[derive(Debug)]
pub struct DocsStarlarkCommand {
    /// Render machine-readable output instead of markdown.
    pub machine_readable: bool,
    /// The import paths to document; empty means the prelude.
    pub paths: Vec<String>,
}

impl BxlCommand {
    /// The label of the script this command runs.
    pub fn label(&self) -> (r: &String)
        ensures
            r@ == self.bxl_core.bxl_label@,
    {
        &self.bxl_core.bxl_label
    }
}

} // verus!
