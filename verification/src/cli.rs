//! What the command line says.

use vstd::prelude::*;

verus! {

/// The options of one invocation.
#[derive(Debug)]
pub struct Cli {
    /// Path of the manifest.
    pub config: String,
    /// Say what would be generated, and build nothing.
    pub dry_run: bool,
}

} // verus!
