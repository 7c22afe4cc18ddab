//! What one run is asked to do.

use vstd::prelude::*;

verus! {

/// The search directory that is taken where none is given.
pub const DEFAULT_PLUGIN_PATH: &'static str = "target/debug";

/// The arguments of one run.
#[derive(Debug, Clone, PartialEq, Eq)]
pub struct Args {
    /// Path of the source image.
    pub input: String,
    /// Path of the destination image.
    pub output: String,
    /// Name of the filter, without the prefix and extension of its file.
    pub plugin: String,
    /// Path of the parameter document.
    pub params: String,
    /// Directory in which the filter's module is looked for.
    pub plugin_path: String,
}

} // verus!
