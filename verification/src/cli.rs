//! The command surface as plain data. The binary parses the process
//! arguments and hands the library one of these values; everything the
//! commands decide is then verified library code.

use vstd::prelude::*;

verus! {

/// A parsed command line: one of the two subcommands.
#[derive(Debug, Clone, PartialEq, Eq)]
pub struct Cli {
    pub commands: Commands,
}

/// The two subcommands.
#[derive(Debug, Clone, PartialEq, Eq)]
pub enum Commands {
    /// Apply the theme in the file at `file` to each named target, in
    /// order.
    Apply { file: String, targets: Vec<String> },
    /// Generate a theme file at `output` from six color values, in the
    /// order accent, accent_deep, foreground, complement, dark, light_dark.
    Generate { output: String, colors: Vec<String> },
}

} // verus!
