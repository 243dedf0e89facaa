//! The command-line surface as plain data: the two subcommands and their
//! arguments. Parsing the actual process arguments happens outside the
//! library; these types carry the result into it.

use vstd::prelude::*;

use crate::paths::PathB;

verus! {

/// A parsed invocation: exactly one subcommand.
#[derive(Debug)]
pub struct Cli {
    pub command: Command,
}

/// The two things the tool can do.
#[derive(Debug)]
pub enum Command {
    /// Initialize a new project.
    Init(InitArgs),
    /// Compile a template to plain SQL.
    Compile(CompileArgs),
}

/// Arguments of the `init` subcommand.
#[derive(Debug)]
pub struct InitArgs {
    /// An explicit configuration file to load instead of searching for one.
    pub config_file: Option<PathB>,
}

/// Arguments of the `compile` subcommand.
#[derive(Debug)]
pub struct CompileArgs {
    /// The template file (or directory) to compile.
    pub file: PathB,
    /// Where to write the output; derived from the input when absent.
    pub output: Option<PathB>,
    /// What kind of relation the output is meant to create.
    pub output_type: OutputType,
}

/// The kind of relation a compiled file is meant to create. Accepted on the
/// command line but not consumed by the rendering pipeline.
#[derive(Clone, Copy, Debug, PartialEq, Eq, Structural)]
pub enum OutputType {
    /// Create a view.
    View,
    /// Create a table.
    Table,
    /// Create a temporary table.
    TempTable,
}

impl Default for OutputType {
    /// A view, unless asked otherwise.
    fn default() -> (r: OutputType)
        ensures
            r == OutputType::View,
    {
        OutputType::View
    }
}

} // verus!
