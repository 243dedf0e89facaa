//! The error taxonomy shared by every operation of the library.

use vstd::prelude::*;

verus! {

/// Every way an operation of this library (or the I/O shell around it) can
/// fail. `IoError` and `RenderError` are never produced by the library's own
/// functions: they exist so that the shell can report a failed filesystem
/// call or a failed template rendering in the same taxonomy.
#[derive(Clone, Copy, Debug, PartialEq, Eq, Structural)]
pub enum Error {
    /// No configuration file was found anywhere up to the filesystem root.
    ConfigNotFound,
    /// A file could not be read, created or written.
    IoError,
    /// The configuration file's contents are malformed.
    ParseError,
    /// Initialization was requested but a configuration file already exists.
    AlreadyInitialized,
    /// A directory was given as input but its root template file is missing.
    MissingRootTemplate,
    /// The input file does not lie under the configured templates folder.
    PathOutsideTemplates,
    /// The templating engine failed to render the input.
    RenderError,
    /// A file name could not be derived from the input path.
    InvalidFileName,
}

} // verus!
