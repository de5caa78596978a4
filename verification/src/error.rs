//! The errors of the library.
use vstd::prelude::*;

verus! {

/// What can go wrong in the library's own logic.
#[derive(Debug, Clone, PartialEq, Eq)]
pub enum KnotError {
    /// A path has no file name (it ends in `..`, is a root or is empty).
    NoFileName { path: String },
    /// A remote knot was asked for at an index that does not exist.
    IndexOutOfBounds { index: usize },
    /// No remote knot is configured.
    NoRemoteKnots,
    /// A size could not be read (e.g. `15GB`, `5MiB`, `1024B` are valid).
    InvalidSize { value: String },
    /// An ignore pattern could not be read as a glob.
    InvalidIgnorePattern { pattern: String },
    /// The source knot has no behavior that could be changed.
    SourceHasNoBehavior,
    /// A command on a remote knot ended with a code other than 0.
    RemoteCommandFailed { code: u32, stderr: String },
    /// The channel to a remote knot closed before the command's exit status.
    NoExitStatus { stderr: String },
    /// A remote command's channel closed without its exit status.
    CommandWithoutExitStatus { command: String },
    /// A remote knot has no authentication method.
    NoAuthentication,
}

} // verus!
