//! The subcommands of the command line, as values. The program derives the
//! argument parsing on copies of these types.
use vstd::prelude::*;

use crate::cli::StructFormat;

verus! {

/// What `add` adds.
#[derive(Debug, Clone, Copy, PartialEq, Eq, Structural)]
pub enum AddSubcommand {
    /// A new remote knot, set up with questions.
    Remote,
}

/// What `remove` removes.
#[derive(Debug, Clone, Copy, PartialEq, Eq, Structural)]
pub enum RemoveSubcommand {
    /// Remote knots, picked from a list.
    Remote,
}

/// A property of a knot that `modify` changes.
#[derive(Debug, Clone, Copy, PartialEq, Eq, Structural)]
pub enum KnotModifySubcommand {
    /// The adapter type (local, SSH).
    Type,
    /// The directory of the knot.
    Path,
    /// The number of connections at once.
    Connections,
    /// All the credentials.
    Credentials,
    /// The user name.
    Username,
    /// The port.
    Port,
    /// The host.
    Host,
    /// The authentication.
    Auth,
    /// What a remote knot does with conflicts.
    ConflictBehavior,
    /// What a remote knot does with unique files.
    UniqueBehavior,
    /// The password kept in the keyring.
    Password,
}

/// What `modify` changes.
#[derive(Debug, Clone, Copy, PartialEq, Eq, Structural)]
pub enum ModifySubcommand {
    Caching,
    Compression,
    Gitignore,
    IgnorePatterns,
    AllowSizeLimit,
    SizeLimit,
    /// A property of the source knot.
    Source { properties: KnotModifySubcommand },
    /// A property of a remote knot, at an index or picked.
    Remote { properties: KnotModifySubcommand, index: Option<usize> },
}

/// Whether a change to this property needs the behavior of a remote knot.
pub fn needs_behavior(p: KnotModifySubcommand) -> (r: bool)
    ensures
        r == (p == KnotModifySubcommand::ConflictBehavior || p
            == KnotModifySubcommand::UniqueBehavior),
{
    p == KnotModifySubcommand::ConflictBehavior || p == KnotModifySubcommand::UniqueBehavior
}

/// Both size settings are changed by asking whether a limit is allowed and,
/// when it is, how large it is.
pub fn asks_size(m: ModifySubcommand) -> (r: bool)
    ensures
        r == (m == ModifySubcommand::SizeLimit || m == ModifySubcommand::AllowSizeLimit),
{
    m == ModifySubcommand::SizeLimit || m == ModifySubcommand::AllowSizeLimit
}

/// How a stream between knots is compressed.
#[derive(Debug, Clone, Copy, PartialEq, Eq, Structural)]
pub enum Compressions {
    Plain,
    Zstd,
}

/// The work on archives.
pub enum ArchiveSubcommand {
    /// Restores archived paths (overwriting when forced).
    Recover { root_path: Option<String>, target: Vec<String>, force: bool },
    /// Removes archives (those older than a duration, when given).
    Remove { root_path: Option<String>, target: Vec<String>, older_than: Option<String>, force: bool },
    /// Resolves archived files in the terminal.
    Resolve { root_path: String },
    /// Lists the archived files.
    List { root_path: String, compress: bool, format: StructFormat },
    /// Archives directories and files.
    Compress { dirs: Vec<String>, files: Vec<String> },
}

/// The work on files of the knot binary on a remote host.
pub enum FileSubcommand {
    Write { path: String, data: String, offset: u64 },
    WriteStream { temporal_path: Option<String>, path: String, expected_size: Option<String> },
    WriteBatchStream { root_path: String, compression: Compressions },
    ReadBatchStream { root_path: String, compression: Compressions },
    ReadStream { path: String },
    EmptyWrite { path: String, data: String },
    ReadInterval { path: String, start: u64, end: u64 },
    ReadFull { path: String },
    Empty { path: String },
    Rename { old_path: String, new_path: String },
    Delete { path: Vec<String> },
    Create { path: String },
    CreateDir { path: String },
    CreateDirs { path: Vec<String> },
}


/// The name a configuration file is saved under in its folder: the default
/// one when no such file exists yet or the user lets it be overwritten, and
/// otherwise the name the user gave instead (`None` when the user chose not to
/// save it at all).
pub fn save_file_name(default_name: &str, already_there: bool, overwrite: bool, new_name: Option<String>) -> (r:
    Option<String>)
    ensures
        !already_there || overwrite ==> (r matches Some(n) && n@ == default_name@),
        already_there && !overwrite ==> r == new_name,
{
    if !already_there || overwrite {
        Some(default_name.to_string())
    } else {
        new_name
    }
}

} // verus!
