//! Knots: the directories that are kept in sync, and what is known of them.
use vstd::prelude::*;

use crate::knot::credentials::KnotCredentials;

pub mod batch;
pub mod crawl;
pub mod credentials;
pub mod file;
pub mod file_diffs;
pub mod local_dirs;
pub mod rewrite;
pub mod ssh_commands;

verus! {

/// How a knot is reached.
#[derive(Debug, Clone, Copy, PartialEq, Eq, Structural)]
pub enum KnotType {
    Local,
    SSH,
    SFTP,
}

impl KnotType {
    /// The text a user reads for this type.
    pub fn describe(&self) -> (r: String)
        ensures
            r@ == match *self {
                KnotType::Local => "Local System"@,
                KnotType::SSH => "SSH remote"@,
                KnotType::SFTP => "SFTP remote"@,
            },
    {
        match self {
            KnotType::Local => "Local System".to_string(),
            KnotType::SSH => "SSH remote".to_string(),
            KnotType::SFTP => "SFTP remote".to_string(),
        }
    }
}

/// Where a knot lives and how it is reached.
#[derive(Debug)]
pub struct KnotConfig {
    pub adapter_type: KnotType,
    pub credentials: Option<KnotCredentials>,
    pub path: String,
}

impl KnotConfig {
    pub fn new(ktype: KnotType, path: String, credentials: Option<KnotCredentials>) -> (r: Self)
        ensures
            r.adapter_type == ktype,
            r.path == path,
            r.credentials == credentials,
    {
        KnotConfig { path, credentials, adapter_type: ktype }
    }
}


/// How a batch of files goes from one knot to another.
#[derive(Debug, Clone, Copy, PartialEq, Eq, Structural)]
pub enum TransferRoute {
    /// One tar stream from this local knot to the SSH knot.
    StreamToRemote,
    /// One tar stream from this SSH knot to the local knot.
    StreamFromRemote,
    /// File by file.
    PerFile,
}

/// A local knot streams to a knot with SSH connections; a knot with SSH
/// connections streams to a local knot; any other pair goes file by file.
pub fn transfer_route(
    self_type: KnotType,
    self_has_ssh: bool,
    foreign_type: KnotType,
    foreign_has_ssh: bool,
) -> (r: TransferRoute)
    ensures
        r == (if foreign_has_ssh && self_type == KnotType::Local {
            TransferRoute::StreamToRemote
        } else if self_has_ssh && foreign_type == KnotType::Local {
            TransferRoute::StreamFromRemote
        } else {
            TransferRoute::PerFile
        }),
{
    if foreign_has_ssh && self_type == KnotType::Local {
        TransferRoute::StreamToRemote
    } else if self_has_ssh && foreign_type == KnotType::Local {
        TransferRoute::StreamFromRemote
    } else {
        TransferRoute::PerFile
    }
}

/// The user whose home `~` means in a knot's path: the remote user of a
/// knot that is not local, nobody (the local user) otherwise.
pub fn home_user(ktype: KnotType, credentials: &Option<KnotCredentials>) -> (r: Option<String>)
    ensures
        r == (match credentials {
            Some(c) => if ktype != KnotType::Local {
                Some(c.username)
            } else {
                None
            },
            None => None::<String>,
        }),
{
    match credentials {
        Some(c) => if ktype != KnotType::Local {
            Some(c.username.clone())
        } else {
            None
        },
        None => None,
    }
}


/// Where a file sent file by file lands on the other knot: its path
/// relative to the root it is sent from, joined to the root it is sent to.
pub fn transfer_destination(file: &crate::knot::file::KnotFile, from_root: &str, to_root: &str) -> (r:
    String)
    ensures
        r@ == crate::cli::dashboard::file_node::path_push(
            to_root@,
            crate::paths::relative_path_spec(file.path@, from_root@),
        ),
{
    let rel = file.relative_path(from_root);
    crate::cli::dashboard::file_node::push_path_str(to_root, rel.as_str())
}


/// How one file goes from one knot to another.
#[derive(Debug, Clone, Copy, PartialEq, Eq, Structural)]
pub enum FileRoute {
    /// Streamed from this local knot to the knot with SSH connections.
    StreamToRemote,
    /// Streamed from this SSH knot into the local knot.
    StreamFromRemote,
    /// Copied between two local folders.
    LocalCopy,
    /// Read and written in pieces.
    Piecewise,
}

/// A local knot streams a file to a knot with SSH connections and copies it
/// to a local one; an SSH knot streams a file to a local knot; any other
/// pair copies it in pieces. Each way writes a temporary file first.
pub fn file_route(self_type: KnotType, foreign_type: KnotType, foreign_has_ssh: bool) -> (r: FileRoute)
    ensures
        r == (if self_type == KnotType::Local {
            if foreign_has_ssh {
                FileRoute::StreamToRemote
            } else if foreign_type == KnotType::Local {
                FileRoute::LocalCopy
            } else {
                FileRoute::Piecewise
            }
        } else if self_type == KnotType::SSH && foreign_type == KnotType::Local {
            FileRoute::StreamFromRemote
        } else {
            FileRoute::Piecewise
        }),
{
    if self_type == KnotType::Local {
        if foreign_has_ssh {
            FileRoute::StreamToRemote
        } else if foreign_type == KnotType::Local {
            FileRoute::LocalCopy
        } else {
            FileRoute::Piecewise
        }
    } else if self_type == KnotType::SSH && foreign_type == KnotType::Local {
        FileRoute::StreamFromRemote
    } else {
        FileRoute::Piecewise
    }
}

} // verus!
