use vstd::prelude::*;

pub mod cli;
pub mod configuration;
pub mod connection;
pub mod error;
pub mod ignorer;
pub mod knot;
pub mod paths;
pub mod text;

verus! {

/// Name of the folder that holds the configuration of a workspace.
pub const CONFIGURATION_FOLDER: &'static str = ".knot";

/// Prefix of the names of archived files.
pub const ARCHIVE_PREFIX: &'static str = "KNOT-ARCHIVE__";

/// Suffix of the temporary files a transfer writes before it renames them.
pub const TEMPORAL_SUFFIX: &'static str = "_knot.knot_tmp";

/// Shown when the user leaves the terminal.
pub const USER_AWAY_MSG: &'static str = "/ᐠ◞ ᆺ ◟マ Where did you go?";

/// Shown when the user comes back to the terminal.
pub const USER_CAMEBACK_MSG: &'static str = "/ᐠ•⩊•マ Welcome back!";

} // verus!
