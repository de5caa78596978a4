//! What a remote knot does with files found on one side only, and with files
//! changed on both sides; and how the names of these choices (and of knot
//! types) are read from a configuration file.
use vstd::prelude::*;

use crate::knot::KnotType;
use crate::text::{chars_of, lowercase_of, string_of, to_lowercase};

verus! {

/// What happens to files that exist on one side only.
#[derive(Debug, Clone, Copy, PartialEq, Eq, Structural)]
pub enum UniqueBehavior {
    Archive,
    MirrorSource,
    MirrorRemote,
    Ask,
    Skip,
    OnlyAdd,
}

/// What happens to files changed on both sides.
#[derive(Debug, Clone, Copy, PartialEq, Eq, Structural)]
pub enum ConflictBehavior {
    /// The newer one (by modification time) wins.
    Newer,
    /// The older one wins.
    Older,
    /// The source's wins.
    Source,
    /// The remote's wins.
    Remote,
    /// The user is asked.
    Ask,
    /// Both are left as they are.
    Skip,
}

/// The two choices of a remote knot.
#[derive(Debug, Clone, Copy, PartialEq, Eq, Structural)]
pub struct Behavior {
    pub uniques: UniqueBehavior,
    pub conflicts: ConflictBehavior,
}

/// A separator inside a written name: `-`, `_` or a space.
pub open spec fn is_name_separator(c: char) -> bool {
    c == '-' || c == '_' || c == ' '
}

/// The characters of `s` without separators.
pub open spec fn without_separators(s: Seq<char>) -> Seq<char>
    decreases s.len(),
{
    if s.len() == 0 {
        s
    } else if is_name_separator(s.last()) {
        without_separators(s.drop_last())
    } else {
        without_separators(s.drop_last()).push(s.last())
    }
}

/// A name as it is compared: in lower case, without separators, so that
/// kebab-case, snake_case, PascalCase, lower case and spaced names are one.
pub open spec fn normalized_spec(s: Seq<char>) -> Seq<char> {
    without_separators(lowercase_of(s))
}

/// The name without its separators.
pub fn drop_name_separators(s: &str) -> (r: String)
    ensures
        r@ == without_separators(s@),
{
    let chars = chars_of(s);
    let mut out: Vec<char> = Vec::new();
    let mut i: usize = 0;
    while i < chars.len()
        invariant
            i <= chars@.len(),
            out@ == without_separators(chars@.take(i as int)),
        decreases chars@.len() - i,
    {
        let c = chars[i];
        proof {
            assert(chars@.take(i + 1).drop_last() =~= chars@.take(i as int));
        }
        if !(c == '-' || c == '_' || c == ' ') {
            out.push(c);
        }
        i = i + 1;
    }
    proof {
        assert(chars@.take(chars@.len() as int) =~= chars@);
    }
    string_of(out.as_slice())
}

pub fn normalize_property(s: &str) -> (r: String)
    ensures
        r@ == normalized_spec(s@),
{
    let lower = to_lowercase(s);
    drop_name_separators(lower.as_str())
}

/// Whether the normalized name is the word `w`.
fn is_word(n: &Vec<char>, w: &str) -> (r: bool)
    ensures
        r == (n@ == w@),
{
    crate::text::chars_eq(n.as_slice(), chars_of(w).as_slice())
}

/// The knot type a normalized name is the word of.
pub open spec fn knot_type_word(n: Seq<char>) -> Option<KnotType> {
    if n == "local"@ {
        Some(KnotType::Local)
    } else if n == "ssh"@ {
        Some(KnotType::SSH)
    } else if n == "sftp"@ {
        Some(KnotType::SFTP)
    } else {
        None
    }
}

impl KnotType {
    /// The type a normalized name (lower case, no separators) stands for.
    pub fn from_normalized(n: &str) -> (r: Option<KnotType>)
        ensures
            r == knot_type_word(n@),
    {
        let n = chars_of(n);
        if is_word(&n, "local") {
            Some(KnotType::Local)
        } else if is_word(&n, "ssh") {
            Some(KnotType::SSH)
        } else if is_word(&n, "sftp") {
            Some(KnotType::SFTP)
        } else {
            None
        }
    }

    /// The type a configuration names: `local`, `ssh` or `sftp`, written in
    /// any case, with any separators.
    pub fn from_name(s: &str) -> (r: Option<KnotType>)
        ensures
            r == knot_type_word(normalized_spec(s@)),
    {
        KnotType::from_normalized(normalize_property(s).as_str())
    }
}

/// The behavior for unique files a normalized name is the word of.
pub open spec fn unique_word(n: Seq<char>) -> Option<UniqueBehavior> {
    if n == "archive"@ {
        Some(UniqueBehavior::Archive)
    } else if n == "mirrorsource"@ {
        Some(UniqueBehavior::MirrorSource)
    } else if n == "mirrorremote"@ {
        Some(UniqueBehavior::MirrorRemote)
    } else if n == "ask"@ {
        Some(UniqueBehavior::Ask)
    } else if n == "skip"@ {
        Some(UniqueBehavior::Skip)
    } else if n == "onlyadd"@ {
        Some(UniqueBehavior::OnlyAdd)
    } else {
        None
    }
}

impl UniqueBehavior {
    /// The behavior a normalized name (lower case, no separators) stands for.
    pub fn from_normalized(n: &str) -> (r: Option<UniqueBehavior>)
        ensures
            r == unique_word(n@),
    {
        let n = chars_of(n);
        if is_word(&n, "archive") {
            Some(UniqueBehavior::Archive)
        } else if is_word(&n, "mirrorsource") {
            Some(UniqueBehavior::MirrorSource)
        } else if is_word(&n, "mirrorremote") {
            Some(UniqueBehavior::MirrorRemote)
        } else if is_word(&n, "ask") {
            Some(UniqueBehavior::Ask)
        } else if is_word(&n, "skip") {
            Some(UniqueBehavior::Skip)
        } else if is_word(&n, "onlyadd") {
            Some(UniqueBehavior::OnlyAdd)
        } else {
            None
        }
    }

    /// The behavior a configuration names, written in any case, with any
    /// separators.
    pub fn from_name(s: &str) -> (r: Option<UniqueBehavior>)
        ensures
            r == unique_word(normalized_spec(s@)),
    {
        UniqueBehavior::from_normalized(normalize_property(s).as_str())
    }

    /// The name written to a configuration file.
    pub fn name(&self) -> (r: &'static str)
        ensures
            r@ == match *self {
                UniqueBehavior::Archive => "Archive"@,
                UniqueBehavior::MirrorSource => "MirrorSource"@,
                UniqueBehavior::MirrorRemote => "MirrorRemote"@,
                UniqueBehavior::Ask => "Ask"@,
                UniqueBehavior::Skip => "Skip"@,
                UniqueBehavior::OnlyAdd => "OnlyAdd"@,
            },
    {
        match self {
            UniqueBehavior::Archive => "Archive",
            UniqueBehavior::MirrorSource => "MirrorSource",
            UniqueBehavior::MirrorRemote => "MirrorRemote",
            UniqueBehavior::Ask => "Ask",
            UniqueBehavior::Skip => "Skip",
            UniqueBehavior::OnlyAdd => "OnlyAdd",
        }
    }
}

/// The behavior for conflicts a normalized name is the word of.
pub open spec fn conflict_word(n: Seq<char>) -> Option<ConflictBehavior> {
    if n == "newer"@ {
        Some(ConflictBehavior::Newer)
    } else if n == "older"@ {
        Some(ConflictBehavior::Older)
    } else if n == "source"@ {
        Some(ConflictBehavior::Source)
    } else if n == "remote"@ {
        Some(ConflictBehavior::Remote)
    } else if n == "ask"@ {
        Some(ConflictBehavior::Ask)
    } else if n == "skip"@ {
        Some(ConflictBehavior::Skip)
    } else {
        None
    }
}

impl ConflictBehavior {
    /// The behavior a normalized name (lower case, no separators) stands for.
    pub fn from_normalized(n: &str) -> (r: Option<ConflictBehavior>)
        ensures
            r == conflict_word(n@),
    {
        let n = chars_of(n);
        if is_word(&n, "newer") {
            Some(ConflictBehavior::Newer)
        } else if is_word(&n, "older") {
            Some(ConflictBehavior::Older)
        } else if is_word(&n, "source") {
            Some(ConflictBehavior::Source)
        } else if is_word(&n, "remote") {
            Some(ConflictBehavior::Remote)
        } else if is_word(&n, "ask") {
            Some(ConflictBehavior::Ask)
        } else if is_word(&n, "skip") {
            Some(ConflictBehavior::Skip)
        } else {
            None
        }
    }

    /// The behavior a configuration names, written in any case, with any
    /// separators.
    pub fn from_name(s: &str) -> (r: Option<ConflictBehavior>)
        ensures
            r == conflict_word(normalized_spec(s@)),
    {
        ConflictBehavior::from_normalized(normalize_property(s).as_str())
    }

    /// The name written to a configuration file.
    pub fn name(&self) -> (r: &'static str)
        ensures
            r@ == match *self {
                ConflictBehavior::Newer => "Newer"@,
                ConflictBehavior::Older => "Older"@,
                ConflictBehavior::Source => "Source"@,
                ConflictBehavior::Remote => "Remote"@,
                ConflictBehavior::Ask => "Ask"@,
                ConflictBehavior::Skip => "Skip"@,
            },
    {
        match self {
            ConflictBehavior::Newer => "Newer",
            ConflictBehavior::Older => "Older",
            ConflictBehavior::Source => "Source",
            ConflictBehavior::Remote => "Remote",
            ConflictBehavior::Ask => "Ask",
            ConflictBehavior::Skip => "Skip",
        }
    }
}


pub open spec fn unique_name_spec(u: UniqueBehavior) -> Seq<char> {
    match u {
        UniqueBehavior::Archive => "Archive"@,
        UniqueBehavior::MirrorSource => "MirrorSource"@,
        UniqueBehavior::MirrorRemote => "MirrorRemote"@,
        UniqueBehavior::Ask => "Ask"@,
        UniqueBehavior::Skip => "Skip"@,
        UniqueBehavior::OnlyAdd => "OnlyAdd"@,
    }
}

pub open spec fn conflict_name_spec(c: ConflictBehavior) -> Seq<char> {
    match c {
        ConflictBehavior::Newer => "Newer"@,
        ConflictBehavior::Older => "Older"@,
        ConflictBehavior::Source => "Source"@,
        ConflictBehavior::Remote => "Remote"@,
        ConflictBehavior::Ask => "Ask"@,
        ConflictBehavior::Skip => "Skip"@,
    }
}

} // verus!
