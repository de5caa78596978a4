//! The report of a comparison printed as tables, for terminals where the
//! interactive report cannot start: a summary line, then a table for each
//! kind of difference that has entries, each with at most
//! `MAX_ROWS_PER_TABLE` rows and a last row telling how many were left out.
use vstd::prelude::*;

use crate::cli::dashboard::drawing::append_chars;
use crate::cli::diff_view::DiffCounts;
use crate::knot::file::KnotFile;
use crate::text::{decimal_string, decimal_text, string_of};

verus! {

/// The rows a table shows at most.
pub const MAX_ROWS_PER_TABLE: usize = 25;

/// The tables of the report, in the order they are printed.
#[derive(Debug, Clone, Copy, PartialEq, Eq, Structural)]
pub enum DiffSection {
    Conflicts,
    SourceUnique,
    RemoteUnique,
    Archived,
}

/// The tables printed: those of the kinds that have entries, conflicts
/// first, then the files only in the source, only in the remote, archived.
pub open spec fn sections_spec(c: DiffCounts) -> Seq<DiffSection> {
    (if c.conflicts > 0 {
        seq![DiffSection::Conflicts]
    } else {
        Seq::<DiffSection>::empty()
    }) + (if c.source_unique > 0 {
        seq![DiffSection::SourceUnique]
    } else {
        Seq::<DiffSection>::empty()
    }) + (if c.remote_unique > 0 {
        seq![DiffSection::RemoteUnique]
    } else {
        Seq::<DiffSection>::empty()
    }) + (if c.archived > 0 {
        seq![DiffSection::Archived]
    } else {
        Seq::<DiffSection>::empty()
    })
}

pub fn report_sections(c: DiffCounts) -> (r: Vec<DiffSection>)
    ensures
        r@ == sections_spec(c),
{
    let mut r: Vec<DiffSection> = Vec::new();
    if c.conflicts > 0 {
        r.push(DiffSection::Conflicts);
    }
    if c.source_unique > 0 {
        r.push(DiffSection::SourceUnique);
    }
    if c.remote_unique > 0 {
        r.push(DiffSection::RemoteUnique);
    }
    if c.archived > 0 {
        r.push(DiffSection::Archived);
    }
    proof {
        assert(r@ =~= sections_spec(c));
    }
    r
}

/// The heading printed above a table.
pub open spec fn section_title_spec(s: DiffSection) -> Seq<char> {
    match s {
        DiffSection::Conflicts => "!!  CONFLICTS (Modified on both devices)"@,
        DiffSection::SourceUnique => "++ SOURCE UNIQUE (Missing on Remote)"@,
        DiffSection::RemoteUnique => "-- REMOTE UNIQUE (Missing on Source)"@,
        DiffSection::Archived => "== ARCHIVED FILES"@,
    }
}

pub fn section_title(s: DiffSection) -> (r: &'static str)
    ensures
        r@ == section_title_spec(s),
{
    match s {
        DiffSection::Conflicts => "!!  CONFLICTS (Modified on both devices)",
        DiffSection::SourceUnique => "++ SOURCE UNIQUE (Missing on Remote)",
        DiffSection::RemoteUnique => "-- REMOTE UNIQUE (Missing on Source)",
        DiffSection::Archived => "== ARCHIVED FILES",
    }
}

/// The counts of each kind, as the line above the tables gives them.
pub open spec fn summary_spec(c: DiffCounts) -> Seq<char> {
    "++ Source Unique: "@ + decimal_text(c.source_unique as nat) + " | -- Remote Unique: "@
        + decimal_text(c.remote_unique as nat) + " | !! Conflicts: "@ + decimal_text(
        c.conflicts as nat,
    ) + " | == Archived: "@ + decimal_text(c.archived as nat)
}

pub fn summary_line(c: DiffCounts) -> (r: String)
    ensures
        r@ == summary_spec(c),
{
    let mut out: Vec<char> = Vec::new();
    append_chars(&mut out, "++ Source Unique: ");
    append_chars(&mut out, decimal_string(c.source_unique as u64).as_str());
    append_chars(&mut out, " | -- Remote Unique: ");
    append_chars(&mut out, decimal_string(c.remote_unique as u64).as_str());
    append_chars(&mut out, " | !! Conflicts: ");
    append_chars(&mut out, decimal_string(c.conflicts as u64).as_str());
    append_chars(&mut out, " | == Archived: ");
    append_chars(&mut out, decimal_string(c.archived as u64).as_str());
    proof {
        assert(out@ =~= summary_spec(c));
    }
    string_of(out.as_slice())
}

/// How many rows a table of `total` entries shows.
pub open spec fn shown_count(total: nat) -> nat {
    if total < MAX_ROWS_PER_TABLE {
        total
    } else {
        MAX_ROWS_PER_TABLE as nat
    }
}

/// A row of a table of files: its kind (`DIR` or `FILE`), path,
/// modification time and hash.
pub struct FileRow {
    pub kind: &'static str,
    pub path: String,
    pub mtime: i64,
    pub hash: Option<u64>,
}

/// The row of a file.
pub open spec fn file_row_matches(row: FileRow, f: KnotFile) -> bool {
    &&& row.kind@ == (if f.is_dir {
        "DIR"@
    } else {
        "FILE"@
    })
    &&& row.path@ == f.path@
    &&& row.mtime == f.mtime
    &&& row.hash == f.content_hash
}

/// The rows of a table of files: one for each of the first entries.
pub fn file_rows(files: &Vec<KnotFile>) -> (r: Vec<FileRow>)
    ensures
        r@.len() == shown_count(files@.len()),
        forall|i: int| 0 <= i < r@.len() ==> file_row_matches(#[trigger] r@[i], files@[i]),
{
    let n = if files.len() < MAX_ROWS_PER_TABLE {
        files.len()
    } else {
        MAX_ROWS_PER_TABLE
    };
    let mut r: Vec<FileRow> = Vec::new();
    let mut i: usize = 0;
    while i < n
        invariant
            n <= files@.len(),
            i <= n,
            r@.len() == i,
            forall|k: int| 0 <= k < i ==> file_row_matches(#[trigger] r@[k], files@[k]),
        decreases n - i,
    {
        let f = &files[i];
        let kind: &'static str = if f.is_dir {
            "DIR"
        } else {
            "FILE"
        };
        r.push(FileRow { kind, path: f.path.clone(), mtime: f.mtime, hash: f.content_hash });
        i = i + 1;
    }
    r
}

/// A row of the table of conflicts: the path, and the modification time
/// and hash on either side.
pub struct ConflictRow {
    pub path: String,
    pub source_mtime: i64,
    pub remote_mtime: i64,
    pub source_hash: Option<u64>,
    pub remote_hash: Option<u64>,
}

/// The row of a conflict (with the source's path).
pub open spec fn conflict_row_matches(row: ConflictRow, c: (KnotFile, KnotFile)) -> bool {
    &&& row.path@ == c.0.path@
    &&& row.source_mtime == c.0.mtime
    &&& row.remote_mtime == c.1.mtime
    &&& row.source_hash == c.0.content_hash
    &&& row.remote_hash == c.1.content_hash
}

/// The rows of the table of conflicts: one for each of the first ones.
pub fn conflict_rows(conflicts: &Vec<(KnotFile, KnotFile)>) -> (r: Vec<ConflictRow>)
    ensures
        r@.len() == shown_count(conflicts@.len()),
        forall|i: int|
            0 <= i < r@.len() ==> conflict_row_matches(#[trigger] r@[i], conflicts@[i]),
{
    let n = if conflicts.len() < MAX_ROWS_PER_TABLE {
        conflicts.len()
    } else {
        MAX_ROWS_PER_TABLE
    };
    let mut r: Vec<ConflictRow> = Vec::new();
    let mut i: usize = 0;
    while i < n
        invariant
            n <= conflicts@.len(),
            i <= n,
            r@.len() == i,
            forall|k: int| 0 <= k < i ==> conflict_row_matches(#[trigger] r@[k], conflicts@[k]),
        decreases n - i,
    {
        let c = &conflicts[i];
        r.push(
            ConflictRow {
                path: c.0.path.clone(),
                source_mtime: c.0.mtime,
                remote_mtime: c.1.mtime,
                source_hash: c.0.content_hash,
                remote_hash: c.1.content_hash,
            },
        );
        i = i + 1;
    }
    r
}

/// The last row of a table of files with more entries than it shows.
pub open spec fn more_files_spec(total: nat) -> Option<Seq<char>> {
    if total > MAX_ROWS_PER_TABLE {
        Some("and "@ + decimal_text((total - MAX_ROWS_PER_TABLE) as nat) + " more items not shown"@)
    } else {
        None
    }
}

pub fn more_files_note(total: usize) -> (r: Option<String>)
    ensures
        match more_files_spec(total as nat) {
            Some(t) => r matches Some(s) && s@ == t,
            None => r is None,
        },
{
    if total > MAX_ROWS_PER_TABLE {
        let mut out: Vec<char> = Vec::new();
        append_chars(&mut out, "and ");
        append_chars(&mut out, decimal_string((total - MAX_ROWS_PER_TABLE) as u64).as_str());
        append_chars(&mut out, " more items not shown");
        Some(string_of(out.as_slice()))
    } else {
        None
    }
}

/// The last row of the table of conflicts when it shows fewer than there are.
pub open spec fn more_conflicts_spec(total: nat) -> Option<Seq<char>> {
    if total > MAX_ROWS_PER_TABLE {
        Some(
            "... and "@ + decimal_text((total - MAX_ROWS_PER_TABLE) as nat)
                + " more conflicting files"@,
        )
    } else {
        None
    }
}

pub fn more_conflicts_note(total: usize) -> (r: Option<String>)
    ensures
        match more_conflicts_spec(total as nat) {
            Some(t) => r matches Some(s) && s@ == t,
            None => r is None,
        },
{
    if total > MAX_ROWS_PER_TABLE {
        let mut out: Vec<char> = Vec::new();
        append_chars(&mut out, "... and ");
        append_chars(&mut out, decimal_string((total - MAX_ROWS_PER_TABLE) as u64).as_str());
        append_chars(&mut out, " more conflicting files");
        Some(string_of(out.as_slice()))
    } else {
        None
    }
}

} // verus!
