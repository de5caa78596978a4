//! The dashboard: the trees of files of the source and of each remote, side
//! by side, and the keys that move through them.
use vstd::prelude::*;

pub mod drawing;
pub mod event_handler;
pub mod file_node;
pub mod tree_shape;

use crate::cli::dashboard::file_node::{
    build_spec, node_view, rank, relative_names, FileStatus, UiFileNode,
};
use crate::cli::dashboard::tree_shape::{
    lemma_built_tree_holds_each_file, lemma_built_tree_holds_nothing_else, node_at, placed_under,
};
use crate::knot::file::KnotFile;
use crate::knot::file_diffs::FileDiffs;

verus! {

pub open spec fn tagged(files: Seq<KnotFile>, s: FileStatus) -> Seq<(FileStatus, KnotFile)> {
    files.map_values(|f: KnotFile| (s, f))
}

/// The files of the source side of a comparison: the unique ones, then the
/// source side of each conflict.
pub open spec fn source_items_spec(d: FileDiffs) -> Seq<(FileStatus, KnotFile)> {
    tagged(d.source_unique@, FileStatus::Unique) + tagged(
        d.conflicts@.map_values(|c: (KnotFile, KnotFile)| c.0),
        FileStatus::Conflict,
    )
}

/// The files of the remote side: the unique ones, the remote side of each
/// conflict, then the archived ones.
pub open spec fn remote_items_spec(d: FileDiffs) -> Seq<(FileStatus, KnotFile)> {
    tagged(d.remote_unique@, FileStatus::Unique) + tagged(
        d.conflicts@.map_values(|c: (KnotFile, KnotFile)| c.1),
        FileStatus::Conflict,
    ) + tagged(d.archived@, FileStatus::Archived)
}

fn push_tagged(out: &mut Vec<(FileStatus, KnotFile)>, files: &Vec<KnotFile>, s: FileStatus)
    ensures
        final(out)@ == old(out)@ + tagged(files@, s),
{
    let ghost start = out@;
    let mut i: usize = 0;
    while i < files.len()
        invariant
            i <= files@.len(),
            out@ == start + tagged(files@.take(i as int), s),
        decreases files@.len() - i,
    {
        out.push((s, files[i].clone()));
        proof {
            assert(tagged(files@.take(i + 1), s) =~= tagged(files@.take(i as int), s).push(
                (s, files@[i as int]),
            ));
        }
        i = i + 1;
    }
    proof {
        assert(files@.take(files@.len() as int) =~= files@);
    }
}

fn conflict_side(d: &FileDiffs, first: bool) -> (r: Vec<KnotFile>)
    ensures
        r@ == (if first {
            d.conflicts@.map_values(|c: (KnotFile, KnotFile)| c.0)
        } else {
            d.conflicts@.map_values(|c: (KnotFile, KnotFile)| c.1)
        }),
{
    let mut r: Vec<KnotFile> = Vec::new();
    let mut i: usize = 0;
    while i < d.conflicts.len()
        invariant
            i <= d.conflicts@.len(),
            r@ == (if first {
                d.conflicts@.take(i as int).map_values(|c: (KnotFile, KnotFile)| c.0)
            } else {
                d.conflicts@.take(i as int).map_values(|c: (KnotFile, KnotFile)| c.1)
            }),
        decreases d.conflicts@.len() - i,
    {
        let f = if first {
            d.conflicts[i].0.clone()
        } else {
            d.conflicts[i].1.clone()
        };
        r.push(f);
        proof {
            assert(d.conflicts@.take(i + 1).map_values(|c: (KnotFile, KnotFile)| c.0)
                =~= d.conflicts@.take(i as int).map_values(|c: (KnotFile, KnotFile)| c.0).push(
                d.conflicts@[i as int].0,
            ));
            assert(d.conflicts@.take(i + 1).map_values(|c: (KnotFile, KnotFile)| c.1)
                =~= d.conflicts@.take(i as int).map_values(|c: (KnotFile, KnotFile)| c.1).push(
                d.conflicts@[i as int].1,
            ));
        }
        i = i + 1;
    }
    proof {
        assert(d.conflicts@.take(d.conflicts@.len() as int) =~= d.conflicts@);
    }
    r
}

/// The tree of the source side of a comparison, rooted at `source_path`.
pub fn source_tree(d: &FileDiffs, source_path: &str) -> (r: UiFileNode)
    ensures
        node_view(r) == build_spec(source_items_spec(*d), source_path@),
{
    let mut items: Vec<(FileStatus, KnotFile)> = Vec::new();
    push_tagged(&mut items, &d.source_unique, FileStatus::Unique);
    let sides = conflict_side(d, true);
    push_tagged(&mut items, &sides, FileStatus::Conflict);
    proof {
        assert(items@ =~= source_items_spec(*d));
    }
    UiFileNode::build_tree(&items, source_path)
}

/// The tree of the remote side of a comparison, rooted at its remote path.
pub fn remote_tree(d: &FileDiffs) -> (r: UiFileNode)
    ensures
        node_view(r) == build_spec(remote_items_spec(*d), d.remote_root_path@),
{
    let mut items: Vec<(FileStatus, KnotFile)> = Vec::new();
    push_tagged(&mut items, &d.remote_unique, FileStatus::Unique);
    let sides = conflict_side(d, false);
    push_tagged(&mut items, &sides, FileStatus::Conflict);
    push_tagged(&mut items, &d.archived, FileStatus::Archived);
    proof {
        assert(items@ =~= remote_items_spec(*d));
    }
    UiFileNode::build_tree(&items, d.remote_root_path.as_str())
}


/// Law: every file only the remote has is shown in the remote tree: the
/// node at its path (and each directory on the way) exists and weighs at
/// least as much as `Unique`; it is exactly `Unique` when no conflict or
/// archived file lies at or under that node.
pub proof fn lemma_remote_tree_shows_remote_unique(d: FileDiffs, j: int, k: int)
    requires
        0 <= j < d.remote_unique@.len(),
        relative_names(d.remote_unique@[j].path@, d.remote_root_path@) matches Some(names) && 1
            <= k <= names.len(),
    ensures
        ({
            let items = remote_items_spec(d);
            let root = d.remote_root_path@;
            let p = relative_names(d.remote_unique@[j].path@, root)->0.take(k);
            &&& node_at(build_spec(items, root), p) matches Some(m) && rank(m.status) >= rank(
                FileStatus::Unique,
            )
            &&& (forall|i: int|
                d.remote_unique@.len() <= i < items.len() ==> !#[trigger] placed_under(
                    items,
                    root,
                    p,
                    i,
                )) ==> node_at(build_spec(items, root), p)->0.status == FileStatus::Unique
        }),
{
    let items = remote_items_spec(d);
    let root = d.remote_root_path@;
    let p = relative_names(d.remote_unique@[j].path@, root)->0.take(k);
    assert(items[j] == (FileStatus::Unique, d.remote_unique@[j]));
    lemma_built_tree_holds_each_file(items, root, j, k);
    if forall|i: int|
        d.remote_unique@.len() <= i < items.len() ==> !#[trigger] placed_under(items, root, p, i) {
        lemma_built_tree_holds_nothing_else(items, root, p);
        let m = node_at(build_spec(items, root), p)->0;
        if m.status != FileStatus::Synced {
            let i = choose|i: int| placed_under(items, root, p, i) && items[i].0 == m.status;
            assert(items[i].0 == FileStatus::Unique);
        }
    }
}

/// Law: every file only the source has is shown in the source tree: the
/// node at its path (and each directory on the way) exists and weighs at
/// least as much as `Unique`; it is exactly `Unique` when no conflict lies
/// at or under that node.
pub proof fn lemma_source_tree_shows_source_unique(d: FileDiffs, source_path: Seq<char>, j: int, k: int)
    requires
        0 <= j < d.source_unique@.len(),
        relative_names(d.source_unique@[j].path@, source_path) matches Some(names) && 1 <= k
            <= names.len(),
    ensures
        ({
            let items = source_items_spec(d);
            let p = relative_names(d.source_unique@[j].path@, source_path)->0.take(k);
            &&& node_at(build_spec(items, source_path), p) matches Some(m) && rank(m.status) >= rank(
                FileStatus::Unique,
            )
            &&& (forall|i: int|
                d.source_unique@.len() <= i < items.len() ==> !#[trigger] placed_under(
                    items,
                    source_path,
                    p,
                    i,
                )) ==> node_at(build_spec(items, source_path), p)->0.status == FileStatus::Unique
        }),
{
    let items = source_items_spec(d);
    let p = relative_names(d.source_unique@[j].path@, source_path)->0.take(k);
    assert(items[j] == (FileStatus::Unique, d.source_unique@[j]));
    lemma_built_tree_holds_each_file(items, source_path, j, k);
    if forall|i: int|
        d.source_unique@.len() <= i < items.len() ==> !#[trigger] placed_under(
            items,
            source_path,
            p,
            i,
        ) {
        lemma_built_tree_holds_nothing_else(items, source_path, p);
        let m = node_at(build_spec(items, source_path), p)->0;
        if m.status != FileStatus::Synced {
            let i = choose|i: int| placed_under(items, source_path, p, i) && items[i].0 == m.status;
            assert(items[i].0 == FileStatus::Unique);
        }
    }
}

} // verus!
