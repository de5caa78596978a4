//! The differences between the files of a source knot and those of a remote
//! knot, matched by their paths relative to each knot's root.
use vstd::prelude::*;

use crate::knot::file::KnotFile;
use crate::text::{chars_of, starts_with_chars};
use crate::ARCHIVE_PREFIX;

verus! {

/// When comparing two lists of files, `FileDiffs` separates all the
/// differences.
pub struct FileDiffs {
    /// Files that are missing inside the remote folder.
    pub source_unique: Vec<KnotFile>,
    /// Files that are missing inside the source folder.
    pub remote_unique: Vec<KnotFile>,
    /// Files that both folders have, but with a different hash.
    pub conflicts: Vec<(KnotFile, KnotFile)>,
    /// Remote files missing in the source whose name has the archive prefix.
    pub archived: Vec<KnotFile>,
    /// Path where the source files live.
    pub source_root_path: String,
    /// Path where the remote files live.
    pub remote_root_path: String,
}

/// The path of `f` relative to `root`.
pub open spec fn rel_of(f: KnotFile, root: Seq<char>) -> Seq<char> {
    crate::paths::relative_path_spec(f.path@, root)
}

/// No later file of `files` has the relative path of the one at `i`.
pub open spec fn is_last_of(files: Seq<KnotFile>, root: Seq<char>, i: int) -> bool {
    forall|j: int| i < j < files.len() ==> rel_of(files[j], root) != rel_of(files[i], root)
}

/// The files keyed by relative path; of two files with one path, the later
/// one is kept.
pub open spec fn file_map(files: Seq<KnotFile>, root: Seq<char>) -> Map<Seq<char>, KnotFile>
    decreases files.len(),
{
    if files.len() == 0 {
        Map::<Seq<char>, KnotFile>::empty()
    } else {
        file_map(files.drop_last(), root).insert(rel_of(files.last(), root), files.last())
    }
}

/// The file has a name, and it begins with the archive prefix.
pub open spec fn is_archive_name(f: KnotFile) -> bool {
    match crate::paths::file_name_spec(f.path@) {
        Some(n) => ARCHIVE_PREFIX@.is_prefix_of(n),
        None => false,
    }
}

pub open spec fn has_name(f: KnotFile) -> bool {
    crate::paths::file_name_spec(f.path@) is Some
}

/// The source file at `i` is kept as unique: it is the one its path maps to,
/// and the remote has no file with that path.
pub open spec fn keeps_source_unique(
    src: Seq<KnotFile>,
    sr: Seq<char>,
    rem: Seq<KnotFile>,
    rr: Seq<char>,
    i: int,
) -> bool {
    is_last_of(src, sr, i) && !file_map(rem, rr).dom().contains(rel_of(src[i], sr))
}

/// The remote file at `i` is the one its path maps to, and the source has no
/// file with that path, and it has a name.
pub open spec fn is_remote_candidate(
    src: Seq<KnotFile>,
    sr: Seq<char>,
    rem: Seq<KnotFile>,
    rr: Seq<char>,
    i: int,
) -> bool {
    is_last_of(rem, rr, i) && !file_map(src, sr).dom().contains(rel_of(rem[i], rr)) && has_name(
        rem[i],
    )
}

/// The remote file at `i` is the one its path maps to, the source has a file
/// with that path, and their hashes differ.
pub open spec fn is_conflict_at(
    src: Seq<KnotFile>,
    sr: Seq<char>,
    rem: Seq<KnotFile>,
    rr: Seq<char>,
    i: int,
) -> bool {
    &&& is_last_of(rem, rr, i)
    &&& file_map(src, sr).dom().contains(rel_of(rem[i], rr))
    &&& file_map(src, sr)[rel_of(rem[i], rr)].content_hash != rem[i].content_hash
}

/// The unique source files among the first `k`, in order.
pub open spec fn source_unique_upto(
    src: Seq<KnotFile>,
    sr: Seq<char>,
    rem: Seq<KnotFile>,
    rr: Seq<char>,
    k: nat,
) -> Seq<KnotFile>
    decreases k,
{
    if k == 0 || k > src.len() {
        Seq::<KnotFile>::empty()
    } else {
        let prev = source_unique_upto(src, sr, rem, rr, (k - 1) as nat);
        if keeps_source_unique(src, sr, rem, rr, k - 1) {
            prev.push(src[k - 1])
        } else {
            prev
        }
    }
}

/// The unique, not archived, remote files among the first `k`, in order.
pub open spec fn remote_unique_upto(
    src: Seq<KnotFile>,
    sr: Seq<char>,
    rem: Seq<KnotFile>,
    rr: Seq<char>,
    k: nat,
) -> Seq<KnotFile>
    decreases k,
{
    if k == 0 || k > rem.len() {
        Seq::<KnotFile>::empty()
    } else {
        let prev = remote_unique_upto(src, sr, rem, rr, (k - 1) as nat);
        if is_remote_candidate(src, sr, rem, rr, k - 1) && !is_archive_name(rem[k - 1]) {
            prev.push(rem[k - 1])
        } else {
            prev
        }
    }
}

/// The unique, archived, remote files among the first `k`, in order.
pub open spec fn archived_upto(
    src: Seq<KnotFile>,
    sr: Seq<char>,
    rem: Seq<KnotFile>,
    rr: Seq<char>,
    k: nat,
) -> Seq<KnotFile>
    decreases k,
{
    if k == 0 || k > rem.len() {
        Seq::<KnotFile>::empty()
    } else {
        let prev = archived_upto(src, sr, rem, rr, (k - 1) as nat);
        if is_remote_candidate(src, sr, rem, rr, k - 1) && is_archive_name(rem[k - 1]) {
            prev.push(rem[k - 1])
        } else {
            prev
        }
    }
}

/// The conflicting pairs (source file, remote file) among the first `k`
/// remote files, in order.
pub open spec fn conflicts_upto(
    src: Seq<KnotFile>,
    sr: Seq<char>,
    rem: Seq<KnotFile>,
    rr: Seq<char>,
    k: nat,
) -> Seq<(KnotFile, KnotFile)>
    decreases k,
{
    if k == 0 || k > rem.len() {
        Seq::<(KnotFile, KnotFile)>::empty()
    } else {
        let prev = conflicts_upto(src, sr, rem, rr, (k - 1) as nat);
        if is_conflict_at(src, sr, rem, rr, k - 1) {
            prev.push((file_map(src, sr)[rel_of(rem[k - 1], rr)], rem[k - 1]))
        } else {
            prev
        }
    }
}

/// A path is in the domain of the map exactly when some file has it.
pub proof fn lemma_file_map_dom(files: Seq<KnotFile>, root: Seq<char>, p: Seq<char>)
    ensures
        file_map(files, root).dom().contains(p) <==> exists|j: int|
            0 <= j < files.len() && rel_of(#[trigger] files[j], root) == p,
    decreases files.len(),
{
    if files.len() > 0 {
        let init = files.drop_last();
        lemma_file_map_dom(init, root, p);
        if file_map(init, root).dom().contains(p) {
            let j = choose|j: int| 0 <= j < init.len() && rel_of(#[trigger] init[j], root) == p;
            assert(files[j] == init[j]);
        }
        if exists|j: int| 0 <= j < files.len() && rel_of(#[trigger] files[j], root) == p {
            let j = choose|j: int| 0 <= j < files.len() && rel_of(#[trigger] files[j], root) == p;
            if j < files.len() - 1 {
                assert(init[j] == files[j]);
            }
        }
    }
}

/// The map keeps, for the path of the file at `j`, that file when no later
/// file has its path.
pub proof fn lemma_file_map_last(files: Seq<KnotFile>, root: Seq<char>, j: int)
    requires
        0 <= j < files.len(),
        is_last_of(files, root, j),
    ensures
        file_map(files, root).dom().contains(rel_of(files[j], root)),
        file_map(files, root)[rel_of(files[j], root)] == files[j],
    decreases files.len(),
{
    if j < files.len() - 1 {
        let init = files.drop_last();
        assert(init[j] == files[j]);
        assert forall|k: int| j < k < init.len() implies rel_of(init[k], root) != rel_of(
            init[j],
            root,
        ) by {
            assert(init[k] == files[k]);
        }
        lemma_file_map_last(init, root, j);
        assert(rel_of(files.last(), root) != rel_of(files[j], root));
    }
}


/// Among files with the relative path `p` (there is one), the last one.
pub proof fn lemma_last_with_path(files: Seq<KnotFile>, root: Seq<char>, p: Seq<char>) -> (i: int)
    requires
        exists|j: int| 0 <= j < files.len() && rel_of(#[trigger] files[j], root) == p,
    ensures
        0 <= i < files.len(),
        rel_of(files[i], root) == p,
        is_last_of(files, root, i),
    decreases files.len(),
{
    if rel_of(files.last(), root) == p {
        (files.len() - 1) as int
    } else {
        let init = files.drop_last();
        let j0 = choose|j: int| 0 <= j < files.len() && rel_of(#[trigger] files[j], root) == p;
        assert(init[j0] == files[j0]);
        let i = lemma_last_with_path(init, root, p);
        assert forall|k: int| i < k < files.len() implies rel_of(files[k], root) != rel_of(
            files[i],
            root,
        ) by {
            if k < init.len() {
                assert(init[k] == files[k]);
            }
        }
        assert(files[i] == init[i]);
        i
    }
}

proof fn lemma_source_unique_members(
    src: Seq<KnotFile>,
    sr: Seq<char>,
    rem: Seq<KnotFile>,
    rr: Seq<char>,
    k: nat,
    x: KnotFile,
)
    requires
        k <= src.len(),
    ensures
        source_unique_upto(src, sr, rem, rr, k).contains(x) <==> exists|i: int|
            0 <= i < k && keeps_source_unique(src, sr, rem, rr, i) && #[trigger] src[i] == x,
    decreases k,
{
    if k > 0 {
        lemma_source_unique_members(src, sr, rem, rr, (k - 1) as nat, x);
        let prev = source_unique_upto(src, sr, rem, rr, (k - 1) as nat);
        lemma_push_contains(prev, src[k - 1], x);
    }
}

/// Law: a file is reported as unique to the source exactly when it is the
/// file the source keeps for its relative path and the remote has no file
/// with that path.
pub proof fn lemma_source_unique_exact(
    src: Seq<KnotFile>,
    sr: Seq<char>,
    rem: Seq<KnotFile>,
    rr: Seq<char>,
    x: KnotFile,
)
    ensures
        source_unique_upto(src, sr, rem, rr, src.len()).contains(x) <==> {
            let p = rel_of(x, sr);
            &&& file_map(src, sr).dom().contains(p)
            &&& file_map(src, sr)[p] == x
            &&& !file_map(rem, rr).dom().contains(p)
        },
{
    let p = rel_of(x, sr);
    lemma_source_unique_members(src, sr, rem, rr, src.len(), x);
    if source_unique_upto(src, sr, rem, rr, src.len()).contains(x) {
        let i = choose|i: int|
            0 <= i < src.len() && keeps_source_unique(src, sr, rem, rr, i) && #[trigger] src[i]
                == x;
        lemma_file_map_last(src, sr, i);
    }
    if file_map(src, sr).dom().contains(p) && file_map(src, sr)[p] == x && !file_map(
        rem,
        rr,
    ).dom().contains(p) {
        lemma_file_map_dom(src, sr, p);
        let i = lemma_last_with_path(src, sr, p);
        lemma_file_map_last(src, sr, i);
        assert(keeps_source_unique(src, sr, rem, rr, i));
    }
}

proof fn lemma_remote_members(
    src: Seq<KnotFile>,
    sr: Seq<char>,
    rem: Seq<KnotFile>,
    rr: Seq<char>,
    k: nat,
    x: KnotFile,
)
    requires
        k <= rem.len(),
    ensures
        remote_unique_upto(src, sr, rem, rr, k).contains(x) <==> exists|i: int|
            0 <= i < k && is_remote_candidate(src, sr, rem, rr, i) && !is_archive_name(rem[i])
                && #[trigger] rem[i] == x,
        archived_upto(src, sr, rem, rr, k).contains(x) <==> exists|i: int|
            0 <= i < k && is_remote_candidate(src, sr, rem, rr, i) && is_archive_name(rem[i])
                && #[trigger] rem[i] == x,
    decreases k,
{
    if k > 0 {
        lemma_remote_members(src, sr, rem, rr, (k - 1) as nat, x);
        let y = rem[k - 1];
        let pu = remote_unique_upto(src, sr, rem, rr, (k - 1) as nat);
        let pa = archived_upto(src, sr, rem, rr, (k - 1) as nat);
        lemma_push_contains(pu, y, x);
        lemma_push_contains(pa, y, x);
    }
}

proof fn lemma_push_contains<A>(s: Seq<A>, y: A, x: A)
    ensures
        s.push(y).contains(x) <==> (s.contains(x) || y == x),
{
    if s.push(y).contains(x) {
        let j = choose|j: int| 0 <= j < s.len() + 1 && s.push(y)[j] == x;
        if j < s.len() {
            assert(s[j] == x);
        }
    }
    if s.contains(x) {
        let j = choose|j: int| 0 <= j < s.len() && s[j] == x;
        assert(s.push(y)[j] == x);
    }
    if y == x {
        assert(s.push(y)[s.len() as int] == x);
    }
}

/// Law: a file is reported as unique to the remote (or as archived) exactly
/// when it is the file the remote keeps for its relative path, the source has
/// no file with that path, it has a name, and that name does not (or does)
/// begin with the archive prefix.
pub proof fn lemma_remote_unique_exact(
    src: Seq<KnotFile>,
    sr: Seq<char>,
    rem: Seq<KnotFile>,
    rr: Seq<char>,
    x: KnotFile,
)
    ensures
        remote_unique_upto(src, sr, rem, rr, rem.len()).contains(x) <==> {
            let p = rel_of(x, rr);
            &&& file_map(rem, rr).dom().contains(p)
            &&& file_map(rem, rr)[p] == x
            &&& !file_map(src, sr).dom().contains(p)
            &&& has_name(x)
            &&& !is_archive_name(x)
        },
        archived_upto(src, sr, rem, rr, rem.len()).contains(x) <==> {
            let p = rel_of(x, rr);
            &&& file_map(rem, rr).dom().contains(p)
            &&& file_map(rem, rr)[p] == x
            &&& !file_map(src, sr).dom().contains(p)
            &&& is_archive_name(x)
        },
{
    let p = rel_of(x, rr);
    lemma_remote_members(src, sr, rem, rr, rem.len(), x);
    if remote_unique_upto(src, sr, rem, rr, rem.len()).contains(x) || archived_upto(
        src,
        sr,
        rem,
        rr,
        rem.len(),
    ).contains(x) {
        let i = choose|i: int|
            0 <= i < rem.len() && is_remote_candidate(src, sr, rem, rr, i) && #[trigger] rem[i]
                == x;
        lemma_file_map_last(rem, rr, i);
    }
    if file_map(rem, rr).dom().contains(p) && file_map(rem, rr)[p] == x && !file_map(
        src,
        sr,
    ).dom().contains(p) && has_name(x) {
        lemma_file_map_dom(rem, rr, p);
        let i = lemma_last_with_path(rem, rr, p);
        lemma_file_map_last(rem, rr, i);
        assert(is_remote_candidate(src, sr, rem, rr, i));
    }
}

proof fn lemma_conflict_members(
    src: Seq<KnotFile>,
    sr: Seq<char>,
    rem: Seq<KnotFile>,
    rr: Seq<char>,
    k: nat,
    x: (KnotFile, KnotFile),
)
    requires
        k <= rem.len(),
    ensures
        conflicts_upto(src, sr, rem, rr, k).contains(x) <==> exists|i: int|
            0 <= i < k && is_conflict_at(src, sr, rem, rr, i) && #[trigger] rem[i] == x.1 && x.0
                == file_map(src, sr)[rel_of(rem[i], rr)],
    decreases k,
{
    if k > 0 {
        lemma_conflict_members(src, sr, rem, rr, (k - 1) as nat, x);
        let prev = conflicts_upto(src, sr, rem, rr, (k - 1) as nat);
        lemma_push_contains(prev, (file_map(src, sr)[rel_of(rem[k - 1], rr)], rem[k - 1]), x);
    }
}

/// Law: a pair is reported as a conflict exactly when both sides have files
/// with one relative path, the pair holds the file each side keeps for it,
/// and their content hashes differ.
pub proof fn lemma_conflicts_exact(
    src: Seq<KnotFile>,
    sr: Seq<char>,
    rem: Seq<KnotFile>,
    rr: Seq<char>,
    x: (KnotFile, KnotFile),
)
    ensures
        conflicts_upto(src, sr, rem, rr, rem.len()).contains(x) <==> {
            let p = rel_of(x.1, rr);
            &&& file_map(rem, rr).dom().contains(p)
            &&& file_map(rem, rr)[p] == x.1
            &&& file_map(src, sr).dom().contains(p)
            &&& file_map(src, sr)[p] == x.0
            &&& x.0.content_hash != x.1.content_hash
        },
{
    let p = rel_of(x.1, rr);
    lemma_conflict_members(src, sr, rem, rr, rem.len(), x);
    if conflicts_upto(src, sr, rem, rr, rem.len()).contains(x) {
        let i = choose|i: int|
            0 <= i < rem.len() && is_conflict_at(src, sr, rem, rr, i) && #[trigger] rem[i] == x.1
                && x.0 == file_map(src, sr)[rel_of(rem[i], rr)];
        lemma_file_map_last(rem, rr, i);
    }
    if file_map(rem, rr).dom().contains(p) && file_map(rem, rr)[p] == x.1 && file_map(
        src,
        sr,
    ).dom().contains(p) && file_map(src, sr)[p] == x.0 && x.0.content_hash != x.1.content_hash {
        lemma_file_map_dom(rem, rr, p);
        let i = lemma_last_with_path(rem, rr, p);
        lemma_file_map_last(rem, rr, i);
        assert(is_conflict_at(src, sr, rem, rr, i));
    }
}

/// Law: comparing a folder with itself reports nothing: no unique files on
/// either side, no archived files and no conflicts.
pub proof fn lemma_diff_with_itself(files: Seq<KnotFile>, root: Seq<char>)
    ensures
        source_unique_upto(files, root, files, root, files.len()) == Seq::<KnotFile>::empty(),
        remote_unique_upto(files, root, files, root, files.len()) == Seq::<KnotFile>::empty(),
        archived_upto(files, root, files, root, files.len()) == Seq::<KnotFile>::empty(),
        conflicts_upto(files, root, files, root, files.len()) == Seq::<(KnotFile, KnotFile)>::empty(),
{
    lemma_diff_with_itself_upto(files, root, files.len());
}

proof fn lemma_diff_with_itself_upto(files: Seq<KnotFile>, root: Seq<char>, k: nat)
    requires
        k <= files.len(),
    ensures
        source_unique_upto(files, root, files, root, k) == Seq::<KnotFile>::empty(),
        remote_unique_upto(files, root, files, root, k) == Seq::<KnotFile>::empty(),
        archived_upto(files, root, files, root, k) == Seq::<KnotFile>::empty(),
        conflicts_upto(files, root, files, root, k) == Seq::<(KnotFile, KnotFile)>::empty(),
    decreases k,
{
    if k > 0 {
        lemma_diff_with_itself_upto(files, root, (k - 1) as nat);
        let i = k - 1;
        let p = rel_of(files[i], root);
        lemma_file_map_dom(files, root, p);
        assert(file_map(files, root).dom().contains(p));
        if is_last_of(files, root, i) {
            lemma_file_map_last(files, root, i);
        }
    }
}

/// The file the map keeps for a path has that path.
proof fn lemma_file_map_value(files: Seq<KnotFile>, root: Seq<char>, p: Seq<char>)
    requires
        file_map(files, root).dom().contains(p),
    ensures
        rel_of(file_map(files, root)[p], root) == p,
    decreases files.len(),
{
    if files.len() > 0 && rel_of(files.last(), root) != p {
        lemma_file_map_value(files.drop_last(), root, p);
    }
}

/// Files that all have names, none of them an archive name.
pub open spec fn plain_names(files: Seq<KnotFile>) -> bool {
    forall|i: int| 0 <= i < files.len() ==> has_name(#[trigger] files[i]) && !is_archive_name(files[i])
}

proof fn lemma_unique_swap_upto(
    src: Seq<KnotFile>,
    sr: Seq<char>,
    rem: Seq<KnotFile>,
    rr: Seq<char>,
    k: nat,
)
    requires
        plain_names(rem),
    ensures
        source_unique_upto(rem, rr, src, sr, k) == remote_unique_upto(src, sr, rem, rr, k),
        archived_upto(src, sr, rem, rr, k) == Seq::<KnotFile>::empty(),
    decreases k,
{
    if k > 0 && k <= rem.len() {
        lemma_unique_swap_upto(src, sr, rem, rr, (k - 1) as nat);
        assert(has_name(rem[k - 1]) && !is_archive_name(rem[k - 1]));
    }
}

/// The pairs with their two sides swapped.
pub open spec fn swapped_pairs(cs: Seq<(KnotFile, KnotFile)>) -> Seq<(KnotFile, KnotFile)> {
    cs.map_values(|x: (KnotFile, KnotFile)| (x.1, x.0))
}

/// No pair is reported twice as a conflict.
pub proof fn lemma_conflicts_distinct(
    src: Seq<KnotFile>,
    sr: Seq<char>,
    rem: Seq<KnotFile>,
    rr: Seq<char>,
    k: nat,
)
    requires
        k <= rem.len(),
    ensures
        conflicts_upto(src, sr, rem, rr, k).no_duplicates(),
    decreases k,
{
    if k > 0 {
        lemma_conflicts_distinct(src, sr, rem, rr, (k - 1) as nat);
        let prev = conflicts_upto(src, sr, rem, rr, (k - 1) as nat);
        if is_conflict_at(src, sr, rem, rr, k - 1) {
            let new = (file_map(src, sr)[rel_of(rem[k - 1], rr)], rem[k - 1]);
            lemma_conflict_members(src, sr, rem, rr, (k - 1) as nat, new);
            if prev.contains(new) {
                let i = choose|i: int|
                    0 <= i < k - 1 && is_conflict_at(src, sr, rem, rr, i) && #[trigger] rem[i]
                        == new.1 && new.0 == file_map(src, sr)[rel_of(rem[i], rr)];
                assert(rel_of(rem[k - 1], rr) != rel_of(rem[i], rr));
            }
            let all = prev.push(new);
            assert forall|a: int, b: int|
                0 <= a < all.len() && 0 <= b < all.len() && a != b implies all[a] != all[b] by {
                if a == prev.len() {
                    assert(all[b] == prev[b]);
                } else if b == prev.len() {
                    assert(all[a] == prev[a]);
                } else {
                    assert(all[a] == prev[a] && all[b] == prev[b]);
                }
            }
            assert(conflicts_upto(src, sr, rem, rr, k) == all);
        }
    }
}

/// Law: swapping the two sides of a comparison swaps its results: the files
/// unique to either side trade places (in the same order), the conflicts
/// are the same pairs with their sides swapped, each as many times (once),
/// and nothing is archived, when every file has a name and none has an
/// archive name.
pub proof fn lemma_swapping_sides(
    src: Seq<KnotFile>,
    sr: Seq<char>,
    rem: Seq<KnotFile>,
    rr: Seq<char>,
)
    requires
        plain_names(src),
        plain_names(rem),
    ensures
        source_unique_upto(rem, rr, src, sr, rem.len()) == remote_unique_upto(
            src,
            sr,
            rem,
            rr,
            rem.len(),
        ),
        remote_unique_upto(rem, rr, src, sr, src.len()) == source_unique_upto(
            src,
            sr,
            rem,
            rr,
            src.len(),
        ),
        archived_upto(src, sr, rem, rr, rem.len()) == Seq::<KnotFile>::empty(),
        archived_upto(rem, rr, src, sr, src.len()) == Seq::<KnotFile>::empty(),
        forall|x: (KnotFile, KnotFile)|
            #![trigger conflicts_upto(src, sr, rem, rr, rem.len()).contains(x)]
            conflicts_upto(src, sr, rem, rr, rem.len()).contains(x) <==> conflicts_upto(
                rem,
                rr,
                src,
                sr,
                src.len(),
            ).contains((x.1, x.0)),
        conflicts_upto(src, sr, rem, rr, rem.len()).to_multiset() == swapped_pairs(
            conflicts_upto(rem, rr, src, sr, src.len()),
        ).to_multiset(),
{
    lemma_unique_swap_upto(src, sr, rem, rr, rem.len());
    lemma_unique_swap_upto(rem, rr, src, sr, src.len());
    assert forall|x: (KnotFile, KnotFile)|
        #![trigger conflicts_upto(src, sr, rem, rr, rem.len()).contains(x)]
        conflicts_upto(src, sr, rem, rr, rem.len()).contains(x) <==> conflicts_upto(
            rem,
            rr,
            src,
            sr,
            src.len(),
        ).contains((x.1, x.0)) by {
        let y = (x.1, x.0);
        lemma_conflicts_exact(src, sr, rem, rr, x);
        lemma_conflicts_exact(rem, rr, src, sr, y);
        let p = rel_of(x.1, rr);
        let q = rel_of(x.0, sr);
        if conflicts_upto(src, sr, rem, rr, rem.len()).contains(x) {
            lemma_file_map_value(src, sr, p);
        }
        if conflicts_upto(rem, rr, src, sr, src.len()).contains(y) {
            lemma_file_map_value(rem, rr, q);
        }
    }
    let a = conflicts_upto(src, sr, rem, rr, rem.len());
    let b = conflicts_upto(rem, rr, src, sr, src.len());
    let f = |x: (KnotFile, KnotFile)| (x.1, x.0);
    let bs = swapped_pairs(b);
    assert(bs == b.map_values(f));
    lemma_conflicts_distinct(src, sr, rem, rr, rem.len());
    lemma_conflicts_distinct(rem, rr, src, sr, src.len());
    assert(vstd::relations::injective(f));
    b.lemma_no_duplicates_injective(f);
    a.lemma_multiset_has_no_duplicates();
    bs.lemma_multiset_has_no_duplicates();
    assert forall|x: (KnotFile, KnotFile)| a.to_multiset().count(x) == bs.to_multiset().count(x) by {
        broadcast use vstd::seq_lib::group_to_multiset_ensures;

        if bs.contains(x) {
            let i = choose|i: int| 0 <= i < bs.len() && bs[i] == x;
            assert(b[i] == (x.1, x.0));
            assert(b.contains((x.1, x.0)));
        }
        if b.contains((x.1, x.0)) {
            let i = choose|i: int| 0 <= i < b.len() && b[i] == (x.1, x.0);
            assert(bs[i] == x);
        }
        assert(a.contains(x) == bs.contains(x));
    }
    assert(a.to_multiset() =~= bs.to_multiset());
}

/// The paths of `files` relative to `root`.
fn relative_paths(files: &[KnotFile], root: &str) -> (r: Vec<String>)
    ensures
        r@.len() == files@.len(),
        forall|i: int| 0 <= i < files@.len() ==> (#[trigger] r@[i])@ == rel_of(files@[i], root@),
{
    let mut r: Vec<String> = Vec::new();
    let mut i: usize = 0;
    while i < files.len()
        invariant
            i <= files@.len(),
            r@.len() == i,
            forall|k: int| 0 <= k < i ==> (#[trigger] r@[k])@ == rel_of(files@[k], root@),
        decreases files@.len() - i,
    {
        r.push(files[i].relative_path(root));
        i = i + 1;
    }
    r
}

/// The last index at which `rels` holds `p`.
fn last_index_of(rels: &Vec<String>, p: &String) -> (r: Option<usize>)
    ensures
        match r {
            Some(j) => j < rels@.len() && rels@[j as int]@ == p@ && forall|k: int|
                j < k < rels@.len() ==> (#[trigger] rels@[k])@ != p@,
            None => forall|k: int| 0 <= k < rels@.len() ==> (#[trigger] rels@[k])@ != p@,
        },
{
    let mut n: usize = rels.len();
    while n > 0
        invariant
            n <= rels@.len(),
            forall|k: int| n <= k < rels@.len() ==> (#[trigger] rels@[k])@ != p@,
        decreases n,
    {
        if rels[n - 1] == *p {
            return Some(n - 1);
        }
        n = n - 1;
    }
    None
}

/// Whether the file at `i` is the last one with its relative path, and
/// whether the other side has a file with that path (its last index).
proof fn lemma_last_and_lookup(
    files: Seq<KnotFile>,
    root: Seq<char>,
    rels: Seq<String>,
    i: int,
    j: int,
)
    requires
        rels.len() == files.len(),
        forall|k: int| 0 <= k < files.len() ==> (#[trigger] rels[k])@ == rel_of(files[k], root),
        0 <= i <= j < files.len(),
        rels[j]@ == rels[i]@,
        forall|k: int| j < k < rels.len() ==> (#[trigger] rels[k])@ != rels[i]@,
    ensures
        is_last_of(files, root, i) <==> i == j,
        is_last_of(files, root, j),
{
    assert forall|k: int| j < k < files.len() implies rel_of(files[k], root) != rel_of(
        files[j],
        root,
    ) by {
        assert(rels[k]@ != rels[i]@);
    }
    if i != j {
        assert(rels[j]@ == rels[i]@);
        assert(rel_of(files[j], root) == rel_of(files[i], root));
    }
}

fn has_archive_prefix(name: &String) -> (r: bool)
    ensures
        r == ARCHIVE_PREFIX@.is_prefix_of(name@),
{
    let n = chars_of(name.as_str());
    let p = chars_of(ARCHIVE_PREFIX);
    starts_with_chars(n.as_slice(), p.as_slice())
}

impl FileDiffs {
    /// Compares the files of a source folder with those of a remote folder,
    /// matching them by their paths relative to `source_path` and
    /// `remote_path`. Of several files with one relative path, the last one
    /// counts; remote files without a name are left out.
    pub fn new(
        source_file: &[KnotFile],
        source_path: &str,
        remote_file: &[KnotFile],
        remote_path: &str,
    ) -> (r: Self)
        ensures
            r.source_unique@ == source_unique_upto(
                source_file@,
                source_path@,
                remote_file@,
                remote_path@,
                source_file@.len(),
            ),
            r.remote_unique@ == remote_unique_upto(
                source_file@,
                source_path@,
                remote_file@,
                remote_path@,
                remote_file@.len(),
            ),
            r.archived@ == archived_upto(
                source_file@,
                source_path@,
                remote_file@,
                remote_path@,
                remote_file@.len(),
            ),
            r.conflicts@ == conflicts_upto(
                source_file@,
                source_path@,
                remote_file@,
                remote_path@,
                remote_file@.len(),
            ),
            r.source_root_path@ == source_path@,
            r.remote_root_path@ == remote_path@,
    {
        let ghost src = source_file@;
        let ghost rem = remote_file@;
        let ghost sr = source_path@;
        let ghost rr = remote_path@;
        let src_rel = relative_paths(source_file, source_path);
        let rem_rel = relative_paths(remote_file, remote_path);

        let mut source_unique: Vec<KnotFile> = Vec::new();
        let mut i: usize = 0;
        while i < source_file.len()
            invariant
                src == source_file@,
                rem == remote_file@,
                sr == source_path@,
                rr == remote_path@,
                i <= src.len(),
                src_rel@.len() == src.len(),
                rem_rel@.len() == rem.len(),
                forall|k: int| 0 <= k < src.len() ==> (#[trigger] src_rel@[k])@ == rel_of(src[k], sr),
                forall|k: int| 0 <= k < rem.len() ==> (#[trigger] rem_rel@[k])@ == rel_of(rem[k], rr),
                source_unique@ == source_unique_upto(src, sr, rem, rr, i as nat),
            decreases src.len() - i,
        {
            let last = last_index_of(&src_rel, &src_rel[i]);
            let in_remote = last_index_of(&rem_rel, &src_rel[i]);
            proof {
                let p = rel_of(src[i as int], sr);
                let j = last->Some_0 as int;
                lemma_last_and_lookup(src, sr, src_rel@, i as int, j);
                lemma_file_map_dom(rem, rr, p);
                match in_remote {
                    Some(m) => {
                        assert(rel_of(rem[m as int], rr) == p);
                    },
                    None => {
                        assert forall|k: int| 0 <= k < rem.len() implies rel_of(
                            #[trigger] rem[k],
                            rr,
                        ) != p by {
                            assert(rem_rel@[k]@ != src_rel@[i as int]@);
                        }
                    },
                }
            }
            if last == Some(i) && in_remote.is_none() {
                source_unique.push(source_file[i].clone());
            }
            i = i + 1;
        }

        let mut remote_unique: Vec<KnotFile> = Vec::new();
        let mut archived: Vec<KnotFile> = Vec::new();
        let mut conflicts: Vec<(KnotFile, KnotFile)> = Vec::new();
        let mut i: usize = 0;
        while i < remote_file.len()
            invariant
                src == source_file@,
                rem == remote_file@,
                sr == source_path@,
                rr == remote_path@,
                i <= rem.len(),
                src_rel@.len() == src.len(),
                rem_rel@.len() == rem.len(),
                forall|k: int| 0 <= k < src.len() ==> (#[trigger] src_rel@[k])@ == rel_of(src[k], sr),
                forall|k: int| 0 <= k < rem.len() ==> (#[trigger] rem_rel@[k])@ == rel_of(rem[k], rr),
                remote_unique@ == remote_unique_upto(src, sr, rem, rr, i as nat),
                archived@ == archived_upto(src, sr, rem, rr, i as nat),
                conflicts@ == conflicts_upto(src, sr, rem, rr, i as nat),
            decreases rem.len() - i,
        {
            let last = last_index_of(&rem_rel, &rem_rel[i]);
            let in_source = last_index_of(&src_rel, &rem_rel[i]);
            let ghost p = rel_of(rem[i as int], rr);
            proof {
                let j = last->Some_0 as int;
                lemma_last_and_lookup(rem, rr, rem_rel@, i as int, j);
                lemma_file_map_dom(src, sr, p);
                match in_source {
                    Some(m) => {
                        assert(rel_of(src[m as int], sr) == p);
                        assert forall|k: int| m < k < src.len() implies rel_of(
                            #[trigger] src[k],
                            sr,
                        ) != rel_of(src[m as int], sr) by {
                            assert(src_rel@[k]@ != rem_rel@[i as int]@);
                        }
                        lemma_file_map_last(src, sr, m as int);
                    },
                    None => {
                        assert forall|k: int| 0 <= k < src.len() implies rel_of(
                            #[trigger] src[k],
                            sr,
                        ) != p by {
                            assert(src_rel@[k]@ != rem_rel@[i as int]@);
                        }
                    },
                }
            }
            if last == Some(i) {
                match in_source {
                    None => {
                        match remote_file[i].name() {
                            Ok(name) => {
                                if has_archive_prefix(&name) {
                                    archived.push(remote_file[i].clone());
                                } else {
                                    remote_unique.push(remote_file[i].clone());
                                }
                            },
                            Err(_) => {},
                        }
                    },
                    Some(m) => {
                        if source_file[m].content_hash != remote_file[i].content_hash {
                            conflicts.push((source_file[m].clone(), remote_file[i].clone()));
                        }
                    },
                }
            }
            i = i + 1;
        }
        FileDiffs {
            source_unique,
            remote_unique,
            conflicts,
            archived,
            source_root_path: source_path.to_string(),
            remote_root_path: remote_path.to_string(),
        }
    }
}

} // verus!
