//! What a crawl of a local folder keeps of each entry it walks over, how
//! file contents are hashed, and what the cache of hashes holds.
use vstd::prelude::*;

use crate::knot::file::KnotFile;
use crate::paths::file_name_spec;
use crate::text::chars_of;
use crate::TEMPORAL_SUFFIX;

verus! {

/// What the walk knows of an entry.
pub struct EntryInfo {
    pub path: String,
    pub is_dir: bool,
    pub is_file: bool,
    /// Size in bytes.
    pub len: u64,
    /// Modification time in seconds since the epoch.
    pub mtime: i64,
}

/// What becomes of an entry.
pub enum CrawlStep {
    /// A temporary file left by an interrupted transfer: it is removed.
    RemoveTemporal,
    /// The entry is left out (not a directory or a file, or too large).
    Skip,
    /// The entry is kept as it is (a directory, or a file whose hash is in
    /// the cache).
    Keep(KnotFile),
    /// The file is kept once its content is hashed.
    Hash(KnotFile),
}

/// The entry is a temporary file: its name ends with the temporary suffix.
pub open spec fn is_temporal(path: Seq<char>) -> bool {
    match file_name_spec(path) {
        Some(n) => TEMPORAL_SUFFIX@.is_suffix_of(n),
        None => false,
    }
}

/// Where an entry goes: temporary files are removed; directories are kept;
/// files within the size limit (when one is allowed) are kept with the
/// cached hash, or hashed when none is cached; anything else is left out.
pub open spec fn crawl_step_spec(
    e: EntryInfo,
    allow_size_limit: bool,
    size_limit: u64,
    cached: Option<u64>,
) -> CrawlStep {
    let f = KnotFile { path: e.path, content_hash: None, is_dir: e.is_dir, mtime: e.mtime };
    if is_temporal(e.path@) {
        CrawlStep::RemoveTemporal
    } else if e.is_dir {
        CrawlStep::Keep(f)
    } else if e.is_file && (!allow_size_limit || e.len <= size_limit) {
        match cached {
            Some(h) => CrawlStep::Keep(KnotFile { content_hash: Some(h), ..f }),
            None => CrawlStep::Hash(f),
        }
    } else {
        CrawlStep::Skip
    }
}

fn ends_with_chars(s: &Vec<char>, suffix: &Vec<char>) -> (r: bool)
    ensures
        r == suffix@.is_suffix_of(s@),
{
    if suffix.len() > s.len() {
        return false;
    }
    let off = s.len() - suffix.len();
    let mut i: usize = 0;
    while i < suffix.len()
        invariant
            i <= suffix@.len(),
            off + suffix@.len() == s@.len(),
            suffix@.len() == suffix.len(),
            s@.len() == s.len(),
            forall|j: int| 0 <= j < i ==> suffix@[j] == s@[off + j],
        decreases suffix@.len() - i,
    {
        if suffix[i] != s[off + i] {
            proof {
                assert(s@.subrange(off as int, s@.len() as int)[i as int] != suffix@[i as int]);
            }
            return false;
        }
        i = i + 1;
    }
    proof {
        assert(s@.subrange(off as int, s@.len() as int) =~= suffix@);
    }
    true
}

pub fn crawl_step(e: EntryInfo, allow_size_limit: bool, size_limit: u64, cached: Option<u64>) -> (r:
    CrawlStep)
    ensures
        r == crawl_step_spec(e, allow_size_limit, size_limit, cached),
{
    let temporal = match crate::paths::file_name_of(e.path.as_str()) {
        Some(n) => ends_with_chars(&chars_of(n.as_str()), &chars_of(TEMPORAL_SUFFIX)),
        None => false,
    };
    if temporal {
        return CrawlStep::RemoveTemporal;
    }
    let f = KnotFile { path: e.path, content_hash: None, is_dir: e.is_dir, mtime: e.mtime };
    if e.is_dir {
        CrawlStep::Keep(f)
    } else if e.is_file && (!allow_size_limit || e.len <= size_limit) {
        match cached {
            Some(h) => CrawlStep::Keep(KnotFile { content_hash: Some(h), ..f }),
            None => CrawlStep::Hash(f),
        }
    } else {
        CrawlStep::Skip
    }
}

/// The file once hashed: kept with its hash, or left out when its content
/// could not be read (`None`).
pub fn finish_hash(f: KnotFile, hash: Option<u64>) -> (r: Option<KnotFile>)
    ensures
        r == match hash {
            Some(h) => Some(KnotFile { content_hash: Some(h), ..f }),
            None => None::<KnotFile>,
        },
{
    match hash {
        Some(h) => Some(KnotFile { content_hash: Some(h), ..f }),
        None => None,
    }
}

/// The cache is written when caching is on and a file had to be hashed.
pub fn should_save_cache(caching: bool, hashed_any: bool) -> (r: bool)
    ensures
        r == (caching && hashed_any),
{
    caching && hashed_any
}

/// The XXH3 64-bit hash (seed 0) of some bytes.
pub uninterp spec fn xxh3_64_of(data: Seq<u8>) -> u64;

/// Calls `xxhash_rust::xxh3::xxh3_64`, whose value depends on the bytes
/// alone; it is what a streaming `Xxh3` hasher gives over the same bytes.
#[verifier::external_body]
fn xxh3_64_call(data: &[u8]) -> (r: u64)
    ensures
        r == xxh3_64_of(data@),
{
    xxhash_rust::xxh3::xxh3_64(data)
}

/// The content hash of a file with these bytes.
pub fn content_hash(data: &[u8]) -> (r: u64)
    ensures
        r == xxh3_64_of(data@),
{
    xxh3_64_call(data)
}

/// The files the cache of hashes holds: those with a hash.
pub open spec fn cache_entries_spec(files: Seq<KnotFile>) -> Seq<KnotFile>
    decreases files.len(),
{
    if files.len() == 0 {
        files
    } else {
        let prev = cache_entries_spec(files.drop_last());
        if files.last().content_hash is Some {
            prev.push(files.last())
        } else {
            prev
        }
    }
}

pub fn cache_entries(files: &Vec<KnotFile>) -> (r: Vec<KnotFile>)
    ensures
        r@ == cache_entries_spec(files@),
{
    let mut r: Vec<KnotFile> = Vec::new();
    let mut i: usize = 0;
    while i < files.len()
        invariant
            i <= files@.len(),
            r@ == cache_entries_spec(files@.take(i as int)),
        decreases files@.len() - i,
    {
        proof {
            assert(files@.take(i + 1).drop_last() =~= files@.take(i as int));
            assert(files@.take(i + 1).last() == files@[i as int]);
        }
        if files[i].content_hash.is_some() {
            r.push(files[i].clone());
        }
        i = i + 1;
    }
    proof {
        assert(files@.take(files@.len() as int) =~= files@);
    }
    r
}

/// The hash the cache holds for `path`: that of the last entry with the
/// path (a later entry replaces an earlier one).
pub open spec fn cached_hash_spec(entries: Seq<KnotFile>, path: Seq<char>) -> Option<u64>
    decreases entries.len(),
{
    if entries.len() == 0 {
        None
    } else if entries.last().path@ == path {
        entries.last().content_hash
    } else {
        cached_hash_spec(entries.drop_last(), path)
    }
}

pub fn cached_hash(entries: &Vec<KnotFile>, path: &String) -> (r: Option<u64>)
    ensures
        r == cached_hash_spec(entries@, path@),
{
    let mut i: usize = entries.len();
    proof {
        assert(entries@.take(entries@.len() as int) =~= entries@);
    }
    while i > 0
        invariant
            i <= entries@.len(),
            cached_hash_spec(entries@, path@) == cached_hash_spec(entries@.take(i as int), path@),
        decreases i,
    {
        proof {
            assert(entries@.take(i as int).drop_last() =~= entries@.take(i - 1));
            assert(entries@.take(i as int).last() == entries@[i - 1]);
        }
        if entries[i - 1].path == *path {
            return entries[i - 1].content_hash;
        }
        i = i - 1;
    }
    None
}


/// The cache of files none of which has the path holds nothing for it.
pub proof fn lemma_cache_misses(files: Seq<KnotFile>, p: Seq<char>)
    requires
        forall|j: int| 0 <= j < files.len() ==> (#[trigger] files[j]).path@ != p,
    ensures
        cached_hash_spec(cache_entries_spec(files), p) is None,
    decreases files.len(),
{
    if files.len() > 0 {
        let prefix = files.drop_last();
        assert forall|j: int| 0 <= j < prefix.len() implies (#[trigger] prefix[j]).path@ != p by {
            assert(prefix[j] == files[j]);
        }
        lemma_cache_misses(prefix, p);
        assert(files.last() == files[files.len() - 1]);
        let c = cache_entries_spec(prefix);
        if files.last().content_hash is Some {
            assert(cache_entries_spec(files) == c.push(files.last()));
            assert(c.push(files.last()).drop_last() =~= c);
            assert(c.push(files.last()).last() == files.last());
        } else {
            assert(cache_entries_spec(files) == c);
        }
    }
}

/// Law: the cache gives back what a crawl wrote into it. For a crawled file
/// whose path no other crawled file has, the cache made of the crawl holds
/// exactly its hash (nothing when it was not hashed).
pub proof fn lemma_cache_round_trip(files: Seq<KnotFile>, i: int)
    requires
        0 <= i < files.len(),
        forall|j: int| 0 <= j < files.len() && j != i ==> (#[trigger] files[j]).path@ != files[i].path@,
    ensures
        cached_hash_spec(cache_entries_spec(files), files[i].path@) == files[i].content_hash,
    decreases files.len(),
{
    let prefix = files.drop_last();
    let p = files[i].path@;
    let c = cache_entries_spec(prefix);
    assert(files.last() == files[files.len() - 1]);
    if files.last().content_hash is Some {
        assert(cache_entries_spec(files) == c.push(files.last()));
        assert(c.push(files.last()).drop_last() =~= c);
        assert(c.push(files.last()).last() == files.last());
    } else {
        assert(cache_entries_spec(files) == c);
    }
    if i == files.len() - 1 {
        if files.last().content_hash is None {
            assert forall|j: int| 0 <= j < prefix.len() implies (#[trigger] prefix[j]).path@ != p by {
                assert(prefix[j] == files[j]);
            }
            lemma_cache_misses(prefix, p);
        }
    } else {
        assert(prefix[i] == files[i]);
        assert forall|j: int| 0 <= j < prefix.len() && j != i implies (#[trigger] prefix[j]).path@
            != prefix[i].path@ by {
            assert(prefix[j] == files[j]);
        }
        lemma_cache_round_trip(prefix, i);
    }
}


/// Law: a file larger than an enabled size limit is left out, whatever the
/// cache holds for it; and the cache never decides whether an entry is
/// kept: with or without a cached hash the step keeps, hashes or leaves out
/// the same entries, and a kept file carries the cached hash.
pub proof fn lemma_size_limit_beats_cache(
    e: EntryInfo,
    allow_size_limit: bool,
    size_limit: u64,
    cached: Option<u64>,
)
    ensures
        !is_temporal(e.path@) && !e.is_dir && allow_size_limit && e.len > size_limit
            ==> crawl_step_spec(e, allow_size_limit, size_limit, cached) is Skip,
        (crawl_step_spec(e, allow_size_limit, size_limit, cached) is Skip) == (crawl_step_spec(
            e,
            allow_size_limit,
            size_limit,
            None,
        ) is Skip),
        (crawl_step_spec(e, allow_size_limit, size_limit, None) is Hash) ==> match cached {
            Some(h) => crawl_step_spec(e, allow_size_limit, size_limit, cached) == CrawlStep::Keep(
                KnotFile { content_hash: Some(h), path: e.path, is_dir: e.is_dir, mtime: e.mtime },
            ),
            None => crawl_step_spec(e, allow_size_limit, size_limit, cached) is Hash,
        },
{
}

/// Two crawls found the same files: the same paths, hashes, kinds and
/// modification times, in the same order.
pub open spec fn same_crawl(a: Seq<KnotFile>, b: Seq<KnotFile>) -> bool {
    &&& a.len() == b.len()
    &&& forall|i: int|
        0 <= i < a.len() ==> (#[trigger] a[i]).path@ == b[i].path@ && a[i].content_hash
            == b[i].content_hash && a[i].is_dir == b[i].is_dir && a[i].mtime == b[i].mtime
}

/// Whether two crawls (both in the same order) found the same files.
pub fn crawls_match(a: &Vec<KnotFile>, b: &Vec<KnotFile>) -> (r: bool)
    ensures
        r == same_crawl(a@, b@),
{
    if a.len() != b.len() {
        return false;
    }
    let mut i: usize = 0;
    while i < a.len()
        invariant
            a@.len() == b@.len(),
            i <= a@.len(),
            forall|j: int|
                0 <= j < i ==> (#[trigger] a@[j]).path@ == b@[j].path@ && a@[j].content_hash
                    == b@[j].content_hash && a@[j].is_dir == b@[j].is_dir && a@[j].mtime
                    == b@[j].mtime,
        decreases a@.len() - i,
    {
        let x = &a[i];
        let y = &b[i];
        let same_path = crate::text::chars_eq(
            chars_of(x.path.as_str()).as_slice(),
            chars_of(y.path.as_str()).as_slice(),
        );
        if !same_path || x.content_hash != y.content_hash || x.is_dir != y.is_dir || x.mtime
            != y.mtime {
            return false;
        }
        i = i + 1;
    }
    true
}

/// What a folder watcher does after a new crawl.
#[derive(Debug, Clone, Copy, PartialEq, Eq, Structural)]
pub enum WatchAction {
    /// The folder changed: the new crawl is remembered, and a sync waits
    /// until the folder settles.
    Remember,
    /// The folder settled after a change: it is synced.
    Sync,
    /// Nothing changed since the last sync.
    Wait,
}

/// The watcher's step: a crawl that differs from the last one is
/// remembered and leaves a change pending; an unchanged crawl with a change
/// pending starts a sync and clears it; otherwise the watcher waits. The
/// second value is whether a change is pending afterwards.
pub fn watch_step(changed: bool, pending: bool) -> (r: (WatchAction, bool))
    ensures
        r == (if changed {
            (WatchAction::Remember, true)
        } else if pending {
            (WatchAction::Sync, false)
        } else {
            (WatchAction::Wait, false)
        }),
{
    if changed {
        (WatchAction::Remember, true)
    } else if pending {
        (WatchAction::Sync, false)
    } else {
        (WatchAction::Wait, false)
    }
}

} // verus!
