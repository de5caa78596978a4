//! The configuration of a workspace: what is synchronised and how.
use vstd::prelude::*;

pub mod behavior;
pub mod loader;

use crate::ignorer::{
    built_from, empty_gitignore, ignorer_builds, make_git_ignore, matcher_lines, matcher_root,
};
use crate::cli::dashboard::drawing::append_chars;
use crate::error::KnotError;
use crate::text::{decimal_string, decimal_text, human_bytes, human_bytes_text, string_of};
use ignore::gitignore::Gitignore;

verus! {

/// Optional features.
#[derive(Debug, Clone, Copy, PartialEq, Eq, Structural)]
pub struct FeatureConfig {
    pub caching: bool,
    pub gitignore: bool,
    pub compress: bool,
}

impl Default for FeatureConfig {
    /// Caching and the `.gitignore` file are used, compression is not.
    fn default() -> (r: Self)
        ensures
            r == (FeatureConfig { caching: true, gitignore: true, compress: false }),
    {
        FeatureConfig { caching: true, gitignore: true, compress: false }
    }
}

/// Settings that are still being tried out.
#[derive(Debug, Clone, Copy, PartialEq, Eq, Structural)]
pub struct ExperimentalConfig {
    /// Synchronise with several remote knots at once: faster, at the price of
    /// a broken display and possible races.
    pub async_sync: bool,
}

impl Default for ExperimentalConfig {
    fn default() -> (r: Self)
        ensures
            r == (ExperimentalConfig { async_sync: false }),
    {
        ExperimentalConfig { async_sync: false }
    }
}

/// How much work is done at once, and which files are too large. The
/// program makes the semaphore of `task_limit` permits that bounds the tasks.
#[derive(Debug, Clone, Copy, PartialEq, Eq, Structural)]
pub struct PerformanceConfig {
    pub task_limit: u64,
    pub size_limit: u64,
    pub allow_size_limit: bool,
}

/// Fifteen gibibytes.
pub const DEFAULT_SIZE_LIMIT: u64 = 16106127360;

/// A thousand tasks at once.
pub const DEFAULT_TASK_LIMIT: u64 = 1000;

impl PerformanceConfig {
    pub fn new(size_limit: u64, task_limit: u64, allow_size_limit: bool) -> (r: Self)
        ensures
            r == (PerformanceConfig { task_limit, size_limit, allow_size_limit }),
    {
        PerformanceConfig { size_limit, task_limit, allow_size_limit }
    }
}

impl Default for PerformanceConfig {
    /// The size limit is off (15 GiB when turned on); a thousand tasks at once.
    fn default() -> (r: Self)
        ensures
            r == (PerformanceConfig {
                task_limit: 1000,
                size_limit: (15 * 1024 * 1024 * 1024) as u64,
                allow_size_limit: false,
            }),
    {
        PerformanceConfig {
            size_limit: DEFAULT_SIZE_LIMIT,
            task_limit: DEFAULT_TASK_LIMIT,
            allow_size_limit: false,
        }
    }
}

/// Settings that hold for every knot: the ignore patterns and the matcher
/// made of them.
pub struct GlobalConfig {
    pub ignorer: Gitignore,
    pub ignore_patterns: Vec<String>,
}

impl GlobalConfig {
    /// No patterns, and a matcher that ignores nothing.
    pub fn new() -> (r: Self)
        ensures
            r.ignore_patterns@.len() == 0,
            matcher_lines(r.ignorer).len() == 0,
            matcher_root(r.ignorer) == Some(""@),
    {
        GlobalConfig { ignorer: empty_gitignore(), ignore_patterns: Vec::new() }
    }

    /// The same patterns with `ignorer` as their matcher.
    pub fn ignorer(self, ignorer: Gitignore) -> (r: Self)
        ensures
            r.ignore_patterns@ == self.ignore_patterns@,
            r.ignorer == ignorer,
    {
        GlobalConfig { ignorer, ignore_patterns: self.ignore_patterns }
    }
}

/// The whole configuration of a workspace.
pub struct MainConfig {
    pub config_path: String,
    pub global: GlobalConfig,
    pub performance: PerformanceConfig,
    pub features: FeatureConfig,
}

/// The strings of `v`, each as it first appears, in order.
pub open spec fn dedup_spec(v: Seq<Seq<char>>) -> Seq<Seq<char>>
    decreases v.len(),
{
    if v.len() == 0 {
        Seq::<Seq<char>>::empty()
    } else {
        let prev = dedup_spec(v.drop_last());
        if prev.contains(v.last()) {
            prev
        } else {
            prev.push(v.last())
        }
    }
}

pub open spec fn strings_view(v: Seq<String>) -> Seq<Seq<char>> {
    v.map_values(|s: String| s@)
}

/// The patterns without repetitions: each kept where it first appears.
pub fn remove_duplicates(patterns: &Vec<String>) -> (r: Vec<String>)
    ensures
        strings_view(r@) == dedup_spec(strings_view(patterns@)),
{
    let mut r: Vec<String> = Vec::new();
    let mut i: usize = 0;
    while i < patterns.len()
        invariant
            i <= patterns@.len(),
            strings_view(r@) == dedup_spec(strings_view(patterns@.take(i as int))),
        decreases patterns@.len() - i,
    {
        proof {
            assert(strings_view(patterns@.take(i + 1)).drop_last() =~= strings_view(
                patterns@.take(i as int),
            ));
            assert(strings_view(patterns@.take(i + 1)).last() == patterns@[i as int]@);
        }
        let mut seen = false;
        let mut j: usize = 0;
        while j < r.len()
            invariant
                j <= r@.len(),
                i < patterns@.len(),
                seen == (exists|k: int| 0 <= k < j && r@[k]@ == patterns@[i as int]@),
            decreases r@.len() - j,
        {
            if r[j] == patterns[i] {
                seen = true;
            }
            j = j + 1;
        }
        let ghost before = strings_view(r@);
        proof {
            if seen {
                let k = choose|k: int| 0 <= k < r@.len() && r@[k]@ == patterns@[i as int]@;
                assert(before[k] == patterns@[i as int]@);
            } else {
                assert forall|k: int| 0 <= k < before.len() implies before[k] != patterns@[i as int]@ by {
                    assert(before[k] == r@[k]@);
                }
            }
        }
        if !seen {
            r.push(patterns[i].clone());
            proof {
                assert(strings_view(r@) =~= before.push(patterns@[i as int]@));
            }
        }
        i = i + 1;
    }
    proof {
        assert(patterns@.take(patterns@.len() as int) =~= patterns@);
    }
    r
}

/// Law: the patterns kept have no repetition and are all among the given ones.
pub proof fn lemma_dedup_distinct(v: Seq<Seq<char>>)
    ensures
        forall|a: int, b: int|
            0 <= a < b < dedup_spec(v).len() ==> dedup_spec(v)[a] != dedup_spec(v)[b],
        forall|a: int| 0 <= a < dedup_spec(v).len() ==> v.contains(#[trigger] dedup_spec(v)[a]),
        forall|a: int| 0 <= a < v.len() ==> dedup_spec(v).contains(#[trigger] v[a]),
    decreases v.len(),
{
    if v.len() > 0 {
        lemma_dedup_distinct(v.drop_last());
        let prev = dedup_spec(v.drop_last());
        assert forall|a: int| 0 <= a < dedup_spec(v).len() implies v.contains(
            #[trigger] dedup_spec(v)[a],
        ) by {
            if a < prev.len() {
                assert(v.drop_last().contains(prev[a]));
                let w = choose|w: int| 0 <= w < v.drop_last().len() && v.drop_last()[w] == prev[a];
                assert(v[w] == prev[a]);
            } else {
                assert(v[v.len() - 1] == dedup_spec(v)[a]);
            }
        }
        assert forall|a: int| 0 <= a < v.len() implies dedup_spec(v).contains(#[trigger] v[a]) by {
            if a < v.len() - 1 {
                assert(v.drop_last()[a] == v[a]);
                assert(prev.contains(v[a]));
                let w = choose|w: int| 0 <= w < prev.len() && prev[w] == v[a];
                assert(dedup_spec(v)[w] == v[a]);
            } else if !prev.contains(v.last()) {
                assert(dedup_spec(v)[prev.len() as int] == v[a]);
            }
        }
    }
}

impl MainConfig {
    /// No path, no ignore patterns, the default performance, and every feature
    /// off (no caching, no `.gitignore` file, no compression).
    pub fn new() -> (r: Self)
        ensures
            r.config_path@.len() == 0,
            r.global.ignore_patterns@.len() == 0,
            r.performance == (PerformanceConfig {
                task_limit: 1000,
                size_limit: (15 * 1024 * 1024 * 1024) as u64,
                allow_size_limit: false,
            }),
            r.features == (FeatureConfig { caching: false, gitignore: false, compress: false }),
            matcher_lines(r.global.ignorer).len() == 0,
            matcher_root(r.global.ignorer) == Some(""@),
    {
        MainConfig {
            config_path: String::new(),
            global: GlobalConfig::new(),
            performance: PerformanceConfig::default(),
            features: FeatureConfig { caching: false, gitignore: false, compress: false },
        }
    }

    pub fn config_path(self, path: String) -> (r: Self)
        ensures
            r.config_path == path,
            r.global.ignore_patterns@ == self.global.ignore_patterns@,
            r.performance == self.performance,
            r.features == self.features,
    {
        MainConfig { config_path: path, ..self }
    }

    /// The ignore patterns, without repetitions, and the matcher made of
    /// them (with the lines of the `.gitignore` file at `gitignore` first,
    /// when given); fails on a pattern the matcher cannot read.
    pub fn ignorer(
        self,
        patterns: &Vec<String>,
        gitignore: Option<(String, Vec<String>)>,
    ) -> (r: Result<Self, KnotError>)
        ensures
            r matches Ok(c) ==> strings_view(c.global.ignore_patterns@) == dedup_spec(
                strings_view(patterns@),
            ) && c.performance == self.performance && c.features == self.features
                && c.config_path == self.config_path,
            r matches Err(e) ==> e matches KnotError::InvalidIgnorePattern { .. },
            r is Ok <==> ignorer_builds(dedup_spec(strings_view(patterns@)), gitignore),
            r matches Ok(c) ==> built_from(
                c.global.ignorer,
                strings_view(c.global.ignore_patterns@),
                gitignore,
            ),
    {
        let unique = remove_duplicates(patterns);
        match make_git_ignore(&unique, gitignore) {
            Ok(g) => Ok(
                MainConfig {
                    config_path: self.config_path,
                    global: GlobalConfig { ignorer: g, ignore_patterns: unique },
                    performance: self.performance,
                    features: self.features,
                },
            ),
            Err(e) => Err(e),
        }
    }

    /// Bounds the tasks that run at once.
    pub fn task_limit(self, limit: u64) -> (r: Self)
        ensures
            r.performance == (PerformanceConfig { task_limit: limit, ..self.performance }),
            r.features == self.features,
            r.config_path == self.config_path,
            r.global.ignore_patterns@ == self.global.ignore_patterns@,
    {
        MainConfig { performance: PerformanceConfig { task_limit: limit, ..self.performance }, ..self }
    }

    /// Files larger than `limit` are left out (when the limit is allowed).
    pub fn file_size_limit(self, limit: u64) -> (r: Self)
        ensures
            r.performance == (PerformanceConfig { size_limit: limit, ..self.performance }),
            r.features == self.features,
            r.config_path == self.config_path,
            r.global.ignore_patterns@ == self.global.ignore_patterns@,
    {
        MainConfig { performance: PerformanceConfig { size_limit: limit, ..self.performance }, ..self }
    }

    pub fn allow_size_limit(self, allow: bool) -> (r: Self)
        ensures
            r.performance == (PerformanceConfig { allow_size_limit: allow, ..self.performance }),
            r.features == self.features,
            r.config_path == self.config_path,
            r.global.ignore_patterns@ == self.global.ignore_patterns@,
    {
        MainConfig {
            performance: PerformanceConfig { allow_size_limit: allow, ..self.performance },
            ..self
        }
    }

    /// Caches the structure of the folder so that the next check is faster.
    pub fn caching(self, should: bool) -> (r: Self)
        ensures
            r.features == (FeatureConfig { caching: should, ..self.features }),
            r.performance == self.performance,
            r.config_path == self.config_path,
            r.global.ignore_patterns@ == self.global.ignore_patterns@,
    {
        MainConfig { features: FeatureConfig { caching: should, ..self.features }, ..self }
    }

    /// Compresses what goes to and comes from a remote.
    pub fn compress(self, should: bool) -> (r: Self)
        ensures
            r.features == (FeatureConfig { compress: should, ..self.features }),
            r.performance == self.performance,
            r.config_path == self.config_path,
            r.global.ignore_patterns@ == self.global.ignore_patterns@,
    {
        MainConfig { features: FeatureConfig { compress: should, ..self.features }, ..self }
    }

    /// Uses the source knot's `.gitignore` file.
    pub fn gitignore(self, should: bool) -> (r: Self)
        ensures
            r.features == (FeatureConfig { gitignore: should, ..self.features }),
            r.performance == self.performance,
            r.config_path == self.config_path,
            r.global.ignore_patterns@ == self.global.ignore_patterns@,
    {
        MainConfig { features: FeatureConfig { gitignore: should, ..self.features }, ..self }
    }
}

/// New ignore patterns given while some are kept: taken as they are when
/// none were kept, appended to the kept ones or put in their place on the
/// user's choice, and ignored when there are none.
pub open spec fn merged_patterns_spec(current: Seq<Seq<char>>, new: Seq<Seq<char>>, append: bool) -> Seq<Seq<char>> {
    if current.len() == 0 {
        new
    } else if new.len() == 0 {
        current
    } else if append {
        current + new
    } else {
        new
    }
}

pub fn merge_ignore_patterns(current: &mut Vec<String>, new: Vec<String>, append: bool)
    ensures
        strings_view(final(current)@) == merged_patterns_spec(
            strings_view(old(current)@),
            strings_view(new@),
            append,
        ),
{
    if current.len() == 0 {
        *current = new;
    } else if new.len() > 0 {
        if append {
            let mut new = new;
            let ghost a = strings_view(current@);
            let ghost b = strings_view(new@);
            current.append(&mut new);
            proof {
                assert(strings_view(current@) =~= a + b);
            }
        } else {
            *current = new;
        }
    }
}


/// How a switch is shown in the summary of a configuration.
pub open spec fn status_text(on: bool) -> Seq<char> {
    if on {
        "ENABLED"@
    } else {
        "DISABLED"@
    }
}

/// The summary of a configuration, with the size limit written as
/// `size_text` (a size in readable units).
pub open spec fn summary_spec(c: MainConfig, size_text: Seq<char>) -> Seq<char> {
    "=== Configuration Summary ===\nConfig File: "@ + c.config_path@ + "\n\n[Features]\n  Caching:          "@
        + status_text(c.features.caching) + "\n  Gitignore:        "@ + status_text(
        c.features.gitignore,
    ) + "\n  Compress:         "@ + status_text(c.features.compress)
        + "\n\n[Performance]\n  Task Limit:       "@ + decimal_text(c.performance.task_limit as nat)
        + "\n  Limit file size:  "@ + status_text(c.performance.allow_size_limit)
        + "\n  Size Limit:       "@ + size_text + "\n"@
}

fn status_str(on: bool) -> (r: &'static str)
    ensures
        r@ == status_text(on),
{
    if on {
        "ENABLED"
    } else {
        "DISABLED"
    }
}

impl MainConfig {
    /// The summary of the configuration, the size limit in readable binary
    /// units (as `indicatif::HumanBytes` writes it).
    pub fn summary(&self) -> (r: String)
        ensures
            r@ == summary_spec(*self, human_bytes_text(self.performance.size_limit)),
    {
        let size_text = human_bytes(self.performance.size_limit);
        self.summary_with(size_text.as_str())
    }

    /// The summary of the configuration: its file, its features and its
    /// performance settings, the size limit written as `size_text`.
    pub fn summary_with(&self, size_text: &str) -> (r: String)
        ensures
            r@ == summary_spec(*self, size_text@),
    {
        let mut out: Vec<char> = Vec::new();
        append_chars(&mut out, "=== Configuration Summary ===\nConfig File: ");
        append_chars(&mut out, self.config_path.as_str());
        append_chars(&mut out, "\n\n[Features]\n  Caching:          ");
        append_chars(&mut out, status_str(self.features.caching));
        append_chars(&mut out, "\n  Gitignore:        ");
        append_chars(&mut out, status_str(self.features.gitignore));
        append_chars(&mut out, "\n  Compress:         ");
        append_chars(&mut out, status_str(self.features.compress));
        append_chars(&mut out, "\n\n[Performance]\n  Task Limit:       ");
        append_chars(&mut out, decimal_string(self.performance.task_limit).as_str());
        append_chars(&mut out, "\n  Limit file size:  ");
        append_chars(&mut out, status_str(self.performance.allow_size_limit));
        append_chars(&mut out, "\n  Size Limit:       ");
        append_chars(&mut out, size_text);
        append_chars(&mut out, "\n");
        proof {
            assert(out@ =~= summary_spec(*self, size_text@));
        }
        string_of(out.as_slice())
    }
}

} // verus!
