//! The matcher of ignored files, built with the `ignore` crate from the
//! patterns of a workspace and the lines of a `.gitignore` file.
use vstd::prelude::*;

use crate::configuration::strings_view;
use crate::error::KnotError;
use crate::paths::{path_starts_with, relative_path_of, relative_path_spec, starts_with_path};
use crate::text::{chars_of, trim_chars, trim_end_spec, trim_spec};
use ignore::gitignore::{Gitignore, GitignoreBuilder};

verus! {

/// The matcher of the `ignore` crate, carried through as it is.
#[verifier::external_type_specification]
#[verifier::external_body]
pub struct ExGitignore(Gitignore);

/// The builder of that matcher, carried through as it is.
#[verifier::external_type_specification]
#[verifier::external_body]
pub struct ExGitignoreBuilder(GitignoreBuilder);

/// The error of the `ignore` crate, only told apart from success.
#[verifier::external_type_specification]
#[verifier::external_body]
pub struct ExIgnoreError(ignore::Error);

/// The lines whose globs a `Gitignore` matcher holds, in the order they
/// were added, each as its builder kept it (the globs' `original`).
pub uninterp spec fn matcher_lines(g: Gitignore) -> Seq<Seq<char>>;

/// The root a `Gitignore` matcher matches under, as it was given to
/// `GitignoreBuilder::new` (`""` for `Gitignore::empty`), when its globs
/// were compiled with the options `GitignoreBuilder::new` sets; `None` for a
/// matcher compiled with other options (this crate never changes them).
pub uninterp spec fn matcher_root(g: Gitignore) -> Option<Seq<char>>;

/// Whether `Gitignore::matched(path, is_dir).is_ignore()` holds for a
/// matcher under `root` whose globs are those of `lines`, compiled with the
/// options `GitignoreBuilder::new` sets: the last glob that matches the path
/// ignores it (rather than whitelisting it with `!`).
pub uninterp spec fn gitignore_matches(root: Seq<char>, lines: Seq<Seq<char>>, path: Seq<char>, is_dir: bool) -> bool;

/// Calls `Gitignore::empty`: a matcher without globs, under the root `""`,
/// which never matches.
#[verifier::external_body]
pub(crate) fn empty_gitignore() -> (r: Gitignore)
    ensures
        matcher_lines(r) == Seq::<Seq<char>>::empty(),
        matcher_root(r) == Some(""@),
{
    Gitignore::empty()
}

/// The lines whose globs a `GitignoreBuilder` holds, in the order they were
/// added, each as the builder keeps it (its `original`).
pub uninterp spec fn builder_lines(b: GitignoreBuilder) -> Seq<Seq<char>>;

/// The root given to `GitignoreBuilder::new` when the builder has the
/// options that `new` sets; `None` for a builder whose options were changed
/// (this crate never changes them).
pub uninterp spec fn builder_root(b: GitignoreBuilder) -> Option<Seq<char>>;

/// Whether `GitignoreBuilder::add_line` accepts a line that is no comment
/// and not blank, on a builder with the options `new` sets: whether the
/// glob the line describes can be read.
pub uninterp spec fn glob_accepts(line: Seq<char>) -> bool;

/// Whether `GitignoreBuilder::build` compiles the globs of `lines` (added
/// to a builder with the options `new` sets) into a matcher.
pub uninterp spec fn globs_compile(lines: Seq<Seq<char>>) -> bool;

/// The line ends with an escaped space (`\ `), which keeps its trailing
/// white space.
pub open spec fn ends_with_escaped_space(line: Seq<char>) -> bool {
    line.len() >= 2 && line[line.len() - 2] == '\\' && line[line.len() - 1] == ' '
}

/// A line as the builder keeps it: without trailing white space, unless it
/// ends with an escaped space.
pub open spec fn kept_line(line: Seq<char>) -> Seq<char> {
    if ends_with_escaped_space(line) {
        line
    } else {
        trim_end_spec(line)
    }
}

/// A line that adds no glob: a comment, or nothing once trailing white
/// space is dropped.
pub open spec fn adds_nothing(line: Seq<char>) -> bool {
    (line.len() > 0 && line[0] == '#') || kept_line(line).len() == 0
}

/// Calls `GitignoreBuilder::new` with the root the globs are matched under:
/// a builder without globs, with its default options.
#[verifier::external_body]
fn gitignore_builder(root: &str) -> (r: GitignoreBuilder)
    ensures
        builder_lines(r) == Seq::<Seq<char>>::empty(),
        builder_root(r) == Some(root@),
{
    GitignoreBuilder::new(root)
}

/// Calls `GitignoreBuilder::add_line` on a builder with the default options.
/// A comment or a line that is empty once trailing white space is dropped
/// succeeds and adds nothing; another line succeeds exactly when its glob
/// can be read, and is then added as the builder keeps it; a failure adds
/// nothing. The options and the root stay as they were.
#[verifier::external_body]
fn gitignore_add_line(
    builder: &mut GitignoreBuilder,
    from: Option<String>,
    line: &str,
) -> (r: Result<(), ignore::Error>)
    requires
        builder_root(*old(builder)) is Some,
    ensures
        builder_root(*final(builder)) == builder_root(*old(builder)),
        adds_nothing(line@) ==> r is Ok && builder_lines(*final(builder)) == builder_lines(
            *old(builder),
        ),
        !adds_nothing(line@) ==> (r is Ok <==> glob_accepts(line@)),
        !adds_nothing(line@) && r is Ok ==> builder_lines(*final(builder)) == builder_lines(
            *old(builder),
        ).push(kept_line(line@)),
        r is Err ==> builder_lines(*final(builder)) == builder_lines(*old(builder)),
{
    match builder.add_line(from.map(std::path::PathBuf::from), line) {
        Ok(_) => Ok(()),
        Err(e) => Err(e),
    }
}

/// Calls `GitignoreBuilder::build` on a builder with the default options: a
/// builder without globs gives the empty matcher; one with globs succeeds
/// exactly when they compile, into a matcher that holds them under the
/// builder's root.
#[verifier::external_body]
fn gitignore_build(builder: &GitignoreBuilder) -> (r: Result<Gitignore, ignore::Error>)
    requires
        builder_root(*builder) is Some,
    ensures
        r is Ok <==> (builder_lines(*builder).len() == 0 || globs_compile(builder_lines(*builder))),
        r matches Ok(g) ==> matcher_lines(g) == builder_lines(*builder),
        r matches Ok(g) ==> matcher_root(g) == (if builder_lines(*builder).len() == 0 {
            Some(""@)
        } else {
            builder_root(*builder)
        }),
{
    builder.build()
}

/// Calls `Gitignore::matched` with the path relative to the matcher's root
/// and reads `Match::is_ignore`. A matcher without globs matches nothing;
/// otherwise the answer is `gitignore_matches` of its root and lines.
#[verifier::external_body]
fn gitignore_ignores(ignorer: &Gitignore, relative: &str, is_dir: bool) -> (r: bool)
    ensures
        matcher_lines(*ignorer).len() == 0 ==> !r,
        matcher_root(*ignorer) matches Some(root) ==> r == gitignore_matches(
            root,
            matcher_lines(*ignorer),
            relative@,
            is_dir,
        ),
{
    ignorer.matched(relative, is_dir).is_ignore()
}

/// Whether the matcher `g` ignores `file` of the project at
/// `project_path`: the file lies under the project, the matcher has globs,
/// and they ignore the file's path relative to the project (as a file).
pub open spec fn ignored_by(g: Gitignore, file: Seq<char>, project_path: Seq<char>) -> bool {
    &&& path_starts_with(file, project_path)
    &&& matcher_lines(g).len() > 0
    &&& match matcher_root(g) {
        Some(root) => gitignore_matches(
            root,
            matcher_lines(g),
            relative_path_spec(file, project_path),
            false,
        ),
        None => false,
    }
}

/// Whether `file` is ignored: never when it does not lie under
/// `project_path`; otherwise as the matcher says of its path relative to
/// the project.
pub fn should_ignore(file: &str, project_path: &str, ignorer: &Gitignore) -> (r: bool)
    ensures
        !path_starts_with(file@, project_path@) ==> !r,
        matcher_lines(*ignorer).len() == 0 ==> !r,
        matcher_root(*ignorer) is Some ==> r == ignored_by(*ignorer, file@, project_path@),
{
    if starts_with_path(file, project_path) {
        let relative = relative_path_of(file, project_path);
        gitignore_ignores(ignorer, relative.as_str(), false)
    } else {
        false
    }
}

/// A pattern that is empty once trimmed is left out.
pub open spec fn is_blank(p: Seq<char>) -> bool {
    trim_spec(p).len() == 0
}

/// A pattern that fails: not blank, no comment, and its glob cannot be read.
pub open spec fn rejected(p: Seq<char>) -> bool {
    !is_blank(p) && !adds_nothing(p) && !glob_accepts(p)
}

/// The lines the patterns add to a matcher: each that is not blank, not a
/// comment and not empty once trailing white space is dropped, as the
/// builder keeps it.
pub open spec fn pattern_globs(ps: Seq<Seq<char>>) -> Seq<Seq<char>>
    decreases ps.len(),
{
    if ps.len() == 0 {
        Seq::<Seq<char>>::empty()
    } else if !is_blank(ps.last()) && !adds_nothing(ps.last()) {
        pattern_globs(ps.drop_last()).push(kept_line(ps.last()))
    } else {
        pattern_globs(ps.drop_last())
    }
}

/// The lines a `.gitignore` file adds to a matcher: each that adds a glob
/// and whose glob can be read (the others are passed over), as kept.
pub open spec fn file_globs(lines: Seq<Seq<char>>) -> Seq<Seq<char>>
    decreases lines.len(),
{
    if lines.len() == 0 {
        Seq::<Seq<char>>::empty()
    } else if !adds_nothing(lines.last()) && glob_accepts(lines.last()) {
        file_globs(lines.drop_last()).push(kept_line(lines.last()))
    } else {
        file_globs(lines.drop_last())
    }
}

/// The lines of the matcher of `ps` and of the `.gitignore` file given as
/// its path and lines: the file's first, then the patterns'.
pub open spec fn ignorer_globs(ps: Seq<Seq<char>>, gitignore: Option<(String, Vec<String>)>) -> Seq<Seq<char>> {
    (match gitignore {
        Some((_, lines)) => file_globs(strings_view(lines@)),
        None => Seq::<Seq<char>>::empty(),
    }) + pattern_globs(ps)
}

/// The matcher of `ps` (and of the `.gitignore` file) can be made: no
/// pattern fails, and its globs, if any, compile.
pub open spec fn ignorer_builds(ps: Seq<Seq<char>>, gitignore: Option<(String, Vec<String>)>) -> bool {
    &&& forall|i: int| 0 <= i < ps.len() ==> !rejected(#[trigger] ps[i])
    &&& (ignorer_globs(ps, gitignore).len() == 0 || globs_compile(ignorer_globs(ps, gitignore)))
}

/// `g` is the matcher made of `ps` and the `.gitignore` file: it holds
/// their globs, under the root `.` (the empty matcher when there are none).
pub open spec fn built_from(g: Gitignore, ps: Seq<Seq<char>>, gitignore: Option<(String, Vec<String>)>) -> bool {
    &&& matcher_lines(g) == ignorer_globs(ps, gitignore)
    &&& matcher_root(g) == (if ignorer_globs(ps, gitignore).len() == 0 {
        Some(""@)
    } else {
        Some("."@)
    })
}

/// Whether the patterns (and the `.gitignore` file) ignore `file` of the
/// project at `project_path`: it lies under the project and their globs,
/// matched under `.`, ignore its relative path.
pub open spec fn patterns_ignore(
    ps: Seq<Seq<char>>,
    gitignore: Option<(String, Vec<String>)>,
    file: Seq<char>,
    project_path: Seq<char>,
) -> bool {
    &&& path_starts_with(file, project_path)
    &&& ignorer_globs(ps, gitignore).len() > 0
    &&& gitignore_matches(
        "."@,
        ignorer_globs(ps, gitignore),
        relative_path_spec(file, project_path),
        false,
    )
}

/// Law: a path is ignored exactly when the patterns match it: for the
/// matcher made of some patterns (and a `.gitignore` file), `should_ignore`
/// answers whether those patterns ignore the file.
pub proof fn lemma_ignored_exactly_when_patterns_match(
    g: Gitignore,
    ps: Seq<Seq<char>>,
    gitignore: Option<(String, Vec<String>)>,
    file: Seq<char>,
    project_path: Seq<char>,
)
    requires
        built_from(g, ps, gitignore),
    ensures
        matcher_root(g) is Some,
        ignored_by(g, file, project_path) == patterns_ignore(ps, gitignore, file, project_path),
{
}

/// The matcher of the patterns (blank ones left out), after the lines of a
/// `.gitignore` file when one is given as its path and lines. A line of the
/// file that cannot be read is passed over; the first pattern that cannot
/// be read fails with `InvalidIgnorePattern`, and a matcher that cannot be
/// compiled fails with an empty pattern.
pub fn make_git_ignore(
    ignore_patterns: &Vec<String>,
    gitignore: Option<(String, Vec<String>)>,
) -> (r: Result<Gitignore, KnotError>)
    ensures
        r is Ok <==> ignorer_builds(strings_view(ignore_patterns@), gitignore),
        r matches Ok(g) ==> built_from(g, strings_view(ignore_patterns@), gitignore),
        r matches Err(e) ==> e matches KnotError::InvalidIgnorePattern { .. },
        r matches Err(KnotError::InvalidIgnorePattern { pattern }) ==> (pattern@.len() == 0 && forall|
            j: int,
        | 0 <= j < ignore_patterns@.len() ==> !rejected(#[trigger] ignore_patterns@[j]@)) || (
        exists|i: int|
            0 <= i < ignore_patterns@.len() && (#[trigger] ignore_patterns@[i])@ == pattern@
                && rejected(pattern@) && forall|j: int|
                0 <= j < i ==> !rejected(#[trigger] ignore_patterns@[j]@)),
{
    let ghost ps = strings_view(ignore_patterns@);
    let mut builder = gitignore_builder(".");
    let ghost base: Seq<Seq<char>> = Seq::empty();
    match gitignore {
        Some((path, lines)) => {
            let ghost lv = strings_view(lines@);
            proof {
                assert(lv.take(0) =~= Seq::<Seq<char>>::empty());
            }
            let mut k: usize = 0;
            while k < lines.len()
                invariant
                    k <= lines@.len(),
                    lv == strings_view(lines@),
                    builder_root(builder) == Some("."@),
                    builder_lines(builder) == file_globs(lv.take(k as int)),
                decreases lines@.len() - k,
            {
                proof {
                    assert(lv.take(k + 1).drop_last() =~= lv.take(k as int));
                    assert(lv.take(k + 1).last() == lines@[k as int]@);
                }
                let _ = gitignore_add_line(&mut builder, Some(path.clone()), lines[k].as_str());
                proof {
                    assert(builder_lines(builder) =~= file_globs(lv.take(k + 1)));
                }
                k = k + 1;
            }
            proof {
                assert(lv.take(lines@.len() as int) =~= lv);
                base = lv;
            }
        },
        None => {},
    }
    let ghost start = builder_lines(builder);
    proof {
        assert(start == ignorer_globs(ps, gitignore).subrange(0, start.len() as int)) by {
            assert(pattern_globs(ps.take(0)) == Seq::<Seq<char>>::empty()) by {
                assert(ps.take(0) =~= Seq::<Seq<char>>::empty());
            }
        }
        assert(ps.take(0) =~= Seq::<Seq<char>>::empty());
        assert(start + pattern_globs(ps.take(0)) =~= start);
    }
    let mut i: usize = 0;
    while i < ignore_patterns.len()
        invariant
            i <= ignore_patterns@.len(),
            ps == strings_view(ignore_patterns@),
            builder_root(builder) == Some("."@),
            start == (match gitignore {
                Some((_, lines)) => file_globs(strings_view(lines@)),
                None => Seq::<Seq<char>>::empty(),
            }),
            builder_lines(builder) == start + pattern_globs(ps.take(i as int)),
            forall|j: int| 0 <= j < i ==> !rejected(#[trigger] ignore_patterns@[j]@),
        decreases ignore_patterns@.len() - i,
    {
        proof {
            assert(ps.take(i + 1).drop_last() =~= ps.take(i as int));
            assert(ps.take(i + 1).last() == ignore_patterns@[i as int]@);
        }
        let p = &ignore_patterns[i];
        let trimmed = trim_chars(chars_of(p.as_str()).as_slice());
        if trimmed.len() > 0 {
            let ghost before = builder_lines(builder);
            match gitignore_add_line(&mut builder, None, p.as_str()) {
                Ok(()) => {
                    proof {
                        assert(builder_lines(builder) =~= start + pattern_globs(ps.take(i + 1)));
                    }
                },
                Err(_) => {
                    proof {
                        assert(ignore_patterns@[i as int]@ == p@);
                        assert(rejected(p@));
                        assert(!ignorer_builds(ps, gitignore)) by {
                            assert(ps[i as int] == p@);
                        }
                    }
                    return Err(KnotError::InvalidIgnorePattern { pattern: p.clone() });
                },
            }
        } else {
            proof {
                assert(builder_lines(builder) =~= start + pattern_globs(ps.take(i + 1)));
            }
        }
        i = i + 1;
    }
    proof {
        assert(ps.take(ps.len() as int) =~= ps);
        assert(builder_lines(builder) == ignorer_globs(ps, gitignore));
        assert forall|j: int| 0 <= j < ps.len() implies !rejected(#[trigger] ps[j]) by {
            assert(ps[j] == ignore_patterns@[j]@);
        }
    }
    match gitignore_build(&builder) {
        Ok(g) => Ok(g),
        Err(_) => Err(KnotError::InvalidIgnorePattern { pattern: String::new() }),
    }
}

/// The path of a workspace's `.gitignore` file, when its features use it.
pub fn gitignore_path(source_dir: &str, use_gitignore: bool) -> (r: Option<String>)
    ensures
        use_gitignore ==> (r matches Some(p) && p@ == crate::cli::dashboard::file_node::path_push(
            source_dir@,
            ".gitignore"@,
        )),
        !use_gitignore ==> r is None,
{
    if use_gitignore {
        Some(crate::cli::dashboard::file_node::push_path_str(source_dir, ".gitignore"))
    } else {
        None
    }
}

} // verus!
