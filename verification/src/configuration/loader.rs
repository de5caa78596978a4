//! The configuration files of a workspace: the main one, the list of remote
//! knots, and the file of ignore patterns.
use vstd::prelude::*;

use crate::cli::dashboard::drawing::append_chars;
use crate::configuration::behavior::Behavior;
use crate::configuration::{strings_view, MainConfig};
use crate::knot::KnotConfig;
use crate::text::{chars_of, find_chars, find_spec, string_of};

verus! {

/// The main configuration file: the settings and the source knot.
pub struct ConfigurationLoader {
    pub config: MainConfig,
    pub source: KnotConfig,
}

/// A remote knot as its configuration file holds it.
pub struct RemoteKnotConfig {
    pub config: KnotConfig,
    pub behavior: Behavior,
}

/// The configuration file of the remote knots.
pub struct RemoteKnotLoader {
    pub knots: Vec<RemoteKnotConfig>,
}

/// The lines joined with a line feed between them.
pub open spec fn join_lines(v: Seq<Seq<char>>) -> Seq<char>
    decreases v.len(),
{
    if v.len() == 0 {
        Seq::<char>::empty()
    } else if v.len() == 1 {
        v[0]
    } else {
        join_lines(v.drop_last()) + seq!['\n'] + v.last()
    }
}

/// The pieces of `s` between line feeds (there is always at least one).
pub open spec fn nl_split(s: Seq<char>) -> Seq<Seq<char>>
    decreases s.len(),
{
    if s.len() == 0 {
        seq![Seq::<char>::empty()]
    } else {
        let p = nl_split(s.drop_last());
        if s.last() == '\n' {
            p.push(Seq::<char>::empty())
        } else {
            p.update(p.len() - 1, p.last().push(s.last()))
        }
    }
}

/// A line without the carriage return that ended it.
pub open spec fn strip_cr(l: Seq<char>) -> Seq<char> {
    if l.len() > 0 && l.last() == '\r' {
        l.drop_last()
    } else {
        l
    }
}

/// The lines of `s` as `str::lines` gives them: split at line feeds, a
/// carriage return before a line feed dropped, and no last line when the
/// text ends with a line feed (or is empty).
pub open spec fn lines_spec(s: Seq<char>) -> Seq<Seq<char>> {
    let segs = nl_split(s);
    let body = segs.drop_last().map_values(|l: Seq<char>| strip_cr(l));
    if segs.last().len() == 0 {
        body
    } else {
        body.push(segs.last())
    }
}

pub open spec fn is_comment(l: Seq<char>) -> bool {
    l.len() > 0 && l[0] == '#'
}

/// The lines that are no comments.
pub open spec fn uncommented(ls: Seq<Seq<char>>) -> Seq<Seq<char>>
    decreases ls.len(),
{
    if ls.len() == 0 {
        ls
    } else if is_comment(ls.last()) {
        uncommented(ls.drop_last())
    } else {
        uncommented(ls.drop_last()).push(ls.last())
    }
}

/// The ignore patterns a file holds: its lines that are no comments.
pub open spec fn ignore_lines_spec(text: Seq<char>) -> Seq<Seq<char>> {
    uncommented(lines_spec(text))
}

/// The first line of the note on the configuration folder.
pub const KNOT_NOTE_FIRST: &'static str = "# .knot contains cache and data that could be evaluated as private information.";

/// The second line of the note on the configuration folder.
pub const KNOT_NOTE_SECOND: &'static str = "# It is not recommended to transfer the folder";

/// The pattern that keeps the configuration folder out.
pub const KNOT_NOTE_PATTERN: &'static str = ".knot*";

/// The comment of the note on `.git`.
pub const GIT_NOTE_FIRST: &'static str = "# .git folder is quite chunky and most of the time it's not wanted to be transferred";

/// The pattern that keeps `.git` out.
pub const GIT_NOTE_PATTERN: &'static str = ".git";

/// The note on the configuration folder, written unless the patterns name it.
pub open spec fn knot_note() -> Seq<char> {
    KNOT_NOTE_FIRST@ + seq!['\n'] + KNOT_NOTE_SECOND@ + seq!['\n'] + KNOT_NOTE_PATTERN@
}

/// The note on `.git`, written unless the patterns name it.
pub open spec fn git_note() -> Seq<char> {
    GIT_NOTE_FIRST@ + seq!['\n'] + GIT_NOTE_PATTERN@
}

pub open spec fn contains_text(s: Seq<char>, pat: Seq<char>) -> bool {
    find_spec(s, pat) is Some
}

/// The text of the file of ignore patterns: a note on the configuration
/// folder and one on `.git` (each only when the patterns do not mention
/// it), then the patterns, one per line.
pub open spec fn ignore_file_text_spec(patterns: Seq<Seq<char>>) -> Seq<char> {
    let data = join_lines(patterns);
    let app = if contains_text(data, ".knot"@) {
        Seq::<char>::empty()
    } else {
        knot_note()
    };
    let git = if contains_text(data, ".git"@) {
        Seq::<char>::empty()
    } else {
        git_note()
    };
    app + seq!['\n'] + git + seq!['\n'] + data
}

fn join_patterns(patterns: &Vec<String>) -> (r: Vec<char>)
    ensures
        r@ == join_lines(strings_view(patterns@)),
{
    let mut out: Vec<char> = Vec::new();
    let mut i: usize = 0;
    while i < patterns.len()
        invariant
            i <= patterns@.len(),
            out@ == join_lines(strings_view(patterns@.take(i as int))),
        decreases patterns@.len() - i,
    {
        let ghost before = out@;
        proof {
            assert(strings_view(patterns@.take(i + 1)).drop_last() =~= strings_view(
                patterns@.take(i as int),
            ));
            assert(strings_view(patterns@.take(i + 1)).last() == patterns@[i as int]@);
        }
        if i > 0 {
            out.push('\n');
        }
        append_chars(&mut out, patterns[i].as_str());
        proof {
            if i == 0 {
                assert(strings_view(patterns@.take(1)) =~= seq![patterns@[0]@]);
                assert(out@ =~= join_lines(strings_view(patterns@.take(i + 1))));
            } else {
                assert(out@ =~= join_lines(strings_view(patterns@.take(i + 1))));
            }
        }
        i = i + 1;
    }
    proof {
        assert(patterns@.take(patterns@.len() as int) =~= patterns@);
    }
    out
}

/// The text of the file of ignore patterns.
pub fn ignore_file_text(patterns: &Vec<String>) -> (r: String)
    ensures
        r@ == ignore_file_text_spec(strings_view(patterns@)),
{
    let data = join_patterns(patterns);
    let mut out: Vec<char> = Vec::new();
    if find_chars(data.as_slice(), chars_of(".knot").as_slice()).is_none() {
        append_chars(&mut out, KNOT_NOTE_FIRST);
        out.push('\n');
        append_chars(&mut out, KNOT_NOTE_SECOND);
        out.push('\n');
        append_chars(&mut out, KNOT_NOTE_PATTERN);
    }
    out.push('\n');
    if find_chars(data.as_slice(), chars_of(".git").as_slice()).is_none() {
        append_chars(&mut out, GIT_NOTE_FIRST);
        out.push('\n');
        append_chars(&mut out, GIT_NOTE_PATTERN);
    }
    out.push('\n');
    let ghost before = out@;
    let mut i: usize = 0;
    while i < data.len()
        invariant
            i <= data@.len(),
            out@ == before + data@.take(i as int),
        decreases data@.len() - i,
    {
        out.push(data[i]);
        proof {
            assert(data@.take(i + 1) =~= data@.take(i as int).push(data@[i as int]));
        }
        i = i + 1;
    }
    proof {
        assert(data@.take(data@.len() as int) =~= data@);
        assert(out@ =~= ignore_file_text_spec(strings_view(patterns@)));
    }
    string_of(out.as_slice())
}

/// The lines of a text, as `str::lines` gives them.
pub fn text_lines(text: &str) -> (r: Vec<String>)
    ensures
        strings_view(r@) == lines_spec(text@),
{
    let s = chars_of(text);
    let mut done: Vec<String> = Vec::new();
    let ghost mut raw: Seq<Seq<char>> = Seq::empty();
    let mut cur: Vec<char> = Vec::new();
    let mut i: usize = 0;
    proof {
        assert(s@.take(0) =~= Seq::<char>::empty());
        assert(raw.push(cur@) =~= nl_split(s@.take(0)));
    }
    while i < s.len()
        invariant
            i <= s@.len(),
            s@ == text@,
            raw.push(cur@) == nl_split(s@.take(i as int)),
            strings_view(done@) == raw.map_values(|l: Seq<char>| strip_cr(l)),
        decreases s@.len() - i,
    {
        let c = s[i];
        proof {
            assert(s@.take(i + 1).drop_last() =~= s@.take(i as int));
            assert(s@.take(i + 1).last() == c);
        }
        if c == '\n' {
            let line = if cur.len() > 0 && cur[cur.len() - 1] == '\r' {
                let mut l = cur.clone();
                l.pop();
                l
            } else {
                cur.clone()
            };
            proof {
                assert(line@ == strip_cr(cur@));
            }
            let ghost before = strings_view(done@);
            let ghost raw_old = raw;
            let ls = string_of(line.as_slice());
            done.push(ls);
            proof {
                assert(strings_view(done@) =~= before.push(line@));
                raw = raw.push(cur@);
                assert(raw.map_values(|l: Seq<char>| strip_cr(l)) =~= raw_old.map_values(
                    |l: Seq<char>| strip_cr(l),
                ).push(strip_cr(cur@)));
                assert(strings_view(done@) =~= raw.map_values(|l: Seq<char>| strip_cr(l)));
            }
            cur = Vec::new();
            proof {
                assert(raw.push(cur@) =~= nl_split(s@.take(i + 1)));
            }
        } else {
            cur.push(c);
            proof {
                assert(raw.push(cur@) =~= nl_split(s@.take(i + 1)));
            }
        }
        i = i + 1;
    }
    proof {
        assert(s@.take(s@.len() as int) =~= s@);
        let segs = nl_split(s@);
        assert(segs.drop_last() =~= raw);
        assert(segs.last() == cur@);
    }
    if cur.len() > 0 {
        let ghost before = strings_view(done@);
        done.push(string_of(cur.as_slice()));
        proof {
            assert(strings_view(done@) =~= before.push(cur@));
        }
    }
    done
}

/// The ignore patterns a file holds: its lines that are no comments.
pub fn ignore_lines(text: &str) -> (r: Vec<String>)
    ensures
        strings_view(r@) == ignore_lines_spec(text@),
{
    let lines = text_lines(text);
    let mut out: Vec<String> = Vec::new();
    let mut i: usize = 0;
    while i < lines.len()
        invariant
            i <= lines@.len(),
            strings_view(out@) == uncommented(strings_view(lines@.take(i as int))),
        decreases lines@.len() - i,
    {
        proof {
            assert(strings_view(lines@.take(i + 1)).drop_last() =~= strings_view(
                lines@.take(i as int),
            ));
            assert(strings_view(lines@.take(i + 1)).last() == lines@[i as int]@);
        }
        let l = chars_of(lines[i].as_str());
        if !(l.len() > 0 && l[0] == '#') {
            let ghost before = strings_view(out@);
            out.push(lines[i].clone());
            proof {
                assert(strings_view(out@) =~= before.push(lines@[i as int]@));
            }
        }
        i = i + 1;
    }
    proof {
        assert(lines@.take(lines@.len() as int) =~= lines@);
    }
    out
}

impl ConfigurationLoader {
    /// The text of the file of ignore patterns for this configuration.
    pub fn ignore_patterns(&self) -> (r: String)
        ensures
            r@ == ignore_file_text_spec(strings_view(self.config.global.ignore_patterns@)),
    {
        ignore_file_text(&self.config.global.ignore_patterns)
    }

    /// The ignore patterns of the text of an ignore file.
    pub fn load_ignore_patterns(text: &str) -> (r: Vec<String>)
        ensures
            strings_view(r@) == ignore_lines_spec(text@),
    {
        ignore_lines(text)
    }
}


proof fn lemma_nl_split_nonempty(s: Seq<char>)
    ensures
        nl_split(s).len() >= 1,
    decreases s.len(),
{
    if s.len() > 0 {
        lemma_nl_split_nonempty(s.drop_last());
    }
}

/// Splitting at a line feed splits the pieces.
proof fn lemma_nl_split_concat(a: Seq<char>, b: Seq<char>)
    ensures
        nl_split(a + seq!['\n'] + b) == nl_split(a) + nl_split(b),
    decreases b.len(),
{
    let x = a + seq!['\n'] + b;
    if b.len() == 0 {
        assert(x.drop_last() =~= a);
        assert(nl_split(x) =~= nl_split(a) + nl_split(b));
    } else {
        lemma_nl_split_concat(a, b.drop_last());
        lemma_nl_split_nonempty(b.drop_last());
        assert(x.drop_last() =~= a + seq!['\n'] + b.drop_last());
        assert(nl_split(x) =~= nl_split(a) + nl_split(b));
    }
}

pub open spec fn no_line_feed(p: Seq<char>) -> bool {
    forall|i: int| 0 <= i < p.len() ==> p[i] != '\n'
}

proof fn lemma_nl_split_single(p: Seq<char>)
    requires
        no_line_feed(p),
    ensures
        nl_split(p) == seq![p],
    decreases p.len(),
{
    if p.len() > 0 {
        let init = p.drop_last();
        assert forall|i: int| 0 <= i < init.len() implies init[i] != '\n' by {
            assert(init[i] == p[i]);
        }
        lemma_nl_split_single(init);
        assert(p.last() == p[p.len() - 1]);
        assert(init.push(p.last()) =~= p);
        assert(nl_split(p) =~= seq![p]);
    } else {
        assert(p =~= Seq::<char>::empty());
    }
}

proof fn lemma_nl_split_join(ps: Seq<Seq<char>>)
    requires
        ps.len() >= 1,
        forall|i: int| 0 <= i < ps.len() ==> no_line_feed(#[trigger] ps[i]),
    ensures
        nl_split(join_lines(ps)) == ps,
    decreases ps.len(),
{
    if ps.len() == 1 {
        lemma_nl_split_single(ps[0]);
        assert(nl_split(join_lines(ps)) =~= ps);
    } else {
        let init = ps.drop_last();
        assert forall|i: int| 0 <= i < init.len() implies no_line_feed(#[trigger] init[i]) by {
            assert(init[i] == ps[i]);
        }
        lemma_nl_split_join(init);
        lemma_nl_split_concat(join_lines(init), ps.last());
        lemma_nl_split_single(ps[ps.len() - 1]);
        assert(nl_split(join_lines(ps)) =~= ps);
    }
}

proof fn lemma_uncommented_concat(x: Seq<Seq<char>>, y: Seq<Seq<char>>)
    ensures
        uncommented(x + y) == uncommented(x) + uncommented(y),
    decreases y.len(),
{
    if y.len() == 0 {
        assert(x + y =~= x);
        assert(uncommented(x) + uncommented(y) =~= uncommented(x));
    } else {
        lemma_uncommented_concat(x, y.drop_last());
        assert((x + y).drop_last() =~= x + y.drop_last());
        assert(uncommented(x + y) =~= uncommented(x) + uncommented(y));
    }
}

/// The lines the notes leave after their comments.
pub open spec fn note_lines(present: bool, pattern: Seq<char>) -> Seq<Seq<char>> {
    if present {
        seq![Seq::<char>::empty()]
    } else {
        seq![pattern]
    }
}

/// A pattern the file of patterns gives back as it was: one line, no
/// comment, no carriage return at its end.
pub open spec fn writable_pattern(p: Seq<char>) -> bool {
    &&& no_line_feed(p)
    &&& !is_comment(p)
    &&& strip_cr(p) == p
}

proof fn lemma_notes()
    ensures
        nl_split(knot_note()) == seq![KNOT_NOTE_FIRST@, KNOT_NOTE_SECOND@, KNOT_NOTE_PATTERN@],
        nl_split(git_note()) == seq![GIT_NOTE_FIRST@, GIT_NOTE_PATTERN@],
        is_comment(KNOT_NOTE_FIRST@),
        is_comment(KNOT_NOTE_SECOND@),
        is_comment(GIT_NOTE_FIRST@),
        writable_pattern(KNOT_NOTE_PATTERN@),
        writable_pattern(GIT_NOTE_PATTERN@),
        strip_cr(KNOT_NOTE_FIRST@) == KNOT_NOTE_FIRST@,
        strip_cr(KNOT_NOTE_SECOND@) == KNOT_NOTE_SECOND@,
        strip_cr(GIT_NOTE_FIRST@) == GIT_NOTE_FIRST@,
{
    reveal_strlit("# .knot contains cache and data that could be evaluated as private information.");
    reveal_strlit("# It is not recommended to transfer the folder");
    reveal_strlit(".knot*");
    reveal_strlit("# .git folder is quite chunky and most of the time it's not wanted to be transferred");
    reveal_strlit(".git");
    let k1 = KNOT_NOTE_FIRST@;
    let k2 = KNOT_NOTE_SECOND@;
    let k3 = KNOT_NOTE_PATTERN@;
    let g1 = GIT_NOTE_FIRST@;
    let g2 = GIT_NOTE_PATTERN@;
    assert(no_line_feed(k1));
    assert(no_line_feed(k2));
    assert(no_line_feed(k3));
    assert(no_line_feed(g1));
    assert(no_line_feed(g2));
    lemma_nl_split_single(k1);
    lemma_nl_split_single(k2);
    lemma_nl_split_single(k3);
    lemma_nl_split_single(g1);
    lemma_nl_split_single(g2);
    lemma_nl_split_concat(k1 + seq!['\n'] + k2, k3);
    lemma_nl_split_concat(k1, k2);
    lemma_nl_split_concat(g1, g2);
    assert(nl_split(knot_note()) =~= seq![k1, k2, k3]);
    assert(nl_split(git_note()) =~= seq![g1, g2]);
}

/// Law: the file of ignore patterns gives back what was written to it: read
/// back, it holds the pattern of each note that was written (an empty line
/// in place of a note that was not) and then the patterns, in order, when
/// each pattern is one line that is no comment and does not end in a
/// carriage return, and the last one is not empty.
pub proof fn lemma_ignore_file_round_trip(ps: Seq<Seq<char>>)
    requires
        forall|i: int| 0 <= i < ps.len() ==> writable_pattern(#[trigger] ps[i]),
        ps.len() > 0 ==> ps.last().len() > 0,
    ensures
        ignore_lines_spec(ignore_file_text_spec(ps)) == note_lines(
            contains_text(join_lines(ps), ".knot"@),
            KNOT_NOTE_PATTERN@,
        ) + note_lines(contains_text(join_lines(ps), ".git"@), GIT_NOTE_PATTERN@) + ps,
{
    let data = join_lines(ps);
    let kp = contains_text(data, ".knot"@);
    let gp = contains_text(data, ".git"@);
    let app = if kp {
        Seq::<char>::empty()
    } else {
        knot_note()
    };
    let git = if gp {
        Seq::<char>::empty()
    } else {
        git_note()
    };
    lemma_notes();
    assert(nl_split(Seq::<char>::empty()) == seq![Seq::<char>::empty()]);
    let sa = nl_split(app);
    let sg = nl_split(git);
    let sd = nl_split(data);
    lemma_nl_split_concat(app + seq!['\n'] + git, data);
    lemma_nl_split_concat(app, git);
    assert(ignore_file_text_spec(ps) =~= (app + seq!['\n'] + git) + seq!['\n'] + data);
    let segs = nl_split(ignore_file_text_spec(ps));
    assert(segs == sa + sg + sd);
    if ps.len() > 0 {
        assert forall|i: int| 0 <= i < ps.len() implies no_line_feed(#[trigger] ps[i]) by {
            assert(writable_pattern(ps[i]));
        }
        lemma_nl_split_join(ps);
    } else {
        assert(data =~= Seq::<char>::empty());
    }
    // the lines, with the carriage returns of all but the last piece dropped
    let lines = lines_spec(ignore_file_text_spec(ps));
    let notes = sa + sg;
    assert forall|i: int| 0 <= i < notes.len() implies strip_cr(#[trigger] notes[i]) == notes[i] by {
        if !kp && i < 3 {
            assert(notes[i] == sa[i]);
        }
        if !gp && i >= sa.len() {
            assert(notes[i] == sg[i - sa.len()]);
        }
    }
    let body_notes = notes.map_values(|l: Seq<char>| strip_cr(l));
    assert(body_notes =~= notes);
    if ps.len() > 0 {
        let body_ps = ps.drop_last().map_values(|l: Seq<char>| strip_cr(l));
        assert forall|i: int| 0 <= i < ps.drop_last().len() implies body_ps[i] == ps.drop_last()[i] by {
            assert(writable_pattern(ps[i]));
        }
        assert(body_ps =~= ps.drop_last());
        assert(segs.drop_last() =~= notes + ps.drop_last());
        assert(lines =~= notes + ps);
    } else {
        assert(segs.drop_last() =~= notes);
        assert(lines =~= notes);
    }
    lemma_uncommented_concat(notes, ps);
    lemma_uncommented_concat(sa, sg);
    // patterns are kept whole
    assert(uncommented(ps) == ps) by {
        lemma_uncommented_all(ps);
    }
    // the notes leave their patterns
    lemma_uncommented_notes();
    if kp {
        assert(sa == seq![Seq::<char>::empty()]);
    }
    if gp {
        assert(sg == seq![Seq::<char>::empty()]);
    }
}

proof fn lemma_uncommented_all(ps: Seq<Seq<char>>)
    requires
        forall|i: int| 0 <= i < ps.len() ==> writable_pattern(#[trigger] ps[i]),
    ensures
        uncommented(ps) == ps,
    decreases ps.len(),
{
    if ps.len() > 0 {
        let init = ps.drop_last();
        assert forall|i: int| 0 <= i < init.len() implies writable_pattern(#[trigger] init[i]) by {
            assert(init[i] == ps[i]);
        }
        lemma_uncommented_all(init);
        assert(writable_pattern(ps[ps.len() - 1]));
        assert(uncommented(ps) =~= ps);
    }
}


proof fn lemma_uncommented_notes()
    ensures
        uncommented(seq![Seq::<char>::empty()]) == seq![Seq::<char>::empty()],
        uncommented(seq![KNOT_NOTE_FIRST@, KNOT_NOTE_SECOND@, KNOT_NOTE_PATTERN@]) == seq![
            KNOT_NOTE_PATTERN@,
        ],
        uncommented(seq![GIT_NOTE_FIRST@, GIT_NOTE_PATTERN@]) == seq![GIT_NOTE_PATTERN@],
{
    lemma_notes();
    let e = Seq::<Seq<char>>::empty();
    assert(uncommented(e) == e);
    let one = seq![Seq::<char>::empty()];
    assert(one.drop_last() =~= e);
    assert(!is_comment(one.last()));
    assert(uncommented(one) =~= one);
    let k1 = seq![KNOT_NOTE_FIRST@];
    let k2 = seq![KNOT_NOTE_FIRST@, KNOT_NOTE_SECOND@];
    let k3 = seq![KNOT_NOTE_FIRST@, KNOT_NOTE_SECOND@, KNOT_NOTE_PATTERN@];
    assert(k1.drop_last() =~= e);
    assert(k1.last() == KNOT_NOTE_FIRST@);
    assert(uncommented(k1) == e);
    assert(k2.drop_last() =~= k1);
    assert(k2.last() == KNOT_NOTE_SECOND@);
    assert(uncommented(k2) == e);
    assert(k3.drop_last() =~= k2);
    assert(k3.last() == KNOT_NOTE_PATTERN@);
    assert(uncommented(k3) =~= seq![KNOT_NOTE_PATTERN@]);
    let g1 = seq![GIT_NOTE_FIRST@];
    let g2 = seq![GIT_NOTE_FIRST@, GIT_NOTE_PATTERN@];
    assert(g1.drop_last() =~= e);
    assert(g1.last() == GIT_NOTE_FIRST@);
    assert(uncommented(g1) == e);
    assert(g2.drop_last() =~= g1);
    assert(g2.last() == GIT_NOTE_PATTERN@);
    assert(uncommented(g2) =~= seq![GIT_NOTE_PATTERN@]);
}

} // verus!
