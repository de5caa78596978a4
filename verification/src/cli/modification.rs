//! The decisions of the commands that change a configuration: which remote
//! knot is meant, what a property change does to a knot, how ignore patterns
//! are read from a line, which remote knots are kept, and how a size limit
//! is read.
use vstd::prelude::*;

use crate::cli::dashboard::drawing::append_chars;
use crate::configuration::behavior::{Behavior, ConflictBehavior, UniqueBehavior};
use crate::configuration::strings_view;
use crate::error::KnotError;
use crate::knot::credentials::{AuthMethod, KnotCredentials, ParsedCreds, SavedAuthMethod};
use crate::configuration::MainConfig;
use crate::knot::{KnotConfig, KnotType};
use crate::text::{
    chars_of, decimal_string, decimal_text, is_digit_char, string_of, trim_chars, trim_spec,
};

verus! {

/// Which remote knot a command is about.
#[derive(Debug, Clone, Copy, PartialEq, Eq, Structural)]
pub enum RemoteChoice {
    /// The knot at this index.
    Index(usize),
    /// The user is to pick one of the knots.
    Ask,
}

/// The knot a command names: the given index when there is a knot at it,
/// the only knot when there is one, the user's pick among several; an index
/// without a knot, or no knots at all, are errors.
pub fn resolve_remote_index(index: Option<usize>, knot_count: usize) -> (r: Result<RemoteChoice, KnotError>)
    ensures
        match index {
            Some(i) => if i < knot_count {
                r == Ok::<RemoteChoice, KnotError>(RemoteChoice::Index(i))
            } else {
                r == Err::<RemoteChoice, KnotError>(KnotError::IndexOutOfBounds { index: i })
            },
            None => if knot_count == 0 {
                r == Err::<RemoteChoice, KnotError>(KnotError::NoRemoteKnots)
            } else if knot_count == 1 {
                r == Ok::<RemoteChoice, KnotError>(RemoteChoice::Index(0))
            } else {
                r == Ok::<RemoteChoice, KnotError>(RemoteChoice::Ask)
            },
        },
{
    match index {
        Some(i) => if i < knot_count {
            Ok(RemoteChoice::Index(i))
        } else {
            Err(KnotError::IndexOutOfBounds { index: i })
        },
        None => if knot_count == 0 {
            Err(KnotError::NoRemoteKnots)
        } else if knot_count == 1 {
            Ok(RemoteChoice::Index(0))
        } else {
            Ok(RemoteChoice::Ask)
        },
    }
}

/// The name of a knot type as the configuration writes it.
pub fn knot_type_label(t: KnotType) -> (r: &'static str)
    ensures
        r@ == match t {
            KnotType::Local => "Local"@,
            KnotType::SSH => "SSH"@,
            KnotType::SFTP => "SFTP"@,
        },
{
    match t {
        KnotType::Local => "Local",
        KnotType::SSH => "SSH",
        KnotType::SFTP => "SFTP",
    }
}

pub open spec fn type_name_spec(t: KnotType) -> Seq<char> {
    match t {
        KnotType::Local => "Local"@,
        KnotType::SSH => "SSH"@,
        KnotType::SFTP => "SFTP"@,
    }
}

/// How a remote knot is offered for picking: its path, then, when it has
/// credentials, ` (type//user@host:port)`.
pub open spec fn remote_option_spec(config: KnotConfig) -> Seq<char> {
    config.path@ + match config.credentials {
        Some(c) => " ("@ + type_name_spec(config.adapter_type) + "//"@ + c.username@ + "@"@
            + c.host@ + ":"@ + decimal_text(c.port as nat) + ")"@,
        None => Seq::<char>::empty(),
    }
}

pub fn remote_option_label(config: &KnotConfig) -> (r: String)
    ensures
        r@ == remote_option_spec(*config),
{
    let mut out: Vec<char> = Vec::new();
    append_chars(&mut out, config.path.as_str());
    match &config.credentials {
        Some(c) => {
            append_chars(&mut out, " (");
            append_chars(&mut out, knot_type_label(config.adapter_type));
            append_chars(&mut out, "//");
            append_chars(&mut out, c.username.as_str());
            append_chars(&mut out, "@");
            append_chars(&mut out, c.host.as_str());
            append_chars(&mut out, ":");
            let port = decimal_string(c.port as u64);
            append_chars(&mut out, port.as_str());
            append_chars(&mut out, ")");
        },
        None => {},
    }
    string_of(out.as_slice())
}

/// What a knot type is shown as.
pub open spec fn describe_spec(t: KnotType) -> Seq<char> {
    match t {
        KnotType::Local => "Local System"@,
        KnotType::SSH => "SSH remote"@,
        KnotType::SFTP => "SFTP remote"@,
    }
}

/// How a remote knot is offered for removal: its type, its address
/// (`user@host:port`, or `Unknown` without credentials), and its path.
pub open spec fn removal_option_spec(config: KnotConfig) -> Seq<char> {
    describe_spec(config.adapter_type) + " ("@ + match config.credentials {
        Some(c) => c.username@ + "@"@ + c.host@ + ":"@ + decimal_text(c.port as nat),
        None => "Unknown"@,
    } + ") Path: '"@ + config.path@ + "'"@
}

pub fn removal_option_label(config: &KnotConfig) -> (r: String)
    ensures
        r@ == removal_option_spec(*config),
{
    let mut out: Vec<char> = Vec::new();
    let kind = config.adapter_type.describe();
    append_chars(&mut out, kind.as_str());
    append_chars(&mut out, " (");
    match &config.credentials {
        Some(c) => {
            append_chars(&mut out, c.username.as_str());
            append_chars(&mut out, "@");
            append_chars(&mut out, c.host.as_str());
            append_chars(&mut out, ":");
            let port = decimal_string(c.port as u64);
            append_chars(&mut out, port.as_str());
        },
        None => {
            append_chars(&mut out, "Unknown");
        },
    }
    append_chars(&mut out, ") Path: '");
    append_chars(&mut out, config.path.as_str());
    append_chars(&mut out, "'");
    proof {
        assert(out@ =~= removal_option_spec(*config));
    }
    string_of(out.as_slice())
}

/// The pieces of `s` between the commas (there is always at least one).
pub open spec fn comma_pieces(s: Seq<char>) -> Seq<Seq<char>>
    decreases s.len(),
{
    if s.len() == 0 {
        seq![Seq::<char>::empty()]
    } else {
        let p = comma_pieces(s.drop_last());
        if s.last() == ',' {
            p.push(Seq::<char>::empty())
        } else {
            p.update(p.len() - 1, p.last().push(s.last()))
        }
    }
}

/// `ps` with each trimmed piece added that is not empty and not there yet.
pub open spec fn add_pieces(ps: Seq<Seq<char>>, pieces: Seq<Seq<char>>) -> Seq<Seq<char>>
    decreases pieces.len(),
{
    if pieces.len() == 0 {
        ps
    } else {
        let before = add_pieces(ps, pieces.drop_last());
        let p = trim_spec(pieces.last());
        if p.len() == 0 || before.contains(p) {
            before
        } else {
            before.push(p)
        }
    }
}

fn comma_pieces_exec(s: &Vec<char>) -> (r: Vec<Vec<char>>)
    ensures
        crate::paths::vv_view(r@) == comma_pieces(s@),
{
    let mut done: Vec<Vec<char>> = Vec::new();
    let mut cur: Vec<char> = Vec::new();
    let mut i: usize = 0;
    proof {
        assert(s@.take(0) =~= Seq::<char>::empty());
        assert(crate::paths::vv_view(done@).push(cur@) =~= comma_pieces(s@.take(0)));
    }
    while i < s.len()
        invariant
            i <= s@.len(),
            crate::paths::vv_view(done@).push(cur@) == comma_pieces(s@.take(i as int)),
        decreases s@.len() - i,
    {
        let c = s[i];
        proof {
            assert(s@.take(i + 1).drop_last() =~= s@.take(i as int));
            assert(s@.take(i + 1).last() == c);
        }
        let ghost old_done = crate::paths::vv_view(done@);
        let ghost old_cur = cur@;
        if c == ',' {
            done.push(cur);
            cur = Vec::new();
            proof {
                assert(crate::paths::vv_view(done@) =~= old_done.push(old_cur));
                assert(crate::paths::vv_view(done@).push(cur@) =~= comma_pieces(s@.take(i + 1)));
            }
        } else {
            cur.push(c);
            proof {
                assert(crate::paths::vv_view(done@).push(cur@) =~= comma_pieces(s@.take(i + 1)));
            }
        }
        i = i + 1;
    }
    let ghost before = crate::paths::vv_view(done@);
    done.push(cur);
    proof {
        assert(s@.take(s@.len() as int) =~= s@);
        assert(crate::paths::vv_view(done@) =~= before.push(cur@));
    }
    done
}

/// Reads one line of ignore patterns into `patterns`: a blank line ends the
/// list (`false`); otherwise each comma-separated piece, trimmed, is added
/// unless it is empty or already there (`true`).
pub fn add_ignore_entry(patterns: &mut Vec<String>, input: &str) -> (r: bool)
    ensures
        r == (trim_spec(input@).len() > 0),
        r ==> strings_view(final(patterns)@) == add_pieces(
            strings_view(old(patterns)@),
            comma_pieces(trim_spec(input@)),
        ),
        !r ==> final(patterns)@ == old(patterns)@,
{
    let trimmed = trim_chars(chars_of(input).as_slice());
    if trimmed.len() == 0 {
        return false;
    }
    let pieces = comma_pieces_exec(&trimmed);
    let ghost start = strings_view(patterns@);
    let mut k: usize = 0;
    proof {
        assert(crate::paths::vv_view(pieces@).take(0) =~= Seq::<Seq<char>>::empty());
    }
    while k < pieces.len()
        invariant
            k <= pieces@.len(),
            strings_view(patterns@) == add_pieces(start, crate::paths::vv_view(pieces@).take(k as int)),
        decreases pieces@.len() - k,
    {
        let ghost pv = crate::paths::vv_view(pieces@);
        proof {
            assert(pv.take(k + 1).drop_last() =~= pv.take(k as int));
            assert(pv.take(k + 1).last() == pieces@[k as int]@);
        }
        let p = trim_chars(pieces[k].as_slice());
        if p.len() > 0 {
            let ps = string_of(p.as_slice());
            let mut seen = false;
            let mut j: usize = 0;
            while j < patterns.len()
                invariant
                    j <= patterns@.len(),
                    ps@ == p@,
                    seen == (exists|q: int| 0 <= q < j && patterns@[q]@ == p@),
                decreases patterns@.len() - j,
            {
                if patterns[j] == ps {
                    seen = true;
                }
                j = j + 1;
            }
            let ghost before = strings_view(patterns@);
            proof {
                if seen {
                    let q = choose|q: int| 0 <= q < patterns@.len() && patterns@[q]@ == p@;
                    assert(before[q] == p@);
                } else {
                    assert forall|q: int| 0 <= q < before.len() implies before[q] != p@ by {
                        assert(before[q] == patterns@[q]@);
                    }
                }
            }
            if !seen {
                patterns.push(ps);
                proof {
                    assert(strings_view(patterns@) =~= before.push(p@));
                }
            }
        }
        k = k + 1;
    }
    proof {
        assert(crate::paths::vv_view(pieces@).take(pieces@.len() as int) =~= crate::paths::vv_view(
            pieces@,
        ));
    }
    true
}

/// What the user chose to change on a knot, with the new value.
pub enum KnotChange {
    Type(KnotType),
    Path(String),
    Port(u16),
    Host(String),
    Username(String),
    Connections(usize),
    Credentials(Option<KnotCredentials>),
    Auth(AuthMethod, SavedAuthMethod),
    Uniques(UniqueBehavior),
    Conflicts(ConflictBehavior),
}

/// Credentials as `KnotCredentials::new` makes them: no user, no host, port
/// 22, one connection, no authentication.
pub open spec fn fresh_credentials(c: KnotCredentials) -> bool {
    &&& c.username@.len() == 0
    &&& c.host@.len() == 0
    &&& c.port == 22
    &&& c.connection_limit == 1
    &&& c.auth is NoAuth
    &&& c.config_auth is NoAuth
}

/// The credentials `c` with the part a change names set.
pub open spec fn updated_credentials(change: KnotChange, c: KnotCredentials) -> KnotCredentials {
    match change {
        KnotChange::Port(p) => KnotCredentials { port: p, ..c },
        KnotChange::Host(h) => KnotCredentials { host: h, ..c },
        KnotChange::Username(u) => KnotCredentials { username: u, ..c },
        KnotChange::Connections(n) => KnotCredentials { connection_limit: n, ..c },
        KnotChange::Auth(a, s) => KnotCredentials { auth: a, config_auth: s, ..c },
        _ => c,
    }
}

/// The change touches one part of the credentials.
pub open spec fn is_credential_part(change: KnotChange) -> bool {
    ||| change is Port
    ||| change is Host
    ||| change is Username
    ||| change is Connections
    ||| change is Auth
}

/// The knot `new` is `old` after the change: a part of the credentials is
/// set on the knot's credentials, or on fresh ones when it has none.
pub open spec fn knot_after(change: KnotChange, old: KnotConfig, new: KnotConfig) -> bool {
    match change {
        KnotChange::Type(t) => new == (KnotConfig { adapter_type: t, ..old }),
        KnotChange::Path(p) => new == (KnotConfig { path: p, ..old }),
        KnotChange::Credentials(c) => new == (KnotConfig { credentials: c, ..old }),
        KnotChange::Uniques(_) => new == old,
        KnotChange::Conflicts(_) => new == old,
        _ => {
            &&& new.adapter_type == old.adapter_type
            &&& new.path == old.path
            &&& new.credentials is Some
            &&& match old.credentials {
                Some(oc) => new.credentials == Some(updated_credentials(change, oc)),
                None => exists|b: KnotCredentials|
                    fresh_credentials(b) && new.credentials == Some(
                        #[trigger] updated_credentials(change, b),
                    ),
            }
        },
    }
}

/// The behavior after the change, and whether the change could be made: a
/// behavior change needs the behavior of a remote knot.
pub open spec fn behavior_after(change: KnotChange, old: Option<Behavior>) -> (Option<Behavior>, bool) {
    match change {
        KnotChange::Uniques(u) => match old {
            Some(b) => (Some(Behavior { uniques: u, ..b }), true),
            None => (old, false),
        },
        KnotChange::Conflicts(c) => match old {
            Some(b) => (Some(Behavior { conflicts: c, ..b }), true),
            None => (old, false),
        },
        _ => (old, true),
    }
}

/// Applies a change to a knot (and, for a remote knot, to its behavior).
/// The behavior of the source knot (`None`) cannot change.
pub fn apply_knot_change(
    change: KnotChange,
    knot: &mut KnotConfig,
    behavior: &mut Option<Behavior>,
) -> (r: Result<(), KnotError>)
    ensures
        knot_after(change, *old(knot), *final(knot)),
        *final(behavior) == behavior_after(change, *old(behavior)).0,
        r is Ok == behavior_after(change, *old(behavior)).1,
        r is Err ==> r == Err::<(), KnotError>(KnotError::SourceHasNoBehavior),
{
    let ghost ch = change;
    if is_part_change(&change) {
        let c = match knot.credentials.take() {
            Some(c) => c,
            None => KnotCredentials::new(),
        };
        let ghost base = c;
        let c2 = update_credentials(change, c);
        knot.credentials = Some(c2);
        proof {
            if old(knot).credentials is None {
                assert(fresh_credentials(base));
                assert(final(knot).credentials == Some(updated_credentials(ch, base)));
            }
        }
        return Ok(());
    }
    match change {
        KnotChange::Type(t) => {
            knot.adapter_type = t;
            Ok(())
        },
        KnotChange::Path(p) => {
            knot.path = p;
            Ok(())
        },
        KnotChange::Credentials(c) => {
            knot.credentials = c;
            Ok(())
        },
        KnotChange::Uniques(u) => match behavior {
            Some(b) => {
                b.uniques = u;
                Ok(())
            },
            None => Err(KnotError::SourceHasNoBehavior),
        },
        KnotChange::Conflicts(c) => match behavior {
            Some(b) => {
                b.conflicts = c;
                Ok(())
            },
            None => Err(KnotError::SourceHasNoBehavior),
        },
        _ => Ok(()),
    }
}

fn is_part_change(change: &KnotChange) -> (r: bool)
    ensures
        r == is_credential_part(*change),
{
    match change {
        KnotChange::Port(_) | KnotChange::Host(_) | KnotChange::Username(_)
        | KnotChange::Connections(_) | KnotChange::Auth(_, _) => true,
        _ => false,
    }
}

fn update_credentials(change: KnotChange, c: KnotCredentials) -> (r: KnotCredentials)
    ensures
        r == updated_credentials(change, c),
{
    match change {
        KnotChange::Port(p) => KnotCredentials { port: p, ..c },
        KnotChange::Host(h) => KnotCredentials { host: h, ..c },
        KnotChange::Username(u) => KnotCredentials { username: u, ..c },
        KnotChange::Connections(n) => KnotCredentials { connection_limit: n, ..c },
        KnotChange::Auth(a, s) => KnotCredentials { auth: a, config_auth: s, ..c },
        _ => c,
    }
}

/// The path typed, or the placeholder when nothing was typed and there is one.
pub fn path_or_placeholder(input: String, placeholder: Option<&str>) -> (r: String)
    ensures
        r@ == match placeholder {
            Some(p) => if input@.len() == 0 {
                p@
            } else {
                input@
            },
            None => input@,
        },
{
    match placeholder {
        Some(p) => if input.as_str().is_empty() {
            string_of(chars_of(p).as_slice())
        } else {
            input
        },
        None => input,
    }
}

/// The items whose positions are not chosen, in order.
pub open spec fn kept_items<T>(items: Seq<T>, chosen: Seq<usize>) -> Seq<T>
    decreases items.len(),
{
    if items.len() == 0 {
        items
    } else {
        let prev = kept_items(items.drop_last(), chosen);
        if chosen.contains((items.len() - 1) as usize) {
            prev
        } else {
            prev.push(items.last())
        }
    }
}

/// Removes the items at the chosen positions.
pub fn remove_chosen<T>(items: Vec<T>, chosen: &Vec<usize>) -> (r: Vec<T>)
    ensures
        r@ == kept_items(items@, chosen@),
{
    let mut rest = items;
    let ghost all = rest@;
    let mut rev: Vec<T> = Vec::new();
    // `rev` holds the kept items after the first `rest.len()`, last first.
    while rest.len() > 0
        invariant
            rest@ == all.take(rest@.len() as int),
            rest@.len() <= all.len(),
            kept_items(all, chosen@) == kept_items(rest@, chosen@) + rev@.reverse(),
        decreases rest@.len(),
    {
        let i = rest.len() - 1;
        let ghost before = rest@;
        let x = rest.pop().unwrap();
        proof {
            assert(before.drop_last() =~= rest@);
            assert(rest@ =~= all.take(rest@.len() as int));
        }
        let mut found = false;
        let mut j: usize = 0;
        while j < chosen.len()
            invariant
                j <= chosen@.len(),
                found == (exists|q: int| 0 <= q < j && chosen@[q] == i),
            decreases chosen@.len() - j,
        {
            if chosen[j] == i {
                found = true;
            }
            j = j + 1;
        }
        proof {
            assert(found == chosen@.contains(i));
            assert(before.last() == x);
        }
        if !found {
            let ghost rv = rev@;
            rev.push(x);
            proof {
                assert(rev@.reverse() =~= seq![x] + rv.reverse());
                assert(kept_items(before, chosen@) == kept_items(rest@, chosen@).push(x));
                assert(kept_items(rest@, chosen@).push(x) + rv.reverse() =~= kept_items(rest@, chosen@)
                    + rev@.reverse());
            }
        }
    }
    let mut out: Vec<T> = Vec::new();
    let ghost target = rev@.reverse();
    proof {
        assert(kept_items(rest@, chosen@) =~= Seq::<T>::empty());
        assert(kept_items(all, chosen@) =~= target);
    }
    while rev.len() > 0
        invariant
            target == out@ + rev@.reverse(),
        decreases rev@.len(),
    {
        let ghost rv = rev@;
        let x = rev.pop().unwrap();
        out.push(x);
        proof {
            assert(rv.reverse() =~= seq![x] + rev@.reverse());
            assert(target =~= out@ + rev@.reverse());
        }
    }
    proof {
        assert(rev@.reverse() =~= Seq::<T>::empty());
        assert(out@ =~= target);
    }
    out
}

/// New remote knots added to those kept: appended on the user's choice when
/// there are some, in their place otherwise.
pub fn merge_remote_knots<T>(loaded: &mut Vec<T>, new: Vec<T>, append: bool)
    ensures
        final(loaded)@ == (if old(loaded)@.len() > 0 && append {
            old(loaded)@ + new@
        } else {
            new@
        }),
{
    if loaded.len() > 0 && append {
        let mut new = new;
        loaded.append(&mut new);
    } else {
        *loaded = new;
    }
}


/// The error of `parse_size`, only told apart from success.
#[verifier::external_type_specification]
#[verifier::external_body]
pub struct ExParseSizeError(parse_size::Error);

/// The number of bytes `parse_size::parse_size` reads in a text ("10 KB" is
/// 10000, "0.2 MiB" is 209715), when it reads one.
pub uninterp spec fn parsed_size(s: Seq<char>) -> Option<u64>;

/// The value of the digits of `s`, read in order; other characters are
/// passed over.
pub open spec fn digits_value(s: Seq<char>) -> nat
    decreases s.len(),
{
    if s.len() == 0 {
        0
    } else if is_digit_char(s.last()) {
        10 * digits_value(s.drop_last()) + ((s.last() as u32) - 48) as nat
    } else {
        digits_value(s.drop_last())
    }
}

/// `parse_size` reads `p` as the start of a number: digits, `_` and spaces,
/// and at most one `.`, which follows a digit.
pub open spec fn number_so_far(p: Seq<char>) -> bool {
    &&& forall|j: int|
        0 <= j < p.len() ==> is_digit_char(#[trigger] p[j]) || p[j] == '_' || p[j] == ' ' || p[j]
            == '.'
    &&& forall|i: int, j: int| #![trigger p[i], p[j]] 0 <= i < j < p.len() && p[i] == '.' ==> p[j] != '.'
    &&& forall|j: int|
        0 <= j < p.len() && #[trigger] p[j] == '.' ==> exists|i: int|
            0 <= i < j && is_digit_char(#[trigger] p[i])
}

/// At `k`, `parse_size` meets a digit of 5 or more after a number whose
/// digits read exactly `u64::MAX`, and rounds that number up past `u64`.
pub open spec fn rounds_past_max_at(s: Seq<char>, k: int) -> bool {
    &&& 0 <= k < s.len()
    &&& 53 <= s[k] as u32 <= 57
    &&& number_so_far(s.take(k))
    &&& digits_value(s.take(k)) == u64::MAX
}

/// The texts on which `parse_size::parse_size` overflows an integer of its
/// own (a panic where overflow is checked): a number whose digits read
/// exactly `u64::MAX`, followed by a digit of 5 or more, such as
/// `184467440737095516155`; and, counting digits past an overflow in an
/// `i32`, any text longer than `i32::MAX` characters is left out too.
pub open spec fn parse_size_overflows(s: Seq<char>) -> bool {
    ||| s.len() > i32::MAX
    ||| exists|k: int| rounds_past_max_at(s, k)
}

proof fn lemma_digits_value_grows(s: Seq<char>, a: int, b: int)
    requires
        0 <= a <= b <= s.len(),
    ensures
        digits_value(s.take(a)) <= digits_value(s.take(b)),
    decreases b - a,
{
    if a < b {
        lemma_digits_value_grows(s, a, b - 1);
        assert(s.take(b).drop_last() =~= s.take(b - 1));
    }
}

/// Whether `parse_size::parse_size` would overflow on the text (see
/// `parse_size_overflows`).
pub fn size_text_overflows(s: &str) -> (r: bool)
    ensures
        r == parse_size_overflows(s@),
{
    let cs = chars_of(s);
    let n = cs.len();
    if n > 2147483647 {
        return true;
    }
    let ghost t = cs@;
    let mut val: u64 = 0;
    let mut seen_digit = false;
    let mut seen_dot = false;
    let mut k: usize = 0;
    proof {
        assert(t.take(0) =~= Seq::<char>::empty());
    }
    while k < n
        invariant
            t == cs@,
            t == s@,
            n == t.len(),
            n <= i32::MAX,
            k <= n,
            number_so_far(t.take(k as int)),
            val == digits_value(t.take(k as int)),
            seen_digit == exists|i: int| 0 <= i < k && is_digit_char(#[trigger] t[i]),
            seen_dot == exists|i: int| 0 <= i < k && #[trigger] t[i] == '.',
            forall|j: int| 0 <= j < k ==> !rounds_past_max_at(t, j),
        decreases n - k,
    {
        let c = cs[k];
        let ghost p = t.take(k as int);
        let ghost q = t.take(k + 1);
        proof {
            assert(q.drop_last() =~= p);
            assert(q.last() == c);
            assert forall|j: int| 0 <= j < k implies #[trigger] q[j] == p[j] && p[j] == t[j] by {}
        }
        let code = c as u32;
        if 48 <= code && code <= 57 {
            if val == u64::MAX && code >= 53 {
                proof {
                    assert(rounds_past_max_at(t, k as int));
                }
                return true;
            }
            let next: u128 = (val as u128) * 10 + ((code - 48) as u128);
            if next > u64::MAX as u128 {
                proof {
                    assert(digits_value(q) == next);
                    assert forall|j: int| 0 <= j < t.len() implies !rounds_past_max_at(t, j) by {
                        if j > k {
                            lemma_digits_value_grows(t, k + 1, j);
                        }
                    }
                }
                return false;
            }
            val = next as u64;
            seen_digit = true;
            proof {
                assert(number_so_far(q)) by {
                    assert forall|j: int| 0 <= j < q.len() && #[trigger] q[j] == '.' implies exists|i: int|
                        0 <= i < j && is_digit_char(#[trigger] q[i]) by {
                        assert(p[j] == '.');
                    }
                }
            }
        } else if c == '_' || c == ' ' {
            proof {
                assert(number_so_far(q)) by {
                    assert forall|j: int| 0 <= j < q.len() && #[trigger] q[j] == '.' implies exists|i: int|
                        0 <= i < j && is_digit_char(#[trigger] q[i]) by {
                        let i = choose|i: int| 0 <= i < j && is_digit_char(#[trigger] p[i]);
                        assert(q[i] == p[i]);
                    }
                }
            }
        } else if c == '.' && !seen_dot && seen_digit {
            seen_dot = true;
            proof {
                let w = choose|i: int| 0 <= i < k && is_digit_char(#[trigger] t[i]);
                assert(number_so_far(q)) by {
                    assert forall|i: int, j: int| #![trigger q[i], q[j]] 0 <= i < j < q.len() && q[i] == '.'
                        implies q[j] != '.' by {
                        if j == k {
                            assert(t[i] == '.');
                        }
                    }
                    assert forall|j: int| 0 <= j < q.len() && #[trigger] q[j] == '.' implies exists|i: int|
                        0 <= i < j && is_digit_char(#[trigger] q[i]) by {
                        if j == k {
                            assert(q[w] == t[w]);
                        } else {
                            let i = choose|i: int| 0 <= i < j && is_digit_char(#[trigger] p[i]);
                            assert(q[i] == p[i]);
                        }
                    }
                }
            }
        } else {
            proof {
                assert(!is_digit_char(c));
                assert forall|j: int| 0 <= j < t.len() implies !rounds_past_max_at(t, j) by {
                    if j == k {
                        assert(!(53 <= t[j] as u32 <= 57));
                    }
                    if j > k {
                        let pj = t.take(j);
                        assert(pj[k as int] == c);
                        assert(!is_digit_char(pj[k as int]));
                        if c == '.' {
                            if seen_dot {
                                let i = choose|i: int| 0 <= i < k && #[trigger] t[i] == '.';
                                assert(pj[i] == '.');
                            } else {
                                assert forall|i: int| 0 <= i < k implies !is_digit_char(#[trigger] pj[i]) by {
                                    assert(pj[i] == t[i]);
                                }
                            }
                        }
                    }
                }
            }
            return false;
        }
        k = k + 1;
    }
    false
}

/// Calls `parse_size::parse_size`, whose result depends on the text alone:
/// the number of bytes it reads, or an error for a text without digits,
/// with a character it cannot read, or beyond `u64`. On the texts of
/// `parse_size_overflows` the crate overflows an integer of its own, so
/// they are left out.
#[verifier::external_body]
fn parse_size_of(s: &str) -> (r: Result<u64, parse_size::Error>)
    requires
        !parse_size_overflows(s@),
    ensures
        r is Ok == parsed_size(s@) is Some,
        r matches Ok(v) ==> parsed_size(s@) == Some(v),
{
    parse_size::parse_size(s)
}

/// The size limit a command line asks for: none (and no limit) when no size
/// is given; the bytes the size reads as otherwise, or `InvalidSize` when it
/// reads as none.
pub fn size_limit_from_arg(size: Option<String>) -> (r: Result<(bool, u64), KnotError>)
    requires
        size matches Some(s) ==> !parse_size_overflows(s@),
    ensures
        match size {
            None => r == Ok::<(bool, u64), KnotError>((false, 0u64)),
            Some(s) => match parsed_size(s@) {
                Some(v) => r == Ok::<(bool, u64), KnotError>((true, v)),
                None => r matches Err(KnotError::InvalidSize { value }) && value == s,
            },
        },
{
    match size {
        None => Ok((false, 0)),
        Some(s) => {
            let parsed = match parse_size_of(s.as_str()) {
                Ok(v) => Some(v),
                Err(_) => None,
            };
            size_limit_outcome(s, parsed)
        },
    }
}

/// The size limit a given size asks for, once read: the bytes it reads as,
/// or `InvalidSize` with the text when it reads as none.
pub fn size_limit_outcome(value: String, parsed: Option<u64>) -> (r: Result<(bool, u64), KnotError>)
    ensures
        match parsed {
            Some(v) => r == Ok::<(bool, u64), KnotError>((true, v)),
            None => r matches Err(KnotError::InvalidSize { value: t }) && t == value,
        },
{
    match parsed {
        Some(v) => Ok((true, v)),
        None => Err(KnotError::InvalidSize { value }),
    }
}

/// Whether a typed size can be read (what the size prompt accepts).
pub fn is_valid_size(input: &str) -> (r: bool)
    requires
        !parse_size_overflows(input@),
    ensures
        r == parsed_size(input@) is Some,
{
    parse_size_of(input).is_ok()
}


/// The authentication the user picked.
#[derive(Debug, Clone, Copy, PartialEq, Eq, Structural)]
pub enum AuthChoice {
    Password,
    PrivateKey,
    NoAuth,
}

/// The authentication for a choice: a password (asked for when connecting;
/// a placeholder until then), a private key (with a certificate when one is
/// given), or none; the first for connecting, the second for saving.
pub fn auth_from_choice(
    choice: AuthChoice,
    key_path: String,
    cert_path: Option<String>,
) -> (r: (AuthMethod, SavedAuthMethod))
    ensures
        choice == AuthChoice::Password ==> (r.0 matches AuthMethod::Password(p) && p@
            == "password :P"@ && r.1 is Password),
        choice == AuthChoice::PrivateKey ==> r.0 == (AuthMethod::PrivateKey {
            key_path,
            cert_path,
        }) && r.1 == (SavedAuthMethod::PrivateKey { key_path, cert_path }),
        choice == AuthChoice::NoAuth ==> r.0 is NoAuth && r.1 is NoAuth,
{
    match choice {
        AuthChoice::Password => (
            AuthMethod::Password(string_of(chars_of("password :P").as_slice())),
            SavedAuthMethod::Password,
        ),
        AuthChoice::PrivateKey => (
            AuthMethod::PrivateKey { key_path: key_path.clone(), cert_path: cert_path.clone() },
            SavedAuthMethod::PrivateKey { key_path, cert_path },
        ),
        AuthChoice::NoAuth => (AuthMethod::NoAuth, SavedAuthMethod::NoAuth),
    }
}

/// The answers to the credential questions, each asked only for a part the
/// connection string left out.
pub struct CredentialAnswers {
    pub username: Option<String>,
    pub host: Option<String>,
    pub port: Option<u16>,
    pub connection_limit: usize,
    pub auth: AuthMethod,
    pub config_auth: SavedAuthMethod,
}

/// Which parts of the credentials the user must still be asked for.
pub fn missing_parts(parsed: &ParsedCreds) -> (r: (bool, bool, bool))
    ensures
        r == (parsed.username is None, parsed.host is None, parsed.port is None),
{
    (parsed.username.is_none(), parsed.host.is_none(), parsed.port.is_none())
}

/// The credentials of a knot: the parts of the connection string, the
/// answers for the parts it left out (port 22 when no port is known either
/// way), then the number of connections and the authentication.
pub fn complete_credentials(parsed: ParsedCreds, answers: CredentialAnswers) -> (r: KnotCredentials)
    ensures
        r.username@ == match parsed.username {
            Some(u) => u@,
            None => match answers.username {
                Some(a) => a@,
                None => Seq::<char>::empty(),
            },
        },
        r.host@ == match parsed.host {
            Some(h) => h@,
            None => match answers.host {
                Some(a) => a@,
                None => Seq::<char>::empty(),
            },
        },
        r.port == match parsed.port {
            Some(p) => p,
            None => match answers.port {
                Some(a) => a,
                None => 22u16,
            },
        },
        r.connection_limit == answers.connection_limit,
        r.auth == answers.auth,
        r.config_auth == answers.config_auth,
{
    let base = KnotCredentials::new();
    let username = match parsed.username {
        Some(u) => u,
        None => match answers.username {
            Some(a) => a,
            None => base.username.clone(),
        },
    };
    let host = match parsed.host {
        Some(h) => h,
        None => match answers.host {
            Some(a) => a,
            None => base.host.clone(),
        },
    };
    let port = match parsed.port {
        Some(p) => p,
        None => match answers.port {
            Some(a) => a,
            None => 22,
        },
    };
    KnotCredentials {
        username,
        host,
        port,
        auth: answers.auth,
        config_auth: answers.config_auth,
        connection_limit: answers.connection_limit,
    }
}

/// A knot as the set-up questions describe it: its type, its credentials,
/// and its path (the default path when none was typed).
pub fn knot_config_from_answers(
    ktype: KnotType,
    credentials: Option<KnotCredentials>,
    typed_path: String,
    default_path: &str,
) -> (r: KnotConfig)
    ensures
        r.adapter_type == ktype,
        r.credentials == credentials,
        r.path@ == (if typed_path@.len() == 0 {
            default_path@
        } else {
            typed_path@
        }),
{
    let path = path_or_placeholder(typed_path, Some(default_path));
    KnotConfig::new(ktype, path, credentials)
}

/// Local paths are completed as they are typed; remote ones are not.
pub fn completes_paths(ktype: KnotType) -> (r: bool)
    ensures
        r == (ktype == KnotType::Local),
{
    ktype == KnotType::Local
}

/// The answers of the set-up of a workspace's settings, each present when
/// its section was picked: the size limit (allowed, and its size), the
/// features (caching, `.gitignore`, compression), and the ignore patterns.
pub struct SettingsAnswers {
    pub size_limit: Option<(bool, u64)>,
    pub features: Option<(bool, bool, bool)>,
    pub patterns: Option<Vec<String>>,
}

/// The settings the answers describe: defaults (a thousand tasks at once)
/// for the sections not picked.
pub fn settings_from_answers(answers: SettingsAnswers) -> (r: Result<MainConfig, KnotError>)
    ensures
        r matches Ok(c) ==> (c.performance.task_limit == 1000 && (match answers.size_limit {
            Some((allow, size)) => c.performance.allow_size_limit == allow
                && c.performance.size_limit == size,
            None => !c.performance.allow_size_limit && c.performance.size_limit == 15 * 1024
                * 1024 * 1024,
        }) && (match answers.features {
            Some((caching, gitignore, compress)) => c.features.caching == caching
                && c.features.gitignore == gitignore && c.features.compress == compress,
            None => !c.features.caching && !c.features.gitignore && !c.features.compress,
        }) && (match answers.patterns {
            Some(ps) => strings_view(c.global.ignore_patterns@)
                == crate::configuration::dedup_spec(strings_view(ps@)),
            None => c.global.ignore_patterns@.len() == 0,
        })),
        r is Err ==> answers.patterns is Some,
{
    let mut config = MainConfig::new().task_limit(1000);
    match answers.size_limit {
        Some((allow, size)) => {
            config = config.allow_size_limit(allow).file_size_limit(size);
        },
        None => {},
    }
    match answers.features {
        Some((caching, gitignore, compress)) => {
            config = config.caching(caching).gitignore(gitignore).compress(compress);
        },
        None => {},
    }
    match answers.patterns {
        Some(ps) => config.ignorer(&ps, None),
        None => Ok(config),
    }
}

} // verus!
