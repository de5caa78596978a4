//! The texts of the progress shown during a synchronisation: the graph of
//! knots (those done, the one being synced, those left) and the terminal's
//! progress escape. The program colours them and draws them.
use vstd::prelude::*;

use crate::cli::dashboard::drawing::append_chars;
use crate::text::{decimal_string, decimal_text, string_of};

verus! {

/// The mark of a knot in the graph.
pub const NODE: &'static str = "\u{f111}";

/// The link between two knots.
pub const LINK: &'static str = "———";

/// `s` repeated `n` times.
pub open spec fn repeat(s: Seq<char>, n: nat) -> Seq<char>
    decreases n,
{
    if n == 0 {
        Seq::<char>::empty()
    } else {
        repeat(s, (n - 1) as nat) + s
    }
}

fn push_repeated(out: &mut Vec<char>, s: &str, n: usize)
    ensures
        final(out)@ == old(out)@ + repeat(s@, n as nat),
{
    let ghost start = out@;
    let mut k: usize = 0;
    while k < n
        invariant
            k <= n,
            out@ == start + repeat(s@, k as nat),
        decreases n - k,
    {
        append_chars(out, s);
        proof {
            assert(out@ =~= start + repeat(s@, (k + 1) as nat));
        }
        k = k + 1;
    }
}

/// The knots already synced, before knot `index`: a mark and a link each.
pub open spec fn done_nodes_spec(index: nat) -> Seq<char> {
    repeat(NODE@ + " "@ + LINK@, index)
}

pub fn done_nodes(index: usize) -> (r: String)
    ensures
        r@ == done_nodes_spec(index as nat),
{
    let mut unit: Vec<char> = Vec::new();
    append_chars(&mut unit, NODE);
    append_chars(&mut unit, " ");
    append_chars(&mut unit, LINK);
    let u = string_of(unit.as_slice());
    let mut out: Vec<char> = Vec::new();
    push_repeated(&mut out, u.as_str(), index);
    proof {
        assert(out@ =~= done_nodes_spec(index as nat));
    }
    string_of(out.as_slice())
}

/// Two decimal digits at least.
pub open spec fn two_digits(n: nat) -> Seq<char> {
    (if n < 10 {
        seq!['0']
    } else {
        Seq::<char>::empty()
    }) + decimal_text(n)
}

/// The knots left after knot `index` of `total`, and which one is synced.
pub open spec fn remaining_nodes_spec(index: nat, total: nat) -> Seq<char> {
    repeat(" "@ + NODE@ + LINK@, if total > index + 1 {
        (total - index - 1) as nat
    } else {
        0
    }) + "   [Syncing Knot "@ + two_digits(index + 1) + "/"@ + two_digits(total) + "]"@
}

fn push_two_digits(out: &mut Vec<char>, n: u64)
    ensures
        final(out)@ == old(out)@ + two_digits(n as nat),
{
    let ghost start = out@;
    if n < 10 {
        out.push('0');
    }
    append_chars(out, decimal_string(n).as_str());
    proof {
        assert(out@ =~= start + two_digits(n as nat));
    }
}

pub fn remaining_nodes(index: usize, total: usize) -> (r: String)
    requires
        index < usize::MAX,
    ensures
        r@ == remaining_nodes_spec(index as nat, total as nat),
{
    let mut unit: Vec<char> = Vec::new();
    append_chars(&mut unit, " ");
    append_chars(&mut unit, NODE);
    append_chars(&mut unit, LINK);
    let u = string_of(unit.as_slice());
    let left = if total > index + 1 {
        total - index - 1
    } else {
        0
    };
    let mut out: Vec<char> = Vec::new();
    push_repeated(&mut out, u.as_str(), left);
    append_chars(&mut out, "   [Syncing Knot ");
    push_two_digits(&mut out, (index + 1) as u64);
    append_chars(&mut out, "/");
    push_two_digits(&mut out, total as u64);
    append_chars(&mut out, "]");
    proof {
        assert(out@ =~= remaining_nodes_spec(index as nat, total as nat));
    }
    string_of(out.as_slice())
}

/// The graph once every knot is synced: a mark and a link for each knot but
/// the last, then the last mark.
pub open spec fn final_graph_spec(total: nat) -> Seq<char> {
    repeat(NODE@ + " "@ + LINK@, if total > 0 {
        (total - 1) as nat
    } else {
        0
    }) + (if total > 0 {
        NODE@
    } else {
        Seq::<char>::empty()
    })
}

pub fn final_graph(total: usize) -> (r: String)
    ensures
        r@ == final_graph_spec(total as nat),
{
    let mut unit: Vec<char> = Vec::new();
    append_chars(&mut unit, NODE);
    append_chars(&mut unit, " ");
    append_chars(&mut unit, LINK);
    let u = string_of(unit.as_slice());
    let mut out: Vec<char> = Vec::new();
    let n = if total > 0 {
        total - 1
    } else {
        0
    };
    push_repeated(&mut out, u.as_str(), n);
    if total > 0 {
        append_chars(&mut out, NODE);
    }
    proof {
        assert(out@ =~= final_graph_spec(total as nat));
    }
    string_of(out.as_slice())
}

/// The escape that sets the terminal's progress indicator to `percent`.
pub open spec fn progress_escape_spec(percent: u8) -> Seq<char> {
    "\x1b]9;4;1;"@ + decimal_text(percent as nat) + "\x07"@
}

pub fn progress_escape(percent: u8) -> (r: String)
    ensures
        r@ == progress_escape_spec(percent),
{
    let mut out: Vec<char> = Vec::new();
    append_chars(&mut out, "\x1b]9;4;1;");
    append_chars(&mut out, decimal_string(percent as u64).as_str());
    append_chars(&mut out, "\x07");
    string_of(out.as_slice())
}

/// The progress shown after `done_tasks` tasks: the count taken as a
/// percentage byte, as the terminal escape is given it (wrapping past 255).
pub fn progress_percent(done_tasks: usize) -> (r: u8)
    ensures
        r == done_tasks as u8,
{
    done_tasks as u8
}

} // verus!
