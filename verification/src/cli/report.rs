//! The summary of a workspace's configuration, as the `config` command shows
//! it: a list of lines, each marked with how it is styled. The program
//! colours the lines and writes them, through a pager when they do not fit.
use vstd::prelude::*;

use crate::cli::modification::knot_type_label;
use crate::cli::resolver::pad_right;
use crate::configuration::loader::{RemoteKnotConfig, RemoteKnotLoader};
use crate::configuration::{strings_view, MainConfig};
use crate::knot::credentials::{KnotCredentials, SavedAuthMethod};
use crate::knot::KnotConfig;
use crate::text::{
    chars_of, decimal_string, decimal_text, human_bytes, human_bytes_text, path_debug,
    path_debug_text, string_of,
};

verus! {

/// How the value of a row is styled.
#[derive(Debug, Clone, Copy, PartialEq, Eq, Structural)]
pub enum ValueStyle {
    /// A path, a host or a name.
    Text,
    /// A number.
    Number,
    /// A choice among named options (a type, a behavior, an authentication).
    Choice,
    /// A switch: `ENABLED` or `DISABLED`.
    Switch,
    /// A size, written by the program in human units.
    Size,
}

/// One line of the summary.
pub enum ReportLine {
    /// A title between `===`.
    Heading(String),
    /// The name of a group of rows, in brackets, after a blank line when
    /// `spaced`.
    Section { indent: String, name: String, spaced: bool },
    /// A label padded to eighteen characters and its value.
    Row { indent: String, label: String, value: String, style: ValueStyle },
    /// A remark in dim text.
    Note { indent: String, text: String },
    /// A line as it is.
    Plain(String),
}

/// The lines as values.
pub ghost enum LineView {
    Heading(Seq<char>),
    Section(Seq<char>, Seq<char>, bool),
    Row(Seq<char>, Seq<char>, Seq<char>, ValueStyle),
    Note(Seq<char>, Seq<char>),
    Plain(Seq<char>),
}

impl View for ReportLine {
    type V = LineView;

    open spec fn view(&self) -> LineView {
        match self {
            ReportLine::Heading(s) => LineView::Heading(s@),
            ReportLine::Section { indent, name, spaced } => LineView::Section(indent@, name@, *spaced),
            ReportLine::Row { indent, label, value, style } => LineView::Row(
                indent@,
                label@,
                value@,
                *style,
            ),
            ReportLine::Note { indent, text } => LineView::Note(indent@, text@),
            ReportLine::Plain(s) => LineView::Plain(s@),
        }
    }
}

pub open spec fn lines_view(v: Seq<ReportLine>) -> Seq<LineView> {
    v.map_values(|l: ReportLine| l@)
}

pub open spec fn row_spec(indent: Seq<char>, label: Seq<char>, value: Seq<char>, style: ValueStyle) -> LineView {
    LineView::Row(indent, pad_right(label, 18), value, style)
}

pub open spec fn switch_text(b: bool) -> Seq<char> {
    if b {
        "ENABLED"@
    } else {
        "DISABLED"@
    }
}

/// The name of a saved authentication.
pub open spec fn auth_name_spec(a: SavedAuthMethod) -> Seq<char> {
    match a {
        SavedAuthMethod::Password => "Password"@,
        SavedAuthMethod::PrivateKey { .. } => "PrivateKey"@,
        SavedAuthMethod::NoAuth => "None"@,
    }
}

/// The rows of a set of credentials.
pub open spec fn credential_rows(c: KnotCredentials, indent: Seq<char>) -> Seq<LineView> {
    seq![
        row_spec(indent, "Host:"@, c.host@, ValueStyle::Text),
        row_spec(indent, "Username:"@, c.username@, ValueStyle::Text),
        row_spec(indent, "Port:"@, decimal_text(c.port as nat), ValueStyle::Number),
        row_spec(indent, "Connection Limit:"@, decimal_text(c.connection_limit as nat), ValueStyle::Number),
        row_spec(indent, "Auth:"@, auth_name_spec(c.config_auth), ValueStyle::Choice),
    ]
}

/// The summary of the settings.
pub open spec fn main_rows(c: MainConfig) -> Seq<LineView> {
    seq![
        LineView::Heading("Configuration Summary"@),
        LineView::Row(Seq::<char>::empty(), "Config File:"@, c.config_path@, ValueStyle::Text),
        LineView::Section(Seq::<char>::empty(), "Features"@, true),
        row_spec("  "@, "Caching:"@, switch_text(c.features.caching), ValueStyle::Switch),
        row_spec("  "@, "Gitignore:"@, switch_text(c.features.gitignore), ValueStyle::Switch),
        row_spec("  "@, "Compress:"@, switch_text(c.features.compress), ValueStyle::Switch),
        LineView::Section(Seq::<char>::empty(), "Performance"@, true),
        row_spec("  "@, "Task Limit:"@, decimal_text(c.performance.task_limit as nat), ValueStyle::Number),
        row_spec("  "@, "Limit file size:"@, switch_text(c.performance.allow_size_limit), ValueStyle::Switch),
        row_spec("  "@, "Size Limit:"@, human_bytes_text(c.performance.size_limit), ValueStyle::Size),
    ]
}

/// The rows of the source knot.
pub open spec fn source_rows(k: KnotConfig) -> Seq<LineView> {
    seq![
        LineView::Heading("SOURCE KNOT"@),
        row_spec("  "@, "Adapter Type:"@, crate::cli::modification::type_name_spec(k.adapter_type), ValueStyle::Choice),
        row_spec("  "@, "Path:"@, path_debug_text(k.path@), ValueStyle::Text),
    ] + match k.credentials {
        Some(c) => seq![LineView::Section("  "@, "Credentials"@, false)] + credential_rows(c, "    "@),
        None => Seq::<LineView>::empty(),
    }
}

/// The line that numbers a remote knot when there are several.
pub open spec fn banner_spec(idx: nat) -> Seq<char> {
    "\n──────┐\n• "@ + (if idx < 10 {
        seq!['0']
    } else {
        Seq::<char>::empty()
    }) + decimal_text(idx) + ": │\n──────┘"@
}

/// The rows of one remote knot.
pub open spec fn remote_rows(k: RemoteKnotConfig, idx: nat, several: bool) -> Seq<LineView> {
    (if several {
        seq![LineView::Plain(banner_spec(idx))]
    } else {
        Seq::<LineView>::empty()
    }) + seq![
        LineView::Section("  "@, "General"@, true),
        row_spec("    "@, "Type:"@, crate::cli::modification::type_name_spec(k.config.adapter_type), ValueStyle::Choice),
        row_spec("    "@, "Path:"@, path_debug_text(k.config.path@), ValueStyle::Text),
        LineView::Section("  "@, "Behavior"@, true),
        row_spec("    "@, "Uniques:"@, crate::configuration::behavior::unique_name_spec(k.behavior.uniques), ValueStyle::Choice),
        row_spec("    "@, "Conflicts:"@, crate::configuration::behavior::conflict_name_spec(k.behavior.conflicts), ValueStyle::Choice),
    ] + match k.config.credentials {
        Some(c) => seq![LineView::Section("  "@, "Credentials"@, true)] + credential_rows(c, "    "@),
        None => Seq::<LineView>::empty(),
    }
}

/// The rows of the remote knots from the `i`-th on.
pub open spec fn remotes_rows_from(ks: Seq<RemoteKnotConfig>, i: nat) -> Seq<LineView>
    decreases ks.len() - i,
{
    if i >= ks.len() {
        Seq::<LineView>::empty()
    } else {
        remote_rows(ks[i as int], i, ks.len() > 1) + remotes_rows_from(ks, i + 1)
    }
}

/// The rows of the ignore list.
pub open spec fn pattern_rows(ps: Seq<Seq<char>>) -> Seq<LineView> {
    if ps.len() == 0 {
        seq![LineView::Note("  "@, "No ignore patterns active."@)]
    } else {
        ps.map_values(|p: Seq<char>| LineView::Plain("  • "@ + p))
    }
}

/// The whole summary: settings, source knot, remote knots, ignore list.
pub open spec fn report_spec(c: MainConfig, source: KnotConfig, remotes: Seq<RemoteKnotConfig>) -> Seq<LineView> {
    main_rows(c) + source_rows(source) + seq![LineView::Heading("REMOTE KNOTS"@)] + (if remotes.len() == 0 {
        seq![LineView::Note("  "@, "No remote knots configured."@)]
    } else {
        remotes_rows_from(remotes, 0)
    }) + seq![LineView::Heading("IGNORE LIST"@)] + pattern_rows(strings_view(c.global.ignore_patterns@))
}

fn lit(s: &str) -> (r: String)
    ensures
        r@ == s@,
{
    string_of(chars_of(s).as_slice())
}

fn push_row(out: &mut Vec<ReportLine>, indent: &str, label: &str, value: String, style: ValueStyle)
    ensures
        lines_view(final(out)@) == lines_view(old(out)@).push(row_spec(indent@, label@, value@, style)),
{
    let padded = crate::cli::resolver::pad_to(label, 18);
    let ghost before = lines_view(out@);
    out.push(ReportLine::Row { indent: lit(indent), label: padded, value, style });
    proof {
        assert(lines_view(out@) =~= before.push(row_spec(indent@, label@, value@, style)));
    }
}

fn push_line(out: &mut Vec<ReportLine>, l: ReportLine)
    ensures
        lines_view(final(out)@) == lines_view(old(out)@).push(l@),
{
    let ghost before = lines_view(out@);
    let ghost lv = l@;
    out.push(l);
    proof {
        assert(lines_view(out@) =~= before.push(lv));
    }
}

fn switch_string(b: bool) -> (r: String)
    ensures
        r@ == switch_text(b),
{
    if b {
        lit("ENABLED")
    } else {
        lit("DISABLED")
    }
}

pub fn auth_name(a: &SavedAuthMethod) -> (r: &'static str)
    ensures
        r@ == auth_name_spec(*a),
{
    match a {
        SavedAuthMethod::Password => "Password",
        SavedAuthMethod::PrivateKey { .. } => "PrivateKey",
        SavedAuthMethod::NoAuth => "None",
    }
}

fn push_credentials(out: &mut Vec<ReportLine>, c: &KnotCredentials)
    ensures
        lines_view(final(out)@) == lines_view(old(out)@) + credential_rows(*c, "    "@),
{
    let ghost before = lines_view(out@);
    push_row(out, "    ", "Host:", c.host.clone(), ValueStyle::Text);
    push_row(out, "    ", "Username:", c.username.clone(), ValueStyle::Text);
    push_row(out, "    ", "Port:", decimal_string(c.port as u64), ValueStyle::Number);
    push_row(
        out,
        "    ",
        "Connection Limit:",
        decimal_string(c.connection_limit as u64),
        ValueStyle::Number,
    );
    push_row(out, "    ", "Auth:", lit(auth_name(&c.config_auth)), ValueStyle::Choice);
    proof {
        assert(lines_view(out@) =~= before + credential_rows(*c, "    "@));
    }
}


fn main_lines(out: &mut Vec<ReportLine>, c: &MainConfig)
    ensures
        lines_view(final(out)@) == lines_view(old(out)@) + main_rows(*c),
{
    let ghost before = lines_view(out@);
    push_line(out, ReportLine::Heading(lit("Configuration Summary")));
    push_line(
        out,
        ReportLine::Row {
            indent: String::new(),
            label: lit("Config File:"),
            value: c.config_path.clone(),
            style: ValueStyle::Text,
        },
    );
    push_line(out, ReportLine::Section { indent: String::new(), name: lit("Features"), spaced: true });
    push_row(out, "  ", "Caching:", switch_string(c.features.caching), ValueStyle::Switch);
    push_row(out, "  ", "Gitignore:", switch_string(c.features.gitignore), ValueStyle::Switch);
    push_row(out, "  ", "Compress:", switch_string(c.features.compress), ValueStyle::Switch);
    push_line(
        out,
        ReportLine::Section { indent: String::new(), name: lit("Performance"), spaced: true },
    );
    push_row(out, "  ", "Task Limit:", decimal_string(c.performance.task_limit), ValueStyle::Number);
    push_row(
        out,
        "  ",
        "Limit file size:",
        switch_string(c.performance.allow_size_limit),
        ValueStyle::Switch,
    );
    push_row(out, "  ", "Size Limit:", human_bytes(c.performance.size_limit), ValueStyle::Size);
    proof {
        assert(lines_view(out@) =~= before + main_rows(*c));
    }
}

fn source_lines(out: &mut Vec<ReportLine>, k: &KnotConfig)
    ensures
        lines_view(final(out)@) == lines_view(old(out)@) + source_rows(*k),
{
    let ghost before = lines_view(out@);
    push_line(out, ReportLine::Heading(lit("SOURCE KNOT")));
    push_row(out, "  ", "Adapter Type:", lit(knot_type_label(k.adapter_type)), ValueStyle::Choice);
    push_row(out, "  ", "Path:", path_debug(k.path.as_str()), ValueStyle::Text);
    let ghost mid = lines_view(out@);
    match &k.credentials {
        Some(c) => {
            push_line(out, ReportLine::Section { indent: lit("  "), name: lit("Credentials"), spaced: false });
            push_credentials(out, c);
        },
        None => {},
    }
    proof {
        assert(lines_view(out@) =~= before + source_rows(*k));
    }
}

fn banner(idx: usize) -> (r: String)
    ensures
        r@ == banner_spec(idx as nat),
{
    let mut v: Vec<char> = Vec::new();
    crate::cli::dashboard::drawing::append_chars(&mut v, "\n──────┐\n• ");
    if idx < 10 {
        v.push('0');
    }
    let d = decimal_string(idx as u64);
    crate::cli::dashboard::drawing::append_chars(&mut v, d.as_str());
    crate::cli::dashboard::drawing::append_chars(&mut v, ": │\n──────┘");
    proof {
        assert(v@ =~= banner_spec(idx as nat));
    }
    string_of(v.as_slice())
}

fn remote_lines(out: &mut Vec<ReportLine>, k: &RemoteKnotConfig, idx: usize, several: bool)
    ensures
        lines_view(final(out)@) == lines_view(old(out)@) + remote_rows(*k, idx as nat, several),
{
    let ghost before = lines_view(out@);
    if several {
        push_line(out, ReportLine::Plain(banner(idx)));
    }
    push_line(out, ReportLine::Section { indent: lit("  "), name: lit("General"), spaced: true });
    push_row(out, "    ", "Type:", lit(knot_type_label(k.config.adapter_type)), ValueStyle::Choice);
    push_row(out, "    ", "Path:", path_debug(k.config.path.as_str()), ValueStyle::Text);
    push_line(out, ReportLine::Section { indent: lit("  "), name: lit("Behavior"), spaced: true });
    push_row(out, "    ", "Uniques:", lit(k.behavior.uniques.name()), ValueStyle::Choice);
    push_row(out, "    ", "Conflicts:", lit(k.behavior.conflicts.name()), ValueStyle::Choice);
    match &k.config.credentials {
        Some(c) => {
            push_line(out, ReportLine::Section { indent: lit("  "), name: lit("Credentials"), spaced: true });
            push_credentials(out, c);
        },
        None => {},
    }
    proof {
        assert(lines_view(out@) =~= before + remote_rows(*k, idx as nat, several));
    }
}

/// The lines of the summary of a workspace's configuration.
pub fn configuration_report(c: &MainConfig, source: &KnotConfig, remotes: &RemoteKnotLoader) -> (r: Vec<
    ReportLine,
>)
    ensures
        lines_view(r@) == report_spec(*c, *source, remotes.knots@),
{
    let mut out: Vec<ReportLine> = Vec::new();
    main_lines(&mut out, c);
    source_lines(&mut out, source);
    push_line(&mut out, ReportLine::Heading(lit("REMOTE KNOTS")));
    let ghost before_remotes = lines_view(out@);
    let n = remotes.knots.len();
    if n == 0 {
        push_line(
            &mut out,
            ReportLine::Note { indent: lit("  "), text: lit("No remote knots configured.") },
        );
    } else {
        let mut i: usize = 0;
        while i < n
            invariant
                i <= n,
                n == remotes.knots@.len(),
                lines_view(out@) + remotes_rows_from(remotes.knots@, i as nat) == before_remotes
                    + remotes_rows_from(remotes.knots@, 0),
            decreases n - i,
        {
            let ghost b = lines_view(out@);
            remote_lines(&mut out, &remotes.knots[i], i, n > 1);
            proof {
                assert(lines_view(out@) + remotes_rows_from(remotes.knots@, (i + 1) as nat) =~= b
                    + remotes_rows_from(remotes.knots@, i as nat));
            }
            i = i + 1;
        }
        proof {
            assert(lines_view(out@) =~= before_remotes + remotes_rows_from(remotes.knots@, 0));
        }
    }
    push_line(&mut out, ReportLine::Heading(lit("IGNORE LIST")));
    let ghost before_patterns = lines_view(out@);
    let ps = &c.global.ignore_patterns;
    if ps.len() == 0 {
        push_line(
            &mut out,
            ReportLine::Note { indent: lit("  "), text: lit("No ignore patterns active.") },
        );
    } else {
        let mut j: usize = 0;
        while j < ps.len()
            invariant
                j <= ps@.len(),
                lines_view(out@) == before_patterns + strings_view(ps@).take(j as int).map_values(
                    |p: Seq<char>| LineView::Plain("  • "@ + p),
                ),
            decreases ps@.len() - j,
        {
            let mut v: Vec<char> = Vec::new();
            crate::cli::dashboard::drawing::append_chars(&mut v, "  • ");
            crate::cli::dashboard::drawing::append_chars(&mut v, ps[j].as_str());
            let ghost b = lines_view(out@);
            push_line(&mut out, ReportLine::Plain(string_of(v.as_slice())));
            proof {
                assert(strings_view(ps@).take(j + 1) =~= strings_view(ps@).take(j as int).push(
                    ps@[j as int]@,
                ));
                assert(lines_view(out@) =~= before_patterns + strings_view(ps@).take(j + 1).map_values(
                    |p: Seq<char>| LineView::Plain("  • "@ + p),
                ));
            }
            j = j + 1;
        }
        proof {
            assert(strings_view(ps@).take(ps@.len() as int) =~= strings_view(ps@));
        }
    }
    proof {
        assert(lines_view(out@) =~= report_spec(*c, *source, remotes.knots@));
    }
    out
}

/// The summary goes through a pager when it has more lines than the
/// terminal has rows.
pub fn use_pager(line_count: usize, term_height: Option<u16>) -> (r: bool)
    ensures
        r == (term_height matches Some(h) && line_count > h),
{
    match term_height {
        Some(h) => line_count > h as usize,
        None => false,
    }
}

} // verus!
