//! What the dashboard draws, as values: how far a tree is scrolled, which
//! panel is highlighted, and the texts of the titles and the rows. The
//! terminal widgets are built from these by the program.
use vstd::prelude::*;

use crate::cli::dashboard::event_handler::SelectedPart;
use crate::cli::dashboard::file_node::{status_label, UiRow};
use crate::knot::KnotConfig;
use crate::text::{chars_of, decimal_string, decimal_text, string_of};

verus! {

/// The scroll of a tree of `total_items` rows in a panel: how many rows fit,
/// the first row shown, the selected line of the table, and the length and
/// position of the scroll bar when one is needed.
#[derive(Debug, Clone, Copy, PartialEq, Eq, Structural)]
pub struct ScrollLayout {
    pub visible_rows_count: usize,
    pub scroll_offset: usize,
    pub table_selection: Option<usize>,
    pub scrollbar: Option<ScrollbarPos>,
}

/// A scroll bar over `content_length` steps, at `position`.
#[derive(Debug, Clone, Copy, PartialEq, Eq, Structural)]
pub struct ScrollbarPos {
    pub content_length: usize,
    pub position: usize,
}

pub open spec fn sat_sub(a: int, b: int) -> int {
    if a > b {
        a - b
    } else {
        0
    }
}

/// Four lines of a panel go to its borders and header; the selection is kept
/// on the last visible line once it passes the first page, without scrolling
/// past the last page.
pub open spec fn scroll_layout_spec(area_height: u16, total_items: usize, selected_idx: usize) -> ScrollLayout {
    let visible = sat_sub(area_height as int, 4);
    let offset = if visible == 0 || selected_idx < visible {
        0
    } else {
        let a = sat_sub(selected_idx + 1, visible);
        let b = sat_sub(total_items as int, visible);
        if a < b {
            a
        } else {
            b
        }
    };
    ScrollLayout {
        visible_rows_count: visible as usize,
        scroll_offset: offset as usize,
        table_selection: if total_items > 0 {
            Some(sat_sub(selected_idx as int, offset) as usize)
        } else {
            None
        },
        scrollbar: if total_items > visible {
            Some(
                ScrollbarPos {
                    content_length: sat_sub(total_items as int, 1) as usize,
                    position: selected_idx,
                },
            )
        } else {
            None
        },
    }
}

/// What draws the dashboard; the values it draws from are computed here.
pub struct DashDrawer;

impl DashDrawer {
    /// How a tree of `total_items` rows scrolls in a panel `area_height`
    /// lines high with the row `selected_idx` selected.
    pub fn setup_scroll_state(area_height: u16, total_items: usize, selected_idx: usize) -> (r:
        ScrollLayout)
        requires
            selected_idx < usize::MAX,
        ensures
            r == scroll_layout_spec(area_height, total_items, selected_idx),
    {
        let visible = area_height.saturating_sub(4) as usize;
        let offset = if visible == 0 || selected_idx < visible {
            0
        } else {
            let a = (selected_idx + 1).saturating_sub(visible);
            let b = total_items.saturating_sub(visible);
            if a < b {
                a
            } else {
                b
            }
        };
        ScrollLayout {
            visible_rows_count: visible,
            scroll_offset: offset,
            table_selection: if total_items > 0 {
                Some(selected_idx.saturating_sub(offset))
            } else {
                None
            },
            scrollbar: if total_items > visible {
                Some(
                    ScrollbarPos {
                        content_length: total_items.saturating_sub(1),
                        position: selected_idx,
                    },
                )
            } else {
                None
            },
        }
    }
}

/// Law: the selected row is among the rows drawn: once anything is visible,
/// the selection of a table of `total_items` rows (selected below that)
/// falls on one of the visible lines.
pub proof fn lemma_selection_visible(area_height: u16, total_items: usize, selected_idx: usize)
    requires
        selected_idx < total_items,
        area_height > 4,
    ensures
        scroll_layout_spec(area_height, total_items, selected_idx).scroll_offset <= selected_idx,
        scroll_layout_spec(area_height, total_items, selected_idx).table_selection
            matches Some(line) && line < scroll_layout_spec(
            area_height,
            total_items,
            selected_idx,
        ).visible_rows_count,
{
}

/// How each panel is marked: the highlight moves without focus, the
/// selection is the focused panel.
#[derive(Debug, Clone, Copy, PartialEq, Eq, Structural)]
pub struct PanelMarks {
    pub tabs_selected: bool,
    pub source_highlighted: bool,
    pub source_selected: bool,
    pub remote_highlighted: bool,
    pub remote_selected: bool,
}

pub fn panel_marks(is_focused: bool, part: SelectedPart) -> (r: PanelMarks)
    ensures
        r.tabs_selected == (!is_focused && part == SelectedPart::Tabs),
        r.source_highlighted == (!is_focused && part == SelectedPart::Source),
        r.source_selected == (is_focused && part == SelectedPart::Source),
        r.remote_highlighted == (!is_focused && part == SelectedPart::Remote),
        r.remote_selected == (is_focused && part == SelectedPart::Remote),
{
    PanelMarks {
        tabs_selected: !is_focused && part == SelectedPart::Tabs,
        source_highlighted: !is_focused && part == SelectedPart::Source,
        source_selected: is_focused && part == SelectedPart::Source,
        remote_highlighted: !is_focused && part == SelectedPart::Remote,
        remote_selected: is_focused && part == SelectedPart::Remote,
    }
}

pub fn append_chars(out: &mut Vec<char>, s: &str)
    ensures
        final(out)@ == old(out)@ + s@,
{
    let cs = chars_of(s);
    let ghost start = out@;
    let mut i: usize = 0;
    while i < cs.len()
        invariant
            i <= cs@.len(),
            cs@ == s@,
            out@ == start + cs@.take(i as int),
        decreases cs@.len() - i,
    {
        out.push(cs[i]);
        proof {
            assert(cs@.take(i + 1) =~= cs@.take(i as int).push(cs@[i as int]));
        }
        i = i + 1;
    }
    proof {
        assert(cs@.take(cs@.len() as int) =~= cs@);
    }
}

/// The title of a remote's tab: `user@host:port`, or its path for a knot
/// without credentials.
pub open spec fn tab_title_spec(config: KnotConfig) -> Seq<char> {
    match config.credentials {
        Some(c) => c.username@ + "@"@ + c.host@ + ":"@ + decimal_text(c.port as nat),
        None => config.path@,
    }
}

pub fn tab_title(config: &KnotConfig) -> (r: String)
    ensures
        r@ == tab_title_spec(*config),
{
    match &config.credentials {
        Some(c) => {
            let mut out: Vec<char> = Vec::new();
            append_chars(&mut out, c.username.as_str());
            append_chars(&mut out, "@");
            append_chars(&mut out, c.host.as_str());
            append_chars(&mut out, ":");
            let port = decimal_string(c.port as u64);
            append_chars(&mut out, port.as_str());
            string_of(out.as_slice())
        },
        None => config.path.clone(),
    }
}

/// `s` with each `//` replaced by `/`, from left to right.
pub open spec fn collapse_slashes(s: Seq<char>) -> Seq<char>
    decreases s.len(),
{
    if s.len() == 0 {
        s
    } else if s.len() >= 2 && s[0] == '/' && s[1] == '/' {
        seq!['/'] + collapse_slashes(s.skip(2))
    } else {
        seq![s[0]] + collapse_slashes(s.skip(1))
    }
}

pub fn collapse_slashes_exec(s: &Vec<char>) -> (r: Vec<char>)
    ensures
        r@ == collapse_slashes(s@),
{
    let mut out: Vec<char> = Vec::new();
    let mut i: usize = 0;
    proof {
        assert(s@.skip(0) =~= s@);
    }
    while i < s.len()
        invariant
            i <= s@.len(),
            collapse_slashes(s@) == out@ + collapse_slashes(s@.skip(i as int)),
        decreases s@.len() - i,
    {
        let ghost rest = s@.skip(i as int);
        if i + 1 < s.len() && s[i] == '/' && s[i + 1] == '/' {
            proof {
                assert(rest[0] == '/' && rest[1] == '/');
                assert(rest.skip(2) =~= s@.skip(i + 2));
            }
            out.push('/');
            i = i + 2;
        } else {
            proof {
                assert(rest[0] == s@[i as int]);
                assert(rest.skip(1) =~= s@.skip(i + 1));
                if rest.len() >= 2 {
                    assert(rest[1] == s@[i + 1]);
                }
            }
            out.push(s[i]);
            i = i + 1;
        }
    }
    proof {
        assert(s@.skip(i as int) =~= Seq::<char>::empty());
        assert(out@ + Seq::<char>::empty() =~= out@);
    }
    out
}

/// The title under a tree: its root followed by `/~`, each `//` made `/`,
/// with a space on each side when `spaced`.
pub open spec fn root_title_spec(root: Seq<char>, spaced: bool) -> Seq<char> {
    if spaced {
        collapse_slashes(" "@ + root + "/~ "@)
    } else {
        collapse_slashes(root + "/~"@)
    }
}

pub fn root_title(root: &str, spaced: bool) -> (r: String)
    ensures
        r@ == root_title_spec(root@, spaced),
{
    let mut raw: Vec<char> = Vec::new();
    if spaced {
        append_chars(&mut raw, " ");
        append_chars(&mut raw, root);
        append_chars(&mut raw, "/~ ");
    } else {
        append_chars(&mut raw, root);
        append_chars(&mut raw, "/~");
    }
    let c = collapse_slashes_exec(&raw);
    string_of(c.as_slice())
}

/// The text of a row of a tree: one guide per level of depth, an arrow
/// (down for an open directory, right for a closed one, a dot for a file),
/// then the name.
pub open spec fn row_text_spec(depth: nat, is_dir: bool, is_expanded: bool, name: Seq<char>) -> Seq<
    char,
>
    decreases depth,
{
    if depth == 0 {
        (if is_dir {
            if is_expanded {
                "▼ "@
            } else {
                "▶ "@
            }
        } else {
            "● "@
        }) + name
    } else {
        "│  "@ + row_text_spec((depth - 1) as nat, is_dir, is_expanded, name)
    }
}

/// The cells of a row of a tree: the icon of its kind, its status and its
/// text.
pub fn tree_row_cells(row: &UiRow, is_expanded: bool) -> (r: (&'static str, &'static str, String))
    ensures
        r.0@ == (if row.is_dir {
            "󰉋"@
        } else {
            "󰈔"@
        }),
        r.1@ == status_label(row.status),
        r.2@ == row_text_spec(row.depth as nat, row.is_dir, is_expanded, row.name@),
{
    let icon = if row.is_dir {
        "󰉋"
    } else {
        "󰈔"
    };
    let arrow = if row.is_dir {
        if is_expanded {
            "▼ "
        } else {
            "▶ "
        }
    } else {
        "● "
    };
    let mut tail: Vec<char> = Vec::new();
    append_chars(&mut tail, arrow);
    append_chars(&mut tail, row.name.as_str());
    let mut out: Vec<char> = Vec::new();
    let mut k: usize = 0;
    let ghost base = tail@;
    proof {
        assert(out@ =~= seq_repeat_guide(0));
    }
    while k < row.depth
        invariant
            k <= row.depth,
            base == row_text_spec(0, row.is_dir, is_expanded, row.name@),
            out@ == seq_repeat_guide(k as nat),
        decreases row.depth - k,
    {
        append_chars(&mut out, "│  ");
        proof {
            assert(seq_repeat_guide((k + 1) as nat) =~= seq_repeat_guide(k as nat) + "│  "@);
        }
        k = k + 1;
    }
    proof {
        lemma_row_text(row.depth as nat, row.is_dir, is_expanded, row.name@);
    }
    append_chars(&mut out, string_of(tail.as_slice()).as_str());
    (icon, row.status.label(), string_of(out.as_slice()))
}

/// The guide repeated `d` times.
pub open spec fn seq_repeat_guide(d: nat) -> Seq<char>
    decreases d,
{
    if d == 0 {
        Seq::<char>::empty()
    } else {
        seq_repeat_guide((d - 1) as nat) + "│  "@
    }
}

proof fn lemma_row_text(d: nat, is_dir: bool, is_expanded: bool, name: Seq<char>)
    ensures
        row_text_spec(d, is_dir, is_expanded, name) == seq_repeat_guide(d) + row_text_spec(
            0,
            is_dir,
            is_expanded,
            name,
        ),
    decreases d,
{
    if d > 0 {
        lemma_row_text((d - 1) as nat, is_dir, is_expanded, name);
        lemma_guide_front((d - 1) as nat);
        assert(row_text_spec(d, is_dir, is_expanded, name) =~= seq_repeat_guide(d) + row_text_spec(
            0,
            is_dir,
            is_expanded,
            name,
        ));
    }
}

proof fn lemma_guide_front(d: nat)
    ensures
        seq_repeat_guide(d + 1) == "│  "@ + seq_repeat_guide(d),
    decreases d,
{
    if d > 0 {
        lemma_guide_front((d - 1) as nat);
        assert(seq_repeat_guide(d + 1) =~= "│  "@ + seq_repeat_guide(d));
    } else {
        assert(seq_repeat_guide(1) =~= "│  "@ + seq_repeat_guide(0));
    }
}

} // verus!
