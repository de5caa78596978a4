//! The report of a comparison in the terminal: four tabs (conflicts, files
//! only in the source, files only in the remote, archived files), a
//! selection that scrolls through the active tab, and the keys that end the
//! report with a choice.
use vstd::prelude::*;

use crate::cli::dashboard::drawing::{append_chars, collapse_slashes, collapse_slashes_exec};
use crate::{USER_AWAY_MSG, USER_CAMEBACK_MSG};
use crate::cli::{Event, FocusState, KeyCode, KeyEvent};
use crate::knot::file_diffs::FileDiffs;
use crate::text::{chars_of, decimal_string, decimal_text, starts_with_chars, string_of, sub_chars};

verus! {

/// The tabs of the report.
#[derive(Debug, Clone, Copy, PartialEq, Eq, Structural)]
pub enum ActiveTab {
    Conflicts,
    SourceUnique,
    RemoteUnique,
    Archived,
}

/// How many entries each tab has.
#[derive(Debug, Clone, Copy, PartialEq, Eq, Structural)]
pub struct DiffCounts {
    pub conflicts: usize,
    pub source_unique: usize,
    pub remote_unique: usize,
    pub archived: usize,
}

/// The state of the report between two events.
#[derive(Debug, Clone, Copy, PartialEq, Eq, Structural)]
pub struct DiffViewState {
    pub active_tab: ActiveTab,
    pub selected_idx: usize,
    pub needs_redraw: bool,
    pub focus_state: FocusState,
}

pub fn diff_counts(d: &FileDiffs) -> (r: DiffCounts)
    ensures
        r.conflicts == d.conflicts@.len(),
        r.source_unique == d.source_unique@.len(),
        r.remote_unique == d.remote_unique@.len(),
        r.archived == d.archived@.len(),
{
    DiffCounts {
        conflicts: d.conflicts.len(),
        source_unique: d.source_unique.len(),
        remote_unique: d.remote_unique.len(),
        archived: d.archived.len(),
    }
}

/// The tab with the most entries; of tabs with as many, the first.
pub open spec fn initial_tab_spec(c: DiffCounts) -> ActiveTab {
    let m1 = c.conflicts;
    let (t2, m2) = if c.source_unique > m1 {
        (ActiveTab::SourceUnique, c.source_unique)
    } else {
        (ActiveTab::Conflicts, m1)
    };
    let (t3, m3) = if c.remote_unique > m2 {
        (ActiveTab::RemoteUnique, c.remote_unique)
    } else {
        (t2, m2)
    };
    if c.archived > m3 {
        ActiveTab::Archived
    } else {
        t3
    }
}

/// The number of entries of a tab.
pub open spec fn tab_len(tab: ActiveTab, c: DiffCounts) -> usize {
    match tab {
        ActiveTab::Conflicts => c.conflicts,
        ActiveTab::SourceUnique => c.source_unique,
        ActiveTab::RemoteUnique => c.remote_unique,
        ActiveTab::Archived => c.archived,
    }
}

pub open spec fn next_tab(t: ActiveTab) -> ActiveTab {
    match t {
        ActiveTab::Conflicts => ActiveTab::SourceUnique,
        ActiveTab::SourceUnique => ActiveTab::RemoteUnique,
        ActiveTab::RemoteUnique => ActiveTab::Archived,
        ActiveTab::Archived => ActiveTab::Conflicts,
    }
}

pub open spec fn prev_tab(t: ActiveTab) -> ActiveTab {
    match t {
        ActiveTab::Conflicts => ActiveTab::Archived,
        ActiveTab::SourceUnique => ActiveTab::Conflicts,
        ActiveTab::RemoteUnique => ActiveTab::SourceUnique,
        ActiveTab::Archived => ActiveTab::RemoteUnique,
    }
}

/// The rows a page moves.
pub const PAGE_STEP: usize = 20;

/// What a key press does, with `len` entries in the tab the batch of events
/// began on. `q` and Esc end the report with `Some(true)` (leave), Enter and
/// `s` with `Some(false)` (go on to synchronise). Left and Right (or Tab)
/// switch tabs, wrapping around, and go back to the first entry; Up and Down
/// move the selection, wrapping around; PageUp and PageDown (or Space) move
/// it by twenty entries; Home and End go to the first and the last.
pub open spec fn diff_key(s: DiffViewState, k: KeyEvent, len: usize) -> (DiffViewState, Option<bool>) {
    let c = k.code;
    if c == KeyCode::Char('q') || c == KeyCode::Esc {
        (s, Some(true))
    } else if c == KeyCode::Enter || c == KeyCode::Char('s') {
        (s, Some(false))
    } else if c == KeyCode::Left {
        (DiffViewState { active_tab: prev_tab(s.active_tab), selected_idx: 0, needs_redraw: true, ..s }, None)
    } else if c == KeyCode::Right || c == KeyCode::Tab {
        (DiffViewState { active_tab: next_tab(s.active_tab), selected_idx: 0, needs_redraw: true, ..s }, None)
    } else if c == KeyCode::Up {
        if len > 0 {
            (
                DiffViewState {
                    selected_idx: if s.selected_idx > 0 {
                        (s.selected_idx - 1) as usize
                    } else {
                        (len - 1) as usize
                    },
                    needs_redraw: true,
                    ..s
                },
                None,
            )
        } else {
            (s, None)
        }
    } else if c == KeyCode::Down {
        if len > 0 {
            (
                DiffViewState {
                    selected_idx: if s.selected_idx < len - 1 {
                        (s.selected_idx + 1) as usize
                    } else {
                        0
                    },
                    needs_redraw: true,
                    ..s
                },
                None,
            )
        } else {
            (s, None)
        }
    } else if c == KeyCode::Char(' ') || c == KeyCode::PageDown {
        if len > 0 {
            (
                DiffViewState {
                    selected_idx: if s.selected_idx + PAGE_STEP < len - 1 {
                        (s.selected_idx + PAGE_STEP) as usize
                    } else {
                        (len - 1) as usize
                    },
                    needs_redraw: true,
                    ..s
                },
                None,
            )
        } else {
            (s, None)
        }
    } else if c == KeyCode::PageUp {
        if len > 0 {
            (
                DiffViewState {
                    selected_idx: if s.selected_idx > PAGE_STEP {
                        (s.selected_idx - PAGE_STEP) as usize
                    } else {
                        0
                    },
                    needs_redraw: true,
                    ..s
                },
                None,
            )
        } else {
            (s, None)
        }
    } else if c == KeyCode::Home {
        (DiffViewState { selected_idx: 0, needs_redraw: true, ..s }, None)
    } else if c == KeyCode::End && len > 0 {
        (DiffViewState { selected_idx: (len - 1) as usize, needs_redraw: true, ..s }, None)
    } else {
        (s, None)
    }
}

/// What one event does: keys as `diff_key` (releases do nothing), a resize
/// redraws, losing the terminal's focus marks the user away and regaining it
/// marks the return.
pub open spec fn diff_step(s: DiffViewState, ev: Event, len: usize) -> (DiffViewState, Option<bool>) {
    match ev {
        Event::Key(k) => if k.release {
            (s, None)
        } else {
            diff_key(s, k, len)
        },
        Event::Resize => (DiffViewState { needs_redraw: true, ..s }, None),
        Event::FocusLost => (
            DiffViewState { focus_state: FocusState::Away, needs_redraw: true, ..s },
            None,
        ),
        Event::FocusGained => if s.focus_state == FocusState::Away {
            (DiffViewState { focus_state: FocusState::Returned, needs_redraw: true, ..s }, None)
        } else {
            (s, None)
        },
        Event::Other => (s, None),
    }
}

/// The events applied in order, up to the first that ends the report.
pub open spec fn diff_run(s: DiffViewState, evs: Seq<Event>, len: usize) -> (DiffViewState, Option<bool>)
    decreases evs.len(),
{
    if evs.len() == 0 {
        (s, None)
    } else {
        let (s1, r) = diff_step(s, evs[0], len);
        if r is Some {
            (s1, r)
        } else {
            diff_run(s1, evs.drop_first(), len)
        }
    }
}

impl DiffViewState {
    /// The report opens on the tab with the most entries, at its first
    /// entry, to be drawn.
    pub fn new(counts: DiffCounts) -> (r: Self)
        ensures
            r.active_tab == initial_tab_spec(counts),
            r.selected_idx == 0,
            r.needs_redraw,
            r.focus_state == FocusState::Normal,
    {
        let mut active_tab = ActiveTab::Conflicts;
        let mut max_len = counts.conflicts;
        if counts.source_unique > max_len {
            max_len = counts.source_unique;
            active_tab = ActiveTab::SourceUnique;
        }
        if counts.remote_unique > max_len {
            max_len = counts.remote_unique;
            active_tab = ActiveTab::RemoteUnique;
        }
        if counts.archived > max_len {
            active_tab = ActiveTab::Archived;
        }
        DiffViewState {
            active_tab,
            selected_idx: 0,
            needs_redraw: true,
            focus_state: FocusState::Normal,
        }
    }

    /// The number of entries of the active tab.
    pub fn active_len(&self, counts: DiffCounts) -> (r: usize)
        ensures
            r == tab_len(self.active_tab, counts),
    {
        match self.active_tab {
            ActiveTab::Conflicts => counts.conflicts,
            ActiveTab::SourceUnique => counts.source_unique,
            ActiveTab::RemoteUnique => counts.remote_unique,
            ActiveTab::Archived => counts.archived,
        }
    }

    /// Before each drawing the selection is brought back onto the last entry
    /// of a tab that has fewer entries.
    pub fn clamp_selection(&mut self, counts: DiffCounts)
        ensures
            final(self).selected_idx == (if tab_len(old(self).active_tab, counts) > 0
                && old(self).selected_idx >= tab_len(old(self).active_tab, counts) {
                (tab_len(old(self).active_tab, counts) - 1) as usize
            } else {
                old(self).selected_idx
            }),
            final(self).active_tab == old(self).active_tab,
            final(self).needs_redraw == old(self).needs_redraw,
            final(self).focus_state == old(self).focus_state,
    {
        let len = self.active_len(counts);
        if len > 0 && self.selected_idx >= len {
            self.selected_idx = len - 1;
        }
    }

    fn key_step(&mut self, key: KeyEvent, len: usize) -> (r: Option<bool>)
        requires
            old(self).selected_idx <= isize::MAX,
            len <= isize::MAX,
        ensures
            (*final(self), r) == diff_key(*old(self), key, len),
            final(self).selected_idx <= isize::MAX,
    {
        let c = key.code;
        if c == KeyCode::Char('q') || c == KeyCode::Esc {
            Some(true)
        } else if c == KeyCode::Enter || c == KeyCode::Char('s') {
            Some(false)
        } else if c == KeyCode::Left {
            self.active_tab = match self.active_tab {
                ActiveTab::Conflicts => ActiveTab::Archived,
                ActiveTab::SourceUnique => ActiveTab::Conflicts,
                ActiveTab::RemoteUnique => ActiveTab::SourceUnique,
                ActiveTab::Archived => ActiveTab::RemoteUnique,
            };
            self.selected_idx = 0;
            self.needs_redraw = true;
            None
        } else if c == KeyCode::Right || c == KeyCode::Tab {
            self.active_tab = match self.active_tab {
                ActiveTab::Conflicts => ActiveTab::SourceUnique,
                ActiveTab::SourceUnique => ActiveTab::RemoteUnique,
                ActiveTab::RemoteUnique => ActiveTab::Archived,
                ActiveTab::Archived => ActiveTab::Conflicts,
            };
            self.selected_idx = 0;
            self.needs_redraw = true;
            None
        } else if c == KeyCode::Up {
            if len > 0 {
                self.selected_idx = if self.selected_idx > 0 {
                    self.selected_idx - 1
                } else {
                    len - 1
                };
                self.needs_redraw = true;
            }
            None
        } else if c == KeyCode::Down {
            if len > 0 {
                self.selected_idx = if self.selected_idx < len - 1 {
                    self.selected_idx + 1
                } else {
                    0
                };
                self.needs_redraw = true;
            }
            None
        } else if c == KeyCode::Char(' ') || c == KeyCode::PageDown {
            if len > 0 {
                let target = self.selected_idx + PAGE_STEP;
                self.selected_idx = if target < len - 1 {
                    target
                } else {
                    len - 1
                };
                self.needs_redraw = true;
            }
            None
        } else if c == KeyCode::PageUp {
            if len > 0 {
                self.selected_idx = self.selected_idx.saturating_sub(PAGE_STEP);
                self.needs_redraw = true;
            }
            None
        } else if c == KeyCode::Home {
            self.selected_idx = 0;
            self.needs_redraw = true;
            None
        } else if c == KeyCode::End && len > 0 {
            self.selected_idx = len - 1;
            self.needs_redraw = true;
            None
        } else {
            None
        }
    }

    /// Applies a batch of events read together, all with the number of
    /// entries `len` of the tab the batch began on, up to the first that ends
    /// the report: `Some(true)` to leave, `Some(false)` to synchronise.
    pub fn handle_events(&mut self, events: &Vec<Event>, len: usize) -> (r: Option<bool>)
        requires
            old(self).selected_idx <= isize::MAX,
            len <= isize::MAX,
        ensures
            (*final(self), r) == diff_run(*old(self), events@, len),
            final(self).selected_idx <= isize::MAX,
    {
        let ghost s0 = *self;
        let mut i: usize = 0;
        let mut result: Option<bool> = None;
        proof {
            assert(events@.skip(0) =~= events@);
        }
        while i < events.len() && result.is_none()
            invariant
                i <= events@.len(),
                len <= isize::MAX,
                self.selected_idx <= isize::MAX,
                result is None ==> diff_run(s0, events@, len) == diff_run(
                    *self,
                    events@.skip(i as int),
                    len,
                ),
                result is Some ==> diff_run(s0, events@, len) == (*self, result),
            decreases events@.len() - i,
        {
            let ev = events[i];
            proof {
                assert(events@.skip(i as int)[0] == ev);
                assert(events@.skip(i as int).drop_first() =~= events@.skip(i + 1));
            }
            result = match ev {
                Event::Key(key) => {
                    if key.release {
                        None
                    } else {
                        self.key_step(key, len)
                    }
                },
                Event::Resize => {
                    self.needs_redraw = true;
                    None
                },
                Event::FocusLost => {
                    self.focus_state = FocusState::Away;
                    self.needs_redraw = true;
                    None
                },
                Event::FocusGained => {
                    if self.focus_state == FocusState::Away {
                        self.focus_state = FocusState::Returned;
                        self.needs_redraw = true;
                    }
                    None
                },
                Event::Other => None,
            };
            i = i + 1;
        }
        proof {
            if result is None {
                assert(events@.skip(i as int) =~= Seq::<Event>::empty());
            }
        }
        result
    }
}

/// Law: Left undoes Right (and Right undoes Left) on the tabs, and four
/// moves the same way come back to where they began.
pub proof fn lemma_tabs_cycle(t: ActiveTab)
    ensures
        prev_tab(next_tab(t)) == t,
        next_tab(prev_tab(t)) == t,
        next_tab(next_tab(next_tab(next_tab(t)))) == t,
{
}

/// Law: moves keep a selection on an entry: with `len` entries and the
/// selection on one of them, any key leaves it on one of them or ends the
/// report.
pub proof fn lemma_selection_stays(s: DiffViewState, k: KeyEvent, len: usize)
    requires
        s.selected_idx < len,
    ensures
        diff_key(s, k, len).0.selected_idx < len,
{
}



/// The table of the active tab as it fits its area: the rows that fit (the
/// height less the borders and the header), the index of the first row
/// shown, the place of the selection among the rows shown, and whether a
/// scrollbar is drawn (when not every entry fits).
#[derive(Debug, Clone, Copy, PartialEq, Eq, Structural)]
pub struct DiffViewport {
    pub visible_rows: usize,
    pub offset: usize,
    pub relative_selection: usize,
    pub scrollbar: bool,
}

pub open spec fn sat_sub(a: nat, b: nat) -> nat {
    if a >= b {
        (a - b) as nat
    } else {
        0
    }
}

/// The first row shown: the top while the selection fits on the first
/// screen, otherwise so that the selection is the last row shown, without
/// going past the last screenful.
pub open spec fn viewport_spec(height: u16, selected: nat, active_len: nat) -> DiffViewport {
    let visible = sat_sub(height as nat, 4);
    let offset = if visible == 0 || selected < visible {
        0
    } else {
        let a = sat_sub(selected + 1, visible);
        let b = sat_sub(active_len, visible);
        if a < b {
            a
        } else {
            b
        }
    };
    DiffViewport {
        visible_rows: visible as usize,
        offset: offset as usize,
        relative_selection: sat_sub(selected, offset) as usize,
        scrollbar: active_len > visible,
    }
}

pub fn diff_viewport(height: u16, selected: usize, active_len: usize) -> (r: DiffViewport)
    requires
        selected < usize::MAX,
    ensures
        r == viewport_spec(height, selected as nat, active_len as nat),
{
    let visible: usize = if height >= 4 {
        (height - 4) as usize
    } else {
        0
    };
    let offset: usize = if visible == 0 || selected < visible {
        0
    } else {
        let a = if selected + 1 >= visible {
            selected + 1 - visible
        } else {
            0
        };
        let b = if active_len >= visible {
            active_len - visible
        } else {
            0
        };
        if a < b {
            a
        } else {
            b
        }
    };
    let relative = if selected >= offset {
        selected - offset
    } else {
        0
    };
    DiffViewport {
        visible_rows: visible,
        offset,
        relative_selection: relative,
        scrollbar: active_len > visible,
    }
}

/// Law: the selected entry is always among the rows shown: for a selection
/// on an entry and room for at least one row, it lies from the first row
/// shown to the last one, at its place among them.
pub proof fn lemma_selection_in_view(height: u16, selected: usize, active_len: usize)
    requires
        selected < active_len,
        height > 4,
    ensures
        ({
            let v = viewport_spec(height, selected as nat, active_len as nat);
            &&& v.offset <= selected < v.offset + v.visible_rows
            &&& v.offset + v.relative_selection == selected
        }),
{
    let visible = sat_sub(height as nat, 4);
    assert(visible == height - 4);
    if selected >= visible {
        assert(sat_sub(selected as nat + 1, visible) == selected + 1 - visible);
        assert(sat_sub(active_len as nat, visible) == active_len - visible);
    }
}

/// The count shown on a tab: the number in brackets.
pub open spec fn count_label_spec(n: nat) -> Seq<char> {
    "("@ + decimal_text(n) + ")"@
}

pub fn count_label(n: usize) -> (r: String)
    ensures
        r@ == count_label_spec(n as nat),
{
    let mut out: Vec<char> = Vec::new();
    append_chars(&mut out, "(");
    let d = decimal_string(n as u64);
    append_chars(&mut out, d.as_str());
    append_chars(&mut out, ")");
    string_of(out.as_slice())
}

/// The title over the table of a tab: the roots it lists, each followed by
/// `/~`, with each `//` made `/`.
pub open spec fn title_info_spec(tab: ActiveTab, source_root: Seq<char>, remote_root: Seq<char>) -> Seq<char> {
    match tab {
        ActiveTab::Conflicts => collapse_slashes(source_root + "/~ | "@ + remote_root + "/~"@),
        ActiveTab::SourceUnique => collapse_slashes(source_root + "/~"@),
        ActiveTab::RemoteUnique => collapse_slashes(remote_root + "/~"@),
        ActiveTab::Archived => collapse_slashes(remote_root + "/~"@),
    }
}

pub fn title_info(tab: ActiveTab, source_root: &str, remote_root: &str) -> (r: String)
    ensures
        r@ == title_info_spec(tab, source_root@, remote_root@),
{
    let mut raw: Vec<char> = Vec::new();
    match tab {
        ActiveTab::Conflicts => {
            append_chars(&mut raw, source_root);
            append_chars(&mut raw, "/~ | ");
            append_chars(&mut raw, remote_root);
            append_chars(&mut raw, "/~");
        },
        ActiveTab::SourceUnique => {
            append_chars(&mut raw, source_root);
            append_chars(&mut raw, "/~");
        },
        _ => {
            append_chars(&mut raw, remote_root);
            append_chars(&mut raw, "/~");
        },
    }
    let c = collapse_slashes_exec(&raw);
    string_of(c.as_slice())
}

/// The path shown for an entry: without the root's text in front when the
/// path begins with it.
pub open spec fn shown_path_spec(path: Seq<char>, root: Seq<char>) -> Seq<char> {
    if root.is_prefix_of(path) {
        path.skip(root.len() as int)
    } else {
        path
    }
}

pub fn shown_path(path: &str, root: &str) -> (r: String)
    ensures
        r@ == shown_path_spec(path@, root@),
{
    let p = chars_of(path);
    let rt = chars_of(root);
    if starts_with_chars(p.as_slice(), rt.as_slice()) {
        let rest = sub_chars(p.as_slice(), rt.len(), p.len());
        proof {
            assert(rest@ =~= p@.skip(rt@.len() as int));
        }
        string_of(rest.as_slice())
    } else {
        string_of(p.as_slice())
    }
}

/// The kind of an entry, as the table shows it.
pub fn entry_kind(is_dir: bool) -> (r: &'static str)
    ensures
        r@ == (if is_dir {
            "󰉋 DIR"@
        } else {
            "󰈔 FILE"@
        }),
{
    if is_dir {
        "󰉋 DIR"
    } else {
        "󰈔 FILE"
    }
}

/// The message in the corner: where the user went, and that they came back.
pub fn focus_message(f: FocusState) -> (r: &'static str)
    ensures
        r@ == (match f {
            FocusState::Away => USER_AWAY_MSG@,
            FocusState::Returned => USER_CAMEBACK_MSG@,
            FocusState::Normal => ""@,
        }),
{
    match f {
        FocusState::Away => USER_AWAY_MSG,
        FocusState::Returned => USER_CAMEBACK_MSG,
        FocusState::Normal => "",
    }
}

} // verus!
