//! What the keys do on the dashboard: moving between the tabs of the remotes
//! and the two trees, scrolling a tree, opening and closing its directories.
use vstd::prelude::*;

use crate::cli::dashboard::file_node::{
    contains_path, flatten_into_rows, height, lemma_rows_prefix, node_rows, path_set, rows_view,
    RowView, UiFileNode, UiRow,
};
use crate::cli::{Event, FocusState, KeyCode, KeyEvent};

verus! {

/// The part of the dashboard that has the highlight.
#[derive(Debug, Clone, Copy, PartialEq, Eq, Structural)]
pub enum SelectedPart {
    Tabs,
    Source,
    Remote,
}

/// The state of the dashboard between two events.
pub struct DashEventHandler {
    pub end: bool,
    pub sync: bool,
    pub redraw: bool,
    pub is_focused: bool,
    pub focus_state: FocusState,
    pub highlighted_part: SelectedPart,
    pub selected_tab: usize,
    pub expanded_dirs: Vec<String>,
    pub source_idx: usize,
    pub remote_idx: usize,
    pub source_visible_rows: Vec<UiRow>,
    pub remote_visible_rows: Vec<UiRow>,
}

/// The state of the dashboard as a mathematical value.
pub ghost struct DashView {
    pub end: bool,
    pub sync: bool,
    pub redraw: bool,
    pub is_focused: bool,
    pub focus_state: FocusState,
    pub part: SelectedPart,
    pub tab: nat,
    pub expanded: Set<Seq<char>>,
    pub source_idx: nat,
    pub remote_idx: nat,
    pub source_rows: Seq<RowView>,
    pub remote_rows: Seq<RowView>,
}

impl View for DashEventHandler {
    type V = DashView;

    open spec fn view(&self) -> DashView {
        DashView {
            end: self.end,
            sync: self.sync,
            redraw: self.redraw,
            is_focused: self.is_focused,
            focus_state: self.focus_state,
            part: self.highlighted_part,
            tab: self.selected_tab as nat,
            expanded: path_set(self.expanded_dirs@),
            source_idx: self.source_idx as nat,
            remote_idx: self.remote_idx as nat,
            source_rows: rows_view(self.source_visible_rows@),
            remote_rows: rows_view(self.remote_visible_rows@),
        }
    }
}

/// The rows of the tree of tab `tab`, none when there is no such tree.
pub open spec fn rows_for(trees: Seq<UiFileNode>, tab: nat, ex: Set<Seq<char>>) -> Seq<RowView> {
    if tab < trees.len() {
        node_rows(trees[tab as int], 0, ex)
    } else {
        Seq::<RowView>::empty()
    }
}

/// The rows of both sides made anew from the trees of the selected tab.
pub open spec fn refreshed(v: DashView, st: Seq<UiFileNode>, rt: Seq<UiFileNode>) -> DashView {
    DashView {
        source_rows: rows_for(st, v.tab, v.expanded),
        remote_rows: rows_for(rt, v.tab, v.expanded),
        ..v
    }
}

/// The row under the selection of the highlighted tree, if there is one.
pub open spec fn selected_row(v: DashView) -> Option<RowView> {
    match v.part {
        SelectedPart::Source => if v.source_idx < v.source_rows.len() {
            Some(v.source_rows[v.source_idx as int])
        } else {
            None
        },
        SelectedPart::Remote => if v.remote_idx < v.remote_rows.len() {
            Some(v.remote_rows[v.remote_idx as int])
        } else {
            None
        },
        SelectedPart::Tabs => None,
    }
}

/// Opens the selected directory (`open`), closes it (`!open`), and shows the
/// trees again; anything but a selected directory changes nothing.
pub open spec fn set_open_spec(v: DashView, open: bool, st: Seq<UiFileNode>, rt: Seq<UiFileNode>) -> DashView {
    match selected_row(v) {
        Some(r) => if r.is_dir {
            refreshed(
                DashView {
                    expanded: if open {
                        v.expanded.insert(r.path)
                    } else {
                        v.expanded.remove(r.path)
                    },
                    ..v
                },
                st,
                rt,
            )
        } else {
            v
        },
        None => v,
    }
}

/// Opens the selected directory when it is closed and closes it when open.
pub open spec fn toggle_spec(v: DashView, st: Seq<UiFileNode>, rt: Seq<UiFileNode>) -> DashView {
    match selected_row(v) {
        Some(r) => set_open_spec(v, !v.expanded.contains(r.path), st, rt),
        None => v,
    }
}

/// The index of the last row of `len` rows (0 when there is none).
pub open spec fn last_row(len: nat) -> nat {
    if len > 0 {
        (len - 1) as nat
    } else {
        0
    }
}

pub open spec fn min_nat(a: nat, b: nat) -> nat {
    if a < b {
        a
    } else {
        b
    }
}

/// One step up, from the first row to the last.
pub open spec fn up_idx(idx: nat, len: nat) -> nat {
    if idx == 0 {
        last_row(len)
    } else {
        (idx - 1) as nat
    }
}

/// One step down, from the last row to the first.
pub open spec fn down_idx(idx: nat, len: nat) -> nat {
    if idx == last_row(len) {
        0
    } else {
        min_nat(idx + 1, last_row(len))
    }
}

/// A page down, stopping at the last row.
pub open spec fn page_down_idx(idx: nat, page: nat, len: nat) -> nat {
    min_nat(idx + page, last_row(len))
}

/// A page up, stopping at the first row.
pub open spec fn page_up_idx(idx: nat, page: nat) -> nat {
    if idx > page {
        (idx - page) as nat
    } else {
        0
    }
}

/// What a key press does. `q`, and Ctrl+C, end the dashboard; `s` asks for a
/// synchronisation of the selected remote. Without focus the arrows move the
/// highlight between the tabs and the two trees (Left and Right on the tabs
/// switch remotes, wrapping around, and go back to the top of both trees),
/// and Enter or Down into a tree gives it the focus. With focus, Esc gives
/// it back; Up and Down move the selection, wrapping around; PageUp and
/// PageDown (or Space) move it by a page; Right opens the selected
/// directory, Left closes it and Enter toggles it.
pub open spec fn dash_key(
    v: DashView,
    k: KeyEvent,
    remotes: nat,
    page: nat,
    st: Seq<UiFileNode>,
    rt: Seq<UiFileNode>,
) -> DashView {
    let c = k.code;
    if c == KeyCode::Char('q') || c == KeyCode::Char('c') {
        if c == KeyCode::Char('q') || k.control {
            DashView { end: true, ..v }
        } else {
            v
        }
    } else if c == KeyCode::Char('s') {
        DashView { sync: true, redraw: true, ..v }
    } else if c == KeyCode::Esc && v.is_focused {
        DashView { is_focused: false, redraw: true, ..v }
    } else if c == KeyCode::Enter {
        if v.is_focused {
            DashView { redraw: true, ..toggle_spec(v, st, rt) }
        } else {
            DashView {
                is_focused: true,
                part: if v.part == SelectedPart::Tabs {
                    SelectedPart::Source
                } else {
                    v.part
                },
                redraw: true,
                ..v
            }
        }
    } else if c == KeyCode::Left {
        if v.is_focused {
            DashView { redraw: true, ..set_open_spec(v, false, st, rt) }
        } else {
            match v.part {
                SelectedPart::Tabs => DashView {
                    tab: if v.tab > 0 {
                        (v.tab - 1) as nat
                    } else if remotes > 0 {
                        (remotes - 1) as nat
                    } else {
                        v.tab
                    },
                    source_idx: 0,
                    remote_idx: 0,
                    redraw: true,
                    ..v
                },
                SelectedPart::Remote => DashView { part: SelectedPart::Source, redraw: true, ..v },
                SelectedPart::Source => DashView { redraw: true, ..v },
            }
        }
    } else if c == KeyCode::Right {
        if v.is_focused {
            DashView { redraw: true, ..set_open_spec(v, true, st, rt) }
        } else {
            match v.part {
                SelectedPart::Tabs => DashView {
                    tab: if remotes > 0 {
                        (v.tab + 1) % remotes
                    } else {
                        v.tab
                    },
                    source_idx: 0,
                    remote_idx: 0,
                    redraw: true,
                    ..v
                },
                SelectedPart::Source => DashView { part: SelectedPart::Remote, redraw: true, ..v },
                SelectedPart::Remote => DashView { redraw: true, ..v },
            }
        }
    } else if c == KeyCode::Up {
        if v.is_focused {
            match v.part {
                SelectedPart::Source => DashView {
                    source_idx: up_idx(v.source_idx, v.source_rows.len()),
                    redraw: true,
                    ..v
                },
                SelectedPart::Remote => DashView {
                    remote_idx: up_idx(v.remote_idx, v.remote_rows.len()),
                    redraw: true,
                    ..v
                },
                SelectedPart::Tabs => v,
            }
        } else if v.part != SelectedPart::Tabs {
            DashView { part: SelectedPart::Tabs, redraw: true, ..v }
        } else {
            v
        }
    } else if c == KeyCode::Down {
        if v.is_focused {
            match v.part {
                SelectedPart::Source => DashView {
                    source_idx: down_idx(v.source_idx, v.source_rows.len()),
                    redraw: true,
                    ..v
                },
                SelectedPart::Remote => DashView {
                    remote_idx: down_idx(v.remote_idx, v.remote_rows.len()),
                    redraw: true,
                    ..v
                },
                SelectedPart::Tabs => v,
            }
        } else if v.part == SelectedPart::Tabs {
            DashView { part: SelectedPart::Source, redraw: true, ..v }
        } else {
            DashView { is_focused: true, redraw: true, ..v }
        }
    } else if (c == KeyCode::PageDown || c == KeyCode::Char(' ')) && v.is_focused {
        match v.part {
            SelectedPart::Source => DashView {
                source_idx: page_down_idx(v.source_idx, page, v.source_rows.len()),
                redraw: true,
                ..v
            },
            SelectedPart::Remote => DashView {
                remote_idx: page_down_idx(v.remote_idx, page, v.remote_rows.len()),
                redraw: true,
                ..v
            },
            SelectedPart::Tabs => v,
        }
    } else if c == KeyCode::PageUp && v.is_focused {
        match v.part {
            SelectedPart::Source => DashView {
                source_idx: page_up_idx(v.source_idx, page),
                redraw: true,
                ..v
            },
            SelectedPart::Remote => DashView {
                remote_idx: page_up_idx(v.remote_idx, page),
                redraw: true,
                ..v
            },
            SelectedPart::Tabs => v,
        }
    } else {
        v
    }
}

/// What one event does: keys as `dash_key` (releases do nothing), a resize
/// redraws, losing the terminal's focus marks the user away and regaining it
/// marks the return.
pub open spec fn dash_step(
    v: DashView,
    ev: Event,
    remotes: nat,
    page: nat,
    st: Seq<UiFileNode>,
    rt: Seq<UiFileNode>,
) -> DashView {
    match ev {
        Event::Key(k) => if k.release {
            v
        } else {
            dash_key(v, k, remotes, page, st, rt)
        },
        Event::Resize => DashView { redraw: true, ..v },
        Event::FocusLost => DashView { focus_state: FocusState::Away, redraw: true, ..v },
        Event::FocusGained => if v.focus_state == FocusState::Away {
            DashView { focus_state: FocusState::Returned, redraw: true, ..v }
        } else {
            v
        },
        Event::Other => v,
    }
}

/// The events applied in order.
pub open spec fn dash_run(
    v: DashView,
    evs: Seq<Event>,
    remotes: nat,
    page: nat,
    st: Seq<UiFileNode>,
    rt: Seq<UiFileNode>,
) -> DashView
    decreases evs.len(),
{
    if evs.len() == 0 {
        v
    } else {
        dash_run(dash_step(v, evs[0], remotes, page, st, rt), evs.drop_first(), remotes, page, st, rt)
    }
}

/// Trees that can be shown: their depth fits in `usize`.
pub open spec fn showable(trees: Seq<UiFileNode>) -> bool {
    forall|i: int| 0 <= i < trees.len() ==> height(#[trigger] trees[i]) <= usize::MAX
}


/// The rows of the tree of tab `tab`.
fn rows_of_tab(trees: &Vec<UiFileNode>, tab: usize, expanded: &Vec<String>) -> (r: Vec<UiRow>)
    requires
        showable(trees@),
    ensures
        rows_view(r@) == rows_for(trees@, tab as nat, path_set(expanded@)),
{
    let mut rows: Vec<UiRow> = Vec::new();
    if tab < trees.len() {
        proof {
            assert(rows_view(rows@) =~= Seq::<RowView>::empty());
        }
        flatten_into_rows(&trees[tab], 0, expanded, &mut rows);
        proof {
            assert(rows_view(rows@) =~= node_rows(trees@[tab as int], 0, path_set(expanded@)));
        }
    } else {
        proof {
            assert(rows_view(rows@) =~= Seq::<RowView>::empty());
        }
    }
    rows
}

fn insert_path_into(v: &mut Vec<String>, p: String)
    ensures
        path_set(final(v)@) == path_set(old(v)@).insert(p@),
{
    if !contains_path(v, &p) {
        let ghost before = v@;
        let ghost pv = p@;
        v.push(p);
        proof {
            assert forall|q: Seq<char>| path_set(v@).contains(q) == path_set(before).insert(pv).contains(q) by {
                if path_set(before).contains(q) {
                    let i = choose|i: int| 0 <= i < before.len() && #[trigger] before[i]@ == q;
                    assert(v@[i]@ == q);
                }
                if q == pv {
                    assert(v@[before.len() as int]@ == q);
                }
                if path_set(v@).contains(q) {
                    let i = choose|i: int| 0 <= i < v@.len() && #[trigger] v@[i]@ == q;
                    if i < before.len() {
                        assert(before[i]@ == q);
                    }
                }
            }
            assert(path_set(v@) =~= path_set(before).insert(pv));
        }
    } else {
        proof {
            assert(path_set(v@) =~= path_set(v@).insert(p@));
        }
    }
}

fn remove_path_from(v: &mut Vec<String>, p: &String)
    ensures
        path_set(final(v)@) == path_set(old(v)@).remove(p@),
{
    let ghost before = v@;
    let mut kept: Vec<String> = Vec::new();
    let mut i: usize = 0;
    while i < v.len()
        invariant
            v@ == before,
            i <= before.len(),
            forall|q: Seq<char>|
                path_set(kept@).contains(q) == (path_set(before.take(i as int)).contains(q) && q
                    != p@),
        decreases before.len() - i,
    {
        let ghost kb = kept@;
        if v[i] != *p {
            kept.push(v[i].clone());
        }
        proof {
            assert forall|q: Seq<char>|
                path_set(kept@).contains(q) == (path_set(before.take(i + 1)).contains(q) && q
                    != p@) by {
                let t1 = before.take(i + 1);
                let t0 = before.take(i as int);
                if path_set(t0).contains(q) {
                    let w = choose|w: int| 0 <= w < t0.len() && #[trigger] t0[w]@ == q;
                    assert(t1[w]@ == q);
                }
                if path_set(t1).contains(q) {
                    let w = choose|w: int| 0 <= w < t1.len() && #[trigger] t1[w]@ == q;
                    if w < i {
                        assert(t0[w]@ == q);
                    }
                }
                if path_set(kb).contains(q) {
                    let w = choose|w: int| 0 <= w < kb.len() && #[trigger] kb[w]@ == q;
                    assert(kept@[w]@ == q);
                }
                if path_set(kept@).contains(q) {
                    let w = choose|w: int| 0 <= w < kept@.len() && #[trigger] kept@[w]@ == q;
                    if w < kb.len() {
                        assert(kb[w]@ == q);
                    }
                }
                if q == before[i as int]@ && q != p@ {
                    assert(kept@[kb.len() as int]@ == q);
                    assert(t1[i as int]@ == q);
                }
            }
        }
        i = i + 1;
    }
    proof {
        assert(before.take(before.len() as int) =~= before);
        assert(path_set(kept@) =~= path_set(before).remove(p@));
    }
    *v = kept;
}

impl Default for DashEventHandler {
    fn default() -> (r: Self)
        ensures
            r@ == (DashView {
                end: false,
                sync: false,
                redraw: false,
                is_focused: false,
                focus_state: FocusState::Normal,
                part: SelectedPart::Tabs,
                tab: 0,
                expanded: Set::<Seq<char>>::empty(),
                source_idx: 0,
                remote_idx: 0,
                source_rows: Seq::<RowView>::empty(),
                remote_rows: Seq::<RowView>::empty(),
            }),
    {
        let r = DashEventHandler {
            end: false,
            sync: false,
            redraw: false,
            is_focused: false,
            focus_state: FocusState::Normal,
            highlighted_part: SelectedPart::Tabs,
            selected_tab: 0,
            expanded_dirs: Vec::new(),
            source_idx: 0,
            remote_idx: 0,
            source_visible_rows: Vec::new(),
            remote_visible_rows: Vec::new(),
        };
        proof {
            assert(path_set(r.expanded_dirs@) =~= Set::<Seq<char>>::empty());
            assert(rows_view(r.source_visible_rows@) =~= Seq::<RowView>::empty());
            assert(rows_view(r.remote_visible_rows@) =~= Seq::<RowView>::empty());
        }
        r
    }
}

impl DashEventHandler {
    /// Shows the trees of the selected tab.
    pub fn init_tree(&mut self, source_nodes: &Vec<UiFileNode>, remote_nodes: &Vec<UiFileNode>)
        requires
            showable(source_nodes@),
            showable(remote_nodes@),
        ensures
            final(self)@ == refreshed(old(self)@, source_nodes@, remote_nodes@),
    {
        self.refresh_rows(source_nodes, remote_nodes);
    }

    /// Makes the rows of both trees anew from the trees of the selected tab.
    pub fn refresh_rows(&mut self, source_nodes: &Vec<UiFileNode>, remote_nodes: &Vec<UiFileNode>)
        requires
            showable(source_nodes@),
            showable(remote_nodes@),
        ensures
            final(self)@ == refreshed(old(self)@, source_nodes@, remote_nodes@),
    {
        self.source_visible_rows = rows_of_tab(source_nodes, self.selected_tab, &self.expanded_dirs);
        self.remote_visible_rows = rows_of_tab(remote_nodes, self.selected_tab, &self.expanded_dirs);
    }

    /// The path of the selected row when it is a directory.
    fn selected_dir(&self) -> (r: Option<String>)
        ensures
            match r {
                Some(p) => selected_row(self@) matches Some(row) && row.is_dir && row.path == p@,
                None => !(selected_row(self@) matches Some(row) && row.is_dir),
            },
    {
        let (rows, idx) = match self.highlighted_part {
            SelectedPart::Source => (&self.source_visible_rows, self.source_idx),
            SelectedPart::Remote => (&self.remote_visible_rows, self.remote_idx),
            SelectedPart::Tabs => {
                return None;
            },
        };
        if idx < rows.len() {
            proof {
                assert(rows_view(rows@)[idx as int] == rows@[idx as int]@);
            }
            if rows[idx].is_dir {
                Some(rows[idx].path.clone())
            } else {
                None
            }
        } else {
            None
        }
    }

    /// Opens the selected directory.
    pub fn expand_selected(&mut self, source_nodes: &Vec<UiFileNode>, remote_nodes: &Vec<UiFileNode>)
        requires
            showable(source_nodes@),
            showable(remote_nodes@),
        ensures
            final(self)@ == set_open_spec(old(self)@, true, source_nodes@, remote_nodes@),
    {
        match self.selected_dir() {
            Some(p) => {
                insert_path_into(&mut self.expanded_dirs, p);
                self.refresh_rows(source_nodes, remote_nodes);
            },
            None => {},
        }
    }

    /// Closes the selected directory.
    pub fn collapse_selected(&mut self, source_nodes: &Vec<UiFileNode>, remote_nodes: &Vec<UiFileNode>)
        requires
            showable(source_nodes@),
            showable(remote_nodes@),
        ensures
            final(self)@ == set_open_spec(old(self)@, false, source_nodes@, remote_nodes@),
    {
        match self.selected_dir() {
            Some(p) => {
                remove_path_from(&mut self.expanded_dirs, &p);
                self.refresh_rows(source_nodes, remote_nodes);
            },
            None => {},
        }
    }

    /// Opens the selected directory when closed, closes it when open.
    pub fn toggle_selected(&mut self, source_nodes: &Vec<UiFileNode>, remote_nodes: &Vec<UiFileNode>)
        requires
            showable(source_nodes@),
            showable(remote_nodes@),
        ensures
            final(self)@ == toggle_spec(old(self)@, source_nodes@, remote_nodes@),
    {
        match self.selected_dir() {
            Some(p) => {
                if contains_path(&self.expanded_dirs, &p) {
                    remove_path_from(&mut self.expanded_dirs, &p);
                } else {
                    insert_path_into(&mut self.expanded_dirs, p);
                }
                self.refresh_rows(source_nodes, remote_nodes);
            },
            None => {},
        }
    }
}


fn up_index(idx: usize, len: usize) -> (r: usize)
    ensures
        r == up_idx(idx as nat, len as nat),
{
    if idx == 0 {
        len.saturating_sub(1)
    } else {
        idx - 1
    }
}

fn down_index(idx: usize, len: usize) -> (r: usize)
    ensures
        r == down_idx(idx as nat, len as nat),
{
    let last = len.saturating_sub(1);
    if idx == last {
        0
    } else {
        let next = idx.saturating_add(1);
        if next < last {
            next
        } else {
            last
        }
    }
}

fn page_down_index(idx: usize, page: usize, len: usize) -> (r: usize)
    ensures
        r == page_down_idx(idx as nat, page as nat, len as nat),
{
    let last = len.saturating_sub(1);
    let next = idx.saturating_add(page);
    if next < last {
        next
    } else {
        last
    }
}

impl DashEventHandler {
    fn key_step(
        &mut self,
        key: KeyEvent,
        remotes: usize,
        page: usize,
        source_nodes: &Vec<UiFileNode>,
        remote_nodes: &Vec<UiFileNode>,
    )
        requires
            showable(source_nodes@),
            showable(remote_nodes@),
            old(self).selected_tab < usize::MAX,
        ensures
            final(self)@ == dash_key(
                old(self)@,
                key,
                remotes as nat,
                page as nat,
                source_nodes@,
                remote_nodes@,
            ),
            final(self).selected_tab < usize::MAX,
    {
        let c = key.code;
        if c == KeyCode::Char('q') || c == KeyCode::Char('c') {
            if c == KeyCode::Char('q') || key.control {
                self.end = true;
            }
        } else if c == KeyCode::Char('s') {
            self.sync = true;
            self.redraw = true;
        } else if c == KeyCode::Esc && self.is_focused {
            self.is_focused = false;
            self.redraw = true;
        } else if c == KeyCode::Enter {
            if self.is_focused {
                self.toggle_selected(source_nodes, remote_nodes);
            } else {
                self.is_focused = true;
                if self.highlighted_part == SelectedPart::Tabs {
                    self.highlighted_part = SelectedPart::Source;
                }
            }
            self.redraw = true;
        } else if c == KeyCode::Left {
            if self.is_focused {
                self.collapse_selected(source_nodes, remote_nodes);
            } else {
                match self.highlighted_part {
                    SelectedPart::Tabs => {
                        if self.selected_tab > 0 {
                            self.selected_tab = self.selected_tab - 1;
                        } else if remotes > 0 {
                            self.selected_tab = remotes - 1;
                        }
                        self.source_idx = 0;
                        self.remote_idx = 0;
                    },
                    SelectedPart::Remote => {
                        self.highlighted_part = SelectedPart::Source;
                    },
                    SelectedPart::Source => {},
                }
            }
            self.redraw = true;
        } else if c == KeyCode::Right {
            if self.is_focused {
                self.expand_selected(source_nodes, remote_nodes);
            } else {
                match self.highlighted_part {
                    SelectedPart::Tabs => {
                        if remotes > 0 {
                            self.selected_tab = (self.selected_tab + 1) % remotes;
                        }
                        self.source_idx = 0;
                        self.remote_idx = 0;
                    },
                    SelectedPart::Source => {
                        self.highlighted_part = SelectedPart::Remote;
                    },
                    SelectedPart::Remote => {},
                }
            }
            self.redraw = true;
        } else if c == KeyCode::Up {
            if self.is_focused {
                if self.highlighted_part == SelectedPart::Source {
                    self.source_idx = up_index(self.source_idx, self.source_visible_rows.len());
                    self.redraw = true;
                } else if self.highlighted_part == SelectedPart::Remote {
                    self.remote_idx = up_index(self.remote_idx, self.remote_visible_rows.len());
                    self.redraw = true;
                }
            } else if self.highlighted_part != SelectedPart::Tabs {
                self.highlighted_part = SelectedPart::Tabs;
                self.redraw = true;
            }
        } else if c == KeyCode::Down {
            if self.is_focused {
                if self.highlighted_part == SelectedPart::Source {
                    self.source_idx = down_index(self.source_idx, self.source_visible_rows.len());
                    self.redraw = true;
                } else if self.highlighted_part == SelectedPart::Remote {
                    self.remote_idx = down_index(self.remote_idx, self.remote_visible_rows.len());
                    self.redraw = true;
                }
            } else if self.highlighted_part == SelectedPart::Tabs {
                self.highlighted_part = SelectedPart::Source;
                self.redraw = true;
            } else {
                self.is_focused = true;
                self.redraw = true;
            }
        } else if (c == KeyCode::PageDown || c == KeyCode::Char(' ')) && self.is_focused {
            if self.highlighted_part == SelectedPart::Source {
                self.source_idx = page_down_index(
                    self.source_idx,
                    page,
                    self.source_visible_rows.len(),
                );
                self.redraw = true;
            } else if self.highlighted_part == SelectedPart::Remote {
                self.remote_idx = page_down_index(
                    self.remote_idx,
                    page,
                    self.remote_visible_rows.len(),
                );
                self.redraw = true;
            }
        } else if c == KeyCode::PageUp && self.is_focused {
            if self.highlighted_part == SelectedPart::Source {
                self.source_idx = self.source_idx.saturating_sub(page);
                self.redraw = true;
            } else if self.highlighted_part == SelectedPart::Remote {
                self.remote_idx = self.remote_idx.saturating_sub(page);
                self.redraw = true;
            }
        }
    }

    /// Applies the events in order.
    pub fn handle(
        &mut self,
        events: &Vec<Event>,
        remotes: usize,
        visible_items: usize,
        source_nodes: &Vec<UiFileNode>,
        remote_nodes: &Vec<UiFileNode>,
    )
        requires
            showable(source_nodes@),
            showable(remote_nodes@),
            old(self).selected_tab < usize::MAX,
        ensures
            final(self)@ == dash_run(
                old(self)@,
                events@,
                remotes as nat,
                visible_items as nat,
                source_nodes@,
                remote_nodes@,
            ),
            final(self).selected_tab < usize::MAX,
    {
        let ghost v0 = self@;
        let ghost r = remotes as nat;
        let ghost pg = visible_items as nat;
        let mut i: usize = 0;
        proof {
            assert(events@.skip(0) =~= events@);
        }
        while i < events.len()
            invariant
                i <= events@.len(),
                showable(source_nodes@),
                showable(remote_nodes@),
                self.selected_tab < usize::MAX,
                r == remotes as nat,
                pg == visible_items as nat,
                dash_run(v0, events@, r, pg, source_nodes@, remote_nodes@) == dash_run(
                    self@,
                    events@.skip(i as int),
                    r,
                    pg,
                    source_nodes@,
                    remote_nodes@,
                ),
            decreases events@.len() - i,
        {
            let ev = events[i];
            proof {
                assert(events@.skip(i as int)[0] == ev);
                assert(events@.skip(i as int).drop_first() =~= events@.skip(i + 1));
            }
            match ev {
                Event::Key(key) => {
                    if !key.release {
                        self.key_step(key, remotes, visible_items, source_nodes, remote_nodes);
                    }
                },
                Event::Resize => {
                    self.redraw = true;
                },
                Event::FocusLost => {
                    self.focus_state = FocusState::Away;
                    self.redraw = true;
                },
                Event::FocusGained => {
                    if self.focus_state == FocusState::Away {
                        self.focus_state = FocusState::Returned;
                        self.redraw = true;
                    }
                },
                Event::Other => {},
            }
            i = i + 1;
        }
        proof {
            assert(events@.skip(i as int) =~= Seq::<Event>::empty());
        }
    }
}


/// Law: on the tabs, Left undoes Right: with at least one remote and a tab
/// among them, moving right and then left comes back to the same tab, and
/// either move lands on a tab among the remotes.
pub proof fn lemma_left_undoes_right(
    v: DashView,
    right: KeyEvent,
    left: KeyEvent,
    remotes: nat,
    page: nat,
    st: Seq<UiFileNode>,
    rt: Seq<UiFileNode>,
)
    requires
        right.code == KeyCode::Right,
        left.code == KeyCode::Left,
        !v.is_focused,
        v.part == SelectedPart::Tabs,
        remotes > 0,
        v.tab < remotes,
    ensures
        dash_key(v, right, remotes, page, st, rt).tab < remotes,
        dash_key(v, left, remotes, page, st, rt).tab < remotes,
        dash_key(dash_key(v, right, remotes, page, st, rt), left, remotes, page, st, rt).tab == v.tab,
{
    let t = v.tab;
    if t + 1 < remotes {
        assert((t + 1) % remotes == t + 1) by (nonlinear_arith)
            requires
                t + 1 < remotes,
        ;
    } else {
        assert((t + 1) % remotes == 0) by (nonlinear_arith)
            requires
                t + 1 == remotes,
        ;
    }
}

/// Law: a selection on a row stays on a row: Up, Down, PageUp and PageDown
/// move an index below `len` to an index below `len`.
pub proof fn lemma_moves_stay_in_rows(idx: nat, page: nat, len: nat)
    requires
        idx < len,
    ensures
        up_idx(idx, len) < len,
        down_idx(idx, len) < len,
        page_down_idx(idx, page, len) < len,
        page_up_idx(idx, page) < len,
{
}


/// Law: in a focused tree, Down undoes Up and Up undoes Down: from a row of
/// the tree, either move followed by the other comes back to the same row
/// (wrapping around at either end included).
pub proof fn lemma_up_down_inverse(
    v: DashView,
    up: KeyEvent,
    down: KeyEvent,
    remotes: nat,
    page: nat,
    st: Seq<UiFileNode>,
    rt: Seq<UiFileNode>,
)
    requires
        up.code == KeyCode::Up,
        down.code == KeyCode::Down,
        v.is_focused,
        v.part == SelectedPart::Source ==> v.source_idx < v.source_rows.len(),
        v.part == SelectedPart::Remote ==> v.remote_idx < v.remote_rows.len(),
    ensures
        dash_key(dash_key(v, up, remotes, page, st, rt), down, remotes, page, st, rt).source_idx
            == v.source_idx,
        dash_key(dash_key(v, up, remotes, page, st, rt), down, remotes, page, st, rt).remote_idx
            == v.remote_idx,
        dash_key(dash_key(v, down, remotes, page, st, rt), up, remotes, page, st, rt).source_idx
            == v.source_idx,
        dash_key(dash_key(v, down, remotes, page, st, rt), up, remotes, page, st, rt).remote_idx
            == v.remote_idx,
{
}


/// The rows of a tab keep their first rows, up to the first row with the
/// path, when that path is opened.
proof fn lemma_tab_rows_prefix(trees: Seq<UiFileNode>, tab: nat, ex: Set<Seq<char>>, p: Seq<char>, k: int)
    requires
        0 <= k < rows_for(trees, tab, ex).len(),
        forall|j: int| 0 <= j < k ==> (#[trigger] rows_for(trees, tab, ex)[j]).path != p,
    ensures
        rows_for(trees, tab, ex.insert(p)).len() > k,
        rows_for(trees, tab, ex.insert(p))[k] == rows_for(trees, tab, ex)[k],
{
    let t = trees[tab as int];
    lemma_rows_prefix(t, 0, ex, p, k);
    assert(node_rows(t, 0, ex.insert(p)).take(k + 1)[k] == node_rows(t, 0, ex.insert(p))[k]);
    assert(node_rows(t, 0, ex).take(k + 1)[k] == node_rows(t, 0, ex)[k]);
}

/// Law: in a focused tree showing the current rows, Left closes what Right
/// opened: on a closed directory, Right and then Left give the view back as
/// it was (to be drawn again), as long as no row above the selection has
/// the selected directory's path.
pub proof fn lemma_left_closes_what_right_opened(
    v: DashView,
    right: KeyEvent,
    left: KeyEvent,
    remotes: nat,
    page: nat,
    st: Seq<UiFileNode>,
    rt: Seq<UiFileNode>,
)
    requires
        right.code == KeyCode::Right,
        left.code == KeyCode::Left,
        v.is_focused,
        v.source_rows == rows_for(st, v.tab, v.expanded),
        v.remote_rows == rows_for(rt, v.tab, v.expanded),
        selected_row(v) matches Some(r) && r.is_dir && !v.expanded.contains(r.path),
        v.part == SelectedPart::Source ==> forall|j: int|
            0 <= j < v.source_idx ==> (#[trigger] v.source_rows[j]).path != selected_row(v)->0.path,
        v.part == SelectedPart::Remote ==> forall|j: int|
            0 <= j < v.remote_idx ==> (#[trigger] v.remote_rows[j]).path != selected_row(v)->0.path,
    ensures
        dash_key(dash_key(v, right, remotes, page, st, rt), left, remotes, page, st, rt) == (
        DashView { redraw: true, ..v }),
{
    let r = selected_row(v)->0;
    let p = r.path;
    let opened = v.expanded.insert(p);
    let v1 = dash_key(v, right, remotes, page, st, rt);
    assert(v1 == DashView { redraw: true, ..refreshed(DashView { expanded: opened, ..v }, st, rt) });
    match v.part {
        SelectedPart::Source => {
            lemma_tab_rows_prefix(st, v.tab, v.expanded, p, v.source_idx as int);
            assert(selected_row(v1) == Some(r));
        },
        SelectedPart::Remote => {
            lemma_tab_rows_prefix(rt, v.tab, v.expanded, p, v.remote_idx as int);
            assert(selected_row(v1) == Some(r));
        },
        SelectedPart::Tabs => {},
    }
    assert(opened.remove(p) =~= v.expanded);
}

} // verus!
