//! The resolver: a list of files, each sent to one of three destinations
//! (for conflicts: source, remote or ignore; for archives: recover, remove or
//! skip; for unique files: upload, delete or skip) with the keyboard.
use vstd::prelude::*;

use crate::cli::{Event, FocusState, KeyCode, KeyEvent};

verus! {

/// Which resolver is shown.
#[derive(Debug, Clone, Copy, PartialEq, Eq, Structural)]
pub enum ResolverFiles {
    Archiving,
    SourceRemote,
    UniqueHandle,
}

/// Where a file goes.
#[derive(Debug, Clone, Copy, PartialEq, Eq, Structural)]
pub enum FileDestination {
    First,
    Second,
    Skip,
}

/// The files, split by destination.
pub struct ResolvedFiles {
    /// Recover | Source | Upload
    pub first: Vec<String>,
    /// Remove | Remote | Delete
    pub second: Vec<String>,
    /// Ignore | Skip | Skip
    pub skipped: Vec<String>,
}

/// The state of the resolver view.
#[derive(Debug, Clone, Copy, PartialEq, Eq, Structural)]
pub struct ResolverState {
    pub selected: usize,
    pub offset: usize,
    pub visible_capacity: usize,
    pub first_count: usize,
    pub second_count: usize,
    pub skip_count: usize,
    pub focus_state: FocusState,
    pub needs_redraw: bool,
}

/// How many of the destinations are `x`.
pub open spec fn count_dest(d: Seq<FileDestination>, x: FileDestination) -> nat
    decreases d.len(),
{
    if d.len() == 0 {
        0
    } else {
        count_dest(d.drop_last(), x) + if d.last() == x {
            1nat
        } else {
            0nat
        }
    }
}

/// The three counters of the state count the destinations.
pub open spec fn counts_match(s: ResolverState, d: Seq<FileDestination>) -> bool {
    &&& s.first_count == count_dest(d, FileDestination::First)
    &&& s.second_count == count_dest(d, FileDestination::Second)
    &&& s.skip_count == count_dest(d, FileDestination::Skip)
}

/// What holds of the resolver between two events: one destination per file,
/// a selected file, counters that count, and a page that fits in `usize`.
pub open spec fn resolver_inv(s: ResolverState, d: Seq<FileDestination>, n: nat) -> bool {
    &&& d.len() == n
    &&& n > 0
    &&& s.selected < n
    &&& counts_match(s, d)
    &&& n + s.visible_capacity <= usize::MAX
}

/// The state after sending file `idx` to `new_dest`: the counters move with
/// it, and the view is redrawn when the destination changed.
pub open spec fn set_dest_spec(
    s: ResolverState,
    d: Seq<FileDestination>,
    idx: int,
    new_dest: FileDestination,
) -> (ResolverState, Seq<FileDestination>) {
    let old_dest = d[idx];
    if old_dest == new_dest {
        (s, d)
    } else {
        let s1 = match old_dest {
            FileDestination::First => ResolverState { first_count: (s.first_count - 1) as usize, ..s },
            FileDestination::Second => ResolverState {
                second_count: (s.second_count - 1) as usize,
                ..s
            },
            FileDestination::Skip => ResolverState { skip_count: (s.skip_count - 1) as usize, ..s },
        };
        let s2 = match new_dest {
            FileDestination::First => ResolverState {
                first_count: (s1.first_count + 1) as usize,
                ..s1
            },
            FileDestination::Second => ResolverState {
                second_count: (s1.second_count + 1) as usize,
                ..s1
            },
            FileDestination::Skip => ResolverState { skip_count: (s1.skip_count + 1) as usize, ..s1 },
        };
        (ResolverState { needs_redraw: true, ..s2 }, d.update(idx, new_dest))
    }
}

/// The state after moving the selection to `next`; with shift held, `next`
/// takes the destination of the file that was selected.
pub open spec fn move_spec(
    s: ResolverState,
    d: Seq<FileDestination>,
    next: usize,
    shift: bool,
) -> (ResolverState, Seq<FileDestination>, Option<bool>) {
    let (s1, d1) = if shift {
        set_dest_spec(s, d, next as int, d[s.selected as int])
    } else {
        (s, d)
    };
    (ResolverState { selected: next, needs_redraw: true, ..s1 }, d1, None)
}

/// Every file sent to `x`, with the counters set to match.
pub open spec fn fill_spec(
    s: ResolverState,
    n: nat,
    x: FileDestination,
) -> (ResolverState, Seq<FileDestination>, Option<bool>) {
    (
        ResolverState {
            first_count: if x == FileDestination::First {
                n as usize
            } else {
                0
            },
            second_count: if x == FileDestination::Second {
                n as usize
            } else {
                0
            },
            skip_count: if x == FileDestination::Skip {
                n as usize
            } else {
                0
            },
            needs_redraw: true,
            ..s
        },
        Seq::new(n, |i: int| x),
        None,
    )
}

/// What a key does. `q` and Esc leave without a result (`Some(false)`), as
/// does Ctrl+C; Enter confirms (`Some(true)`). Up/Down (or k/j) move the
/// selection, wrapping around; PageUp/PageDown move it by a page; Space or Tab
/// cycle the destination of the selected file; 1, 2 and 3 (or 0, Backspace,
/// Delete) set it; `!`, `@` and `#` (or `)`) send every file to one
/// destination.
pub open spec fn resolver_key(s: ResolverState, d: Seq<FileDestination>, k: KeyEvent, n: nat) -> (
    ResolverState,
    Seq<FileDestination>,
    Option<bool>,
) {
    let c = k.code;
    if c == KeyCode::Char('q') || c == KeyCode::Esc || (c == KeyCode::Char('c') && k.control) {
        (s, d, Some(false))
    } else if c == KeyCode::Char('c') {
        (s, d, None)
    } else if c == KeyCode::Enter {
        (s, d, Some(true))
    } else if c == KeyCode::Up || c == KeyCode::Char('k') || c == KeyCode::Char('K') {
        let next = if s.selected > 0 {
            (s.selected - 1) as usize
        } else {
            (n - 1) as usize
        };
        move_spec(s, d, next, k.shift)
    } else if c == KeyCode::Down || c == KeyCode::Char('j') || c == KeyCode::Char('J') {
        let next = if s.selected < n - 1 {
            (s.selected + 1) as usize
        } else {
            0usize
        };
        move_spec(s, d, next, k.shift)
    } else if c == KeyCode::PageDown {
        let target = s.selected + s.visible_capacity;
        (
            ResolverState {
                selected: if target < n - 1 {
                    target as usize
                } else {
                    (n - 1) as usize
                },
                needs_redraw: true,
                ..s
            },
            d,
            None,
        )
    } else if c == KeyCode::PageUp {
        (
            ResolverState {
                selected: if s.selected > s.visible_capacity {
                    (s.selected - s.visible_capacity) as usize
                } else {
                    0usize
                },
                needs_redraw: true,
                ..s
            },
            d,
            None,
        )
    } else if c == KeyCode::Tab || c == KeyCode::Char(' ') {
        let next_dest = match d[s.selected as int] {
            FileDestination::First => FileDestination::Second,
            FileDestination::Second => FileDestination::Skip,
            FileDestination::Skip => FileDestination::First,
        };
        let (s1, d1) = set_dest_spec(s, d, s.selected as int, next_dest);
        (s1, d1, None)
    } else if c == KeyCode::Char('1') {
        let (s1, d1) = set_dest_spec(s, d, s.selected as int, FileDestination::First);
        (s1, d1, None)
    } else if c == KeyCode::Char('2') {
        let (s1, d1) = set_dest_spec(s, d, s.selected as int, FileDestination::Second);
        (s1, d1, None)
    } else if c == KeyCode::Char('3') || c == KeyCode::Char('0') || c == KeyCode::Backspace || c
        == KeyCode::Delete {
        let (s1, d1) = set_dest_spec(s, d, s.selected as int, FileDestination::Skip);
        (s1, d1, None)
    } else if c == KeyCode::Char('!') {
        fill_spec(s, n, FileDestination::First)
    } else if c == KeyCode::Char('@') {
        fill_spec(s, n, FileDestination::Second)
    } else if c == KeyCode::Char('#') || c == KeyCode::Char(')') {
        fill_spec(s, n, FileDestination::Skip)
    } else {
        (s, d, None)
    }
}

/// What one event does: keys as `resolver_key` (a release does nothing), a
/// resize redraws, losing focus marks the user away and regaining it marks
/// the return.
pub open spec fn resolver_step(s: ResolverState, d: Seq<FileDestination>, ev: Event, n: nat) -> (
    ResolverState,
    Seq<FileDestination>,
    Option<bool>,
) {
    match ev {
        Event::Key(k) => if k.release {
            (s, d, None)
        } else {
            resolver_key(s, d, k, n)
        },
        Event::Resize => (ResolverState { needs_redraw: true, ..s }, d, None),
        Event::FocusLost => (
            ResolverState { focus_state: FocusState::Away, needs_redraw: true, ..s },
            d,
            None,
        ),
        Event::FocusGained => if s.focus_state == FocusState::Away {
            (ResolverState { focus_state: FocusState::Returned, needs_redraw: true, ..s }, d, None)
        } else {
            (s, d, None)
        },
        Event::Other => (s, d, None),
    }
}

/// The events applied in order, up to the first one that ends the resolver.
pub open spec fn resolver_run(s: ResolverState, d: Seq<FileDestination>, evs: Seq<Event>, n: nat) -> (
    ResolverState,
    Seq<FileDestination>,
    Option<bool>,
)
    decreases evs.len(),
{
    if evs.len() == 0 {
        (s, d, None)
    } else {
        let (s1, d1, r) = resolver_step(s, d, evs[0], n);
        if r is Some {
            (s1, d1, r)
        } else {
            resolver_run(s1, d1, evs.drop_first(), n)
        }
    }
}

pub proof fn lemma_count_update(
    d: Seq<FileDestination>,
    i: int,
    y: FileDestination,
    x: FileDestination,
)
    requires
        0 <= i < d.len(),
    ensures
        count_dest(d.update(i, y), x) + (if d[i] == x {
            1int
        } else {
            0int
        }) == count_dest(d, x) + (if y == x {
            1int
        } else {
            0int
        }),
    decreases d.len(),
{
    if i < d.len() - 1 {
        lemma_count_update(d.drop_last(), i, y, x);
        assert(d.update(i, y).drop_last() =~= d.drop_last().update(i, y));
    } else {
        assert(d.update(i, y).drop_last() =~= d.drop_last());
    }
}

pub proof fn lemma_count_total(d: Seq<FileDestination>)
    ensures
        count_dest(d, FileDestination::First) + count_dest(d, FileDestination::Second) + count_dest(
            d,
            FileDestination::Skip,
        ) == d.len(),
    decreases d.len(),
{
    if d.len() > 0 {
        lemma_count_total(d.drop_last());
    }
}

pub proof fn lemma_count_fill(n: nat, y: FileDestination, x: FileDestination)
    ensures
        count_dest(Seq::new(n, |i: int| y), x) == if x == y {
            n
        } else {
            0
        },
    decreases n,
{
    if n > 0 {
        lemma_count_fill((n - 1) as nat, y, x);
        assert(Seq::new(n, |i: int| y).drop_last() =~= Seq::new((n - 1) as nat, |i: int| y));
    }
}

proof fn lemma_count_pos(d: Seq<FileDestination>, i: int)
    requires
        0 <= i < d.len(),
    ensures
        count_dest(d, d[i]) >= 1,
    decreases d.len(),
{
    if i < d.len() - 1 {
        lemma_count_pos(d.drop_last(), i);
    }
}

proof fn lemma_set_dest_inv(
    s: ResolverState,
    d: Seq<FileDestination>,
    n: nat,
    idx: int,
    new_dest: FileDestination,
)
    requires
        resolver_inv(s, d, n),
        0 <= idx < n,
    ensures
        resolver_inv(set_dest_spec(s, d, idx, new_dest).0, set_dest_spec(s, d, idx, new_dest).1, n),
        set_dest_spec(s, d, idx, new_dest).0.selected == s.selected,
        set_dest_spec(s, d, idx, new_dest).0.visible_capacity == s.visible_capacity,
{
    lemma_count_update(d, idx, new_dest, FileDestination::First);
    lemma_count_update(d, idx, new_dest, FileDestination::Second);
    lemma_count_update(d, idx, new_dest, FileDestination::Skip);
    lemma_count_pos(d, idx);
    lemma_count_total(d);
    lemma_count_total(d.update(idx, new_dest));
}

proof fn lemma_move_keeps_inv(
    s: ResolverState,
    d: Seq<FileDestination>,
    n: nat,
    next: usize,
    shift: bool,
)
    requires
        resolver_inv(s, d, n),
        next < n,
    ensures
        resolver_inv(move_spec(s, d, next, shift).0, move_spec(s, d, next, shift).1, n),
{
    lemma_set_dest_inv(s, d, n, next as int, d[s.selected as int]);
}

proof fn lemma_fill_keeps_inv(s: ResolverState, n: nat, x: FileDestination)
    requires
        n > 0,
        n + s.visible_capacity <= usize::MAX,
        s.selected < n,
    ensures
        resolver_inv(fill_spec(s, n, x).0, fill_spec(s, n, x).1, n),
{
    lemma_count_fill(n, x, FileDestination::First);
    lemma_count_fill(n, x, FileDestination::Second);
    lemma_count_fill(n, x, FileDestination::Skip);
}

/// The destination a digit key sends the selected file to: `1` the first,
/// `2` the second, `3` (or `0`) none.
pub open spec fn digit_target(c: KeyCode) -> FileDestination {
    if c == KeyCode::Char('1') {
        FileDestination::First
    } else if c == KeyCode::Char('2') {
        FileDestination::Second
    } else {
        FileDestination::Skip
    }
}

/// Law: pressing `1`, `2` or `3` (or `0`) sends the selected file to the
/// first destination, the second, or none, and changes nothing else: every
/// other file keeps its destination, the selection stays, the resolver goes
/// on, and the counters still count.
pub proof fn lemma_digit_keys_set_selected(s: ResolverState, d: Seq<FileDestination>, k: KeyEvent, n: nat)
    requires
        resolver_inv(s, d, n),
        !k.release,
        k.code == KeyCode::Char('1') || k.code == KeyCode::Char('2') || k.code == KeyCode::Char('3')
            || k.code == KeyCode::Char('0'),
    ensures
        ({
            let (s1, d1, r) = resolver_step(s, d, Event::Key(k), n);
            &&& r is None
            &&& d1.len() == d.len()
            &&& d1[s.selected as int] == digit_target(k.code)
            &&& forall|j: int| 0 <= j < d.len() && j != s.selected ==> #[trigger] d1[j] == d[j]
            &&& s1.selected == s.selected
            &&& resolver_inv(s1, d1, n)
        }),
{
    lemma_resolver_step_keeps_inv(s, d, Event::Key(k), n);
}

/// Law: every event keeps the resolver's invariant: one destination per file,
/// a selected file within the list, and counters equal to the number of files
/// sent to each destination.
#[verifier::rlimit(50)]
pub proof fn lemma_resolver_step_keeps_inv(s: ResolverState, d: Seq<FileDestination>, ev: Event, n: nat)
    requires
        resolver_inv(s, d, n),
    ensures
        resolver_inv(resolver_step(s, d, ev, n).0, resolver_step(s, d, ev, n).1, n),
{
    if let Event::Key(k) = ev {
        if !k.release {
            let c = k.code;
            let up: usize = if s.selected > 0 {
                (s.selected - 1) as usize
            } else {
                (n - 1) as usize
            };
            let down: usize = if s.selected < n - 1 {
                (s.selected + 1) as usize
            } else {
                0usize
            };
            lemma_move_keeps_inv(s, d, n, up, k.shift);
            lemma_move_keeps_inv(s, d, n, down, k.shift);
            lemma_set_dest_inv(s, d, n, s.selected as int, FileDestination::First);
            lemma_set_dest_inv(s, d, n, s.selected as int, FileDestination::Second);
            lemma_set_dest_inv(s, d, n, s.selected as int, FileDestination::Skip);
            lemma_fill_keeps_inv(s, n, FileDestination::First);
            lemma_fill_keeps_inv(s, n, FileDestination::Second);
            lemma_fill_keeps_inv(s, n, FileDestination::Skip);
        }
    }
}

/// Law: a run of events keeps the resolver's invariant.
pub proof fn lemma_resolver_run_keeps_inv(
    s: ResolverState,
    d: Seq<FileDestination>,
    evs: Seq<Event>,
    n: nat,
)
    requires
        resolver_inv(s, d, n),
    ensures
        resolver_inv(resolver_run(s, d, evs, n).0, resolver_run(s, d, evs, n).1, n),
    decreases evs.len(),
{
    if evs.len() > 0 {
        lemma_resolver_step_keeps_inv(s, d, evs[0], n);
        let (s1, d1, r) = resolver_step(s, d, evs[0], n);
        if r is None {
            lemma_resolver_run_keeps_inv(s1, d1, evs.drop_first(), n);
        }
    }
}

impl ResolverState {
    /// The state of a resolver over `file_count` files, all skipped.
    pub fn new(file_count: usize) -> (r: Self)
        ensures
            r == (ResolverState {
                selected: 0,
                offset: 0,
                visible_capacity: 20,
                first_count: 0,
                second_count: 0,
                skip_count: file_count,
                focus_state: FocusState::Normal,
                needs_redraw: true,
            }),
    {
        ResolverState {
            selected: 0,
            offset: 0,
            visible_capacity: 20,
            first_count: 0,
            second_count: 0,
            skip_count: file_count,
            focus_state: FocusState::Normal,
            needs_redraw: true,
        }
    }

    /// Sends file `idx` to `new_dest`, keeping the counters in step.
    pub fn set_destination(
        &mut self,
        destinations: &mut Vec<FileDestination>,
        idx: usize,
        new_dest: FileDestination,
    )
        requires
            idx < old(destinations)@.len(),
            counts_match(*old(self), old(destinations)@),
        ensures
            (*final(self), final(destinations)@) == set_dest_spec(
                *old(self),
                old(destinations)@,
                idx as int,
                new_dest,
            ),
            counts_match(*final(self), final(destinations)@),
    {
        let old_dest = destinations[idx];
        let len = destinations.len();
        proof {
            lemma_count_update(destinations@, idx as int, new_dest, FileDestination::First);
            lemma_count_update(destinations@, idx as int, new_dest, FileDestination::Second);
            lemma_count_update(destinations@, idx as int, new_dest, FileDestination::Skip);
            lemma_count_pos(destinations@, idx as int);
            lemma_count_total(destinations@);
        }
        if old_dest == new_dest {
            return;
        }
        match old_dest {
            FileDestination::First => self.first_count = self.first_count - 1,
            FileDestination::Second => self.second_count = self.second_count - 1,
            FileDestination::Skip => self.skip_count = self.skip_count - 1,
        }
        match new_dest {
            FileDestination::First => self.first_count = self.first_count + 1,
            FileDestination::Second => self.second_count = self.second_count + 1,
            FileDestination::Skip => self.skip_count = self.skip_count + 1,
        }
        destinations.set(idx, new_dest);
        self.needs_redraw = true;
    }

    /// Moves the first visible row so that the selected one can be seen in a
    /// table `table_height` rows high (4 of them are borders and header).
    pub fn scroll_into_view(&mut self, table_height: u16)
        requires
            old(self).offset + 65535 <= usize::MAX,
        ensures
            final(self).visible_capacity == (if table_height > 4 {
                table_height - 4
            } else {
                1
            }),
            final(self).offset == (if old(self).selected < old(self).offset {
                old(self).selected as int
            } else if old(self).selected >= old(self).offset + final(self).visible_capacity {
                old(self).selected - final(self).visible_capacity + 1
            } else {
                old(self).offset as int
            }),
            final(self).offset <= final(self).selected,
            final(self).selected < final(self).offset + final(self).visible_capacity,
            final(self).selected == old(self).selected,
            final(self).first_count == old(self).first_count,
            final(self).second_count == old(self).second_count,
            final(self).skip_count == old(self).skip_count,
            final(self).focus_state == old(self).focus_state,
            final(self).needs_redraw == old(self).needs_redraw,
    {
        let cap: usize = if table_height > 4 {
            (table_height - 4) as usize
        } else {
            1
        };
        self.visible_capacity = cap;
        if self.selected < self.offset {
            self.offset = self.selected;
        } else if self.selected >= self.offset + cap {
            self.offset = self.selected - cap + 1;
        }
    }
}

fn fill_all(destinations: &mut Vec<FileDestination>, x: FileDestination)
    ensures
        final(destinations)@ == Seq::new(old(destinations)@.len(), |i: int| x),
{
    let n = destinations.len();
    let mut i: usize = 0;
    while i < n
        invariant
            n == destinations@.len(),
            i <= n,
            forall|j: int| 0 <= j < i ==> destinations@[j] == x,
        decreases n - i,
    {
        destinations.set(i, x);
        i = i + 1;
    }
    assert(destinations@ =~= Seq::new(n as nat, |i: int| x));
}

/// Applies the events in order and stops at the first that ends the
/// resolver: `Some(true)` to confirm, `Some(false)` to leave; `None` when no
/// event ended it.
pub fn handle_input(
    events: &Vec<Event>,
    file_count: usize,
    destinations: &mut Vec<FileDestination>,
    state: &mut ResolverState,
) -> (r: Option<bool>)
    requires
        resolver_inv(*old(state), old(destinations)@, file_count as nat),
    ensures
        (*final(state), final(destinations)@, r) == resolver_run(
            *old(state),
            old(destinations)@,
            events@,
            file_count as nat,
        ),
        resolver_inv(*final(state), final(destinations)@, file_count as nat),
{
    let ghost s0 = *state;
    let ghost d0 = destinations@;
    let ghost n = file_count as nat;
    let mut i: usize = 0;
    let mut result: Option<bool> = None;
    proof {
        assert(events@.skip(0) =~= events@);
    }
    while i < events.len() && result.is_none()
        invariant
            i <= events@.len(),
            n == file_count as nat,
            resolver_inv(*state, destinations@, n),
            result is None ==> resolver_run(s0, d0, events@, n) == resolver_run(
                *state,
                destinations@,
                events@.skip(i as int),
                n,
            ),
            result is Some ==> resolver_run(s0, d0, events@, n) == (*state, destinations@, result),
        decreases events@.len() - i,
    {
        let ev = events[i];
        let ghost before = (*state, destinations@);
        let ghost expected = resolver_step(*state, destinations@, ev, n);
        proof {
            assert(events@.skip(i as int)[0] == ev);
            assert(events@.skip(i as int).drop_first() =~= events@.skip(i + 1));
            lemma_resolver_step_keeps_inv(*state, destinations@, ev, n);
        }
        result = step(ev, file_count, destinations, state);
        proof {
            assert((*state, destinations@, result) == expected);
        }
        i = i + 1;
    }
    proof {
        if result is None {
            assert(events@.skip(i as int) =~= Seq::<Event>::empty());
        }
    }
    result
}

fn step(
    ev: Event,
    file_count: usize,
    destinations: &mut Vec<FileDestination>,
    state: &mut ResolverState,
) -> (r: Option<bool>)
    requires
        resolver_inv(*old(state), old(destinations)@, file_count as nat),
    ensures
        (*final(state), final(destinations)@, r) == resolver_step(
            *old(state),
            old(destinations)@,
            ev,
            file_count as nat,
        ),
{
    match ev {
        Event::Key(key) => {
            if key.release {
                return None;
            }
            key_step(key, file_count, destinations, state)
        },
        Event::Resize => {
            state.needs_redraw = true;
            None
        },
        Event::FocusLost => {
            state.focus_state = FocusState::Away;
            state.needs_redraw = true;
            None
        },
        Event::FocusGained => {
            if state.focus_state == FocusState::Away {
                state.focus_state = FocusState::Returned;
                state.needs_redraw = true;
            }
            None
        },
        Event::Other => None,
    }
}

fn key_step(
    key: KeyEvent,
    file_count: usize,
    destinations: &mut Vec<FileDestination>,
    state: &mut ResolverState,
) -> (r: Option<bool>)
    requires
        resolver_inv(*old(state), old(destinations)@, file_count as nat),
    ensures
        (*final(state), final(destinations)@, r) == resolver_key(
            *old(state),
            old(destinations)@,
            key,
            file_count as nat,
        ),
{
    let c = key.code;
    if c == KeyCode::Char('q') || c == KeyCode::Esc || (c == KeyCode::Char('c') && key.control) {
        Some(false)
    } else if c == KeyCode::Char('c') {
        None
    } else if c == KeyCode::Enter {
        Some(true)
    } else if c == KeyCode::Up || c == KeyCode::Char('k') || c == KeyCode::Char('K') {
        let next = if state.selected > 0 {
            state.selected - 1
        } else {
            file_count - 1
        };
        if key.shift {
            let cur = destinations[state.selected];
            state.set_destination(destinations, next, cur);
        }
        state.selected = next;
        state.needs_redraw = true;
        None
    } else if c == KeyCode::Down || c == KeyCode::Char('j') || c == KeyCode::Char('J') {
        let next = if state.selected < file_count - 1 {
            state.selected + 1
        } else {
            0
        };
        if key.shift {
            let cur = destinations[state.selected];
            state.set_destination(destinations, next, cur);
        }
        state.selected = next;
        state.needs_redraw = true;
        None
    } else if c == KeyCode::PageDown {
        let target = state.selected + state.visible_capacity;
        state.selected = if target < file_count - 1 {
            target
        } else {
            file_count - 1
        };
        state.needs_redraw = true;
        None
    } else if c == KeyCode::PageUp {
        state.selected = if state.selected > state.visible_capacity {
            state.selected - state.visible_capacity
        } else {
            0
        };
        state.needs_redraw = true;
        None
    } else if c == KeyCode::Tab || c == KeyCode::Char(' ') {
        let next_dest = match destinations[state.selected] {
            FileDestination::First => FileDestination::Second,
            FileDestination::Second => FileDestination::Skip,
            FileDestination::Skip => FileDestination::First,
        };
        let sel = state.selected;
        state.set_destination(destinations, sel, next_dest);
        None
    } else if c == KeyCode::Char('1') {
        let sel = state.selected;
        state.set_destination(destinations, sel, FileDestination::First);
        None
    } else if c == KeyCode::Char('2') {
        let sel = state.selected;
        state.set_destination(destinations, sel, FileDestination::Second);
        None
    } else if c == KeyCode::Char('3') || c == KeyCode::Char('0') || c == KeyCode::Backspace || c
        == KeyCode::Delete {
        let sel = state.selected;
        state.set_destination(destinations, sel, FileDestination::Skip);
        None
    } else if c == KeyCode::Char('!') || c == KeyCode::Char('@') || c == KeyCode::Char('#') || c
        == KeyCode::Char(')') {
        let x = if c == KeyCode::Char('!') {
            FileDestination::First
        } else if c == KeyCode::Char('@') {
            FileDestination::Second
        } else {
            FileDestination::Skip
        };
        fill_all(destinations, x);
        state.first_count = if x == FileDestination::First {
            file_count
        } else {
            0
        };
        state.second_count = if x == FileDestination::Second {
            file_count
        } else {
            0
        };
        state.skip_count = if x == FileDestination::Skip {
            file_count
        } else {
            0
        };
        state.needs_redraw = true;
        None
    } else {
        None
    }
}

/// The files at each position, those of each destination, in order.
pub open spec fn files_to(files: Seq<String>, d: Seq<FileDestination>, x: FileDestination) -> Seq<
    String,
>
    decreases files.len(),
{
    if files.len() == 0 || d.len() < files.len() {
        Seq::<String>::empty()
    } else {
        let prev = files_to(files.drop_last(), d, x);
        if d[files.len() - 1] == x {
            prev.push(files.last())
        } else {
            prev
        }
    }
}

/// Splits the files by their destinations, keeping their order.
pub fn resolved_files(files: &Vec<String>, destinations: &Vec<FileDestination>) -> (r:
    ResolvedFiles)
    requires
        files@.len() == destinations@.len(),
    ensures
        r.first@ == files_to(files@, destinations@, FileDestination::First),
        r.second@ == files_to(files@, destinations@, FileDestination::Second),
        r.skipped@ == files_to(files@, destinations@, FileDestination::Skip),
{
    let mut r = ResolvedFiles { first: Vec::new(), second: Vec::new(), skipped: Vec::new() };
    let mut i: usize = 0;
    while i < files.len()
        invariant
            files@.len() == destinations@.len(),
            i <= files@.len(),
            r.first@ == files_to(files@.take(i as int), destinations@, FileDestination::First),
            r.second@ == files_to(files@.take(i as int), destinations@, FileDestination::Second),
            r.skipped@ == files_to(files@.take(i as int), destinations@, FileDestination::Skip),
        decreases files@.len() - i,
    {
        proof {
            assert(files@.take(i + 1).drop_last() =~= files@.take(i as int));
            assert(files@.take(i + 1).last() == files@[i as int]);
        }
        let f = files[i].clone();
        match destinations[i] {
            FileDestination::First => r.first.push(f),
            FileDestination::Second => r.second.push(f),
            FileDestination::Skip => r.skipped.push(f),
        }
        i = i + 1;
    }
    proof {
        assert(files@.take(files@.len() as int) =~= files@);
    }
    r
}

/// Law: the split keeps every file exactly once: as many files go to each
/// destination as the destinations name, and together they are all the files.
pub proof fn lemma_resolved_partition(files: Seq<String>, d: Seq<FileDestination>)
    requires
        files.len() == d.len(),
    ensures
        files_to(files, d, FileDestination::First).len() == count_dest(d, FileDestination::First),
        files_to(files, d, FileDestination::Second).len() == count_dest(d, FileDestination::Second),
        files_to(files, d, FileDestination::Skip).len() == count_dest(d, FileDestination::Skip),
        files_to(files, d, FileDestination::First).len() + files_to(
            files,
            d,
            FileDestination::Second,
        ).len() + files_to(files, d, FileDestination::Skip).len() == files.len(),
    decreases files.len(),
{
    if files.len() > 0 {
        lemma_resolved_partition(files.drop_last(), d.drop_last());
        lemma_files_to_prefix(files.drop_last(), d, FileDestination::First);
        lemma_files_to_prefix(files.drop_last(), d, FileDestination::Second);
        lemma_files_to_prefix(files.drop_last(), d, FileDestination::Skip);
    }
    lemma_count_total(d);
}

proof fn lemma_files_to_prefix(files: Seq<String>, d: Seq<FileDestination>, x: FileDestination)
    requires
        files.len() + 1 == d.len(),
    ensures
        files_to(files, d, x) == files_to(files, d.drop_last(), x),
    decreases files.len(),
{
    if files.len() > 0 {
        let d2 = d.drop_last();
        lemma_files_to_prefix_any(files, d, d2, x);
    }
}

proof fn lemma_files_to_prefix_any(
    files: Seq<String>,
    d: Seq<FileDestination>,
    d2: Seq<FileDestination>,
    x: FileDestination,
)
    requires
        files.len() <= d.len(),
        files.len() <= d2.len(),
        forall|k: int| 0 <= k < files.len() ==> d[k] == d2[k],
    ensures
        files_to(files, d, x) == files_to(files, d2, x),
    decreases files.len(),
{
    if files.len() > 0 {
        lemma_files_to_prefix_any(files.drop_last(), d, d2, x);
    }
}


/// The words, marks and title of a resolver.
#[derive(Debug, Clone, Copy)]
pub struct ResolverConfig {
    pub first_label: &'static str,
    pub first_icon: &'static str,
    pub second_label: &'static str,
    pub second_icon: &'static str,
    pub skip_label: &'static str,
    pub skip_icon: &'static str,
    pub title: &'static str,
}

impl ResolverFiles {
    pub fn config(&self) -> (r: ResolverConfig)
        ensures
            r.first_icon@ == "●"@,
            r.skip_label@ == (if *self == ResolverFiles::Archiving {
                "Ignore"@
            } else {
                "Skip"@
            }),
            r.skip_icon@ == "◌"@,
            r.first_label@ == (match *self {
                ResolverFiles::Archiving => "Recover"@,
                ResolverFiles::SourceRemote => "Source"@,
                ResolverFiles::UniqueHandle => "Upload"@,
            }),
            r.second_label@ == (match *self {
                ResolverFiles::Archiving => "Remove"@,
                ResolverFiles::SourceRemote => "Remote"@,
                ResolverFiles::UniqueHandle => "Delete"@,
            }),
            r.second_icon@ == (if *self == ResolverFiles::SourceRemote {
                "◆"@
            } else {
                "✕"@
            }),
            r.title@ == (match *self {
                ResolverFiles::Archiving => "ARCHIVE RESOLVER"@,
                ResolverFiles::SourceRemote => "CONFLICT RESOLVER"@,
                ResolverFiles::UniqueHandle => "UNIQUE RESOLVER"@,
            }),
    {
        match self {
            ResolverFiles::Archiving => ResolverConfig {
                first_label: "Recover",
                first_icon: "●",
                second_label: "Remove",
                second_icon: "✕",
                skip_label: "Ignore",
                skip_icon: "◌",
                title: "ARCHIVE RESOLVER",
            },
            ResolverFiles::SourceRemote => ResolverConfig {
                first_label: "Source",
                first_icon: "●",
                second_label: "Remote",
                second_icon: "◆",
                skip_label: "Skip",
                skip_icon: "◌",
                title: "CONFLICT RESOLVER",
            },
            ResolverFiles::UniqueHandle => ResolverConfig {
                first_label: "Upload",
                first_icon: "●",
                second_label: "Delete",
                second_icon: "✕",
                skip_label: "Skip",
                skip_icon: "◌",
                title: "UNIQUE RESOLVER",
            },
        }
    }
}

/// `s` padded with spaces on the right to `width` characters.
pub open spec fn pad_right(s: Seq<char>, width: nat) -> Seq<char> {
    if s.len() >= width {
        s
    } else {
        s + Seq::new((width - s.len()) as nat, |i: int| ' ')
    }
}

/// `s` padded with spaces on the right to `width` characters (as `{:<width}`
/// writes it).
pub fn pad_to(s: &str, width: usize) -> (r: String)
    ensures
        r@ == pad_right(s@, width as nat),
{
    let mut word = crate::text::chars_of(s);
    let ghost base = word@;
    while word.len() < width
        invariant
            word@.len() <= width ==> word@ == base + Seq::new((word@.len() - base.len()) as nat, |i: int| ' '),
            word@.len() >= base.len(),
            word@.len() > width ==> word@ == base,
            base == s@,
        decreases width - word@.len(),
    {
        word.push(' ');
        proof {
            assert(word@ =~= base + Seq::new((word@.len() - base.len()) as nat, |i: int| ' '));
        }
    }
    proof {
        if base.len() >= width {
            assert(word@ == base);
        } else {
            assert(word@ =~= pad_right(base, width as nat));
        }
    }
    crate::text::string_of(word.as_slice())
}

/// The badge of a destination: its mark between spaces, and its word padded
/// to eight characters.
pub fn badge_text(icon: &str, label: &str) -> (r: (String, String))
    ensures
        r.0@ == " "@ + icon@ + " "@,
        r.1@ == pad_right(label@, 8),
{
    let mut mark: Vec<char> = Vec::new();
    crate::cli::dashboard::drawing::append_chars(&mut mark, " ");
    crate::cli::dashboard::drawing::append_chars(&mut mark, icon);
    crate::cli::dashboard::drawing::append_chars(&mut mark, " ");
    (crate::text::string_of(mark.as_slice()), pad_to(label, 8))
}

/// The rows shown: from the first visible one for `visible_capacity` rows,
/// stopping at the last file.
pub fn visible_window(offset: usize, visible_capacity: usize, file_count: usize) -> (r: (
    usize,
    usize,
))
    requires
        offset <= file_count,
    ensures
        r.0 == offset,
        r.1 == (if offset + visible_capacity < file_count {
            offset + visible_capacity
        } else {
            file_count as int
        }),
        r.0 <= r.1 <= file_count,
{
    let end = if visible_capacity < file_count - offset {
        offset + visible_capacity
    } else {
        file_count
    };
    (offset, end)
}

/// The end of a resolver: the files split by destination when confirmed
/// (`Some(true)`), nothing when left; with no files there is nothing to
/// resolve.
pub fn finish_resolution(
    files: &Vec<String>,
    destinations: &Vec<FileDestination>,
    confirmed: bool,
) -> (r: ResolvedFiles)
    requires
        files@.len() == destinations@.len(),
    ensures
        confirmed ==> r.first@ == files_to(files@, destinations@, FileDestination::First)
            && r.second@ == files_to(files@, destinations@, FileDestination::Second)
            && r.skipped@ == files_to(files@, destinations@, FileDestination::Skip),
        !confirmed ==> r.first@.len() == 0 && r.second@.len() == 0 && r.skipped@.len() == 0,
{
    if confirmed {
        resolved_files(files, destinations)
    } else {
        ResolvedFiles { first: Vec::new(), second: Vec::new(), skipped: Vec::new() }
    }
}

/// The destinations a resolver begins with: every file skipped.
pub fn initial_destinations(file_count: usize) -> (r: Vec<FileDestination>)
    ensures
        r@ == Seq::new(file_count as nat, |i: int| FileDestination::Skip),
{
    let mut r: Vec<FileDestination> = Vec::new();
    while r.len() < file_count
        invariant
            r@.len() <= file_count,
            forall|j: int| 0 <= j < r@.len() ==> r@[j] == FileDestination::Skip,
        decreases file_count - r@.len(),
    {
        r.push(FileDestination::Skip);
    }
    proof {
        assert(r@ =~= Seq::new(file_count as nat, |i: int| FileDestination::Skip));
    }
    r
}

/// Law: whatever events come, the resolver's counters keep counting: with
/// one destination per file, a selected file, and counters equal to the
/// numbers of files sent to each destination, after the events the counters
/// still equal those numbers (so they add up to the number of files), every
/// file still has one destination and the selection is still on a file.
/// (The page must fit in `usize` beside the files, as the sum of the
/// selection and the page is computed.)
pub proof fn lemma_resolver_counts_stay_true(
    s: ResolverState,
    d: Seq<FileDestination>,
    evs: Seq<Event>,
    n: nat,
)
    requires
        d.len() == n,
        n > 0,
        s.selected < n,
        counts_match(s, d),
        n + s.visible_capacity <= usize::MAX,
    ensures
        ({
            let (s2, d2, _) = resolver_run(s, d, evs, n);
            &&& d2.len() == n
            &&& s2.selected < n
            &&& counts_match(s2, d2)
            &&& s2.first_count + s2.second_count + s2.skip_count == n
        }),
{
    lemma_resolver_run_keeps_inv(s, d, evs, n);
    let (s2, d2, _) = resolver_run(s, d, evs, n);
    lemma_count_total(d2);
}

/// Law: a new resolver over a nonempty list of files holds the invariant.
pub proof fn lemma_initial_inv(n: nat)
    requires
        0 < n,
        n + 20 <= usize::MAX,
    ensures
        resolver_inv(
            ResolverState {
                selected: 0,
                offset: 0,
                visible_capacity: 20,
                first_count: 0,
                second_count: 0,
                skip_count: n as usize,
                focus_state: FocusState::Normal,
                needs_redraw: true,
            },
            Seq::new(n, |i: int| FileDestination::Skip),
            n,
        ),
{
    lemma_count_fill(n, FileDestination::Skip, FileDestination::First);
    lemma_count_fill(n, FileDestination::Skip, FileDestination::Second);
    lemma_count_fill(n, FileDestination::Skip, FileDestination::Skip);
}

} // verus!
