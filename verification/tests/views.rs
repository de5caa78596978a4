use knot::cli::diff_view::{
    count_label, diff_counts, diff_viewport, entry_kind, focus_message, shown_path, title_info,
    ActiveTab, DiffCounts, DiffViewState, DiffViewport,
};
use knot::cli::resolver::{
    badge_text, finish_resolution, handle_input, initial_destinations, pad_to, visible_window,
    FileDestination, ResolverFiles, ResolverState,
};
use knot::cli::{Event, FocusState, KeyCode, KeyEvent};
use knot::knot::file::KnotFile;
use knot::knot::file_diffs::FileDiffs;

fn key(code: KeyCode) -> Event {
    Event::Key(KeyEvent { code, shift: false, control: false, release: false })
}

fn counts(c: usize, s: usize, r: usize, a: usize) -> DiffCounts {
    DiffCounts { conflicts: c, source_unique: s, remote_unique: r, archived: a }
}

#[test]
fn report_opens_on_the_fullest_tab() {
    assert_eq!(DiffViewState::new(counts(1, 5, 3, 2)).active_tab, ActiveTab::SourceUnique);
    assert_eq!(DiffViewState::new(counts(4, 4, 4, 4)).active_tab, ActiveTab::Conflicts);
    assert_eq!(DiffViewState::new(counts(0, 0, 0, 1)).active_tab, ActiveTab::Archived);
    assert_eq!(DiffViewState::new(counts(0, 2, 3, 3)).active_tab, ActiveTab::RemoteUnique);
    let s = DiffViewState::new(counts(0, 0, 0, 0));
    assert_eq!(s.selected_idx, 0);
    assert!(s.needs_redraw);
    assert_eq!(s.focus_state, FocusState::Normal);
}

#[test]
fn counts_of_a_comparison() {
    let d = FileDiffs::new(
        &[KnotFile::new("/s/a".to_string(), 0, false, Some(1))],
        "/s",
        &[],
        "/t",
    );
    let c = diff_counts(&d);
    assert_eq!(c, counts(0, 1, 0, 0));
}

#[test]
fn report_keys() {
    let mut s = DiffViewState::new(counts(30, 0, 0, 0));
    assert_eq!(s.handle_events(&vec![key(KeyCode::Up)], 30), None);
    assert_eq!(s.selected_idx, 29);
    s.handle_events(&vec![key(KeyCode::Down)], 30);
    assert_eq!(s.selected_idx, 0);
    s.handle_events(&vec![key(KeyCode::PageDown)], 30);
    assert_eq!(s.selected_idx, 20);
    s.handle_events(&vec![key(KeyCode::Char(' '))], 30);
    assert_eq!(s.selected_idx, 29);
    s.handle_events(&vec![key(KeyCode::PageUp)], 30);
    assert_eq!(s.selected_idx, 9);
    s.handle_events(&vec![key(KeyCode::PageUp)], 30);
    assert_eq!(s.selected_idx, 0);
    s.handle_events(&vec![key(KeyCode::End)], 30);
    assert_eq!(s.selected_idx, 29);
    s.handle_events(&vec![key(KeyCode::Home)], 30);
    assert_eq!(s.selected_idx, 0);
}

#[test]
fn report_tabs_cycle() {
    let mut s = DiffViewState::new(counts(0, 0, 0, 0));
    s.handle_events(&vec![key(KeyCode::Left)], 0);
    assert_eq!(s.active_tab, ActiveTab::Archived);
    s.handle_events(&vec![key(KeyCode::Tab), key(KeyCode::Right)], 0);
    assert_eq!(s.active_tab, ActiveTab::SourceUnique);
    s.handle_events(
        &vec![key(KeyCode::Right), key(KeyCode::Right), key(KeyCode::Right), key(KeyCode::Right)],
        0,
    );
    assert_eq!(s.active_tab, ActiveTab::SourceUnique);
}

#[test]
fn report_ends_with_a_choice() {
    let mut s = DiffViewState::new(counts(3, 0, 0, 0));
    assert_eq!(s.handle_events(&vec![key(KeyCode::Char('q'))], 3), Some(true));
    assert_eq!(s.handle_events(&vec![key(KeyCode::Esc)], 3), Some(true));
    assert_eq!(s.handle_events(&vec![key(KeyCode::Enter)], 3), Some(false));
    // events after the end are not applied
    let mut s = DiffViewState::new(counts(3, 0, 0, 0));
    assert_eq!(s.handle_events(&vec![key(KeyCode::Char('s')), key(KeyCode::Down)], 3), Some(false));
    assert_eq!(s.selected_idx, 0);
}

#[test]
fn report_selection_is_clamped_before_drawing() {
    let mut s = DiffViewState::new(counts(10, 2, 0, 0));
    s.handle_events(&vec![key(KeyCode::End)], 10);
    assert_eq!(s.selected_idx, 9);
    s.active_tab = ActiveTab::SourceUnique;
    s.clamp_selection(counts(10, 2, 0, 0));
    assert_eq!(s.selected_idx, 1);
    s.active_tab = ActiveTab::RemoteUnique;
    s.clamp_selection(counts(10, 2, 0, 0));
    assert_eq!(s.selected_idx, 1);
}

#[test]
fn report_texts() {
    assert_eq!(count_label(0), "(0)");
    assert_eq!(count_label(123), "(123)");
    assert_eq!(title_info(ActiveTab::Conflicts, "/a/", "/b"), "/a/~ | /b/~");
    assert_eq!(title_info(ActiveTab::SourceUnique, "/a", "/b"), "/a/~");
    assert_eq!(title_info(ActiveTab::Archived, "/a", "/"), "/~");
    assert_eq!(shown_path("/root/dir/file", "/root"), "/dir/file");
    assert_eq!(shown_path("/other/file", "/root"), "/other/file");
    assert_eq!(shown_path("/root/file", ""), "/root/file");
    assert_eq!(entry_kind(true), "󰉋 DIR");
    assert_eq!(entry_kind(false), "󰈔 FILE");
    assert_eq!(focus_message(FocusState::Normal), "");
    assert_eq!(focus_message(FocusState::Away), knot::USER_AWAY_MSG);
    assert_eq!(focus_message(FocusState::Returned), knot::USER_CAMEBACK_MSG);
}

#[test]
fn resolver_words() {
    let c = ResolverFiles::SourceRemote.config();
    assert_eq!(c.first_label, "Source");
    assert_eq!(c.second_label, "Remote");
    assert_eq!(c.skip_label, "Skip");
    assert_eq!(c.title, "CONFLICT RESOLVER");
    let c = ResolverFiles::Archiving.config();
    assert_eq!((c.first_label, c.second_label, c.skip_label), ("Recover", "Remove", "Ignore"));
    let c = ResolverFiles::UniqueHandle.config();
    assert_eq!((c.first_label, c.second_label, c.title), ("Upload", "Delete", "UNIQUE RESOLVER"));
    let (mark, word) = badge_text("●", "Source");
    assert_eq!(mark, " ● ");
    assert_eq!(word, "Source  ");
    assert_eq!(pad_to("LongerThanEight", 8), "LongerThanEight");
}

#[test]
fn resolver_window_and_result() {
    assert_eq!(visible_window(5, 20, 10), (5, 10));
    assert_eq!(visible_window(0, 3, 10), (0, 3));
    let files = vec!["a".to_string(), "b".to_string(), "c".to_string()];
    let dests = vec![FileDestination::First, FileDestination::Skip, FileDestination::Second];
    let r = finish_resolution(&files, &dests, true);
    assert_eq!(r.first, vec!["a".to_string()]);
    assert_eq!(r.second, vec!["c".to_string()]);
    assert_eq!(r.skipped, vec!["b".to_string()]);
    let r = finish_resolution(&files, &dests, false);
    assert!(r.first.is_empty() && r.second.is_empty() && r.skipped.is_empty());
}

#[test]
fn resolver_starts_with_everything_skipped() {
    let d = initial_destinations(3);
    assert_eq!(d, vec![FileDestination::Skip; 3]);
    let mut state = ResolverState::new(3);
    let mut d = d;
    let r = handle_input(
        &vec![key(KeyCode::Char('!')), key(KeyCode::Down), key(KeyCode::Char('3'))],
        3,
        &mut d,
        &mut state,
    );
    assert_eq!(r, None);
    assert_eq!(d, vec![FileDestination::First, FileDestination::Skip, FileDestination::First]);
    assert_eq!((state.first_count, state.second_count, state.skip_count), (2, 0, 1));
}

#[test]
fn comparison_table_keeps_the_selection_in_view() {
    assert_eq!(
        diff_viewport(14, 3, 30),
        DiffViewport { visible_rows: 10, offset: 0, relative_selection: 3, scrollbar: true }
    );
    assert_eq!(
        diff_viewport(14, 15, 30),
        DiffViewport { visible_rows: 10, offset: 6, relative_selection: 9, scrollbar: true }
    );
    assert_eq!(
        diff_viewport(14, 29, 30),
        DiffViewport { visible_rows: 10, offset: 20, relative_selection: 9, scrollbar: true }
    );
    assert_eq!(
        diff_viewport(40, 5, 8),
        DiffViewport { visible_rows: 36, offset: 0, relative_selection: 5, scrollbar: false }
    );
    assert_eq!(
        diff_viewport(3, 2, 5),
        DiffViewport { visible_rows: 0, offset: 0, relative_selection: 2, scrollbar: true }
    );
    for sel in 0..30 {
        let v = diff_viewport(14, sel, 30);
        assert!(v.offset <= sel && sel < v.offset + v.visible_rows);
    }
}

