use knot::cli::dashboard::drawing::{
    panel_marks, root_title, tab_title, tree_row_cells, DashDrawer,
};
use knot::cli::dashboard::event_handler::{DashEventHandler, SelectedPart};
use knot::cli::dashboard::file_node::{
    flatten_into_rows, names_in_order, status_weight, FileStatus, UiFileNode, UiRow,
};
use knot::cli::dashboard::{remote_tree, source_tree};
use knot::cli::{Event, FocusState, KeyCode, KeyEvent};
use knot::knot::credentials::KnotCredentials;
use knot::knot::file::KnotFile;
use knot::knot::file_diffs::FileDiffs;
use knot::knot::{KnotConfig, KnotType};

fn file(path: &str, is_dir: bool) -> KnotFile {
    KnotFile::new(path.to_string(), 0, is_dir, if is_dir { None } else { Some(7) })
}

fn key(code: KeyCode) -> Event {
    Event::Key(KeyEvent { code, shift: false, control: false, release: false })
}

fn names(rows: &[UiRow]) -> Vec<(usize, String)> {
    rows.iter().map(|r| (r.depth, r.name.clone())).collect()
}

fn sample_tree() -> UiFileNode {
    let items = vec![
        (FileStatus::Synced, file("/root/proj/b.txt", false)),
        (FileStatus::Unique, file("/root/proj/A.txt", false)),
        (FileStatus::Conflict, file("/root/proj/docs/readme.md", false)),
        (FileStatus::Synced, file("/root/proj/docs", true)),
        (FileStatus::Unique, file("/elsewhere/x", false)),
    ];
    UiFileNode::build_tree(&items, "/root/proj")
}

#[test]
fn status_weights() {
    assert_eq!(status_weight("Conflict"), 3);
    assert_eq!(status_weight("Unique"), 2);
    assert_eq!(status_weight("Modified"), 1);
    assert_eq!(status_weight("Synced"), 0);
    assert_eq!(status_weight("Archived"), 0);
    assert_eq!(status_weight("anything"), 0);
}

#[test]
fn status_labels_weigh_as_statuses() {
    for s in [
        FileStatus::Conflict,
        FileStatus::Unique,
        FileStatus::Modified,
        FileStatus::Synced,
        FileStatus::Archived,
    ] {
        assert_eq!(status_weight(s.label()), s.weight());
    }
}

#[test]
fn tree_places_files_under_their_directories() {
    let t = sample_tree();
    assert_eq!(t.name, "proj");
    assert_eq!(t.path, "/root/proj");
    assert!(t.is_dir);
    // the file outside the root is left out
    assert_eq!(t.children.len(), 3);
    let docs = t.children.iter().find(|c| c.name == "docs").unwrap();
    assert!(docs.is_dir);
    assert_eq!(docs.path, "/root/proj/docs");
    // the directory took the conflict of the file under it
    assert_eq!(docs.status, FileStatus::Conflict);
    assert_eq!(docs.children.len(), 1);
    assert_eq!(docs.children[0].path, "/root/proj/docs/readme.md");
    assert_eq!(docs.children[0].status, FileStatus::Conflict);
}

#[test]
fn status_only_grows_heavier() {
    let items = vec![
        (FileStatus::Conflict, file("/r/d/a", false)),
        (FileStatus::Unique, file("/r/d/b", false)),
    ];
    let t = UiFileNode::build_tree(&items, "/r");
    assert_eq!(t.children.len(), 1);
    assert_eq!(t.children[0].status, FileStatus::Conflict);
}

fn child<'a>(n: &'a UiFileNode, name: &str) -> Option<&'a UiFileNode> {
    n.children.iter().find(|c| c.name == name)
}

#[test]
fn each_directory_weighs_as_its_heaviest_file() {
    let items = vec![
        (FileStatus::Modified, file("/r/x/y/z", false)),
        (FileStatus::Unique, file("/r/x/w", false)),
        (FileStatus::Archived, file("/r/v", false)),
    ];
    let t = UiFileNode::build_tree(&items, "/r");
    assert_eq!(t.status, FileStatus::Synced);
    assert_eq!(t.children.len(), 2);
    let x = child(&t, "x").unwrap();
    assert_eq!(x.status, FileStatus::Unique);
    assert_eq!(x.children.len(), 2);
    let y = child(x, "y").unwrap();
    assert!(y.is_dir);
    assert_eq!(y.status, FileStatus::Modified);
    assert_eq!(y.children.len(), 1);
    assert_eq!(y.children[0].path, "/r/x/y/z");
    assert_eq!(child(x, "w").unwrap().status, FileStatus::Unique);
    // a status that weighs nothing leaves the node synced
    assert_eq!(child(&t, "v").unwrap().status, FileStatus::Synced);
}

#[test]
fn closed_tree_shows_top_level_in_display_order() {
    let t = sample_tree();
    let mut rows = Vec::new();
    flatten_into_rows(&t, 0, &Vec::new(), &mut rows);
    // directories first, then the heavier status, then the name
    assert_eq!(
        names(&rows),
        vec![(0, "docs".to_string()), (0, "A.txt".to_string()), (0, "b.txt".to_string())]
    );
}

#[test]
fn expanded_directory_shows_its_children() {
    let t = sample_tree();
    let mut rows = Vec::new();
    flatten_into_rows(&t, 0, &vec!["/root/proj/docs".to_string()], &mut rows);
    assert_eq!(
        names(&rows),
        vec![
            (0, "docs".to_string()),
            (1, "readme.md".to_string()),
            (0, "A.txt".to_string()),
            (0, "b.txt".to_string()),
        ]
    );
}

#[test]
fn names_differing_in_case_are_ordered_by_name() {
    let items = vec![
        (FileStatus::Synced, file("/r/b", false)),
        (FileStatus::Synced, file("/r/a", false)),
        (FileStatus::Synced, file("/r/B", false)),
    ];
    let t = UiFileNode::build_tree(&items, "/r");
    let mut rows = Vec::new();
    flatten_into_rows(&t, 0, &Vec::new(), &mut rows);
    let got: Vec<String> = rows.iter().map(|r| r.name.clone()).collect();
    assert_eq!(got, vec!["a", "B", "b"]);
}

fn diff() -> FileDiffs {
    FileDiffs::new(
        &[file("/s/new.txt", false), file("/s/both.txt", false)],
        "/s",
        &[
            KnotFile::new("/t/both.txt".to_string(), 0, false, Some(9)),
            file("/t/KNOT-ARCHIVE__old", false),
        ],
        "/t",
    )
}

#[test]
fn trees_of_a_comparison() {
    let d = diff();
    let s = source_tree(&d, "/s");
    let names: Vec<(String, FileStatus)> =
        s.children.iter().map(|c| (c.name.clone(), c.status)).collect();
    assert!(names.contains(&("new.txt".to_string(), FileStatus::Unique)));
    assert!(names.contains(&("both.txt".to_string(), FileStatus::Conflict)));
    let r = remote_tree(&d);
    let names: Vec<(String, FileStatus)> =
        r.children.iter().map(|c| (c.name.clone(), c.status)).collect();
    assert!(names.contains(&("both.txt".to_string(), FileStatus::Conflict)));
    // archived files weigh nothing: they show as synced
    assert!(names.contains(&("KNOT-ARCHIVE__old".to_string(), FileStatus::Synced)));
}

#[test]
fn tabs_cycle_and_left_undoes_right() {
    let trees: Vec<UiFileNode> = Vec::new();
    let mut h = DashEventHandler::default();
    h.handle(&vec![key(KeyCode::Right)], 3, 10, &trees, &trees);
    assert_eq!(h.selected_tab, 1);
    assert!(h.redraw);
    h.handle(&vec![key(KeyCode::Right), key(KeyCode::Right)], 3, 10, &trees, &trees);
    assert_eq!(h.selected_tab, 0);
    h.handle(&vec![key(KeyCode::Left)], 3, 10, &trees, &trees);
    assert_eq!(h.selected_tab, 2);
    h.handle(&vec![key(KeyCode::Right), key(KeyCode::Left)], 3, 10, &trees, &trees);
    assert_eq!(h.selected_tab, 2);
}

#[test]
fn quit_and_sync_keys() {
    let trees: Vec<UiFileNode> = Vec::new();
    let mut h = DashEventHandler::default();
    h.handle(&vec![key(KeyCode::Char('c'))], 1, 10, &trees, &trees);
    assert!(!h.end);
    h.handle(
        &vec![Event::Key(KeyEvent { code: KeyCode::Char('c'), shift: false, control: true, release: false })],
        1,
        10,
        &trees,
        &trees,
    );
    assert!(h.end);
    let mut h = DashEventHandler::default();
    h.handle(&vec![key(KeyCode::Char('s'))], 1, 10, &trees, &trees);
    assert!(h.sync && h.redraw);
    let mut h = DashEventHandler::default();
    h.handle(&vec![key(KeyCode::Char('q'))], 1, 10, &trees, &trees);
    assert!(h.end);
}

#[test]
fn releases_are_ignored_and_focus_is_tracked() {
    let trees: Vec<UiFileNode> = Vec::new();
    let mut h = DashEventHandler::default();
    h.handle(
        &vec![Event::Key(KeyEvent { code: KeyCode::Char('q'), shift: false, control: false, release: true })],
        1,
        10,
        &trees,
        &trees,
    );
    assert!(!h.end);
    h.handle(&vec![Event::FocusGained], 1, 10, &trees, &trees);
    assert_eq!(h.focus_state, FocusState::Normal);
    h.handle(&vec![Event::FocusLost, Event::FocusGained], 1, 10, &trees, &trees);
    assert_eq!(h.focus_state, FocusState::Returned);
}

#[test]
fn moving_into_a_tree_and_opening_a_directory() {
    let trees = vec![sample_tree()];
    let mut h = DashEventHandler::default();
    h.init_tree(&trees, &trees);
    assert_eq!(h.source_visible_rows.len(), 3);
    // Down from the tabs highlights the source tree, Enter focuses it
    h.handle(&vec![key(KeyCode::Down), key(KeyCode::Enter)], 1, 10, &trees, &trees);
    assert_eq!(h.highlighted_part, SelectedPart::Source);
    assert!(h.is_focused);
    // Right opens the selected directory (`docs`)
    h.handle(&vec![key(KeyCode::Right)], 1, 10, &trees, &trees);
    assert_eq!(h.source_visible_rows.len(), 4);
    assert_eq!(h.expanded_dirs, vec!["/root/proj/docs".to_string()]);
    // Left closes it again
    h.handle(&vec![key(KeyCode::Left)], 1, 10, &trees, &trees);
    assert_eq!(h.source_visible_rows.len(), 3);
    assert!(h.expanded_dirs.is_empty());
    // Enter toggles it
    h.handle(&vec![key(KeyCode::Enter)], 1, 10, &trees, &trees);
    assert_eq!(h.source_visible_rows.len(), 4);
    h.handle(&vec![key(KeyCode::Enter)], 1, 10, &trees, &trees);
    assert_eq!(h.source_visible_rows.len(), 3);
}

#[test]
fn selection_wraps_and_pages_stop_at_the_ends() {
    let trees = vec![sample_tree()];
    let mut h = DashEventHandler::default();
    h.init_tree(&trees, &trees);
    h.handle(&vec![key(KeyCode::Down), key(KeyCode::Down)], 1, 10, &trees, &trees);
    assert!(h.is_focused);
    h.handle(&vec![key(KeyCode::Up)], 1, 10, &trees, &trees);
    assert_eq!(h.source_idx, 2);
    h.handle(&vec![key(KeyCode::Down)], 1, 10, &trees, &trees);
    assert_eq!(h.source_idx, 0);
    h.handle(&vec![key(KeyCode::PageDown)], 1, 10, &trees, &trees);
    assert_eq!(h.source_idx, 2);
    h.handle(&vec![key(KeyCode::PageUp)], 1, 1, &trees, &trees);
    assert_eq!(h.source_idx, 1);
    h.handle(&vec![key(KeyCode::Esc)], 1, 10, &trees, &trees);
    assert!(!h.is_focused);
}

#[test]
fn scroll_keeps_the_selection_visible() {
    let s = DashDrawer::setup_scroll_state(14, 100, 5);
    assert_eq!(s.visible_rows_count, 10);
    assert_eq!(s.scroll_offset, 0);
    assert_eq!(s.table_selection, Some(5));
    let s = DashDrawer::setup_scroll_state(14, 100, 25);
    assert_eq!(s.scroll_offset, 16);
    assert_eq!(s.table_selection, Some(9));
    assert_eq!(s.scrollbar.unwrap().content_length, 99);
    assert_eq!(s.scrollbar.unwrap().position, 25);
    let s = DashDrawer::setup_scroll_state(14, 12, 11);
    assert_eq!(s.scroll_offset, 2);
    let s = DashDrawer::setup_scroll_state(3, 0, 0);
    assert_eq!(s.visible_rows_count, 0);
    assert_eq!(s.table_selection, None);
    assert!(s.scrollbar.is_none());
}

#[test]
fn panels_are_marked_by_focus() {
    let m = panel_marks(false, SelectedPart::Tabs);
    assert!(m.tabs_selected && !m.source_highlighted && !m.remote_selected);
    let m = panel_marks(true, SelectedPart::Remote);
    assert!(m.remote_selected && !m.remote_highlighted && !m.tabs_selected);
}

#[test]
fn titles() {
    let local = KnotConfig::new(KnotType::Local, "/data".to_string(), None);
    assert_eq!(tab_title(&local), "/data");
    let ssh = KnotConfig::new(
        KnotType::SSH,
        "/srv".to_string(),
        Some(KnotCredentials::new().username("me".to_string()).host("box".to_string()).port(2222)),
    );
    assert_eq!(tab_title(&ssh), "me@box:2222");
    assert_eq!(root_title("/", true), " /~ ");
    assert_eq!(root_title("/home/u", true), " /home/u/~ ");
    assert_eq!(root_title("/home/u/", false), "/home/u/~");
}

#[test]
fn row_cells() {
    let row = UiRow {
        depth: 2,
        path: "/r/a/b/c".to_string(),
        name: "c".to_string(),
        is_dir: true,
        status: FileStatus::Unique,
    };
    let (icon, status, text) = tree_row_cells(&row, false);
    assert_eq!(icon, "󰉋");
    assert_eq!(status, "Unique");
    assert_eq!(text, "│  │  ▶ c");
    let (_, _, text) = tree_row_cells(&row, true);
    assert_eq!(text, "│  │  ▼ c");
    let file_row = UiRow { is_dir: false, depth: 0, ..row };
    let (icon, _, text) = tree_row_cells(&file_row, false);
    assert_eq!(icon, "󰈔");
    assert_eq!(text, "● c");
}

#[test]
fn up_and_down_undo_each_other() {
    let trees = vec![sample_tree()];
    let mut h = DashEventHandler::default();
    h.init_tree(&trees, &trees);
    h.handle(&vec![key(KeyCode::Down), key(KeyCode::Down)], 1, 10, &trees, &trees);
    for start in 0..3 {
        h.source_idx = start;
        h.handle(&vec![key(KeyCode::Up), key(KeyCode::Down)], 1, 10, &trees, &trees);
        assert_eq!(h.source_idx, start);
        h.handle(&vec![key(KeyCode::Down), key(KeyCode::Up)], 1, 10, &trees, &trees);
        assert_eq!(h.source_idx, start);
    }
}

#[test]
fn left_gives_back_the_rows_right_changed() {
    let trees = vec![sample_tree()];
    let mut h = DashEventHandler::default();
    h.init_tree(&trees, &trees);
    h.handle(&vec![key(KeyCode::Down), key(KeyCode::Enter)], 1, 10, &trees, &trees);
    let before = (names(&h.source_visible_rows), names(&h.remote_visible_rows), h.source_idx);
    h.handle(&vec![key(KeyCode::Right), key(KeyCode::Left)], 1, 10, &trees, &trees);
    let after = (names(&h.source_visible_rows), names(&h.remote_visible_rows), h.source_idx);
    assert_eq!(before, after);
    assert!(h.expanded_dirs.is_empty());
    assert!(h.redraw);
}

#[test]
fn names_compare_in_lower_case_first() {
    assert!(names_in_order("a", "b", "A", "b"));
    assert!(!names_in_order("b", "a", "B", "a"));
    // equal in lower case: the names themselves decide
    assert!(names_in_order("readme", "readme", "README", "readme"));
    assert!(!names_in_order("readme", "readme", "readme", "README"));
    assert!(!names_in_order("x", "x", "x", "x"));
}

