use knot::knot::credentials::connection_string;
use knot::knot::file::KnotFile;
use knot::knot::file_diffs::FileDiffs;
use knot::paths::{relative_path_of, starts_with_path};

fn file(path: &str, hash: Option<u64>, is_dir: bool) -> KnotFile {
    KnotFile::new(path.to_string(), 0, is_dir, hash)
}

#[test]
fn relative_path_under_root() {
    let f = file("/home/u/proj/a/b.txt", Some(1), false);
    assert_eq!(f.relative_path("/home/u/proj"), "a/b.txt");
    assert_eq!(f.relative_path("/home/u/proj/"), "a/b.txt");
}

#[test]
fn relative_path_outside_root_keeps_all_names() {
    let f = file("/home/u/other/x", Some(1), false);
    assert_eq!(f.relative_path("/home/u/proj"), "home/u/other/x");
}

#[test]
fn relative_path_skips_dots_and_empty_parts() {
    assert_eq!(relative_path_of("./a/./b//c", "."), "a/b/c");
    assert_eq!(relative_path_of("a/../b", ""), "a/b");
}

#[test]
fn relative_path_replaces_backslashes() {
    assert_eq!(relative_path_of("/r/a\\b", "/r"), "a/b");
}

#[test]
fn path_prefix_is_by_component() {
    assert!(starts_with_path("/a/bc/d", "/a/bc"));
    assert!(!starts_with_path("/a/bcd", "/a/bc"));
    assert!(!starts_with_path("a/b", "/a"));
}

#[test]
fn file_names() {
    assert_eq!(file("/a/b.txt", None, false).name().unwrap(), "b.txt");
    assert_eq!(file("a/.", None, true).name().unwrap(), "a");
    assert!(file("/a/..", None, true).name().is_err());
    assert!(file("/", None, true).name().is_err());
}

#[test]
fn symlink_is_file_without_hash() {
    assert!(file("/a", None, false).is_symling());
    assert!(!file("/a", None, true).is_symling());
    assert!(!file("/a", Some(3), false).is_symling());
}

#[test]
fn connection_string_full() {
    let c = connection_string("ssh://user@host:22");
    assert_eq!(c.scheme.as_deref(), Some("ssh"));
    assert_eq!(c.username.as_deref(), Some("user"));
    assert_eq!(c.host.as_deref(), Some("host"));
    assert_eq!(c.port, Some(22));
}

#[test]
fn written_connection_strings_read_back() {
    for (scheme, user, host, port) in [
        (Some("sftp"), "alice", "10.0.0.7", 0u16),
        (None, "bob", "example.org", 65535),
        (Some(""), "c", "h", 8022),
    ] {
        let text = match scheme {
            Some(s) => format!("{s}://{user}@{host}:{port}"),
            None => format!("{user}@{host}:{port}"),
        };
        let c = connection_string(&text);
        assert_eq!(c.scheme.as_deref(), scheme);
        assert_eq!(c.username.as_deref(), Some(user));
        assert_eq!(c.host.as_deref(), Some(host));
        assert_eq!(c.port, Some(port));
    }
}

#[test]
fn connection_string_partial() {
    let c = connection_string("  user@host  ");
    assert_eq!(c.scheme, None);
    assert_eq!(c.username.as_deref(), Some("user"));
    assert_eq!(c.host.as_deref(), Some("host"));
    assert_eq!(c.port, None);

    let c = connection_string("@host:abc");
    assert_eq!(c.username, None);
    assert_eq!(c.host.as_deref(), Some("host"));
    assert_eq!(c.port, None);

    let c = connection_string("h:70000");
    assert_eq!(c.host.as_deref(), Some("h"));
    assert_eq!(c.port, None);

    let c = connection_string("h:+2222");
    assert_eq!(c.port, Some(2222));

    let c = connection_string("   ");
    assert_eq!(c.host, None);
    assert_eq!(c.scheme, None);
}

#[test]
fn diffs_split_files() {
    let source = vec![
        file("/s/a.txt", Some(1), false),
        file("/s/same.txt", Some(5), false),
        file("/s/changed.txt", Some(2), false),
        file("/s/only_src.txt", Some(3), false),
    ];
    let remote = vec![
        file("/r/a.txt", Some(1), false),
        file("/r/same.txt", Some(5), false),
        file("/r/changed.txt", Some(9), false),
        file("/r/only_rem.txt", Some(4), false),
        file("/r/KNOT-ARCHIVE__old.txt", Some(7), false),
    ];
    let d = FileDiffs::new(&source, "/s", &remote, "/r");
    assert_eq!(d.source_unique.len(), 1);
    assert_eq!(d.source_unique[0].path, "/s/only_src.txt");
    assert_eq!(d.remote_unique.len(), 1);
    assert_eq!(d.remote_unique[0].path, "/r/only_rem.txt");
    assert_eq!(d.archived.len(), 1);
    assert_eq!(d.archived[0].path, "/r/KNOT-ARCHIVE__old.txt");
    assert_eq!(d.conflicts.len(), 1);
    assert_eq!(d.conflicts[0].0.path, "/s/changed.txt");
    assert_eq!(d.conflicts[0].1.path, "/r/changed.txt");
    assert_eq!(d.source_root_path, "/s");
    assert_eq!(d.remote_root_path, "/r");
}

#[test]
fn diffs_of_a_folder_with_itself_are_empty() {
    let files = vec![file("/s/a", Some(1), false), file("/s/b", None, true), file("/s/a", Some(2), false)];
    let d = FileDiffs::new(&files, "/s", &files, "/s");
    assert!(d.source_unique.is_empty());
    assert!(d.remote_unique.is_empty());
    assert!(d.archived.is_empty());
    assert!(d.conflicts.is_empty());
}

#[test]
fn diffs_keep_the_last_file_of_a_path() {
    let source = vec![file("/s/a", Some(1), false), file("/s/./a", Some(2), false)];
    let remote = vec![file("/r/a", Some(2), false)];
    let d = FileDiffs::new(&source, "/s", &remote, "/r");
    assert!(d.conflicts.is_empty());
    let remote = vec![file("/r/a", Some(1), false)];
    let d = FileDiffs::new(&source, "/s", &remote, "/r");
    assert_eq!(d.conflicts.len(), 1);
    assert_eq!(d.conflicts[0].0.content_hash, Some(2));
}

#[test]
fn diffs_drop_remote_files_without_name() {
    let source: Vec<KnotFile> = vec![];
    let remote = vec![file("/r/x/..", None, true)];
    let d = FileDiffs::new(&source, "/s", &remote, "/r");
    assert!(d.remote_unique.is_empty());
    assert!(d.archived.is_empty());
}

#[test]
fn swapping_the_sides_swaps_the_results() {
    let source = vec![
        file("/s/a.txt", Some(1), false),
        file("/s/b.txt", Some(2), false),
        file("/s/only_src.txt", Some(3), false),
        file("/s/dir", None, true),
    ];
    let remote = vec![
        file("/r/b.txt", Some(9), false),
        file("/r/a.txt", Some(8), false),
        file("/r/only_rem.txt", Some(4), false),
    ];
    let d = FileDiffs::new(&source, "/s", &remote, "/r");
    let e = FileDiffs::new(&remote, "/r", &source, "/s");
    let paths = |v: &Vec<KnotFile>| v.iter().map(|f| f.path.clone()).collect::<Vec<_>>();
    assert_eq!(paths(&e.source_unique), paths(&d.remote_unique));
    assert_eq!(paths(&e.remote_unique), paths(&d.source_unique));
    assert!(d.archived.is_empty() && e.archived.is_empty());
    assert_eq!(d.conflicts.len(), e.conflicts.len());
    for (s, r) in &d.conflicts {
        assert!(e.conflicts.iter().any(|(a, b)| a.path == r.path && b.path == s.path));
    }
}
