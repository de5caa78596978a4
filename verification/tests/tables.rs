use knot::cli::diff_table::{
    conflict_rows, file_rows, more_conflicts_note, more_files_note, report_sections,
    section_title, summary_line, DiffSection, MAX_ROWS_PER_TABLE,
};
use knot::cli::diff_view::{diff_counts, DiffCounts};
use knot::knot::file::KnotFile;
use knot::knot::file_diffs::FileDiffs;

fn file(path: &str, mtime: i64, is_dir: bool, hash: Option<u64>) -> KnotFile {
    KnotFile::new(path.to_string(), mtime, is_dir, hash)
}

#[test]
fn only_tables_with_entries_are_printed_in_order() {
    let all = DiffCounts { conflicts: 1, source_unique: 2, remote_unique: 3, archived: 4 };
    assert_eq!(
        report_sections(all),
        vec![
            DiffSection::Conflicts,
            DiffSection::SourceUnique,
            DiffSection::RemoteUnique,
            DiffSection::Archived
        ]
    );
    let some = DiffCounts { conflicts: 0, source_unique: 0, remote_unique: 5, archived: 1 };
    assert_eq!(report_sections(some), vec![DiffSection::RemoteUnique, DiffSection::Archived]);
    let none = DiffCounts { conflicts: 0, source_unique: 0, remote_unique: 0, archived: 0 };
    assert!(report_sections(none).is_empty());
    assert_eq!(section_title(DiffSection::Conflicts), "!!  CONFLICTS (Modified on both devices)");
    assert_eq!(section_title(DiffSection::Archived), "== ARCHIVED FILES");
}

#[test]
fn summary_of_a_comparison() {
    let source = vec![file("/s/a", 1, false, Some(1)), file("/s/c", 1, false, Some(3))];
    let remote = vec![file("/r/b", 1, false, Some(2)), file("/r/c", 2, false, Some(4))];
    let d = FileDiffs::new(&source, "/s", &remote, "/r");
    assert_eq!(
        summary_line(diff_counts(&d)),
        "++ Source Unique: 1 | -- Remote Unique: 1 | !! Conflicts: 1 | == Archived: 0"
    );
    let rows = conflict_rows(&d.conflicts);
    assert_eq!(rows.len(), 1);
    assert_eq!(rows[0].path, "/s/c");
    assert_eq!((rows[0].source_mtime, rows[0].remote_mtime), (1, 2));
    assert_eq!((rows[0].source_hash, rows[0].remote_hash), (Some(3), Some(4)));
}

#[test]
fn long_tables_are_cut_with_a_note() {
    let files: Vec<KnotFile> =
        (0..30).map(|i| file(&format!("/f{i}"), i, i % 2 == 0, None)).collect();
    let rows = file_rows(&files);
    assert_eq!(rows.len(), MAX_ROWS_PER_TABLE);
    assert_eq!(rows[0].kind, "DIR");
    assert_eq!(rows[1].kind, "FILE");
    assert_eq!(rows[24].path, "/f24");
    assert_eq!(rows[24].mtime, 24);
    assert_eq!(more_files_note(30), Some("and 5 more items not shown".to_string()));
    assert_eq!(more_files_note(25), None);
    assert_eq!(file_rows(&files[..3].to_vec()).len(), 3);
    assert_eq!(more_conflicts_note(26), Some("... and 1 more conflicting files".to_string()));
    assert_eq!(more_conflicts_note(0), None);
}
