use knot::cli::modification::{
    add_ignore_entry, apply_knot_change, auth_from_choice, complete_credentials,
    is_valid_size, size_text_overflows, knot_config_from_answers, merge_remote_knots, remote_option_label,
    removal_option_label,
    remove_chosen, resolve_remote_index, settings_from_answers, size_limit_from_arg,
    size_limit_outcome, AuthChoice,
    CredentialAnswers, KnotChange, RemoteChoice, SettingsAnswers,
};
use knot::cli::report::{configuration_report, use_pager, ReportLine};
use knot::configuration::behavior::{Behavior, ConflictBehavior, UniqueBehavior};
use knot::configuration::loader::{RemoteKnotConfig, RemoteKnotLoader};
use knot::configuration::MainConfig;
use knot::error::KnotError;
use knot::knot::batch::{
    append_end_blocks, append_padded, batch_command, batch_outcome, download_request,
    entry_header_name, needs_long_name, should_flush, staging_name, tar_padding, ChunkBuffer,
};
use knot::knot::crawl::{
    cache_entries, cached_hash, content_hash, crawl_step, finish_hash, should_save_cache,
    CrawlStep, EntryInfo, crawls_match, watch_step, WatchAction,
};
use knot::knot::credentials::{
    connection_string, password_prompt, AuthMethod, AuthStep, KnotCredentials, SavedAuthMethod,
};
use knot::knot::file::KnotFile;
use knot::knot::local_dirs::LocalAdapter;
use knot::knot::ssh_commands::{
    archive_commands, crawl_command, delete_commands, escape_for_shell, file_command,
    mkdir_batch_commands, overwrite_subcommand, path_subcommand, read_range_subcommand,
    recover_commands, remote_binary, rename_subcommand, write_subcommand, write_text,
    overwrite_text, move_shell_command, remove_shell_command, CrawlOptions, HELLO_COMMAND,
};
use knot::knot::{
    file_route, home_user, transfer_destination, transfer_route, FileRoute, KnotConfig, KnotType,
    TransferRoute,
};

fn strings(v: &[&str]) -> Vec<String> {
    v.iter().map(|s| s.to_string()).collect()
}

#[test]
fn remote_index() {
    assert_eq!(resolve_remote_index(Some(1), 2), Ok(RemoteChoice::Index(1)));
    assert_eq!(resolve_remote_index(Some(2), 2), Err(KnotError::IndexOutOfBounds { index: 2 }));
    assert_eq!(resolve_remote_index(None, 0), Err(KnotError::NoRemoteKnots));
    assert_eq!(resolve_remote_index(None, 1), Ok(RemoteChoice::Index(0)));
    assert_eq!(resolve_remote_index(None, 3), Ok(RemoteChoice::Ask));
}

#[test]
fn remote_labels() {
    let k = KnotConfig::new(
        KnotType::SSH,
        "/srv".to_string(),
        Some(KnotCredentials::new().username("u".to_string()).host("h".to_string())),
    );
    assert_eq!(remote_option_label(&k), "/srv (SSH//u@h:22)");
    let k = KnotConfig::new(KnotType::Local, "/d".to_string(), None);
    assert_eq!(remote_option_label(&k), "/d");
}

#[test]
fn ignore_entries_from_a_line() {
    let mut ps = strings(&["a"]);
    assert!(add_ignore_entry(&mut ps, " *.log, a ,, tmp/* "));
    assert_eq!(ps, strings(&["a", "*.log", "tmp/*"]));
    assert!(!add_ignore_entry(&mut ps, "   "));
    assert_eq!(ps, strings(&["a", "*.log", "tmp/*"]));
}

#[test]
fn knot_changes() {
    let mut k = KnotConfig::new(KnotType::SSH, "/x".to_string(), None);
    let mut none: Option<Behavior> = None;
    assert!(apply_knot_change(KnotChange::Port(2200), &mut k, &mut none).is_ok());
    let c = k.credentials.clone().unwrap();
    assert_eq!((c.port, c.connection_limit, c.username.as_str()), (2200, 1, ""));
    assert!(apply_knot_change(KnotChange::Host("h".to_string()), &mut k, &mut none).is_ok());
    let c = k.credentials.clone().unwrap();
    assert_eq!((c.port, c.host.as_str()), (2200, "h"));
    assert_eq!(
        apply_knot_change(KnotChange::Uniques(UniqueBehavior::Skip), &mut k, &mut none),
        Err(KnotError::SourceHasNoBehavior)
    );
    let mut b = Some(Behavior { uniques: UniqueBehavior::Archive, conflicts: ConflictBehavior::Ask });
    assert!(apply_knot_change(KnotChange::Conflicts(ConflictBehavior::Newer), &mut k, &mut b).is_ok());
    assert_eq!(b, Some(Behavior { uniques: UniqueBehavior::Archive, conflicts: ConflictBehavior::Newer }));
    assert!(apply_knot_change(KnotChange::Path("/y".to_string()), &mut k, &mut b).is_ok());
    assert_eq!(k.path, "/y");
}

#[test]
fn removing_and_adding_remote_knots() {
    let v = vec![10, 11, 12, 13];
    assert_eq!(remove_chosen(v, &vec![3, 1]), vec![10, 12]);
    let mut loaded = vec![1, 2];
    merge_remote_knots(&mut loaded, vec![3], true);
    assert_eq!(loaded, vec![1, 2, 3]);
    merge_remote_knots(&mut loaded, vec![4], false);
    assert_eq!(loaded, vec![4]);
    let mut empty: Vec<i32> = vec![];
    merge_remote_knots(&mut empty, vec![5], true);
    assert_eq!(empty, vec![5]);
}

#[test]
fn sizes_that_overflow_while_read() {
    // a number whose digits read u64::MAX, then a digit of 5 or more
    assert!(size_text_overflows("184467440737095516155"));
    assert!(size_text_overflows("18_446_744_073_709_551_615 9 KB"));
    assert!(size_text_overflows("1.8446744073709551615 7"));
    // one more digit below 5, a number below the maximum, or no number first
    assert!(!size_text_overflows("184467440737095516154"));
    assert!(!size_text_overflows("184467440737095516165"));
    assert!(!size_text_overflows("18446744073709551615"));
    assert!(!size_text_overflows(".18446744073709551615 9"));
    assert!(!size_text_overflows("1.8446744073.709551615 9"));
    assert!(!size_text_overflows("15GB"));
    // the one just past the maximum is read, and refused
    assert_eq!(
        size_limit_from_arg(Some("18446744073709551616".to_string())),
        Err(KnotError::InvalidSize { value: "18446744073709551616".to_string() })
    );
}

#[test]
fn size_limits() {
    assert_eq!(size_limit_from_arg(None), Ok((false, 0)));
    assert_eq!(size_limit_from_arg(Some("10 KB".to_string())), Ok((true, 10000)));
    assert_eq!(size_limit_from_arg(Some("1KiB".to_string())), Ok((true, 1024)));
    assert_eq!(
        size_limit_from_arg(Some("^_^".to_string())),
        Err(KnotError::InvalidSize { value: "^_^".to_string() })
    );
    assert!(is_valid_size("15GB"));
    assert!(!is_valid_size(""));
    assert_eq!(size_limit_outcome("5 B".to_string(), Some(5)), Ok((true, 5)));
    assert_eq!(
        size_limit_outcome("x".to_string(), None),
        Err(KnotError::InvalidSize { value: "x".to_string() })
    );
}

#[test]
fn credentials_from_answers() {
    let parsed = connection_string("ssh://me@host");
    let c = complete_credentials(
        parsed,
        CredentialAnswers {
            username: Some("ignored".to_string()),
            host: None,
            port: Some(2222),
            connection_limit: 4,
            auth: AuthMethod::NoAuth,
            config_auth: SavedAuthMethod::NoAuth,
        },
    );
    assert_eq!((c.username.as_str(), c.host.as_str(), c.port, c.connection_limit), ("me", "host", 2222, 4));
    let (a, s) = auth_from_choice(AuthChoice::PrivateKey, "~/.ssh/id".to_string(), None);
    assert!(matches!(a, AuthMethod::PrivateKey { .. }));
    assert!(matches!(s, SavedAuthMethod::PrivateKey { .. }));
    let (a, _) = auth_from_choice(AuthChoice::Password, String::new(), None);
    assert!(matches!(a, AuthMethod::Password(ref p) if p == "password :P"));
    let k = knot_config_from_answers(KnotType::Local, None, String::new(), "./");
    assert_eq!(k.path, "./");
}

#[test]
fn saved_auth_at_connection_time() {
    assert!(matches!(
        SavedAuthMethod::Password.to_runtime_auth(Some("pw".to_string())),
        AuthStep::Ready(AuthMethod::Password(ref p)) if p == "pw"
    ));
    assert!(matches!(SavedAuthMethod::Password.to_runtime_auth(None), AuthStep::AskPassword));
    assert!(matches!(SavedAuthMethod::NoAuth.to_runtime_auth(None), AuthStep::Ready(AuthMethod::NoAuth)));
    let c = KnotCredentials::new().host("h".to_string());
    assert_eq!(password_prompt(&c), " Password for 'h:22'");
}

#[test]
fn settings_from_the_set_up() {
    let c = settings_from_answers(SettingsAnswers {
        size_limit: Some((true, 5)),
        features: Some((false, true, true)),
        patterns: Some(strings(&["a", "a", "b"])),
    })
    .unwrap();
    assert_eq!(c.performance.task_limit, 1000);
    assert!(c.performance.allow_size_limit);
    assert_eq!(c.performance.size_limit, 5);
    assert!(!c.features.caching && c.features.gitignore && c.features.compress);
    assert_eq!(c.global.ignore_patterns, strings(&["a", "b"]));
    let c = settings_from_answers(SettingsAnswers { size_limit: None, features: None, patterns: None })
        .unwrap();
    assert!(!c.features.caching && !c.features.gitignore && !c.features.compress);
}

#[test]
fn shell_escaping() {
    assert_eq!(escape_for_shell("it's"), "it'\\''s");
    assert_eq!(escape_for_shell("plain"), "plain");
}

#[test]
fn crawl_commands() {
    let o = CrawlOptions {
        caching: true,
        gitignore: false,
        ignore_patterns: strings(&["*.log", "o'k"]),
        allow_size_limit: true,
        size_limit: 100,
    };
    assert_eq!(
        crawl_command("knot", &o, "/data/it's"),
        "knot crawl --compress --caching --ignore-patterns '*.log' --ignore-patterns 'o'\\''k' --size 100 -p '/data/it'\\''s'"
    );
    assert_eq!(remote_binary(Some(0)), "knot");
    assert_eq!(remote_binary(Some(127)), "./.local/bin/knot");
    assert_eq!(remote_binary(None), "./.local/bin/knot");
}

#[test]
fn file_commands() {
    assert_eq!(file_command("knot", "empty '/a'"), "knot file empty '/a'");
    assert_eq!(path_subcommand("create-dir", "/a b"), "create-dir '/a b'");
    assert_eq!(rename_subcommand("/a", "/b"), "rename '/a' '/b'");
    assert_eq!(read_range_subcommand("/f", 0, 42), "read-interval '/f' --start 0 --end 42");
    assert_eq!(write_subcommand("/f", b"hi", 3), "write '/f' --data 'aGk=' --offset 3");
    assert_eq!(overwrite_subcommand("/f", b"abc"), "empty-write '/f' --data 'YWJj'");
}

#[test]
fn batched_commands() {
    let paths: Vec<String> = (0..250).map(|i| format!("/p/{i}")).collect();
    let cmds = delete_commands(&paths);
    assert_eq!(cmds.len(), 3);
    assert!(cmds[0].starts_with("delete --path '/p/0' --path '/p/1'"));
    assert!(cmds[0].ends_with("--path '/p/99'"));
    assert!(cmds[1].starts_with("delete --path '/p/100'"));
    assert!(cmds[2].ends_with("--path '/p/249'"));
    assert!(delete_commands(&vec![]).is_empty());
    assert_eq!(recover_commands(&strings(&["/a"]), true), strings(&["recover --force --target '/a'"]));
    assert_eq!(recover_commands(&strings(&["/a"]), false), strings(&["recover --target '/a'"]));
    assert_eq!(
        archive_commands(&strings(&["/f"]), &strings(&["/d"])),
        strings(&["compress --file '/f' --dir '/d'"])
    );
}

#[test]
fn mkdir_batch_keeps_the_deepest() {
    let dirs = strings(&["/a", "/a/b/c", "/x", "/a/b"]);
    assert_eq!(mkdir_batch_commands(&dirs), strings(&["create-dirs --path '/a/b/c' --path '/x'"]));
}

#[test]
fn tar_framing() {
    assert_eq!(tar_padding(0), 0);
    assert_eq!(tar_padding(1), 511);
    assert_eq!(tar_padding(512), 0);
    assert_eq!(tar_padding(513), 511);
    let mut buf = vec![9u8];
    append_padded(&mut buf, &[1, 2, 3]);
    assert_eq!(buf.len(), 1 + 3 + 509);
    assert_eq!(&buf[..4], &[9, 1, 2, 3]);
    assert!(buf[4..].iter().all(|b| *b == 0));
    let mut buf = Vec::new();
    append_end_blocks(&mut buf);
    assert_eq!(buf, vec![0u8; 1024]);
    assert!(!needs_long_name(&"a".repeat(100)));
    assert!(needs_long_name(&"a".repeat(101)));
    assert!(needs_long_name(&"é".repeat(51)));
}

#[test]
fn batch_texts_and_outcome() {
    assert_eq!(
        batch_command("knot", true, true, "/dst"),
        "knot file write-batch-stream --compression zstd --root-path '/dst'"
    );
    assert_eq!(
        batch_command("./.local/bin/knot", false, false, "/src"),
        "./.local/bin/knot file read-batch-stream --root-path '/src'"
    );
    assert_eq!(download_request(&strings(&["a", "b/c"])), "a\nb/c\n");
    assert_eq!(batch_outcome(Some(0), 3, String::new()), Ok(3));
    assert_eq!(
        batch_outcome(Some(2), 3, "boom".to_string()),
        Err(KnotError::RemoteCommandFailed { code: 2, stderr: "boom".to_string() })
    );
    assert_eq!(
        batch_outcome(None, 3, String::new()),
        Err(KnotError::NoExitStatus { stderr: String::new() })
    );
    assert_eq!(staging_name(255), ".staging_00000000000000ff_knot.knot_tmp");
}

#[test]
fn chunk_buffer_hands_out_in_order() {
    let mut b = ChunkBuffer::new();
    assert!(b.is_drained());
    b.refill(vec![]);
    assert!(b.is_drained());
    b.refill(vec![1, 2, 3, 4, 5]);
    assert_eq!(b.read(2), vec![1, 2]);
    assert_eq!(b.read(10), vec![3, 4, 5]);
    assert!(b.is_drained());
    assert_eq!(b.read(4), Vec::<u8>::new());
}

#[test]
fn crawl_entries() {
    let e = |path: &str, is_dir: bool, len: u64| EntryInfo {
        path: path.to_string(),
        is_dir,
        is_file: !is_dir,
        len,
        mtime: 5,
    };
    assert!(matches!(crawl_step(e("/a/x_knot.knot_tmp", false, 1), false, 0, None), CrawlStep::RemoveTemporal));
    assert!(matches!(crawl_step(e("/a/d", true, 0), true, 0, None), CrawlStep::Keep(ref f) if f.is_dir));
    assert!(matches!(crawl_step(e("/a/big", false, 10), true, 5, None), CrawlStep::Skip));
    assert!(matches!(crawl_step(e("/a/big", false, 10), false, 5, None), CrawlStep::Hash(_)));
    assert!(matches!(
        crawl_step(e("/a/f", false, 1), true, 5, Some(42)),
        CrawlStep::Keep(ref f) if f.content_hash == Some(42)
    ));
    let f = KnotFile::new("/a/f".to_string(), 5, false, None);
    assert_eq!(finish_hash(f.clone(), Some(7)).unwrap().content_hash, Some(7));
    assert!(finish_hash(f, None).is_none());
    assert!(should_save_cache(true, true));
    assert!(!should_save_cache(true, false));
    assert_eq!(content_hash(b""), 0x2d06800538d394c2);
}

#[test]
fn hash_cache() {
    let files = vec![
        KnotFile::new("/a".to_string(), 0, false, Some(1)),
        KnotFile::new("/d".to_string(), 0, true, None),
        KnotFile::new("/a".to_string(), 0, false, Some(2)),
    ];
    let entries = cache_entries(&files);
    assert_eq!(entries.len(), 2);
    assert_eq!(cached_hash(&entries, &"/a".to_string()), Some(2));
    assert_eq!(cached_hash(&entries, &"/d".to_string()), None);
}

#[test]
fn cache_gives_back_each_crawled_hash() {
    let files = vec![
        KnotFile::new("/w/a.txt".to_string(), 5, false, Some(11)),
        KnotFile::new("/w/sub".to_string(), 6, true, None),
        KnotFile::new("/w/sub/b.txt".to_string(), 7, false, Some(22)),
        KnotFile::new("/w/link".to_string(), 8, false, None),
    ];
    let entries = cache_entries(&files);
    for f in &files {
        assert_eq!(cached_hash(&entries, &f.path), f.content_hash);
    }
    assert_eq!(cached_hash(&entries, &"/w/missing".to_string()), None);
}

#[test]
fn transfer_routes_and_home_users() {
    assert_eq!(transfer_route(KnotType::Local, false, KnotType::SSH, true), TransferRoute::StreamToRemote);
    assert_eq!(transfer_route(KnotType::SSH, true, KnotType::Local, false), TransferRoute::StreamFromRemote);
    assert_eq!(transfer_route(KnotType::Local, false, KnotType::Local, false), TransferRoute::PerFile);
    let c = Some(KnotCredentials::new().username("bob".to_string()));
    assert_eq!(home_user(KnotType::SSH, &c), Some("bob".to_string()));
    assert_eq!(home_user(KnotType::Local, &c), None);
}

#[test]
fn configuration_summary() {
    let remotes = RemoteKnotLoader {
        knots: vec![
            RemoteKnotConfig {
                config: KnotConfig::new(KnotType::Local, "/r1".to_string(), None),
                behavior: Behavior { uniques: UniqueBehavior::Skip, conflicts: ConflictBehavior::Ask },
            },
            RemoteKnotConfig {
                config: KnotConfig::new(KnotType::Local, "/r2".to_string(), None),
                behavior: Behavior { uniques: UniqueBehavior::OnlyAdd, conflicts: ConflictBehavior::Older },
            },
        ],
    };
    let source = KnotConfig::new(KnotType::Local, "/src".to_string(), None);
    let lines = configuration_report(&MainConfig::new(), &source, &remotes);
    let plain: Vec<String> = lines
        .iter()
        .filter_map(|l| match l {
            ReportLine::Plain(s) => Some(s.clone()),
            _ => None,
        })
        .collect();
    assert_eq!(plain[0], "\n──────┐\n• 00: │\n──────┘");
    assert_eq!(plain[1], "\n──────┐\n• 01: │\n──────┘");
    let rows: Vec<(String, String)> = lines
        .iter()
        .filter_map(|l| match l {
            ReportLine::Row { label, value, .. } => Some((label.clone(), value.clone())),
            _ => None,
        })
        .collect();
    assert!(rows.contains(&(format!("{:<18}", "Caching:"), "DISABLED".to_string())));
    assert!(rows.contains(&(format!("{:<18}", "Uniques:"), "OnlyAdd".to_string())));
    assert!(rows.contains(&(format!("{:<18}", "Task Limit:"), "1000".to_string())));
    assert!(rows.contains(&(format!("{:<18}", "Size Limit:"), "15.00 GiB".to_string())));
    assert!(rows.contains(&(format!("{:<18}", "Path:"), "\"/src\"".to_string())));
    assert!(rows.contains(&(format!("{:<18}", "Path:"), "\"/r2\"".to_string())));
    assert!(matches!(lines.last(), Some(ReportLine::Note { text, .. }) if text == "No ignore patterns active."));
    assert!(use_pager(30, Some(20)));
    assert!(!use_pager(30, None));
    assert!(!use_pager(20, Some(20)));
}

#[test]
fn commands_around_encoded_data() {
    assert_eq!(write_text("/a b", "aGk=", 12), "write '/a b' --data 'aGk=' --offset 12");
    assert_eq!(overwrite_text("/f", ""), "empty-write '/f' --data ''");
    assert_eq!(write_subcommand("/a b", b"hi", 12), write_text("/a b", "aGk=", 12));
    assert_eq!(overwrite_subcommand("/f", b"hi"), overwrite_text("/f", "aGk="));
}

#[test]
fn local_directories_created_for_a_batch() {
    assert_eq!(
        LocalAdapter::mkdir_batch_targets(&strings(&["/a/b", "/a", "/c", "/a/b/c", "/a/d"])),
        strings(&["/c", "/a/d", "/a/b/c"])
    );
    // only the directory kept just before is looked at
    assert_eq!(LocalAdapter::mkdir_batch_targets(&strings(&["/a", "/a/b", "/a/c"])), strings(&["/a/c", "/a/b"]));
    // paths are ordered by component, names by their characters
    assert_eq!(LocalAdapter::mkdir_batch_targets(&strings(&["/a-b", "/a/b"])), strings(&["/a-b", "/a/b"]));
    assert_eq!(LocalAdapter::mkdir_batch_targets(&strings(&["/x/a", "/x/B"])), strings(&["/x/a", "/x/B"]));
    assert!(LocalAdapter::mkdir_batch_targets(&Vec::new()).is_empty());
}

#[test]
fn files_sent_one_by_one_land_under_the_other_root() {
    let f = KnotFile::new("/src/a/b.txt".to_string(), 0, false, Some(1));
    assert_eq!(transfer_destination(&f, "/src", "/dst"), "/dst/a/b.txt");
    assert_eq!(transfer_destination(&f, "/src/", "/dst/"), "/dst/a/b.txt");
    assert_eq!(transfer_destination(&f, "/src", ""), "a/b.txt");
    // a file outside the root keeps all its names
    assert_eq!(transfer_destination(&f, "/elsewhere", "/dst"), "/dst/src/a/b.txt");
}

#[test]
fn tar_entry_names_and_flushing() {
    let short = "a/b.txt";
    assert_eq!(entry_header_name(short), "a/b.txt");
    let exactly = "x".repeat(100);
    assert_eq!(entry_header_name(&exactly), exactly);
    let long = "y".repeat(101);
    assert_eq!(entry_header_name(&long), "longpath");
    // the limit counts bytes: fifty two-byte characters fit, fifty-one do not
    assert_eq!(entry_header_name(&"é".repeat(50)), "é".repeat(50));
    assert_eq!(entry_header_name(&"é".repeat(51)), "longpath");
    assert!(!should_flush(262143));
    assert!(should_flush(262144));
}

#[test]
fn knots_offered_for_removal() {
    let ssh = KnotConfig::new(
        KnotType::SSH,
        "/srv/data".to_string(),
        Some(KnotCredentials::new().username("bob".to_string()).host("h".to_string()).port(2200)),
    );
    assert_eq!(removal_option_label(&ssh), "SSH remote (bob@h:2200) Path: '/srv/data'");
    let local = KnotConfig::new(KnotType::Local, "/mnt/b".to_string(), None);
    assert_eq!(removal_option_label(&local), "Local System (Unknown) Path: '/mnt/b'");
}

#[test]
fn plain_shell_commands() {
    assert_eq!(remove_shell_command("/tmp/x y"), "rm -rf /tmp/x y");
    assert_eq!(move_shell_command("/a", "/b"), "mv /a /b");
    assert_eq!(HELLO_COMMAND, "echo hello from SSH");
}

#[test]
fn single_file_routes() {
    assert_eq!(file_route(KnotType::Local, KnotType::SSH, true), FileRoute::StreamToRemote);
    assert_eq!(file_route(KnotType::Local, KnotType::Local, false), FileRoute::LocalCopy);
    assert_eq!(file_route(KnotType::Local, KnotType::SFTP, false), FileRoute::Piecewise);
    assert_eq!(file_route(KnotType::SSH, KnotType::Local, false), FileRoute::StreamFromRemote);
    assert_eq!(file_route(KnotType::SSH, KnotType::SSH, true), FileRoute::Piecewise);
}


#[test]
fn a_watcher_syncs_once_the_folder_settles() {
    let a = vec![KnotFile::new("/w/a".to_string(), 5, false, Some(1))];
    let same = vec![KnotFile::new("/w/a".to_string(), 5, false, Some(1))];
    let touched = vec![KnotFile::new("/w/a".to_string(), 6, false, Some(1))];
    assert!(crawls_match(&a, &same));
    assert!(!crawls_match(&a, &touched));
    assert!(!crawls_match(&a, &Vec::new()));
    // a change is remembered, then synced once nothing changes
    assert_eq!(watch_step(true, false), (WatchAction::Remember, true));
    assert_eq!(watch_step(true, true), (WatchAction::Remember, true));
    assert_eq!(watch_step(false, true), (WatchAction::Sync, false));
    assert_eq!(watch_step(false, false), (WatchAction::Wait, false));
}
