use knot::configuration::behavior::{
    drop_name_separators, normalize_property, ConflictBehavior, UniqueBehavior,
};
use knot::configuration::loader::{ignore_file_text, ignore_lines, ConfigurationLoader};
use knot::configuration::{
    merge_ignore_patterns, remove_duplicates, FeatureConfig, MainConfig, PerformanceConfig,
};
use knot::error::KnotError;
use knot::ignorer::{gitignore_path, make_git_ignore, should_ignore};
use knot::knot::{KnotConfig, KnotType};

fn strings(v: &[&str]) -> Vec<String> {
    v.iter().map(|s| s.to_string()).collect()
}

#[test]
fn defaults() {
    assert_eq!(
        FeatureConfig::default(),
        FeatureConfig { caching: true, gitignore: true, compress: false }
    );
    let p = PerformanceConfig::default();
    assert_eq!(p.task_limit, 1000);
    assert_eq!(p.size_limit, 15 * 1024 * 1024 * 1024);
    assert!(!p.allow_size_limit);
    let c = MainConfig::new();
    assert!(c.global.ignore_patterns.is_empty());
    assert_eq!(c.config_path, "");
    assert_eq!(c.features, FeatureConfig { caching: false, gitignore: false, compress: false });
    assert_eq!(c.performance, PerformanceConfig::default());
}

#[test]
fn builders_set_one_thing_each() {
    let c = MainConfig::new()
        .task_limit(7)
        .file_size_limit(1024)
        .allow_size_limit(true)
        .caching(false)
        .compress(true)
        .gitignore(false)
        .config_path("/etc/knot.toml".to_string());
    assert_eq!(c.performance, PerformanceConfig::new(1024, 7, true));
    assert_eq!(c.features, FeatureConfig { caching: false, gitignore: false, compress: true });
    assert_eq!(c.config_path, "/etc/knot.toml");
}

#[test]
fn duplicates_are_removed_keeping_the_first() {
    let v = strings(&["a", "b", "a", "c", "b"]);
    assert_eq!(remove_duplicates(&v), strings(&["a", "b", "c"]));
}

#[test]
fn ignorer_keeps_unique_patterns_and_matches() {
    let c = MainConfig::new()
        .ignorer(&strings(&["*.log", "target/", "*.log", "  "]), None)
        .unwrap();
    assert_eq!(c.global.ignore_patterns, strings(&["*.log", "target/", "  "]));
    assert!(should_ignore("/p/a.log", "/p", &c.global.ignorer));
    assert!(!should_ignore("/p/a.txt", "/p", &c.global.ignorer));
    assert!(!should_ignore("/q/a.log", "/p", &c.global.ignorer));
}

#[test]
fn invalid_pattern_is_an_error() {
    match make_git_ignore(&strings(&["a{b"]), None) {
        Err(KnotError::InvalidIgnorePattern { pattern }) => assert_eq!(pattern, "a{b"),
        Ok(_) => panic!("an unclosed brace should not be read"),
        Err(e) => panic!("unexpected error {e:?}"),
    }
}

#[test]
fn gitignore_lines_come_first() {
    let g = make_git_ignore(
        &strings(&["!keep.tmp"]),
        Some(("/p/.gitignore".to_string(), strings(&["*.tmp"]))),
    )
    .unwrap();
    assert!(should_ignore("/p/x.tmp", "/p", &g));
    assert!(!should_ignore("/p/keep.tmp", "/p", &g));
}

#[test]
fn gitignore_path_when_used() {
    assert_eq!(gitignore_path("/src", true), Some("/src/.gitignore".to_string()));
    assert_eq!(gitignore_path("/src/", true), Some("/src/.gitignore".to_string()));
    assert_eq!(gitignore_path("/src", false), None);
}

#[test]
fn merging_patterns() {
    let mut cur = strings(&[]);
    merge_ignore_patterns(&mut cur, strings(&["a"]), false);
    assert_eq!(cur, strings(&["a"]));
    merge_ignore_patterns(&mut cur, strings(&["b"]), true);
    assert_eq!(cur, strings(&["a", "b"]));
    merge_ignore_patterns(&mut cur, strings(&[]), false);
    assert_eq!(cur, strings(&["a", "b"]));
    merge_ignore_patterns(&mut cur, strings(&["c"]), false);
    assert_eq!(cur, strings(&["c"]));
}

#[test]
fn ignore_file_has_notes_unless_named() {
    let text = ignore_file_text(&strings(&["*.log"]));
    assert!(text.starts_with("# .knot contains"));
    assert!(text.contains("\n.knot*\n"));
    assert!(text.contains("\n.git\n"));
    assert!(text.ends_with("\n*.log"));
    let text = ignore_file_text(&strings(&[".knot", ".git"]));
    assert_eq!(text, "\n\n.knot\n.git");
}

#[test]
fn ignore_file_round_trip() {
    let ps = strings(&["*.log", "target/"]);
    let back = ignore_lines(&ignore_file_text(&ps));
    assert_eq!(back, strings(&[".knot*", ".git", "*.log", "target/"]));
    let ps = strings(&[".git", "build"]);
    let back = ignore_lines(&ignore_file_text(&ps));
    assert_eq!(back, strings(&[".knot*", "", ".git", "build"]));
    let back = ignore_lines(&ignore_file_text(&strings(&[])));
    assert_eq!(back, strings(&[".knot*", ".git"]));
}

#[test]
fn ignore_lines_follow_str_lines() {
    assert_eq!(ignore_lines("a\r\nb\n#c\n\nd"), strings(&["a", "b", "", "d"]));
    assert_eq!(ignore_lines("a\n"), strings(&["a"]));
    assert_eq!(ignore_lines(""), strings(&[]));
    assert_eq!(ignore_lines("x\r"), strings(&["x\r"]));
}

#[test]
fn loader_ignore_patterns() {
    let mut config = MainConfig::new();
    config.global.ignore_patterns = strings(&["*.bak"]);
    let loader = ConfigurationLoader {
        config,
        source: KnotConfig::new(KnotType::Local, "./".to_string(), None),
    };
    let text = loader.ignore_patterns();
    assert_eq!(ConfigurationLoader::load_ignore_patterns(&text), strings(&[".knot*", ".git", "*.bak"]));
}

#[test]
fn names_are_read_in_any_case() {
    assert_eq!(normalize_property("Mirror-Source"), "mirrorsource");
    assert_eq!(normalize_property("only_add"), "onlyadd");
    assert_eq!(UniqueBehavior::from_name("mirror source"), Some(UniqueBehavior::MirrorSource));
    assert_eq!(UniqueBehavior::from_name("OnlyAdd"), Some(UniqueBehavior::OnlyAdd));
    assert_eq!(UniqueBehavior::from_name("nothing"), None);
    assert_eq!(ConflictBehavior::from_name("NEWER"), Some(ConflictBehavior::Newer));
    assert_eq!(ConflictBehavior::from_name("remote"), Some(ConflictBehavior::Remote));
    assert_eq!(KnotType::from_name("SSH"), Some(KnotType::SSH));
    assert_eq!(KnotType::from_name("lo-cal"), Some(KnotType::Local));
    assert_eq!(KnotType::from_name("ftp"), None);
    assert_eq!(UniqueBehavior::Archive.name(), "Archive");
    assert_eq!(ConflictBehavior::Older.name(), "Older");
}

#[test]
fn written_names_read_back() {
    for t in [KnotType::Local, KnotType::SSH, KnotType::SFTP] {
        let written = match t {
            KnotType::Local => "Local",
            KnotType::SSH => "SSH",
            KnotType::SFTP => "SFTP",
        };
        assert_eq!(KnotType::from_name(written), Some(t));
    }
    for b in [
        UniqueBehavior::Archive,
        UniqueBehavior::MirrorSource,
        UniqueBehavior::MirrorRemote,
        UniqueBehavior::Ask,
        UniqueBehavior::Skip,
        UniqueBehavior::OnlyAdd,
    ] {
        assert_eq!(UniqueBehavior::from_name(b.name()), Some(b));
    }
    for b in [
        ConflictBehavior::Newer,
        ConflictBehavior::Older,
        ConflictBehavior::Source,
        ConflictBehavior::Remote,
        ConflictBehavior::Ask,
        ConflictBehavior::Skip,
    ] {
        assert_eq!(ConflictBehavior::from_name(b.name()), Some(b));
    }
}

#[test]
fn normalized_words() {
    assert_eq!(drop_name_separators("Mirror-Source_x y"), "MirrorSourcexy");
    assert_eq!(drop_name_separators("-_ "), "");
    assert_eq!(KnotType::from_normalized("sftp"), Some(KnotType::SFTP));
    assert_eq!(KnotType::from_normalized("SFTP"), None);
    assert_eq!(UniqueBehavior::from_normalized("onlyadd"), Some(UniqueBehavior::OnlyAdd));
    assert_eq!(UniqueBehavior::from_normalized("only-add"), None);
    assert_eq!(ConflictBehavior::from_normalized("older"), Some(ConflictBehavior::Older));
    assert_eq!(ConflictBehavior::from_normalized(""), None);
}


#[test]
fn summary_of_a_configuration() {
    let c = MainConfig::new()
        .config_path("/w/.knot/config.toml".to_string())
        .gitignore(true)
        .task_limit(8)
        .allow_size_limit(true);
    assert_eq!(c.summary(), c.summary_with("15.00 GiB"));
    assert!(MainConfig::new().file_size_limit(512).summary().ends_with("Size Limit:       512 B\n"));
    assert_eq!(
        c.summary_with("15.00 GiB"),
        "=== Configuration Summary ===\nConfig File: /w/.knot/config.toml\n\n[Features]\n  \
         Caching:          DISABLED\n  Gitignore:        ENABLED\n  Compress:         DISABLED\n\n\
         [Performance]\n  Task Limit:       8\n  Limit file size:  ENABLED\n  Size Limit:       \
         15.00 GiB\n"
    );
}

#[test]
fn input_without_globs_gives_an_empty_matcher() {
    let g = make_git_ignore(&strings(&["", "  ", "# a comment"]), None).unwrap();
    assert!(!should_ignore("/p/anything", "/p", &g));
    let g = make_git_ignore(
        &Vec::new(),
        Some(("/p/.gitignore".to_string(), strings(&["#x", "", "   "]))),
    )
    .unwrap();
    assert!(!should_ignore("/p/#x", "/p", &g));
    let c = MainConfig::new();
    assert!(!should_ignore("/p/a.log", "/p", &c.global.ignorer));
    let c = MainConfig::new().ignorer(&strings(&["# only a comment"]), None).unwrap();
    assert!(!should_ignore("/p/a.log", "/p", &c.global.ignorer));
}

#[test]
fn first_unreadable_pattern_is_named_and_bad_file_lines_are_passed_over() {
    match make_git_ignore(&strings(&["ok", "# c{", "a{b", "c{d"]), None) {
        Err(KnotError::InvalidIgnorePattern { pattern }) => assert_eq!(pattern, "a{b"),
        other => panic!("unexpected {:?}", other.map(|_| ())),
    }
    let g = make_git_ignore(
        &Vec::new(),
        Some(("/p/.gitignore".to_string(), strings(&["a{b", "*.log"]))),
    )
    .unwrap();
    assert!(should_ignore("/p/x.log", "/p", &g));
    assert!(!should_ignore("/p/a{b", "/p", &g));
}
