use autobackup::codec::{encode_collection, encode_job, parse_collection, parse_record};
use autobackup::filter::{
    add_extension_token, add_folder_token, file_is_skipped, folder_is_skipped, normalize_ext_token,
    parse_skip_tokens, TokenAdd,
};
use autobackup::job::Job;
use autobackup::paths::{backup_root_for, default_backup_root, default_dest_for_source,
    dest_for_source_under, source_leaf};

fn tokens(ts: &[&str]) -> Vec<String> {
    ts.iter().map(|t| String::from(*t)).collect()
}

fn sample_job(source: &str, dest: &str) -> Job {
    Job {
        source_path: String::from(source),
        dest_path: String::from(dest),
        period_hours: 12,
        skip_extensions: tokens(&["log", "tmp"]),
        skip_folders: tokens(&["node_modules"]),
        archive_enabled: true,
        last_run_at: 123_456,
        running: true,
    }
}

#[test]
fn save_then_load_reproduces_the_collection() {
    let jobs = vec![sample_job("/home/a", "/backup/a"), Job {
        source_path: String::from("relative/path with spaces"),
        dest_path: String::from("/other dest"),
        period_hours: 1,
        skip_extensions: Vec::new(),
        skip_folders: Vec::new(),
        archive_enabled: false,
        last_run_at: 9,
        running: false,
    }];
    let lines = encode_collection(&jobs);
    assert_eq!(lines.len(), 4);
    assert_eq!(lines[0], "Count");
    assert_eq!(lines[1], "2");
    let loaded = parse_collection(&lines, 777);
    assert_eq!(loaded.len(), 2);
    for (orig, back) in jobs.iter().zip(loaded.iter()) {
        assert_eq!(back.source_path, orig.source_path);
        assert_eq!(back.dest_path, orig.dest_path);
        assert_eq!(back.period_hours, orig.period_hours);
        assert_eq!(back.skip_extensions, orig.skip_extensions);
        assert_eq!(back.skip_folders, orig.skip_folders);
        assert_eq!(back.archive_enabled, orig.archive_enabled);
        // Loaded jobs are idle, stamped with the load time.
        assert_eq!(back.last_run_at, 777);
        assert!(!back.running);
    }
}

#[test]
fn encode_writes_the_flat_record_form() {
    let line = encode_job(&sample_job("/s", "/d"));
    assert_eq!(line, "/s,/d,12,log tmp,node_modules,true");
}

#[test]
fn load_skips_malformed_records() {
    let lines = vec![
        String::from("Count"),
        String::from("4"),
        String::from("only-two,fields"),
        String::from("/ok,/fine,24,,,false"),
        String::from("/same,/same,24,,,false"),
        String::from(",/empty-source,24,,,false"),
    ];
    let loaded = parse_collection(&lines, 0);
    assert_eq!(loaded.len(), 1);
    assert_eq!(loaded[0].source_path, "/ok");
}

#[test]
fn load_respects_the_count_line() {
    let lines = vec![
        String::from("Count"),
        String::from("1"),
        String::from("/a,/b,24,,,false"),
        String::from("/c,/d,24,,,false"),
    ];
    let loaded = parse_collection(&lines, 0);
    assert_eq!(loaded.len(), 1);
    assert_eq!(loaded[0].source_path, "/a");
    // An unreadable count reads as zero.
    let lines2 = vec![String::from("Count"), String::from("x"), String::from("/a,/b,24,,,false")];
    assert!(parse_collection(&lines2, 0).is_empty());
}

#[test]
fn missing_trailing_fields_take_defaults() {
    let job = parse_record("/src,/dst,notanumber", 5).unwrap();
    assert_eq!(job.period_hours, 24);
    assert!(job.skip_extensions.is_empty());
    assert!(job.skip_folders.is_empty());
    assert!(!job.archive_enabled);
    assert_eq!(job.last_run_at, 5);
    let none = parse_record("/src", 5);
    assert!(none.is_none());
}

#[test]
fn trailing_whitespace_on_a_record_is_ignored() {
    let job = parse_record("/a,/b,6,,,true \t", 0).unwrap();
    assert!(job.archive_enabled);
    assert_eq!(job.period_hours, 6);
    // Leading whitespace inside a field is kept: it is part of the path.
    let job2 = parse_record(" /a,/b,6,,,false", 0).unwrap();
    assert_eq!(job2.source_path, " /a");
}

#[test]
fn loaded_skip_lists_are_normalized_and_deduplicated() {
    let job = parse_record("/s,/d,6,*.LOG *.log tmp,Cache cache,true", 0).unwrap();
    assert_eq!(job.skip_extensions, tokens(&["log", "tmp"]));
    assert_eq!(job.skip_folders, tokens(&["cache"]));
    assert!(job.archive_enabled);
}

#[test]
fn adding_a_duplicate_extension_is_reported_and_ignored() {
    let mut list: Vec<String> = Vec::new();
    assert!(matches!(add_extension_token(&mut list, "LOG"), TokenAdd::Added));
    assert_eq!(list, tokens(&["log"]));
    // The same token in another case: reported, list unchanged.
    assert!(matches!(add_extension_token(&mut list, "log"), TokenAdd::Duplicate));
    assert!(matches!(add_extension_token(&mut list, "*.Log"), TokenAdd::Duplicate));
    assert_eq!(list, tokens(&["log"]));
}

#[test]
fn adding_a_duplicate_folder_is_reported_and_ignored() {
    let mut list: Vec<String> = Vec::new();
    assert!(matches!(add_folder_token(&mut list, "Node_Modules"), TokenAdd::Added));
    assert_eq!(list, tokens(&["node_modules"]));
    assert!(matches!(add_folder_token(&mut list, "node_modules"), TokenAdd::Duplicate));
    assert!(matches!(add_folder_token(&mut list, "NODE_MODULES "), TokenAdd::Duplicate));
    assert_eq!(list, tokens(&["node_modules"]));
}

#[test]
fn empty_and_invalid_tokens_are_refused() {
    let mut list: Vec<String> = Vec::new();
    assert!(matches!(add_extension_token(&mut list, "   "), TokenAdd::EmptyToken));
    assert!(matches!(add_extension_token(&mut list, "*."), TokenAdd::EmptyToken));
    assert!(matches!(add_extension_token(&mut list, "a b"), TokenAdd::InvalidToken));
    assert!(matches!(add_folder_token(&mut list, "x,y"), TokenAdd::InvalidToken));
    assert!(list.is_empty());
}

#[test]
fn skip_tokens_parse_from_their_label_form() {
    let parsed = parse_skip_tokens("*.log *.TMP");
    assert_eq!(parsed, tokens(&["log", "tmp"]));
    assert_eq!(parse_skip_tokens(""), Vec::<String>::new());
    assert_eq!(normalize_ext_token("*.*.BAK"), "bak");
    assert_eq!(normalize_ext_token("..Old"), "old");
}

#[test]
fn extension_match_is_whole_token_and_case_insensitive() {
    let exts = tokens(&["log"]);
    assert!(file_is_skipped("app.LOG", &exts));
    assert!(!file_is_skipped("applog", &exts));
    assert!(!file_is_skipped("a.log.txt", &exts));
    // A file without an extension is never skipped by extension rules.
    assert!(!file_is_skipped("log", &exts));
    assert!(!file_is_skipped(".log", &tokens(&["log"])));
    assert!(file_is_skipped("x.y.LoG", &exts));
}

#[test]
fn folder_match_is_exact_up_to_case() {
    let folders = tokens(&["node_modules"]);
    assert!(folder_is_skipped("NODE_MODULES", &folders));
    assert!(!folder_is_skipped("node_modules2", &folders));
}

#[test]
fn default_paths_end_under_the_backup_root() {
    let root = default_backup_root();
    assert!(root.ends_with("/BackUp") || root == "./BackUp");
    assert_eq!(backup_root_for(Some(String::from("/home/u"))), "/home/u/BackUp");
    assert_eq!(backup_root_for(None), "./BackUp");
    assert_eq!(dest_for_source_under("/root/BackUp", "/data/photos"), "/root/BackUp/photos");
    let dest = default_dest_for_source("/data/photos/");
    assert!(dest.ends_with("/BackUp/photos"));
}

#[test]
fn source_leaf_falls_back_to_backup() {
    assert_eq!(source_leaf("/a/b"), "b");
    assert_eq!(source_leaf("/a/b///"), "b");
    assert_eq!(source_leaf("/"), "backup");
    assert_eq!(source_leaf(""), "backup");
    assert_eq!(source_leaf(".."), "backup");
    assert_eq!(source_leaf("a/.."), "backup");
    assert_eq!(source_leaf("plain"), "plain");
    // A trailing lone-dot segment names its directory, as the
    // platform's file-name rule has it.
    assert_eq!(source_leaf("a/."), "a");
    assert_eq!(source_leaf("a/b/./."), "b");
    assert_eq!(source_leaf("."), "backup");
    // A dot at the end of a real name is part of the name.
    assert_eq!(source_leaf("a/x."), "x.");
}
