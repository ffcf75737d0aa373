use autobackup::clock::{archive_zip_name, format_stamp, now_reading, ClockReading};
use autobackup::control::{AppCore, Event, JobDraft, RunRefusal, ValidationError};
use autobackup::control::{job_is_due, make_log_line, parse_period};
use autobackup::plan::{copy_plan, path_is_kept, run_success};

fn draft(source: &str, dest: &str, period: &str) -> JobDraft {
    JobDraft {
        source_path: String::from(source),
        dest_path: String::from(dest),
        period_input: String::from(period),
        skip_extensions: Vec::new(),
        skip_folders: Vec::new(),
        archive_enabled: false,
    }
}

fn path(components: &[&str]) -> Vec<String> {
    components.iter().map(|c| String::from(*c)).collect()
}

fn tokens(ts: &[&str]) -> Vec<String> {
    ts.iter().map(|t| String::from(*t)).collect()
}

#[test]
fn scheduler_not_due_before_period() {
    let mut core = AppCore::new();
    core.add_job(draft("/src", "/dst", "1"), true, true, 1_000).unwrap();
    // One second short of one hour after the last run: nothing fires.
    let launched = core.tick(1_000 + 3_599);
    assert!(launched.is_empty());
    assert!(!core.jobs[0].running);
}

#[test]
fn scheduler_fires_exactly_once_at_due_time() {
    let mut core = AppCore::new();
    core.add_job(draft("/src", "/dst", "1"), true, true, 1_000).unwrap();
    let launched = core.tick(1_000 + 3_600);
    assert_eq!(launched, vec![0]);
    assert!(core.jobs[0].running);
    // The same tick time again: the job is in flight, nothing fires.
    let launched_again = core.tick(1_000 + 3_600);
    assert!(launched_again.is_empty());
    // Much later, still in flight: nothing fires.
    let launched_later = core.tick(1_000 + 50_000);
    assert!(launched_later.is_empty());
}

#[test]
fn scheduler_independent_jobs_fire_together() {
    let mut core = AppCore::new();
    core.add_job(draft("/a", "/a-dst", "1"), true, true, 0).unwrap();
    core.add_job(draft("/b", "/b-dst", "2"), true, true, 0).unwrap();
    let launched = core.tick(3_600);
    assert_eq!(launched, vec![0]);
    let launched = core.tick(7_200);
    assert_eq!(launched, vec![1]);
}

#[test]
fn run_now_refused_while_running() {
    let mut core = AppCore::new();
    core.add_job(draft("/src", "/dst", "24"), true, true, 0).unwrap();
    assert!(core.run_now(0).is_ok());
    assert!(core.jobs[0].running);
    match core.run_now(0) {
        Err(RunRefusal::AlreadyRunning) => {},
        _ => panic!("second manual run must be refused"),
    }
    match core.run_now(7) {
        Err(RunRefusal::NoSuchJob) => {},
        _ => panic!("missing index must be refused"),
    }
}

#[test]
fn completion_resets_running_and_last_run() {
    let mut core = AppCore::new();
    core.add_job(draft("/src", "/dst", "1"), true, true, 0).unwrap();
    let launched = core.tick(3_600);
    assert_eq!(launched, vec![0]);
    core.handle_event(Event::RunCompleted(0, true), 5_000, "stamp");
    assert!(!core.jobs[0].running);
    assert_eq!(core.jobs[0].last_run_at, 5_000);
    assert_eq!(core.logs.last().unwrap(), "[stamp] Backup completed");
    // A failed run also resets the due time: no immediate retry storm.
    let launched = core.tick(5_000 + 3_599);
    assert!(launched.is_empty());
}

#[test]
fn failed_completion_still_stamps_time() {
    let mut core = AppCore::new();
    core.add_job(draft("/src", "/dst", "1"), true, true, 0).unwrap();
    core.run_now(0).unwrap();
    core.handle_event(Event::RunCompleted(0, false), 9_000, "t");
    assert!(!core.jobs[0].running);
    assert_eq!(core.jobs[0].last_run_at, 9_000);
    assert_eq!(core.logs.last().unwrap(), "[t] Backup failed");
}

#[test]
fn log_events_arrive_in_order() {
    let mut core = AppCore::new();
    core.handle_event(Event::Log(String::from("one")), 0, "s");
    core.handle_event(Event::Log(String::from("two")), 0, "s");
    assert_eq!(core.logs, vec![String::from("[s] one"), String::from("[s] two")]);
}

#[test]
fn add_rejects_source_equal_dest() {
    let mut core = AppCore::new();
    let r = core.add_job(draft("/same", "/same", "24"), true, true, 0);
    match r {
        Err(ValidationError::SameSourceAndDest) => {},
        _ => panic!("source == dest must be rejected"),
    }
    assert!(core.jobs.is_empty());
}

#[test]
fn add_validation_errors() {
    let mut core = AppCore::new();
    assert!(matches!(
        core.add_job(draft("  ", "/d", "24"), true, true, 0),
        Err(ValidationError::EmptySource)
    ));
    assert!(matches!(
        core.add_job(draft("/s", "/d", "24"), false, true, 0),
        Err(ValidationError::SourceMissing)
    ));
    assert!(matches!(
        core.add_job(draft("/s", "", "24"), true, true, 0),
        Err(ValidationError::EmptyDest)
    ));
    assert!(matches!(
        core.add_job(draft("/s", "/d", "24"), true, false, 0),
        Err(ValidationError::DestUnavailable)
    ));
    assert!(matches!(
        core.add_job(draft("/s,x", "/d", "24"), true, true, 0),
        Err(ValidationError::InvalidPath)
    ));
    assert!(core.jobs.is_empty());
}

#[test]
fn edit_replaces_fields_and_keeps_run_state() {
    let mut core = AppCore::new();
    core.add_job(draft("/src", "/dst", "24"), true, true, 77).unwrap();
    core.run_now(0).unwrap();
    core.edit_job(0, draft("/src2", "/dst2", "6"), true, true).unwrap();
    assert_eq!(core.jobs[0].source_path, "/src2");
    assert_eq!(core.jobs[0].dest_path, "/dst2");
    assert_eq!(core.jobs[0].period_hours, 6);
    assert_eq!(core.jobs[0].last_run_at, 77);
    assert!(core.jobs[0].running);
    assert!(matches!(
        core.edit_job(9, draft("/a", "/b", "1"), true, true),
        Err(ValidationError::NoSuchJob)
    ));
}

#[test]
fn delete_shifts_later_jobs_down() {
    let mut core = AppCore::new();
    core.add_job(draft("/a", "/a2", "24"), true, true, 0).unwrap();
    core.add_job(draft("/b", "/b2", "24"), true, true, 0).unwrap();
    core.add_job(draft("/c", "/c2", "24"), true, true, 0).unwrap();
    core.delete_job(1).unwrap();
    assert_eq!(core.jobs.len(), 2);
    assert_eq!(core.jobs[0].source_path, "/a");
    assert_eq!(core.jobs[1].source_path, "/c");
    assert!(matches!(core.delete_job(5), Err(ValidationError::NoSuchJob)));
}

#[test]
fn due_check_uses_whole_hours() {
    let j = autobackup::job::Job {
        source_path: String::from("/s"),
        dest_path: String::from("/d"),
        period_hours: 2,
        skip_extensions: Vec::new(),
        skip_folders: Vec::new(),
        archive_enabled: false,
        last_run_at: 10_000,
        running: false,
    };
    assert!(!job_is_due(&j, 10_000 + 7_199));
    assert!(job_is_due(&j, 10_000 + 7_200));
    // A clock that went backwards never makes a job due.
    assert!(!job_is_due(&j, 0));
}

#[test]
fn parse_period_accepts_only_positive_hours() {
    assert_eq!(parse_period("24"), Some(24));
    assert_eq!(parse_period(" 7 "), Some(7));
    assert_eq!(parse_period("0"), None);
    assert_eq!(parse_period("abc"), None);
    assert_eq!(parse_period(""), None);
    assert_eq!(parse_period("4294967295"), Some(4294967295));
    assert_eq!(parse_period("4294967296"), None);
}

#[test]
fn add_rejects_an_invalid_period() {
    let mut core = AppCore::new();
    assert!(matches!(
        core.add_job(draft("/s", "/d", "abc"), true, true, 0),
        Err(ValidationError::InvalidPeriod)
    ));
    assert!(matches!(
        core.add_job(draft("/s", "/d", "0"), true, true, 0),
        Err(ValidationError::InvalidPeriod)
    ));
    assert!(core.jobs.is_empty());
    core.add_job(draft("/s", "/d", "24"), true, true, 0).unwrap();
    assert!(matches!(
        core.edit_job(0, draft("/s", "/d2", ""), true, true),
        Err(ValidationError::InvalidPeriod)
    ));
    assert_eq!(core.jobs[0].period_hours, 24);
}

#[test]
fn copy_keeps_exactly_the_unfiltered_files() {
    let files = vec![
        path(&["a.txt"]),
        path(&["b.log"]),
        path(&["sub", "c.tmp"]),
        path(&["sub", "d.txt"]),
    ];
    let report = copy_plan(&files, &tokens(&["log", "tmp"]), &tokens(&[]), &Vec::new());
    assert_eq!(report.copied, vec![path(&["a.txt"]), path(&["sub", "d.txt"])]);
    assert_eq!(report.warnings, 0);
}

#[test]
fn copy_excludes_skipped_folders_entirely() {
    let files = vec![path(&["keep", "x.txt"]), path(&["node_modules", "y.txt"])];
    let report = copy_plan(&files, &tokens(&[]), &tokens(&["node_modules"]), &Vec::new());
    assert_eq!(report.copied, vec![path(&["keep", "x.txt"])]);
    for p in &report.copied {
        assert!(!p.iter().any(|c| c == "node_modules"));
    }
}

#[test]
fn one_failing_file_leaves_the_other_ninety_nine() {
    let mut files = Vec::new();
    for i in 0..100 {
        files.push(vec![format!("f{}.txt", i)]);
    }
    let failing = vec![path(&["f37.txt"])];
    let report = copy_plan(&files, &Vec::new(), &Vec::new(), &failing);
    assert_eq!(report.copied.len(), 99);
    assert!(!report.copied.contains(&path(&["f37.txt"])));
    assert_eq!(report.warnings, 1);
    // The run still reports completion: warnings never flip success.
    assert!(run_success(true, report.warnings));
}

#[test]
fn folder_match_is_case_insensitive_and_whole_token() {
    let folders = tokens(&["node_modules"]);
    assert!(!path_is_kept(&path(&["Node_Modules", "y.txt"]), &Vec::new(), &folders));
    assert!(path_is_kept(&path(&["node_modules_x", "y.txt"]), &Vec::new(), &folders));
    // The file name itself is never matched against folder rules.
    assert!(path_is_kept(&path(&["node_modules"]), &Vec::new(), &folders));
}

#[test]
fn stamp_renders_padded() {
    let c = ClockReading {
        epoch_seconds: 0,
        year: 2024,
        month: 3,
        day: 5,
        hour: 4,
        minute: 9,
        second: 7,
    };
    assert_eq!(format_stamp(&c), "2024-03-05 04:09:07");
    let c2 = ClockReading {
        epoch_seconds: 0,
        year: 987,
        month: 12,
        day: 31,
        hour: 23,
        minute: 59,
        second: 59,
    };
    assert_eq!(format_stamp(&c2), "0987-12-31 23:59:59");
}

#[test]
fn archive_name_follows_the_convention() {
    let c = ClockReading {
        epoch_seconds: 0,
        year: 2024,
        month: 12,
        day: 31,
        hour: 23,
        minute: 0,
        second: 0,
    };
    assert_eq!(archive_zip_name("/tmp/x", &c), "/tmp/x_24123123.zip");
    let c2 = ClockReading {
        epoch_seconds: 0,
        year: 2007,
        month: 1,
        day: 2,
        hour: 3,
        minute: 0,
        second: 0,
    };
    assert_eq!(archive_zip_name("d", &c2), "d_07010203.zip");
}

#[test]
fn clock_reading_is_in_range() {
    let c = now_reading();
    assert!(1 <= c.month && c.month <= 12);
    assert!(1 <= c.day && c.day <= 31);
    assert!(c.hour <= 23 && c.minute <= 59 && c.second <= 59);
    // The rendering has the fixed stamp shape.
    let s = format_stamp(&c);
    assert_eq!(s.len(), 19);
    assert_eq!(&s[4..5], "-");
    assert_eq!(&s[10..11], " ");
}

#[test]
fn log_line_has_bracketed_stamp() {
    assert_eq!(make_log_line("2024-01-01 00:00:00", "hello"), "[2024-01-01 00:00:00] hello");
}

#[test]
fn snapshot_is_a_faithful_copy() {
    let j = autobackup::job::Job {
        source_path: String::from("/s"),
        dest_path: String::from("/d"),
        period_hours: 3,
        skip_extensions: tokens(&["log"]),
        skip_folders: tokens(&["tmp"]),
        archive_enabled: true,
        last_run_at: 42,
        running: true,
    };
    let c = j.snapshot();
    assert_eq!(c.source_path, j.source_path);
    assert_eq!(c.dest_path, j.dest_path);
    assert_eq!(c.period_hours, j.period_hours);
    assert_eq!(c.skip_extensions, j.skip_extensions);
    assert_eq!(c.skip_folders, j.skip_folders);
    assert_eq!(c.archive_enabled, j.archive_enabled);
    assert_eq!(c.last_run_at, j.last_run_at);
    assert_eq!(c.running, j.running);
}
