//! Backups, and removing them.
use filesync_notes::backups::{
    backup_root_for_side, backup_rule_file, backup_scope_for_side, backup_sides,
    format_candidate_relative, path_for_side, plan_backup, preview_from_paths, preview_rule_cleanup, purge_expired_backups_for_rule,
    timestamped_file_name, BackupEntry, BackupListing, Location,
};
use filesync_notes::cleanup::{
    execute_rule_cleanup, execute_rule_cleanup_at, CleanupAction, CleanupEvent, CleanupRun,
};
use filesync_notes::clock::{current_time, Timestamp};
use filesync_notes::matcher::{
    assemble, build_matcher, collect_folder_files, select_files, WalkEntry,
};
use filesync_notes::models::{CleanupCandidateKind, CleanupPreview, RuleKind, SyncRule, SyncTrigger};
use filesync_notes::outcome::{build_outcome, run_rule_sync_at, success_message};
use filesync_notes::paths::ParsedPath;
use filesync_notes::purging::{
    removal_order, retention_at, PurgeAction, PurgeEvent, PurgeRun, Retention, SweepAction,
    SweepEvent, SweepRun,
};
use filesync_notes::sync_engine::{removal_label, RuleSide, RunCounts};
use std::collections::BTreeSet;

fn place(location: &Location) -> String {
    format!("{}/{}", location.parent, location.names.join("/"))
}

fn rule(kind: RuleKind, bidirectional: bool) -> SyncRule {
    let mut rule = SyncRule::default();
    rule.id = "id".to_string();
    rule.name = "规则".to_string();
    rule.kind = kind;
    rule.bidirectional = bidirectional;
    rule.source_path = "/a/notes".to_string();
    rule.target_path = "/b/doc.md".to_string();
    rule
}

fn file_entry(path: &str, name: &str, is_file: bool) -> BackupEntry {
    BackupEntry {
        path: path.to_string(),
        name: name.to_string(),
        components: ParsedPath::read(name).components,
        is_file,
        is_dir: !is_file,
    }
}

fn tree_entry(path: &str, relative: &str, is_dir: bool) -> BackupEntry {
    BackupEntry {
        path: path.to_string(),
        name: String::new(),
        components: ParsedPath::read(relative).components,
        is_file: !is_dir,
        is_dir,
    }
}

#[test]
fn backup_names_carry_the_stamp() {
    assert_eq!(timestamped_file_name("a.md", "S"), "a--S.md");
    assert_eq!(timestamped_file_name("a", "S"), "a--S");
    assert_eq!(timestamped_file_name("a.", "S"), "a--S");
    assert_eq!(timestamped_file_name(".env", "S"), ".env--S");
    assert_eq!(timestamped_file_name("x.tar.gz", "S"), "x.tar--S.gz");
}

#[test]
fn backups_go_beside_the_side() {
    let side = ParsedPath::read("/b/doc.md");
    assert_eq!(place(&backup_root_for_side(&side).unwrap()), "/b/.back");
    let plan = plan_backup(RuleKind::File, &side, None, "S").unwrap();
    assert_eq!(place(&plan.folder), "/b/.back");
    assert_eq!(place(&plan.file), "/b/.back/doc--S.md");

    let side = ParsedPath::read("/b/docs");
    let plan = plan_backup(RuleKind::Folder, &side, Some("x/y.md"), "S").unwrap();
    assert_eq!(place(&plan.folder), "/b/.back/docs/x");
    assert_eq!(place(&plan.file), "/b/.back/docs/x/y--S.md");
    assert_eq!(
        plan_backup(RuleKind::Folder, &side, None, "S").unwrap_err(),
        "缺少目录规则的相对路径。"
    );
    assert_eq!(
        plan_backup(RuleKind::Folder, &ParsedPath::read("/b/.."), Some("x"), "S").unwrap_err(),
        "目标目录无效，无法生成备份。"
    );
    assert_eq!(
        plan_backup(RuleKind::File, &ParsedPath::read("/"), None, "S").unwrap_err(),
        "目标路径缺少父目录，无法生成备份目录。"
    );
    let plan = plan_backup(RuleKind::File, &ParsedPath::read("/b/.."), None, "S").unwrap();
    assert_eq!(plan.file.names, vec![".back--S".to_string()]);

    let file_rule = rule(RuleKind::File, false);
    assert!(backup_rule_file(&file_rule, RuleSide::Target, None, false).unwrap().is_none());
    let plan = backup_rule_file(&file_rule, RuleSide::Target, None, true).unwrap().unwrap();
    let name = plan.file.names.last().unwrap();
    assert!(name.starts_with("doc--2"));
    assert_eq!(name.len(), "doc--20260101-000000.md".len());
}

#[test]
fn backups_are_looked_for_where_they_go() {
    let scope = |kind, text: &str| {
        backup_scope_for_side(kind, &ParsedPath::read(text)).map(|location| place(&location))
    };
    assert_eq!(scope(RuleKind::File, "/b/doc.md").as_deref(), Some("/b/.back"));
    assert_eq!(scope(RuleKind::Folder, "/b/docs").as_deref(), Some("/b/.back/docs"));
    assert_eq!(scope(RuleKind::File, "/b/..").as_deref(), Some("/b/.back"));
    assert_eq!(scope(RuleKind::Folder, "/b/.."), None);
    assert_eq!(scope(RuleKind::File, "/"), None);
}

#[test]
fn one_way_rule_has_backups_of_its_target_only() {
    assert_eq!(backup_sides(false), vec![RuleSide::Target]);
    assert_eq!(backup_sides(true), vec![RuleSide::Source, RuleSide::Target]);
    let rule = rule(RuleKind::File, true);
    assert_eq!(path_for_side(&rule, RuleSide::Source), "/a/notes");
    assert_eq!(path_for_side(&rule, RuleSide::Target), "/b/doc.md");
    assert_eq!(RuleSide::Source.opposite(), RuleSide::Target);
}

#[test]
fn purged_folders_are_sorted_and_named_once() {
    let roots = |both, s: &str, t: &str| -> Vec<String> {
        purge_expired_backups_for_rule(both, &ParsedPath::read(s), &ParsedPath::read(t))
            .iter()
            .map(place)
            .collect()
    };
    assert_eq!(roots(false, "/a/x", "/b/y"), ["/b/.back"]);
    assert_eq!(roots(true, "/b/x", "/a/y"), ["/a/.back", "/b/.back"]);
    assert_eq!(roots(true, "/a/x", "/b/y"), ["/a/.back", "/b/.back"]);
    assert_eq!(roots(true, "/a/x", "/a/y"), ["/a/.back"]);
    assert_eq!(roots(true, "/", "/a/y"), ["/a/.back"]);
    assert_eq!(roots(true, "/a/y", "/"), ["/a/.back"]);
    assert!(roots(false, "/a/y", "/").is_empty());
    assert!(roots(true, "/", "/").is_empty());
}

#[test]
fn retention_of_no_days_keeps_all() {
    let now = Timestamp { seconds: 1_700_000_000, nanos: 0 };
    assert_eq!(retention_at(now, 0), Retention::KeepAll);
    assert_eq!(
        retention_at(now, 1),
        Retention::Before(Timestamp { seconds: 1_699_913_600, nanos: 0 })
    );
    assert_eq!(retention_at(now, 1 << 50), Retention::KeepAll);
    assert_eq!(retention_at(now, u64::MAX), Retention::KeepAll);
}

#[test]
fn deepest_folders_are_removed_first() {
    assert_eq!(removal_order(&vec![2, 4, 3, 4]), vec![1, 3, 2, 0]);
}

#[test]
fn file_rule_previews_its_own_backups() {
    let listing = BackupListing::Entries(vec![
        file_entry("/b/.back/doc--1.md", "doc--1.md", true),
        file_entry("/b/.back/doc--1.txt", "doc--1.txt", true),
        file_entry("/b/.back/other--1.md", "other--1.md", true),
        file_entry("/b/.back/doc--22.md", "doc--22.md", true),
        file_entry("/b/.back/doc--dir.md", "doc--dir.md", false),
    ]);
    let preview = preview_rule_cleanup(&rule(RuleKind::File, false), &BackupListing::Missing, &listing).unwrap();
    let paths: Vec<&str> = preview.candidates.iter().map(|c| c.path.as_str()).collect();
    assert_eq!(paths, ["/b/.back/doc--22.md", "/b/.back/doc--1.md"]);
    assert_eq!(preview.candidates[0].relative_path, "doc.md");
    assert_eq!(preview.file_count, 2);
    assert_eq!(preview.folder_count, 0);
    assert_eq!(preview.rule_id, "id");
    assert_eq!(preview.rule_name, "规则");
}

#[test]
fn folder_rule_previews_everything_in_its_folder() {
    let mut rule = rule(RuleKind::Folder, true);
    rule.target_path = "/b/docs".to_string();
    let source = BackupListing::Entries(vec![
        tree_entry("/a/.back/notes", "", true),
        tree_entry("/a/.back/notes/n", "n", true),
        tree_entry("/a/.back/notes/n/x--1.md", "n/x--1.md", false),
    ]);
    let preview = preview_rule_cleanup(&rule, &source, &BackupListing::Missing).unwrap();
    let shown: Vec<&str> = preview.candidates.iter().map(|c| c.relative_path.as_str()).collect();
    assert_eq!(shown, ["源侧 / n/x--1.md", "源侧 / n"]);
    assert_eq!((preview.file_count, preview.folder_count), (1, 1));
    assert_eq!(format_candidate_relative(true, RuleSide::Target, "x"), "目标侧 / x");
    assert_eq!(format_candidate_relative(false, RuleSide::Target, "x"), "x");
}

#[test]
fn preview_reports_what_stops_it() {
    let none = BackupListing::Missing;
    let broken = BackupListing::Unreadable("denied".to_string());
    let empty = BackupListing::Entries(Vec::new());
    let good = ParsedPath::read("/a/x");
    let root = ParsedPath::read("/");
    let odd = ParsedPath::read("/a/..");
    let file = rule(RuleKind::File, false);
    let folder = rule(RuleKind::Folder, false);
    let error = |rule: &SyncRule, target: &ParsedPath, listing: &BackupListing| {
        preview_from_paths(rule, &good, target, &BackupListing::Missing, listing).unwrap_err()
    };
    assert_eq!(error(&file, &good, &broken), "denied");
    assert_eq!(error(&folder, &good, &broken), "denied");
    assert_eq!(error(&file, &root, &empty), "目标路径缺少父目录，无法生成备份目录。");
    assert_eq!(error(&folder, &root, &empty), "目标路径缺少父目录，无法生成备份目录。");
    assert_eq!(error(&file, &odd, &empty), "目标文件名无效，无法预览备份。");
    assert_eq!(error(&folder, &odd, &none), "目标目录无效，无法预览备份。");
    assert!(preview_from_paths(&file, &good, &odd, &none, &none).unwrap().candidates.is_empty());
    let both = rule(RuleKind::File, true);
    assert_eq!(
        preview_from_paths(&both, &good, &good, &broken, &empty).unwrap_err(),
        "denied"
    );
}

#[test]
fn cleanup_removes_what_the_preview_shows() {
    let mut rule = rule(RuleKind::Folder, false);
    rule.target_path = "/b/docs".to_string();
    let listing = BackupListing::Entries(vec![
        tree_entry("/b/.back/docs", "", true),
        tree_entry("/b/.back/docs/n", "n", true),
        tree_entry("/b/.back/docs/n/x--1.md", "n/x--1.md", false),
        tree_entry("/b/.back/docs/gone.md", "gone.md", false),
    ]);
    let preview = preview_rule_cleanup(&rule, &BackupListing::Missing, &listing).unwrap();
    assert_eq!(preview.candidates[0].kind, CleanupCandidateKind::File);
    let mut paths: BTreeSet<String> =
        ["/b/.back/docs/n", "/b/.back/docs/n/x--1.md", "/b/.back/other"].iter().map(|s| s.to_string()).collect();
    let mut run = CleanupRun::new(preview);
    let mut event = CleanupEvent::Begin;
    let counts = loop {
        assert!(run.accepts(&event));
        event = match run.step(event) {
            CleanupAction::Probe(path) => CleanupEvent::Exists(paths.contains(&path)),
            CleanupAction::RemoveFile(path) => {
                assert!(paths.remove(&path));
                CleanupEvent::Done
            }
            CleanupAction::RemoveFolder(path) => {
                let inside = format!("{path}/");
                paths.retain(|p| p != &path && !p.starts_with(&inside));
                CleanupEvent::Done
            }
            CleanupAction::Finish(result) => break result.unwrap(),
        };
    };
    assert_eq!(counts.deleted_count, 2);
    assert_eq!(paths.into_iter().collect::<Vec<_>>(), ["/b/.back/other"]);
    let outcome = execute_rule_cleanup(&rule, current_time(), Ok(counts)).unwrap();
    assert_eq!(outcome.last_result.message, "备份清理完成：删除 2 个备份文件或目录。");
    assert_eq!(outcome.history_item.trigger, SyncTrigger::Cleanup);
    assert_eq!(outcome.history_item.deleted_count, 2);
}

#[test]
fn cleanup_that_fails_leaves_its_error() {
    let rule = rule(RuleKind::File, false);
    let listing = BackupListing::Entries(vec![file_entry("/b/.back/doc--1.md", "doc--1.md", true)]);
    let preview = preview_rule_cleanup(&rule, &BackupListing::Missing, &listing).unwrap();
    let mut run = CleanupRun::new(preview);
    run.step(CleanupEvent::Begin);
    run.step(CleanupEvent::Exists(true));
    match run.step(CleanupEvent::Failed("denied".to_string())) {
        CleanupAction::Finish(Err(message)) => assert_eq!(message, "denied"),
        other => panic!("{other:?}"),
    }
    let at = Timestamp { seconds: 0, nanos: 0 };
    let failed = execute_rule_cleanup_at(&rule, at, at, Err("denied".to_string()));
    assert_eq!(failed.unwrap_err(), "denied");
    let nothing = execute_rule_cleanup_at(&rule, at, at, Ok(RunCounts::default())).unwrap();
    assert_eq!(nothing.last_result.message, "没有需要清理的备份。");
    assert_eq!(nothing.last_result.started_at.as_deref(), Some("1970-01-01T00:00:00+00:00"));
}

#[test]
fn outcome_tells_times_and_counts() {
    let rule = rule(RuleKind::File, false);
    let started = Timestamp { seconds: 1_700_000_000, nanos: 0 };
    let finished = Timestamp { seconds: 1_700_000_001, nanos: 0 };
    let mut counts = RunCounts::default();
    counts.updated_count = 2;
    counts.backup_count = 2;
    counts.skipped_count = 12;
    let outcome = run_rule_sync_at(&rule, SyncTrigger::Poll, started, finished, Ok(counts));
    assert_eq!(outcome.history_item.started_at, "2023-11-14T22:13:20+00:00");
    assert_eq!(outcome.last_result.finished_at.as_deref(), Some("2023-11-14T22:13:21+00:00"));
    assert_eq!(
        outcome.history_item.message,
        "同步完成：新增 0，更新 2，删除 0，未变更 12，备份 2。"
    );
    assert_eq!(outcome.history_item.rule_name, "规则");
    assert_eq!(
        success_message(true, &RunCounts::default()),
        "双向同步完成：新增 0，更新 0，删除 0，未变更 0，备份 0。"
    );
}

#[test]
fn patterns_select_files() {
    let entry = |text: &str, is_dir| WalkEntry { components: ParsedPath::read(text).components, is_dir };
    let entries = vec![
        entry("", true),
        entry("sub", true),
        entry("b.md", false),
        entry("a.txt", false),
        entry("sub/c.md", false),
        entry("sub/d.tmp", false),
    ];
    let mut rule = rule(RuleKind::Folder, false);
    let all = collect_folder_files(&entries, &build_matcher(&rule).unwrap());
    assert_eq!(all.keys, ["a.txt", "b.md", "sub/c.md", "sub/d.tmp"]);
    assert_eq!(all.indices, [3, 2, 4, 5]);
    rule.include_globs = vec!["*.md".to_string()];
    rule.exclude_globs = vec!["sub/*".to_string()];
    let matcher = build_matcher(&rule).unwrap();
    assert_eq!(collect_folder_files(&entries, &matcher).keys, ["b.md"]);
    assert!(matcher.matches("x.md"));
    assert!(!matcher.matches("sub/x.md"));
    assert!(!matcher.matches("x.txt"));
    let double = vec![entry("x", false), entry("./x", false)];
    let files = select_files(&double, &vec![true, true]);
    assert_eq!(files.keys, ["x"]);
    assert_eq!(files.indices, [1]);
    rule.include_globs = vec!["ok".to_string()];
    rule.exclude_globs = vec!["{a".to_string()];
    assert_eq!(
        build_matcher(&rule).err().unwrap(),
        globset::Glob::new("{a").unwrap_err().to_string()
    );
}

/// Drives a purge over entries that are there, and gives those that are left.
fn purge(
    retention: Retention,
    folder_exists: bool,
    entries: &[(bool, i64)],
    stuck: Option<usize>,
) -> (Vec<usize>, bool, Result<(), String>) {
    let is_file = entries.iter().map(|e| e.0).collect();
    let mut left: BTreeSet<usize> = (0..entries.len()).collect();
    let mut swept = false;
    let mut run = PurgeRun::new(retention, folder_exists, is_file);
    let mut event = PurgeEvent::Begin;
    loop {
        assert!(run.accepts(&event));
        event = match run.purge_expired_backups(event) {
            PurgeAction::Inspect(i) => {
                assert!(entries[i].0);
                PurgeEvent::Modified(Timestamp { seconds: entries[i].1, nanos: 0 })
            }
            PurgeAction::Remove(i) => {
                if stuck == Some(i) {
                    PurgeEvent::Failed("stuck".to_string())
                } else {
                    left.remove(&i);
                    PurgeEvent::Done
                }
            }
            PurgeAction::Sweep => {
                swept = true;
                PurgeEvent::Done
            }
            PurgeAction::Finish(result) => return (left.into_iter().collect(), swept, result),
        };
    }
}

#[test]
fn purge_removes_only_what_has_expired() {
    let entries = [(false, 0), (true, 99), (true, 100), (true, 5), (false, 1), (true, 101)];
    let before = Retention::Before(Timestamp { seconds: 100, nanos: 0 });
    assert_eq!(purge(before, true, &entries, None), (vec![0, 2, 4, 5], true, Ok(())));
    let all = vec![0, 1, 2, 3, 4, 5];
    assert_eq!(purge(before, false, &entries, None), (all.clone(), false, Ok(())));
    assert_eq!(purge(Retention::KeepAll, true, &entries, None), (all, false, Ok(())));
    assert_eq!(
        purge(before, true, &entries, Some(3)),
        (vec![0, 2, 3, 4, 5], false, Err("stuck".to_string()))
    );
    assert_eq!(purge(before, true, &[], None), (vec![], true, Ok(())));
}

#[test]
fn more_days_never_remove_more() {
    let now = Timestamp { seconds: 1_700_000_000, nanos: 0 };
    let day = 86_400;
    let entries = [(true, now.seconds), (true, now.seconds - 2 * day), (true, 0)];
    let left = |days: u64| purge(retention_at(now, days), true, &entries, None).0;
    assert_eq!(left(1), [0]);
    assert_eq!(left(2), [0, 1]);
    assert_eq!(left(30), [0, 1]);
    assert_eq!(left(1 << 20), [0, 1, 2]);
    assert_eq!(left(1 << 40), [0, 1, 2]);
    assert_eq!(left(u64::MAX), [0, 1, 2]);
    assert_eq!(left(0), [0, 1, 2]);
}

#[test]
fn rule_without_patterns_is_about_every_file() {
    let matcher = build_matcher(&rule(RuleKind::Folder, false)).unwrap();
    for path in ["a", "a/b.md", ".hidden", "a\\b", "sub/with space/ü.txt", "two\nlines", "/", ""] {
        assert!(matcher.matches(path), "{path}");
    }
}

/// Drives a cleanup over paths that exist, and gives how many it tells of.
fn clean_up(preview: CleanupPreview, paths: &mut BTreeSet<String>) -> usize {
    let mut run = CleanupRun::new(preview);
    let mut event = CleanupEvent::Begin;
    loop {
        assert!(run.accepts(&event));
        event = match run.step(event) {
            CleanupAction::Probe(path) => CleanupEvent::Exists(paths.contains(&path)),
            CleanupAction::RemoveFile(path) => {
                assert!(paths.remove(&path));
                CleanupEvent::Done
            }
            CleanupAction::RemoveFolder(path) => {
                let inside = format!("{path}/");
                paths.retain(|p| p != &path && !p.starts_with(&inside));
                CleanupEvent::Done
            }
            CleanupAction::Finish(result) => return result.unwrap().deleted_count,
        };
    }
}

#[test]
fn cleanup_counts_each_path_once_and_leaves_nothing() {
    let mut both = rule(RuleKind::File, true);
    both.source_path = "/b/doc.md".to_string();
    let files = ["/b/.back/doc--1.md", "/b/.back/doc--2.md", "/b/.back/other.md"];
    let listing = |paths: &BTreeSet<String>| {
        let entries = paths.iter().map(|p| file_entry(p, &p["/b/.back/".len()..], true)).collect();
        BackupListing::Entries(entries)
    };
    let mut paths: BTreeSet<String> = files.iter().map(|p| p.to_string()).collect();
    let preview = preview_rule_cleanup(&both, &listing(&paths), &listing(&paths)).unwrap();
    assert_eq!(preview.candidates.len(), 4);
    assert_eq!(clean_up(preview, &mut paths), 2);
    assert_eq!(paths.iter().collect::<Vec<_>>(), ["/b/.back/other.md"]);
    let again = preview_rule_cleanup(&both, &listing(&paths), &listing(&paths)).unwrap();
    assert!(again.candidates.is_empty());
    assert_eq!((again.file_count, again.folder_count), (0, 0));
    let gone = BackupListing::Missing;
    assert!(preview_rule_cleanup(&both, &gone, &gone).unwrap().candidates.is_empty());
}

#[test]
fn sweep_removes_folders_that_nothing_is_left_in() {
    // root { a { b {} }, c { file }, d { e { file } }, f {} }
    let depths = vec![1, 2, 3, 2, 2, 3, 2];
    let above = [None, Some(0), Some(1), Some(0), Some(0), Some(4), Some(0)];
    let has_file = [false, false, false, true, false, true, false];
    let is_root = vec![true, false, false, false, false, false, false];
    let mut present = vec![true; 7];
    let mut run = SweepRun::new(&depths, is_root.clone());
    let mut event = SweepEvent::Begin;
    loop {
        assert!(run.accepts(&event));
        event = match run.remove_empty_dirs(event) {
            SweepAction::Look(i) => {
                assert!(!is_root[i]);
                SweepEvent::Empty(!has_file[i] && !(0..7).any(|j| present[j] && above[j] == Some(i)))
            }
            SweepAction::Remove(i) => {
                present[i] = false;
                SweepEvent::Done
            }
            SweepAction::Finish(result) => break result.unwrap(),
        };
    }
    assert_eq!(present, [true, false, false, true, true, true, false]);

    let mut run = SweepRun::new(&vec![1, 2], vec![true, false]);
    assert!(matches!(run.remove_empty_dirs(SweepEvent::Begin), SweepAction::Look(1)));
    assert!(!run.accepts(&SweepEvent::Done));
    match run.remove_empty_dirs(SweepEvent::Failed("unreadable".to_string())) {
        SweepAction::Finish(Err(message)) => assert_eq!(message, "unreadable"),
        other => panic!("{other:?}"),
    }
    let mut run = SweepRun::new(&vec![], vec![]);
    assert!(matches!(run.remove_empty_dirs(SweepEvent::Begin), SweepAction::Finish(Ok(()))));
}

#[test]
fn matcher_needs_both_of_its_sets() {
    let set = |pattern: &str| {
        let mut builder = globset::GlobSetBuilder::new();
        builder.add(globset::Glob::new(pattern).unwrap());
        Ok(builder.build().unwrap())
    };
    let matcher = assemble(set("*.md"), set("x*")).unwrap();
    assert!(matcher.matches("a.md"));
    assert!(!matcher.matches("x.md"));
    let fault = || Err("too large".to_string());
    assert_eq!(assemble(fault(), set("x")).err().unwrap(), "too large");
    assert_eq!(assemble(set("x"), fault()).err().unwrap(), "too large");
}

#[test]
fn outcome_ends_when_it_is_built() {
    let rule = rule(RuleKind::File, false);
    let started = current_time();
    let counts = RunCounts::default();
    let outcome =
        build_outcome(&rule, SyncTrigger::Startup, started, false, "why".to_string(), counts);
    assert_eq!(outcome.last_result.trigger, Some(SyncTrigger::Startup));
    assert_eq!(outcome.last_result.message, "why");
    assert!(!outcome.history_item.success);
    assert!(outcome.history_item.finished_at >= outcome.history_item.started_at);
}

#[test]
fn failed_removals_are_told_apart() {
    assert_eq!(removal_label(true), "删除同步文件失败");
    assert_eq!(removal_label(false), "删除目标侧多余文件失败");
}

#[test]
fn order_of_removal_leaves_no_backup_out() {
    let paths = ["/b/.back/docs/a", "/b/.back/docs/a/long--1.md", "/b/.back/docs/z--1.md"];
    let mut folder_rule = rule(RuleKind::Folder, false);
    folder_rule.target_path = "/b/docs".to_string();
    let listing = BackupListing::Entries(
        paths
            .iter()
            .map(|path| tree_entry(path, &path["/b/.back/docs/".len()..], path.ends_with("/a")))
            .collect(),
    );
    let preview = preview_rule_cleanup(&folder_rule, &BackupListing::Missing, &listing).unwrap();
    let shown: Vec<&str> = preview.candidates.iter().map(|c| c.path.as_str()).collect();
    assert_eq!(shown, [paths[1], paths[2], paths[0]]);
    assert_eq!((preview.file_count, preview.folder_count), (2, 1));
}
