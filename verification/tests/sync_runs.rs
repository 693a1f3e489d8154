//! Whole runs of rules against a disk that is held in memory.
use filesync_notes::atomic_copy::{CopyAction, CopyEvent, CopyRun, IoFailure, temp_file_name};
use filesync_notes::backups::{
    backup_root_for_side, backup_rule_file, preview_rule_cleanup, BackupEntry, BackupListing, Location,
};
use filesync_notes::clock::{current_time, Timestamp};
use filesync_notes::hashing::hash_file;
use filesync_notes::ids::new_id;
use filesync_notes::matcher::{build_matcher, collect_folder_files, WalkEntry};
use filesync_notes::models::{
    AppSettings, RuleDraft, RuleKind, RuleSyncState, SyncRule, SyncTrigger,
};
use filesync_notes::outcome::{run_rule_sync, RuleRunOutcome};
use filesync_notes::paths::{split_file_name, ParsedPath};
use filesync_notes::rules::{build_rule, PathState};
use filesync_notes::sync_engine::{
    capture_rule_sync_state, files_match, inspection, needs_digest, FileMeta, Likeness, RuleSide,
    RunCounts, SidesSeen, SyncAction, SyncEvent, SyncRun, FILE_SYNC_ENTRY,
};
use std::collections::{BTreeMap, BTreeSet};

#[derive(Clone, Debug, PartialEq)]
struct File {
    bytes: Vec<u8>,
    modified: Timestamp,
}

#[derive(Clone, Debug, Default, PartialEq)]
struct Disk {
    files: BTreeMap<String, File>,
    folders: BTreeSet<String>,
    broken: BTreeSet<String>,
    saved: usize,
}

fn at(seconds: i64) -> Timestamp {
    Timestamp { seconds, nanos: 0 }
}

fn failure(text: &str) -> IoFailure {
    IoFailure { text: text.to_string(), os_code: None }
}

impl Disk {
    fn write(&mut self, path: &str, content: &str, seconds: i64) {
        self.files.insert(
            path.to_string(),
            File { bytes: content.as_bytes().to_vec(), modified: at(seconds) },
        );
    }

    fn text(&self, path: &str) -> Option<String> {
        self.files.get(path).map(|f| String::from_utf8(f.bytes.clone()).unwrap())
    }

    fn state(&self, path: &str) -> PathState {
        let inside = format!("{path}/");
        if self.files.contains_key(path) {
            PathState::File
        } else if self.folders.contains(path) || self.files.keys().any(|k| k.starts_with(&inside)) {
            PathState::Folder
        } else {
            PathState::Missing
        }
    }

    fn under(&self, root: &str) -> usize {
        let inside = format!("{root}/");
        self.files.keys().filter(|k| k.starts_with(&inside)).count()
    }

    fn meta(&self, path: &str) -> Option<FileMeta> {
        self.files.get(path).map(|f| FileMeta {
            len: f.bytes.len() as u64,
            modified: f.modified,
            is_file: true,
        })
    }

    fn digest(&self, path: &str) -> String {
        let bytes = &self.files[path].bytes;
        let pieces: Vec<Vec<u8>> = bytes.chunks(3).map(|c| c.to_vec()).collect();
        hash_file(&pieces)
    }

    fn copy(&mut self, source: &str, target: &str) -> Result<(), String> {
        let name = target.rsplit('/').next().unwrap();
        let parent = target[..target.len() - name.len() - 1].to_string();
        let stem = split_file_name(name).0;
        let temp = format!("{parent}/{}", temp_file_name(Some(&stem), &new_id()));
        let mut run = CopyRun::new(
            source.to_string(),
            target.to_string(),
            temp.clone(),
            Some(parent.clone()),
        );
        let mut event = CopyEvent::Begin;
        loop {
            assert!(run.accepts(&event));
            event = match run.copy_file_atomic(event) {
                CopyAction::CreateParent => {
                    self.folders.insert(parent.clone());
                    CopyEvent::Done
                }
                CopyAction::OpenSource => {
                    if self.files.contains_key(source) && !self.broken.contains(source) {
                        CopyEvent::Done
                    } else {
                        CopyEvent::Failed(failure("unreadable"))
                    }
                }
                CopyAction::CreateTemp => {
                    self.write(&temp, "", 0);
                    CopyEvent::Done
                }
                CopyAction::WriteTemp => {
                    let bytes = self.files[source].bytes.clone();
                    self.files.insert(temp.clone(), File { bytes, modified: at(9_999) });
                    CopyEvent::Done
                }
                CopyAction::ProbeTarget => CopyEvent::Exists(self.files.contains_key(target)),
                CopyAction::RenameTemp => {
                    let file = self.files.remove(&temp).unwrap();
                    self.files.insert(target.to_string(), file);
                    CopyEvent::Done
                }
                CopyAction::WriteModified => {
                    let modified = self.files[source].modified;
                    self.files.get_mut(target).unwrap().modified = modified;
                    CopyEvent::Done
                }
                CopyAction::Finish(result) => return result,
                _ => CopyEvent::Done,
            };
        }
    }
}

fn place(location: &Location) -> String {
    format!("{}/{}", location.parent, location.names.join("/"))
}

fn path_of(rule: &SyncRule, side: RuleSide, entry: &str) -> String {
    let root = match side {
        RuleSide::Source => &rule.source_path,
        RuleSide::Target => &rule.target_path,
    };
    if entry == FILE_SYNC_ENTRY { root.clone() } else { format!("{root}/{entry}") }
}

fn listing(rule: &SyncRule, disk: &Disk, side: RuleSide) -> Result<Vec<String>, String> {
    let root = match side {
        RuleSide::Source => &rule.source_path,
        RuleSide::Target => &rule.target_path,
    };
    let matcher = build_matcher(rule)?;
    let inside = format!("{root}/");
    let entries: Vec<WalkEntry> = disk
        .files
        .keys()
        .filter(|k| k.starts_with(&inside))
        .map(|k| WalkEntry {
            components: ParsedPath::read(&k[inside.len()..]).components,
            is_dir: false,
        })
        .collect();
    Ok(collect_folder_files(&entries, &matcher).keys)
}

fn drive(rule: &SyncRule, disk: &mut Disk) -> Result<RunCounts, String> {
    let mut run = SyncRun::new(rule);
    let mut event = SyncEvent::Begin;
    loop {
        assert!(run.accepts(&event));
        event = match run.sync_rule_files(event) {
            SyncAction::List(side) => match listing(rule, disk, side) {
                Ok(keys) => SyncEvent::Listed(keys),
                Err(message) => SyncEvent::Failed(message),
            },
            SyncAction::CreateFolder(_) => {
                disk.folders.insert(rule.target_path.clone());
                SyncEvent::Done
            }
            SyncAction::EnsureParent(_) => SyncEvent::Done,
            SyncAction::Inspect(entry) => SyncEvent::Found {
                source: disk.meta(&path_of(rule, RuleSide::Source, &entry)),
                target: disk.meta(&path_of(rule, RuleSide::Target, &entry)),
            },
            SyncAction::Digest(entry) => SyncEvent::Digests {
                source: disk.digest(&path_of(rule, RuleSide::Source, &entry)),
                target: disk.digest(&path_of(rule, RuleSide::Target, &entry)),
            },
            SyncAction::Probe { entry, side } => {
                SyncEvent::Exists(disk.files.contains_key(&path_of(rule, side, &entry)))
            }
            SyncAction::Backup { entry, side } => {
                let relative = if entry == FILE_SYNC_ENTRY { None } else { Some(entry.as_str()) };
                let path = path_of(rule, side, &entry);
                let there = disk.files.contains_key(&path);
                match backup_rule_file(rule, side, relative, there) {
                    Ok(Some(plan)) => {
                        let file = disk.files[&path].clone();
                        disk.files.insert(place(&plan.file), file);
                        disk.saved += 1;
                        SyncEvent::Done
                    }
                    Ok(None) => SyncEvent::Done,
                    Err(message) => SyncEvent::Failed(message),
                }
            }
            SyncAction::Copy { entry, from } => {
                let source = path_of(rule, from, &entry);
                let target = path_of(rule, from.opposite(), &entry);
                match disk.copy(&source, &target) {
                    Ok(()) => SyncEvent::Done,
                    Err(message) => SyncEvent::Failed(message),
                }
            }
            SyncAction::Remove { entry, side } => {
                disk.files.remove(&path_of(rule, side, &entry));
                SyncEvent::Done
            }
            SyncAction::RemoveEmptyFolders(_) => SyncEvent::Done,
            SyncAction::PurgeBackups => SyncEvent::Done,
            SyncAction::Finish(result) => return result,
        };
    }
}

fn sync(rule: &SyncRule, disk: &mut Disk) -> RuleRunOutcome {
    let started = current_time();
    let result = drive(rule, disk);
    run_rule_sync(rule, SyncTrigger::Manual, started, result)
}

fn capture(rule: &SyncRule, disk: &Disk) -> RuleSyncState {
    let seen = match rule.kind {
        RuleKind::File => {
            let source = disk.meta(&rule.source_path);
            let target = disk.meta(&rule.target_path);
            let same_digest = match (source, target) {
                (Some(s), Some(t)) => {
                    files_match(s, t) == Likeness::Unknown
                        && disk.digest(&rule.source_path) == disk.digest(&rule.target_path)
                }
                _ => false,
            };
            SidesSeen::Files { source, target, same_digest }
        }
        RuleKind::Folder => SidesSeen::Folders {
            source: listing(rule, disk, RuleSide::Source).unwrap(),
            target: listing(rule, disk, RuleSide::Target).unwrap(),
        },
    };
    capture_rule_sync_state(rule.bidirectional, &seen)
}

fn make_rule(
    name: &str,
    kind: RuleKind,
    source: &str,
    target: &str,
    bidirectional: bool,
    disk: &Disk,
) -> SyncRule {
    let settings = AppSettings::default();
    let draft = RuleDraft {
        name: name.into(),
        enabled: true,
        kind,
        source_path: source.to_string(),
        target_path: target.to_string(),
        bidirectional,
        auto_sync: true,
        watch_enabled: true,
        poll_fallback_enabled: true,
        poll_interval_sec: 300,
        include_globs: Vec::new(),
        exclude_globs: Vec::new(),
    };
    build_rule(None, draft, &settings, disk.state(source), disk.state(target)).unwrap()
}

fn backup_root(path: &str) -> String {
    place(&backup_root_for_side(&ParsedPath::read(path)).unwrap())
}

#[test]
fn first_sync_creates_target_without_backup() {
    let mut disk = Disk::default();
    disk.write("/tmp/t/note.md", "hello", 10);
    let target = "/tmp/t/project/README.md";
    let rule = make_rule("README", RuleKind::File, "/tmp/t/note.md", target, false, &disk);

    let outcome = sync(&rule, &mut disk);
    assert!(disk.files.contains_key(target));
    assert_eq!(disk.text(target).unwrap(), "hello");
    assert_eq!(outcome.last_result.backup_count, 0);
    assert_eq!(outcome.last_result.copied_count, 1);
    assert_eq!(
        outcome.last_result.message,
        "同步完成：新增 1，更新 0，删除 0，未变更 0，备份 0。"
    );
    assert!(outcome.last_result.success);
    assert_eq!(disk.files[target].modified, at(10));
    assert_eq!(disk.files.len(), 2);
}

#[test]
fn unchanged_file_does_not_create_backup() {
    let mut disk = Disk::default();
    let target = "/tmp/t/project/README.md";
    disk.write("/tmp/t/note.md", "same-content", 10);
    disk.write(target, "same-content", 20);
    let rule = make_rule("README", RuleKind::File, "/tmp/t/note.md", target, false, &disk);

    let outcome = sync(&rule, &mut disk);
    assert_eq!(outcome.last_result.backup_count, 0);
    assert_eq!(outcome.last_result.skipped_count, 1);
    assert_eq!(disk.under(&backup_root(target)), 0);
    assert_eq!(
        outcome.last_result.message,
        "同步完成：两侧内容已是最新状态（未变更 1）。"
    );
}

#[test]
fn changed_file_creates_backup_once() {
    let mut disk = Disk::default();
    let target = "/tmp/t/project/README.md";
    disk.write("/tmp/t/note.md", "new-content", 10);
    disk.write(target, "old-content", 20);
    let rule = make_rule("README", RuleKind::File, "/tmp/t/note.md", target, false, &disk);

    let outcome = sync(&rule, &mut disk);
    assert_eq!(outcome.last_result.backup_count, 1);
    assert_eq!(outcome.last_result.updated_count, 1);
    assert_eq!(disk.text(target).unwrap(), "new-content");
    assert_eq!(disk.under(&backup_root(target)), 1);
    let saved = disk.files.keys().find(|k| k.starts_with("/tmp/t/project/.back/")).unwrap();
    let name = &saved["/tmp/t/project/.back/".len()..];
    assert!(name.starts_with("README--"));
    assert!(name.ends_with(".md"));
    assert_eq!(name.len(), "README--20260101-000000.md".len());
    assert_eq!(disk.text(&saved.clone()).unwrap(), "old-content");
}

#[test]
fn backup_of_a_run_is_shown_by_the_preview() {
    let mut disk = Disk::default();
    let target = "/tmp/t/project/README.md";
    disk.write("/tmp/t/note.md", "new-content", 10);
    disk.write(target, "old-content", 20);
    let rule = make_rule("README", RuleKind::File, "/tmp/t/note.md", target, false, &disk);
    assert_eq!(drive(&rule, &mut disk).unwrap().backup_count, 1);
    let root = format!("{}/", backup_root(target));
    let entries = disk
        .files
        .keys()
        .filter(|path| path.starts_with(&root))
        .map(|path| BackupEntry {
            path: path.clone(),
            name: path[root.len()..].to_string(),
            components: ParsedPath::read(&path[root.len()..]).components,
            is_file: true,
            is_dir: false,
        })
        .collect();
    let listing = BackupListing::Entries(entries);
    let preview = preview_rule_cleanup(&rule, &BackupListing::Missing, &listing).unwrap();
    assert_eq!((preview.file_count, preview.folder_count), (1, 0));
    assert!(preview.candidates[0].path.starts_with(&format!("{root}README--")));
    assert_eq!(disk.text(&preview.candidates[0].path).unwrap(), "old-content");
}

#[test]
fn counts_add_up_to_the_entries() {
    let mut disk = Disk::default();
    disk.write("/tmp/t/notes/same.md", "one", 5);
    disk.write("/tmp/t/docs/same.md", "one", 5);
    disk.write("/tmp/t/notes/new.md", "two", 6);
    disk.write("/tmp/t/notes/changed.md", "after", 9);
    disk.write("/tmp/t/docs/changed.md", "before", 7);
    disk.write("/tmp/t/docs/dropped.md", "old", 8);
    let mut rule = make_rule("r", RuleKind::Folder, "/tmp/t/notes", "/tmp/t/docs", true, &disk);
    rule.sync_state.mirrored_entries =
        vec!["dropped.md".to_string(), "long-gone.md".to_string(), "same.md".to_string()];
    let counts = drive(&rule, &mut disk).unwrap();
    assert_eq!(counts.copied_count, 1);
    assert_eq!(counts.updated_count, 1);
    assert_eq!(counts.deleted_count, 1);
    assert_eq!(counts.skipped_count, 2);
    assert_eq!(counts.backup_count, 2);
}

#[test]
fn unchanged_folder_file_does_not_create_backup() {
    let mut disk = Disk::default();
    disk.write("/tmp/t/notes/guide.md", "same-folder-content", 10);
    disk.write("/tmp/t/docs/guide.md", "same-folder-content", 20);
    let rule = make_rule("docs", RuleKind::Folder, "/tmp/t/notes", "/tmp/t/docs", false, &disk);

    let outcome = sync(&rule, &mut disk);
    assert_eq!(outcome.last_result.backup_count, 0);
    assert_eq!(outcome.last_result.skipped_count, 1);
    assert_eq!(disk.under(&backup_root("/tmp/t/docs")), 0);
}

#[test]
fn single_direction_folder_moves_extra_target_files_to_backup() {
    let mut disk = Disk::default();
    disk.write("/tmp/t/notes/guide.md", "source-guide", 10);
    disk.write("/tmp/t/docs/guide.md", "source-guide", 20);
    disk.write("/tmp/t/docs/nested/old.md", "legacy", 30);
    let rule = make_rule("docs", RuleKind::Folder, "/tmp/t/notes", "/tmp/t/docs", false, &disk);

    let outcome = sync(&rule, &mut disk);
    assert!(!disk.files.contains_key("/tmp/t/docs/nested/old.md"));
    assert_eq!(outcome.last_result.deleted_count, 1);
    assert_eq!(outcome.last_result.backup_count, 1);
    assert_eq!(disk.under(&backup_root("/tmp/t/docs")), 1);
    assert_eq!(disk.under("/tmp/t/.back/docs/nested"), 1);
}

#[test]
fn bidirectional_file_prefers_newer_timestamp() {
    let mut disk = Disk::default();
    disk.write("/tmp/t/left.md", "old-source", 1_700_000_000);
    disk.write("/tmp/t/right.md", "new-target", 1_700_000_100);
    let rule = make_rule("双向文件", RuleKind::File, "/tmp/t/left.md", "/tmp/t/right.md", true, &disk);

    let outcome = sync(&rule, &mut disk);
    assert_eq!(disk.text("/tmp/t/left.md").unwrap(), "new-target");
    assert_eq!(disk.text("/tmp/t/right.md").unwrap(), "new-target");
    assert_eq!(outcome.last_result.updated_count, 1);
    assert_eq!(outcome.last_result.backup_count, 1);
    assert_eq!(
        outcome.last_result.message,
        "双向同步完成：新增 0，更新 1，删除 0，未变更 0，备份 1。"
    );
}

#[test]
fn bidirectional_folder_syncs_missing_and_newer_files() {
    let mut disk = Disk::default();
    disk.write("/tmp/t/notes/source-only.md", "from-source", 1);
    disk.write("/tmp/t/notes/shared.md", "older-source", 1_700_000_000);
    disk.write("/tmp/t/docs/target-only.md", "from-target", 2);
    disk.write("/tmp/t/docs/shared.md", "newer-target", 1_700_000_100);
    let rule = make_rule("双向目录", RuleKind::Folder, "/tmp/t/notes", "/tmp/t/docs", true, &disk);

    let outcome = sync(&rule, &mut disk);
    assert_eq!(disk.text("/tmp/t/notes/target-only.md").unwrap(), "from-target");
    assert_eq!(disk.text("/tmp/t/docs/source-only.md").unwrap(), "from-source");
    assert_eq!(disk.text("/tmp/t/notes/shared.md").unwrap(), "newer-target");
    assert_eq!(disk.text("/tmp/t/docs/shared.md").unwrap(), "newer-target");
    assert_eq!(outcome.last_result.copied_count, 2);
    assert_eq!(outcome.last_result.updated_count, 1);
    assert_eq!(outcome.last_result.backup_count, 1);
}

#[test]
fn bidirectional_file_propagates_deletion_after_baseline_sync() {
    let mut disk = Disk::default();
    disk.write("/tmp/t/left.md", "shared-content", 1);
    disk.write("/tmp/t/right.md", "shared-content", 2);
    let mut rule =
        make_rule("双向文件删除", RuleKind::File, "/tmp/t/left.md", "/tmp/t/right.md", true, &disk);
    let first = sync(&rule, &mut disk);
    assert_eq!(first.last_result.skipped_count, 1);

    rule.sync_state = capture(&rule, &disk);
    assert_eq!(rule.sync_state.mirrored_entries, vec!["__file__".to_string()]);
    disk.files.remove("/tmp/t/left.md");

    let outcome = sync(&rule, &mut disk);
    assert!(!disk.files.contains_key("/tmp/t/left.md"));
    assert!(!disk.files.contains_key("/tmp/t/right.md"));
    assert_eq!(outcome.last_result.deleted_count, 1);
    assert_eq!(outcome.last_result.backup_count, 1);
    assert_eq!(disk.under(&backup_root("/tmp/t/right.md")), 1);
}

#[test]
fn bidirectional_folder_propagates_deletion_after_baseline_sync() {
    let mut disk = Disk::default();
    disk.write("/tmp/t/notes/shared.md", "shared-content", 1);
    disk.write("/tmp/t/docs/shared.md", "shared-content", 2);
    let mut rule =
        make_rule("双向目录删除", RuleKind::Folder, "/tmp/t/notes", "/tmp/t/docs", true, &disk);
    let first = sync(&rule, &mut disk);
    assert_eq!(first.last_result.skipped_count, 1);

    rule.sync_state = capture(&rule, &disk);
    assert_eq!(rule.sync_state.mirrored_entries, vec!["shared.md".to_string()]);
    disk.files.remove("/tmp/t/notes/shared.md");

    let outcome = sync(&rule, &mut disk);
    assert!(!disk.files.contains_key("/tmp/t/notes/shared.md"));
    assert!(!disk.files.contains_key("/tmp/t/docs/shared.md"));
    assert_eq!(outcome.last_result.deleted_count, 1);
    assert_eq!(outcome.last_result.backup_count, 1);
    assert_eq!(disk.under(&backup_root("/tmp/t/docs")), 1);
}

#[test]
fn second_run_finds_nothing_to_do() {
    let mut disk = Disk::default();
    disk.write("/tmp/t/notes/a.md", "one", 5);
    disk.write("/tmp/t/notes/sub/b.md", "two", 6);
    disk.write("/tmp/t/docs/a.md", "other", 7);
    disk.write("/tmp/t/docs/extra.md", "gone", 8);
    for both in [false, true] {
        let mut copy = disk.clone();
        let rule = make_rule("r", RuleKind::Folder, "/tmp/t/notes", "/tmp/t/docs", both, &copy);
        drive(&rule, &mut copy).unwrap();
        let before = copy.clone();
        let counts = drive(&rule, &mut copy).unwrap();
        assert_eq!(copy, before);
        assert_eq!(counts.copied_count + counts.updated_count + counts.deleted_count, 0);
        assert_eq!(counts.backup_count, 0);
        assert_eq!(counts.skipped_count, if both { 3 } else { 2 });
    }
}

#[test]
fn one_way_run_leaves_the_source_alone() {
    let mut disk = Disk::default();
    disk.write("/tmp/t/notes/a.md", "one", 5);
    disk.write("/tmp/t/docs/a.md", "newer and longer", 900);
    let rule = make_rule("r", RuleKind::Folder, "/tmp/t/notes", "/tmp/t/docs", false, &disk);
    let counts = drive(&rule, &mut disk).unwrap();
    assert_eq!(disk.text("/tmp/t/notes/a.md").unwrap(), "one");
    assert_eq!(disk.text("/tmp/t/docs/a.md").unwrap(), "one");
    assert_eq!(counts.updated_count, 1);
    assert_eq!(disk.saved, 1);
}

#[test]
fn files_that_are_not_selected_are_left_alone() {
    let mut disk = Disk::default();
    disk.write("/tmp/t/notes/a.md", "one", 5);
    disk.write("/tmp/t/notes/a.tmp", "draft", 5);
    disk.write("/tmp/t/docs/keep.tmp", "mine", 5);
    let mut rule = make_rule("r", RuleKind::Folder, "/tmp/t/notes", "/tmp/t/docs", false, &disk);
    rule.exclude_globs = vec!["*.tmp".to_string()];
    drive(&rule, &mut disk).unwrap();
    assert_eq!(disk.text("/tmp/t/docs/a.md").unwrap(), "one");
    assert!(!disk.files.contains_key("/tmp/t/docs/a.tmp"));
    assert_eq!(disk.text("/tmp/t/docs/keep.tmp").unwrap(), "mine");
}

#[test]
fn file_of_the_same_length_and_time_is_taken_for_the_same() {
    let mut disk = Disk::default();
    disk.write("/tmp/t/a.md", "abc", 5);
    disk.write("/tmp/t/b/a.md", "xyz", 5);
    let rule = make_rule("r", RuleKind::File, "/tmp/t/a.md", "/tmp/t/b/a.md", false, &disk);
    let counts = drive(&rule, &mut disk).unwrap();
    assert_eq!(counts.skipped_count, 1);
    assert_eq!(disk.text("/tmp/t/b/a.md").unwrap(), "xyz");
}

#[test]
fn two_way_file_rule_without_files_fails_until_it_was_in_step() {
    let mut disk = Disk::default();
    disk.write("/tmp/t/l.md", "x", 5);
    let mut rule = make_rule("r", RuleKind::File, "/tmp/t/l.md", "/tmp/t/r.md", true, &disk);
    disk.files.clear();
    let outcome = sync(&rule, &mut disk);
    assert!(!outcome.last_result.success);
    assert_eq!(outcome.last_result.message, "双向同步失败：源路径和目标路径都不存在。");
    assert_eq!(outcome.last_result.error_count, 1);
    rule.sync_state.mirrored_entries.push(FILE_SYNC_ENTRY.to_string());
    let outcome = sync(&rule, &mut disk);
    assert!(outcome.last_result.success);
    assert_eq!(outcome.last_result.skipped_count, 1);
}

#[test]
fn two_way_file_rule_copies_the_only_file() {
    let mut disk = Disk::default();
    disk.write("/tmp/t/r.md", "only", 5);
    let rule = make_rule("r", RuleKind::File, "/tmp/t/l.md", "/tmp/t/r.md", true, &disk);
    let counts = drive(&rule, &mut disk).unwrap();
    assert_eq!(counts.copied_count, 1);
    assert_eq!(disk.text("/tmp/t/l.md").unwrap(), "only");
    let counts = drive(&rule, &mut disk).unwrap();
    assert_eq!(counts.skipped_count, 1);
}

#[test]
fn source_wins_where_both_were_written_at_the_same_time() {
    let mut disk = Disk::default();
    disk.write("/tmp/t/l.md", "left", 5);
    disk.write("/tmp/t/r.md", "right", 5);
    let rule = make_rule("r", RuleKind::File, "/tmp/t/l.md", "/tmp/t/r.md", true, &disk);
    drive(&rule, &mut disk).unwrap();
    assert_eq!(disk.text("/tmp/t/l.md").unwrap(), "left");
    assert_eq!(disk.text("/tmp/t/r.md").unwrap(), "left");
}

#[test]
fn failed_copy_ends_the_run_and_loses_nothing() {
    let mut disk = Disk::default();
    disk.write("/tmp/t/notes/a.md", "one", 5);
    disk.write("/tmp/t/notes/b.md", "two!", 5);
    disk.write("/tmp/t/docs/b.md", "old", 5);
    disk.broken.insert("/tmp/t/notes/b.md".to_string());
    let rule = make_rule("r", RuleKind::Folder, "/tmp/t/notes", "/tmp/t/docs", false, &disk);
    let outcome = sync(&rule, &mut disk);
    assert!(!outcome.last_result.success);
    assert_eq!(outcome.last_result.message, "读取源文件失败：/tmp/t/notes/b.md\nunreadable");
    assert_eq!(outcome.history_item.error_count, 1);
    assert_eq!(outcome.history_item.copied_count, 0);
    assert_eq!(disk.text("/tmp/t/docs/a.md").unwrap(), "one");
    assert_eq!(disk.text("/tmp/t/docs/b.md").unwrap(), "old");
    assert_eq!(disk.under("/tmp/t/.back/docs"), 1);
}

#[test]
fn broken_pattern_fails_the_run() {
    let mut disk = Disk::default();
    disk.write("/tmp/t/notes/a.md", "one", 5);
    let mut rule = make_rule("r", RuleKind::Folder, "/tmp/t/notes", "/tmp/t/docs", false, &disk);
    rule.include_globs = vec!["[".to_string()];
    let message = drive(&rule, &mut disk).unwrap_err();
    assert_eq!(message, globset::Glob::new("[").unwrap_err().to_string());
    assert_eq!(disk.files.len(), 1);
}

#[test]
fn report_that_does_not_answer_the_request_is_not_accepted() {
    let mut disk = Disk::default();
    disk.write("/tmp/t/notes/a.md", "one", 5);
    let rule = make_rule("r", RuleKind::Folder, "/tmp/t/notes", "/tmp/t/docs", true, &disk);
    let mut run = SyncRun::new(&rule);
    assert!(!run.accepts(&SyncEvent::Done));
    assert!(run.accepts(&SyncEvent::Begin));
    run.sync_rule_files(SyncEvent::Begin);
    assert!(!run.accepts(&SyncEvent::Listed(vec!["b".to_string(), "a".to_string()])));
    assert!(!run.accepts(&SyncEvent::Listed(vec!["a".to_string(), "a".to_string()])));
    assert!(run.accepts(&SyncEvent::Listed(vec!["a".to_string(), "b".to_string()])));
    assert!(run.accepts(&SyncEvent::Failed("x".to_string())));
}

#[test]
fn one_way_rule_remembers_no_mirrored_entries() {
    let seen = SidesSeen::Folders { source: vec!["a".to_string()], target: vec!["a".to_string()] };
    assert!(capture_rule_sync_state(false, &seen).mirrored_entries.is_empty());
    let seen = SidesSeen::Folders {
        source: vec!["a".to_string(), "b".to_string()],
        target: vec!["b".to_string(), "c".to_string()],
    };
    assert_eq!(capture_rule_sync_state(true, &seen).mirrored_entries, vec!["b".to_string()]);
}

#[test]
fn look_at_two_files_is_reported_by_the_rule() {
    let meta = |len: u64, seconds: i64| FileMeta { len, modified: at(seconds), is_file: true };
    let found = |kind, both, source: Result<FileMeta, &str>, target: Result<FileMeta, &str>| {
        let text = |e: &str| e.to_string();
        match inspection(kind, both, source.map_err(text), target.map_err(text)) {
            SyncEvent::Found { source, target } => Ok((source, target)),
            SyncEvent::Failed(message) => Err(message),
            other => panic!("{other:?}"),
        }
    };
    let (a, b) = (meta(1, 1), meta(2, 2));
    for kind in [RuleKind::File, RuleKind::Folder] {
        for both in [false, true] {
            assert_eq!(found(kind, both, Ok(a), Ok(b)), Ok((Some(a), Some(b))));
        }
        assert_eq!(found(kind, false, Ok(a), Err("t")), Ok((Some(a), None)));
        assert_eq!(found(kind, false, Err("s"), Err("t")), Ok((None, None)));
        assert_eq!(found(kind, false, Err("s"), Ok(b)), Err("s".to_string()));
    }
    assert_eq!(found(RuleKind::File, true, Err("s"), Ok(b)), Ok((None, Some(b))));
    assert_eq!(found(RuleKind::File, true, Err("s"), Err("t")), Ok((None, None)));
    assert_eq!(found(RuleKind::Folder, true, Err("s"), Err("t")), Err("s".to_string()));
    assert_eq!(found(RuleKind::Folder, true, Ok(a), Err("t")), Err("t".to_string()));
    assert!(needs_digest(Some(meta(3, 1)), Some(meta(3, 2))));
    assert!(!needs_digest(Some(meta(3, 1)), Some(meta(3, 1))));
    assert!(!needs_digest(Some(meta(3, 1)), Some(meta(4, 2))));
    assert!(!needs_digest(Some(FileMeta { is_file: false, ..meta(3, 1) }), Some(meta(3, 2))));
    assert!(!needs_digest(None, Some(meta(3, 2))));
}
