//! The state of the application, watching, the log and the window.
use filesync_notes::document::save_store;
use filesync_notes::json::{Json, JsonField};
use filesync_notes::keyed::KeyedList;
use filesync_notes::clock::Timestamp;
use filesync_notes::logs::{append_log, log_entry_at, log_lines, read_logs};
use filesync_notes::models::{
    AppLogEntry, AppSettings, PersistedStore, RuleDraft, RuleHealth, RuleKind, RuleLastResult,
    RuleSyncState, SyncHistoryItem, SyncRule, SyncTrigger,
};
use filesync_notes::outcome::run_rule_sync_at;
use filesync_notes::paths::ParsedPath;
use filesync_notes::rules::PathState;
use filesync_notes::saving::{SaveAction, SaveEvent, SaveRun};
use filesync_notes::shell::{
    hides_on_close, open_with_default_app, reveal_path, starts_hidden, tray_command, Reveal,
    TrayCommand,
};
use filesync_notes::state::{
    start_message, PathStates, SharedState, HISTORY_LIMIT, POLL_WAKE_UP_SEC, WATCH_DELAY_MILLIS,
};
use filesync_notes::store::deserialize_store_lossy;
use filesync_notes::store_files::{
    backup_store_file, repair_message, signed_decimal, store_backup_name_at, store_temp_name,
    store_temp_name_at,
};
use filesync_notes::sync_engine::RunCounts;
use filesync_notes::watching::{
    collect_watch_targets, is_relevant_change, watch_jobs, RefreshAction, RefreshEvent,
    WatchRefresh,
};

const SEEN: PathStates = PathStates { source: PathState::File, target: PathState::Missing };

fn draft(name: &str) -> RuleDraft {
    RuleDraft {
        name: name.to_string(),
        enabled: true,
        kind: RuleKind::File,
        source_path: "/a/s.md".to_string(),
        target_path: "/b/t.md".to_string(),
        bidirectional: false,
        auto_sync: true,
        watch_enabled: true,
        poll_fallback_enabled: true,
        poll_interval_sec: 60,
        include_globs: Vec::new(),
        exclude_globs: Vec::new(),
    }
}

fn state_with(names: &[&str]) -> (SharedState, Vec<String>) {
    let mut state = SharedState::new(PersistedStore::default());
    for name in names {
        state.create_rule(draft(name), SEEN).unwrap();
    }
    let ids = state.list_rules().iter().map(|r| r.id.clone()).collect();
    (state, ids)
}

fn outcome(rule: &SyncRule, second: i64, result: Result<RunCounts, String>) -> filesync_notes::outcome::RuleRunOutcome {
    let at = Timestamp { seconds: second, nanos: 0 };
    run_rule_sync_at(rule, SyncTrigger::Manual, at, at, result)
}

#[test]
fn rules_are_made_changed_and_removed() {
    let (mut state, ids) = state_with(&["one", "two"]);
    let mut bad = draft("x");
    bad.source_path = "relative".to_string();
    assert_eq!(state.create_rule(bad, SEEN).unwrap_err(), "请使用绝对路径。");
    assert_eq!(state.list_rules().len(), 2);

    let rule = state.get_rule(&ids[0]).unwrap();
    let mut counts = RunCounts::default();
    counts.copied_count = 1;
    state.apply_run_outcome(&ids[0], outcome(&rule, 50, Ok(counts)), None, SEEN);
    state.update_rule(ids[0].clone(), draft("renamed"), SEEN).unwrap();
    let rule = state.get_rule(&ids[0]).unwrap();
    assert_eq!(rule.name, "renamed");
    assert_eq!(rule.last_sync_at.as_deref(), Some("1970-01-01T00:00:50+00:00"));
    assert_eq!(rule.last_result.copied_count, 1);
    assert_eq!(
        state.update_rule("none".to_string(), draft("y"), SEEN).unwrap_err(),
        "未找到要更新的规则。"
    );

    state.toggle_rule_enabled(&ids[1], false).unwrap();
    assert_eq!(state.run_all_sync_command(), vec![ids[0].clone()]);
    assert_eq!(state.toggle_rule_enabled("none", true).unwrap_err(), "未找到要切换的规则。");

    state.delete_rule(&ids[0]);
    assert_eq!(state.get_rule(&ids[0]).unwrap_err(), "未找到对应的同步规则。");
    assert_eq!(state.get_rule(&ids[1]).unwrap().name, "two");
}

#[test]
fn snapshot_sums_up_what_is_shown() {
    let (mut state, ids) = state_with(&["one", "two", "three"]);
    let rule = state.get_rule(&ids[0]).unwrap();
    state.apply_run_outcome(&ids[0], outcome(&rule, 10, Ok(RunCounts::default())), None, SEEN);
    let rule = state.get_rule(&ids[1]).unwrap();
    let note = state.apply_run_outcome(&ids[1], outcome(&rule, 20, Err("oh".to_string())), None, SEEN);
    assert_eq!(note.level, "error");
    assert_eq!(note.message, "规则“two”执行失败，触发方式：Manual，消息：oh");
    state.toggle_rule_enabled(&ids[2], false).unwrap();
    let missing = PathStates { source: PathState::Missing, target: PathState::Missing };
    state.recompute_health_and_save(&vec![SEEN, SEEN, missing]);
    let mut failures = KeyedList::new();
    failures.insert(ids[0].clone(), "no".to_string());
    failures.insert(ids[2].clone(), "no".to_string());
    state.replace_watcher_failures(failures);
    let shown = state.snapshot();
    assert_eq!(shown.summary.total_rules, 3);
    assert_eq!(shown.summary.enabled_rules, 2);
    assert_eq!(shown.summary.invalid_rules, 2);
    assert_eq!(shown.summary.last_sync_at.as_deref(), Some("1970-01-01T00:00:20+00:00"));
    assert_eq!(shown.summary.last_error.as_deref(), Some("two：oh"));
    assert_eq!(shown.rules[0].health, RuleHealth::WatchUnavailable);
    assert_eq!(shown.rules[1].health, RuleHealth::Healthy);
    assert_eq!(shown.rules[2].health, RuleHealth::MissingSource);
    assert_eq!(shown.rules[2].config_error.as_deref(), Some("no"));
    assert_eq!(state.get_rule(&ids[0]).unwrap().health, RuleHealth::Healthy);
    assert_eq!(shown.history.len(), 2);
    assert!(!shown.automatic_sync_paused);
}

#[test]
fn history_holds_the_newest_runs() {
    let (mut state, ids) = state_with(&["one"]);
    let rule = state.get_rule(&ids[0]).unwrap();
    for second in 0..210 {
        state.apply_run_outcome(&ids[0], outcome(&rule, second, Ok(RunCounts::default())), None, SEEN);
    }
    let history = state.snapshot().history;
    assert_eq!(history.len(), HISTORY_LIMIT);
    assert_eq!(HISTORY_LIMIT, 200);
    assert_eq!(history[0].started_at, "1970-01-01T00:03:29+00:00");
    assert_eq!(history[199].started_at, "1970-01-01T00:00:10+00:00");
    state.clear_history();
    assert!(state.snapshot().history.is_empty());
}

#[test]
fn mirrored_entries_are_kept_after_success_only() {
    let (mut state, ids) = state_with(&["one"]);
    let rule = state.get_rule(&ids[0]).unwrap();
    let entries = || Some(RuleSyncState { mirrored_entries: vec!["x".to_string()] });
    state.apply_run_outcome(&ids[0], outcome(&rule, 1, Err("e".to_string())), entries(), SEEN);
    assert!(state.get_rule(&ids[0]).unwrap().sync_state.mirrored_entries.is_empty());
    let note = state.apply_run_outcome(&ids[0], outcome(&rule, 2, Ok(RunCounts::default())), entries(), SEEN);
    assert_eq!(note.level, "info");
    assert_eq!(state.get_rule(&ids[0]).unwrap().sync_state.mirrored_entries, vec!["x".to_string()]);
    state.apply_run_outcome("none", outcome(&rule, 3, Ok(RunCounts::default())), None, SEEN);
    assert_eq!(state.snapshot().history.len(), 3);
}

#[test]
fn requests_while_a_rule_runs_are_queued() {
    let (mut state, ids) = state_with(&["one"]);
    let id = ids[0].as_str();
    assert!(state.enqueue_background_sync(id, SyncTrigger::Watch));
    assert!(!state.enqueue_background_sync(id, SyncTrigger::Watch));
    assert!(!state.enqueue_background_sync(id, SyncTrigger::Poll));
    assert_eq!(
        state.run_rule_sync_now(id).unwrap_err(),
        "该规则正在同步中，请稍候再试。"
    );
    assert_eq!(state.next_background_run(id), Some(SyncTrigger::Poll));
    assert_eq!(state.next_background_run(id), None);
    assert!(state.run_rule_sync_now(id).is_ok());
    assert!(!state.enqueue_background_sync(id, SyncTrigger::Watch));
    state.finish_manual_run(id);
    assert!(state.enqueue_background_sync(id, SyncTrigger::Poll));
    assert_eq!(state.next_background_run(id), Some(SyncTrigger::Watch));
}

#[test]
fn last_change_is_acted_on() {
    let (mut state, ids) = state_with(&["one"]);
    let id = ids[0].as_str();
    assert!(!state.watch_sync_due(id, 0));
    assert!(state.can_schedule(id));
    let first = state.schedule_watch_sync(id);
    let second = state.schedule_watch_sync(id);
    assert!(!state.watch_sync_due(id, first));
    assert!(state.watch_sync_due(id, second));
    state.set_auto_sync_paused(true);
    assert!(!state.watch_sync_due(id, second));
    state.set_auto_sync_paused(false);
    state.delete_rule(id);
    assert!(!state.watch_sync_due(id, second));
}

#[test]
fn runs_are_planned() {
    let (mut state, ids) = state_with(&["one"]);
    let id = ids[0].as_str();
    assert!(state.run_rule_sync_no_queue(id, SyncTrigger::Poll).unwrap().is_some());
    assert_eq!(
        state.run_rule_sync_no_queue("none", SyncTrigger::Poll).unwrap_err(),
        "未找到对应的同步规则。"
    );
    state.set_auto_sync_paused(true);
    assert!(state.run_rule_sync_no_queue(id, SyncTrigger::Watch).unwrap().is_none());
    assert!(state.run_rule_sync_no_queue("none", SyncTrigger::Poll).unwrap().is_none());
    assert!(state.run_rule_sync_no_queue(id, SyncTrigger::Manual).unwrap().is_some());
    state.toggle_rule_enabled(id, false).unwrap();
    assert!(state.run_rule_sync_no_queue(id, SyncTrigger::Manual).unwrap().is_none());
    let rule = state.get_rule(id).unwrap();
    assert_eq!(
        start_message(&rule, SyncTrigger::Startup),
        "开始执行规则“one”，触发方式：Startup，源：/a/s.md，目标：/b/t.md"
    );
}

#[test]
fn polls_come_in_their_intervals() {
    let (mut state, ids) = state_with(&["one", "two"]);
    state.toggle_rule_enabled(&ids[1], false).unwrap();
    let targets = state.poll_targets();
    assert_eq!(targets.len(), 1);
    assert_eq!(targets[0].rule_id, ids[0]);
    assert_eq!(targets[0].interval_sec, 60);
    let second = 1_000_000_000;
    assert!(state.take_poll_turn(&ids[0], 60, 5 * second));
    assert!(!state.take_poll_turn(&ids[0], 60, 65 * second - 1));
    assert!(!state.take_poll_turn(&ids[0], 60, 0));
    assert!(state.take_poll_turn(&ids[0], 60, 65 * second));
    state.set_auto_sync_paused(true);
    assert!(state.poll_targets().is_empty());
}

#[test]
fn settings_are_replaced() {
    let (mut state, _) = state_with(&[]);
    let mut settings = AppSettings::default();
    settings.theme = "dark".to_string();
    state.save_settings(settings);
    assert_eq!(state.get_settings().theme, "dark");
    assert_eq!(state.persisted().settings.theme, "dark");
}

#[test]
fn watched_paths_are_found_once() {
    let read = |text: &str| ParsedPath::read(text);
    let targets = |kind, both, s: &str, t: &str, a, b| {
        collect_watch_targets(kind, both, &read(s), &read(t), a, b)
            .map(|list| list.into_iter().map(|t| (t.path, t.recursive)).collect::<Vec<_>>())
    };
    let file = RuleKind::File;
    let folder = RuleKind::Folder;
    assert_eq!(targets(file, false, "/a/s", "/b/t", true, true).unwrap(), [("/a".to_string(), false)]);
    assert_eq!(targets(file, true, "/a/s", "/a/t", true, true).unwrap(), [("/a".to_string(), false)]);
    assert_eq!(
        targets(folder, true, "/a/s", "/a/t", true, true).unwrap(),
        [("/a/s".to_string(), true), ("/a/t".to_string(), true)]
    );
    assert_eq!(targets(folder, true, "/a/s", "/a/t", false, true).unwrap(), [("/a/t".to_string(), true)]);
    assert_eq!(
        targets(folder, false, "/a/s", "/a/t", false, true).unwrap_err(),
        "当前没有可监听的已存在路径，请先创建任一侧目录或开启轮询兜底。"
    );
    assert_eq!(targets(file, false, "/", "/t", true, true).unwrap_err(), "文件路径缺少父目录，无法监听。");
}

#[test]
fn changes_concern_the_sides_of_a_rule() {
    let read = |text: &str| ParsedPath::read(text);
    let hit = |kind, both, path: &str| {
        is_relevant_change(kind, both, &read("/a/s"), &read("/b/t"), &vec![read("/x"), read(path)])
    };
    assert!(hit(RuleKind::File, false, "/a/s"));
    assert!(!hit(RuleKind::File, false, "/a/s/x"));
    assert!(!hit(RuleKind::File, false, "/b/t"));
    assert!(hit(RuleKind::File, true, "/b/t"));
    assert!(hit(RuleKind::Folder, false, "/a/s/x/y"));
    assert!(!hit(RuleKind::Folder, false, "/a/st"));
    assert!(hit(RuleKind::Folder, true, "/b/t/z"));
}

#[test]
fn refresh_watches_or_reports_every_rule() {
    let mut rules: Vec<SyncRule> = Vec::new();
    for (n, name) in ["ok", "gone", "broken", "deaf", "off"].iter().enumerate() {
        let mut rule = SyncRule::default();
        rule.id = format!("r{n}");
        rule.name = name.to_string();
        rule.kind = RuleKind::Folder;
        rule.source_path = format!("/{name}");
        rule.target_path = format!("/t/{name}");
        rule.bidirectional = *name == "deaf";
        rule.enabled = *name != "off";
        rules.push(rule);
    }
    let jobs = watch_jobs(&rules);
    assert_eq!(jobs.len(), 4);
    let mut refresh = WatchRefresh::new(jobs);
    let mut event = RefreshEvent::Begin;
    let mut kept = Vec::new();
    loop {
        assert!(refresh.accepts(&event));
        event = match refresh.refresh_watchers(event) {
            RefreshAction::Probe(i) => {
                let there = refresh.job(i).name != "gone";
                RefreshEvent::Exists { source: there, target: there }
            }
            RefreshAction::CreateWatcher(i) => {
                if refresh.job(i).name == "broken" {
                    RefreshEvent::Failed("none left".to_string())
                } else {
                    RefreshEvent::Done
                }
            }
            RefreshAction::Watch { path, recursive } => {
                assert!(recursive);
                if path == "/t/deaf" {
                    RefreshEvent::Failed("denied".to_string())
                } else {
                    RefreshEvent::Done
                }
            }
            RefreshAction::Keep(id) => {
                kept.push(id);
                RefreshEvent::Done
            }
            RefreshAction::Finish => break,
        };
    }
    assert_eq!(kept, ["r0"]);
    let (failures, warnings) = refresh.into_parts();
    assert_eq!(
        failures.get("r1").unwrap(),
        "监听不可用：当前没有可监听的已存在路径，请先创建任一侧目录或开启轮询兜底。"
    );
    assert_eq!(failures.get("r2").unwrap(), "监听器创建失败：none left");
    assert_eq!(failures.get("r3").unwrap(), "无法监听路径 /t/deaf：denied");
    assert_eq!(failures.get("r0"), None);
    assert_eq!(failures.get("r4"), None);
    assert_eq!(warnings.len(), 3);
    assert_eq!(
        warnings[1],
        "规则“broken”的自动监听已降级，不会阻止应用启动。监听器创建失败：none left"
    );
}

#[test]
fn log_is_read_from_its_end() {
    for content in ["", "a\nb\n", "a\r\n\n \nb", "x\r", "\n\n", "a\r\r\nb\r\n"] {
        let expected: Vec<&str> = content.lines().filter(|l| !l.trim().is_empty()).collect();
        assert_eq!(log_lines(content), expected);
    }
    let entry = |message: &str| AppLogEntry {
        timestamp: "t".to_string(),
        level: "info".to_string(),
        message: message.to_string(),
    };
    let shown = read_logs(&vec![Some(entry("1")), None, Some(entry("2"))]);
    assert_eq!(shown.iter().map(|e| e.message.as_str()).collect::<Vec<_>>(), ["2", "1"]);
    let made = log_entry_at("warn", "m", Timestamp { seconds: 0, nanos: 0 });
    assert_eq!(made.timestamp, "1970-01-01T00:00:00+00:00");
    assert_eq!((made.level.as_str(), made.message.as_str()), ("warn", "m"));
    assert_eq!(append_log("info", "now").message, "now");
}

#[test]
fn files_around_the_store_are_named() {
    let at = Timestamp { seconds: 1_700_000_000, nanos: 7_000_000 };
    assert_eq!(store_backup_name_at(at), "store.corrupt.1700000000007.json");
    assert_eq!(store_temp_name_at(at), "store.1700000000007.tmp");
    assert!(backup_store_file().starts_with("store.corrupt.1"));
    assert!(store_temp_name().ends_with(".tmp"));
    assert_eq!(signed_decimal(-5), "-5");
    assert_eq!(signed_decimal(i64::MIN), i64::MIN.to_string());
    assert_eq!(
        repair_message(&Ok("/x".to_string()), "w"),
        "检测到配置异常，已自动修复。原配置已备份到 /x。w"
    );
    assert_eq!(
        repair_message(&Err("e".to_string()), "w"),
        "检测到配置异常，已自动修复。原配置备份失败：e。w"
    );
}

/// Drives a save of `new` over `old`. The first so many moves fail; `stuck`
/// says that the store cannot be removed.
fn save(
    old: Option<&str>,
    moves_fail: usize,
    stuck: bool,
) -> (Option<String>, Option<String>, Result<(), String>) {
    let mut store = old.map(|s| s.to_string());
    let mut temp: Option<String> = None;
    let mut failing = moves_fail;
    let mut run = SaveRun::new();
    let mut event = SaveEvent::Begin;
    loop {
        assert!(run.accepts(&event));
        event = match run.step(event) {
            SaveAction::WriteTemp => {
                temp = Some("new".to_string());
                SaveEvent::Done
            }
            SaveAction::RenameTemp if failing > 0 => {
                failing -= 1;
                SaveEvent::Failed(format!("move {failing}"))
            }
            SaveAction::RenameTemp => {
                store = temp.take();
                SaveEvent::Done
            }
            SaveAction::Probe => SaveEvent::Exists(store.is_some()),
            SaveAction::RemoveStore if stuck => SaveEvent::Failed("stuck".to_string()),
            SaveAction::RemoveStore => {
                assert_eq!(temp.as_deref(), Some("new"));
                store = None;
                SaveEvent::Done
            }
            SaveAction::Finish(result) => return (store, temp, result),
        };
    }
}

#[test]
fn save_never_leaves_less_than_the_old_or_the_new() {
    let text = |s: &str| Some(s.to_string());
    assert_eq!(save(Some("old"), 0, false), (text("new"), None, Ok(())));
    assert_eq!(save(None, 0, false), (text("new"), None, Ok(())));
    assert_eq!(save(Some("old"), 1, false), (text("new"), None, Ok(())));
    assert_eq!(save(None, 1, false), (text("new"), None, Ok(())));
    assert_eq!(save(Some("old"), 1, true), (text("old"), text("new"), Err("stuck".to_string())));
    assert_eq!(save(Some("old"), 2, false), (None, text("new"), Err("move 0".to_string())));
    let mut run = SaveRun::new();
    assert!(!run.accepts(&SaveEvent::Done));
    run.step(SaveEvent::Begin);
    assert!(!run.accepts(&SaveEvent::Exists(true)));
    match run.step(SaveEvent::Failed("full".to_string())) {
        SaveAction::Finish(Err(message)) => assert_eq!(message, "full"),
        other => panic!("{other:?}"),
    }
    assert_eq!((WATCH_DELAY_MILLIS, POLL_WAKE_UP_SEC), (1500, 10));
}

#[test]
fn window_and_tray_ask_for_things() {
    let path = ParsedPath::read("/a/b");
    assert!(matches!(reveal_path(&path, PathState::File, true), Ok(Reveal::Select(a)) if a == "/select,/a/b"));
    assert!(matches!(reveal_path(&path, PathState::Folder, true), Ok(Reveal::Open(a)) if a == "/a/b"));
    assert!(matches!(reveal_path(&path, PathState::Missing, true), Ok(Reveal::Open(a)) if a == "/a"));
    assert_eq!(reveal_path(&path, PathState::Missing, false).unwrap_err(), "路径不存在：/a");
    assert_eq!(
        reveal_path(&ParsedPath::read("/"), PathState::Missing, false).unwrap_err(),
        "找不到可打开的父目录。"
    );
    assert!(open_with_default_app("/a", true).is_ok());
    assert_eq!(open_with_default_app("/a", false).unwrap_err(), "路径不存在：/a");
    assert_eq!(tray_command("show"), TrayCommand::ShowWindow);
    assert_eq!(tray_command("settings"), TrayCommand::ShowWindow);
    assert_eq!(tray_command("sync_now"), TrayCommand::SyncAll);
    assert_eq!(tray_command("toggle_pause"), TrayCommand::TogglePause);
    assert_eq!(tray_command("quit"), TrayCommand::Quit);
    assert_eq!(tray_command("x"), TrayCommand::Nothing);
}

#[test]
fn window_hides_as_the_settings_say() {
    assert!(hides_on_close(Some(true)));
    assert!(hides_on_close(None));
    assert!(!hides_on_close(Some(false)));
    assert!(starts_hidden(Some(true)));
    assert!(!starts_hidden(Some(false)));
    assert!(!starts_hidden(None));
}

#[test]
fn wake_up_polls_each_rule_that_is_due() {
    let (mut state, ids) = state_with(&["one", "two", "three"]);
    state.toggle_rule_enabled(&ids[2], false).unwrap();
    let second = 1_000_000_000;
    let mut wake_up = |now: u64| -> Vec<String> {
        let targets = state.poll_targets();
        targets
            .into_iter()
            .filter(|t| state.take_poll_turn(&t.rule_id, t.interval_sec, now))
            .map(|t| t.rule_id)
            .collect()
    };
    let first = wake_up(10 * second);
    assert_eq!(first.len(), 2);
    assert!(first.contains(&ids[0]) && first.contains(&ids[1]));
    assert!(wake_up(60 * second).is_empty());
    assert_eq!(wake_up(70 * second), first);
    assert!(wake_up(80 * second).is_empty());
}

fn to_value(json: &Json) -> serde_json::Value {
    match json {
        Json::Null => serde_json::Value::Null,
        Json::Bool(value) => serde_json::Value::Bool(*value),
        Json::Number { text, .. } => serde_json::from_str(text).unwrap(),
        Json::Text(text) => serde_json::Value::String(text.clone()),
        Json::Array(items) => serde_json::Value::Array(items.iter().map(to_value).collect()),
        Json::Object(fields) => serde_json::Value::Object(
            fields.iter().map(|f: &JsonField| (f.key.clone(), to_value(&f.value))).collect(),
        ),
    }
}

#[test]
fn written_store_comes_back() {
    let (mut state, ids) = state_with(&["one", "two"]);
    let rule = state.get_rule(&ids[0]).unwrap();
    state.apply_run_outcome(&ids[0], outcome(&rule, 9, Err("why".to_string())), None, SEEN);
    let text = serde_json::to_string_pretty(&to_value(&save_store(state.persisted()))).unwrap();
    let last = state.get_rule(&ids[0]).unwrap().last_result;
    let history = state.snapshot().history;
    let loaded = deserialize_store_lossy(
        &text,
        |_: &Json| -> Result<AppSettings, String> { Ok(AppSettings::default()) },
        |json: &Json| -> Result<RuleLastResult, String> {
            match json {
                Json::Object(fields) => match &fields[0].value {
                    _ if fields.len() == 11 => Ok(RuleLastResult::default()),
                    _ => Err("short".to_string()),
                },
                _ => Err("no object".to_string()),
            }
        },
        |_: &Json| -> Result<RuleSyncState, String> { Ok(RuleSyncState::default()) },
        |json: &Json| -> Result<SyncHistoryItem, String> {
            match json {
                Json::Object(fields) if fields.len() == 13 => Ok(history[0].clone()),
                _ => Err("short".to_string()),
            }
        },
    );
    assert!(!loaded.repaired, "{:?}", loaded.warnings);
    assert_eq!(loaded.store.rules.len(), 2);
    for (before, after) in state.persisted().rules.iter().zip(&loaded.store.rules) {
        assert_eq!(before.id, after.id);
        assert_eq!(before.name, after.name);
        assert_eq!(before.source_path, after.source_path);
        assert_eq!(before.target_path, after.target_path);
        assert_eq!(before.poll_interval_sec, after.poll_interval_sec);
        assert_eq!(before.last_sync_at, after.last_sync_at);
        assert_eq!(before.delete_policy, after.delete_policy);
    }
    assert_eq!(loaded.store.history.len(), 1);
    assert_eq!(last.message, "why");
}
