//! Loading the store.
use filesync_notes::json::{parse_json, Json};
use filesync_notes::keyed::KeyedList;
use filesync_notes::models::{
    AppSettings, DeletePolicy, RuleHealth, RuleKind, RuleLastResult, RuleSyncState,
    SyncHistoryItem, SyncRule, SyncTrigger,
};
use filesync_notes::state::apply_watcher_failures_to_rules;
use filesync_notes::store::{deserialize_store_lossy, StoreLoadOutcome};

fn member<'a>(json: &'a Json, key: &str) -> Option<&'a Json> {
    match json {
        Json::Object(fields) => fields.iter().find(|f| f.key == key).map(|f| &f.value),
        _ => None,
    }
}

fn decode_settings(json: &Json) -> Result<AppSettings, String> {
    let flag = |key: &str| match member(json, key) {
        Some(Json::Bool(value)) => Ok(*value),
        _ => Err(format!("missing field `{key}`")),
    };
    let number = |key: &str| match member(json, key) {
        Some(Json::Number { value: Some(value), .. }) => Ok(*value),
        _ => Err(format!("missing field `{key}`")),
    };
    Ok(AppSettings {
        launch_on_startup: flag("launchOnStartup")?,
        start_minimized_to_tray: flag("startMinimizedToTray")?,
        close_to_tray: flag("closeToTray")?,
        theme: match member(json, "theme") {
            Some(Json::Text(text)) => text.clone(),
            _ => return Err("missing field `theme`".to_string()),
        },
        show_notifications: flag("showNotifications")?,
        default_poll_interval_sec: number("defaultPollIntervalSec")?,
        backup_retention_days: number("backupRetentionDays")?,
    })
}

fn decode_last_result(json: &Json) -> Result<RuleLastResult, String> {
    match member(json, "message") {
        Some(Json::Text(message)) => {
            Ok(RuleLastResult { message: message.clone(), success: true, ..RuleLastResult::default() })
        }
        _ => Err("missing field `message`".to_string()),
    }
}

fn decode_sync_state(json: &Json) -> Result<RuleSyncState, String> {
    match member(json, "mirroredEntries") {
        Some(Json::Array(items)) => Ok(RuleSyncState {
            mirrored_entries: items
                .iter()
                .filter_map(|i| match i {
                    Json::Text(text) => Some(text.clone()),
                    _ => None,
                })
                .collect(),
        }),
        _ => Err("missing field `mirroredEntries`".to_string()),
    }
}

fn decode_history(json: &Json) -> Result<SyncHistoryItem, String> {
    match member(json, "ruleId") {
        Some(Json::Text(rule_id)) => Ok(SyncHistoryItem {
            rule_id: rule_id.clone(),
            rule_name: String::new(),
            started_at: String::new(),
            finished_at: String::new(),
            trigger: SyncTrigger::Manual,
            copied_count: 0,
            updated_count: 0,
            skipped_count: 0,
            backup_count: 0,
            deleted_count: 0,
            error_count: 0,
            success: true,
            message: String::new(),
        }),
        _ => Err("missing field `ruleId`".to_string()),
    }
}

fn load(content: &str) -> StoreLoadOutcome {
    deserialize_store_lossy(
        content,
        decode_settings,
        decode_last_result,
        decode_sync_state,
        decode_history,
    )
}

#[test]
fn deserialize_store_marks_invalid_rules_without_failing() {
    let content = r#"
        {
          "settings": {
            "launchOnStartup": false,
            "startMinimizedToTray": false,
            "closeToTray": true,
            "theme": "light",
            "showNotifications": true,
            "defaultPollIntervalSec": 300,
            "backupRetentionDays": 30
          },
          "rules": [
            {
              "id": "broken-rule",
              "name": "损坏规则",
              "enabled": true,
              "kind": "mystery",
              "sourcePath": "C:\\\\source.txt",
              "targetPath": "C:\\\\target.txt",
              "autoSync": true,
              "watchEnabled": true,
              "pollFallbackEnabled": true,
              "pollIntervalSec": 60,
              "includeGlobs": [],
              "excludeGlobs": []
            }
          ],
          "history": []
        }
        "#;

    let outcome = load(content);

    assert!(outcome.repaired);
    assert_eq!(outcome.store.rules.len(), 1);
    assert_eq!(outcome.store.rules[0].health, RuleHealth::InvalidConfiguration);
    assert!(outcome.store.rules[0].config_error.is_some());
    assert_eq!(
        outcome.store.rules[0].config_error.as_deref(),
        Some("规则类型“mystery”无效，已按文件规则载入。")
    );
    assert_eq!(outcome.store.rules[0].id, "broken-rule");
    assert_eq!(outcome.store.rules[0].source_path, "C:\\\\source.txt");
    assert_eq!(
        outcome.store.rules[0].last_result.message,
        "规则配置异常：规则类型“mystery”无效，已按文件规则载入。"
    );
    assert_eq!(outcome.store.rules[0].last_result.error_count, 1);
    assert!(!outcome.store.rules[0].watch_enabled);
    assert_eq!(
        outcome.warnings,
        vec!["规则“损坏规则”存在配置异常，已按异常规则加载。规则类型“mystery”无效，已按文件规则载入。".to_string()]
    );
}

#[test]
fn deserialize_store_recovers_from_invalid_json() {
    let outcome = load("{ not-json");

    assert!(outcome.repaired);
    assert_eq!(outcome.store.rules.len(), 1);
    assert_eq!(outcome.store.rules[0].health, RuleHealth::InvalidConfiguration);
    assert!(outcome.store.rules[0].last_result.message.contains("无法解析"));
    let error = serde_json::from_str::<serde_json::Value>("{ not-json").unwrap_err().to_string();
    assert_eq!(outcome.warnings, vec![format!("配置文件无法解析：{error}")]);
    assert_eq!(outcome.store.rules[0].name, "已损坏的规则配置");
    assert_eq!(outcome.store.rules[0].id.len(), 36);
}

#[test]
fn watcher_failures_only_mark_rule_unavailable() {
    let mut rule = SyncRule::default();
    rule.id = "rule-1".to_string();
    rule.name = "示例规则".to_string();

    let mut rules = vec![rule];
    let mut failures = KeyedList::new();
    failures.insert("rule-1".to_string(), "监听不可用：Access is denied.".to_string());

    apply_watcher_failures_to_rules(&mut rules, &failures);

    assert_eq!(rules[0].health, RuleHealth::WatchUnavailable);
    assert_eq!(rules[0].config_error.as_deref(), Some("监听不可用：Access is denied."));
}

#[test]
fn sound_document_is_loaded_as_it_is() {
    let outcome = load(
        r#"{"settings":{"launchOnStartup":true,"startMinimizedToTray":false,"closeToTray":false,
            "theme":"dark","showNotifications":false,"defaultPollIntervalSec":60,"backupRetentionDays":7},
            "rules":[{"id":"a","name":"A","kind":"folder","sourcePath":"/s","targetPath":"/t",
              "bidirectional":true,"pollIntervalSec":2,"includeGlobs":[" *.md ","",null],
              "syncState":{"mirroredEntries":["x"]},"lastSyncAt":"  ","lastResult":{"message":"ok"}}],
            "history":[{"ruleId":"a"}]}"#,
    );
    assert!(!outcome.repaired);
    assert!(outcome.warnings.is_empty());
    let rule = &outcome.store.rules[0];
    assert_eq!(rule.health, RuleHealth::Healthy);
    assert_eq!(rule.kind, RuleKind::Folder);
    assert_eq!(rule.delete_policy, DeletePolicy::MoveToBackup);
    assert!(rule.enabled && rule.bidirectional && rule.auto_sync && rule.watch_enabled);
    assert_eq!(rule.poll_interval_sec, 5);
    assert_eq!(rule.include_globs, vec!["*.md".to_string()]);
    assert_eq!(rule.sync_state.mirrored_entries, vec!["x".to_string()]);
    assert_eq!(rule.last_sync_at, None);
    assert_eq!(rule.last_result.message, "ok");
    assert_eq!(outcome.store.settings.theme, "dark");
    assert_eq!(outcome.store.history.len(), 1);
}

#[test]
fn every_fault_of_a_rule_is_told_in_order() {
    let outcome = load(
        r#"{"rules":[{"id":1,"name":" ","kind":3,"sourcePath":false,"targetPath":"","enabled":"x",
            "bidirectional":0,"autoSync":[],"watchEnabled":{},"pollFallbackEnabled":"y",
            "pollIntervalSec":-4,"includeGlobs":[1,"a",null,true],"excludeGlobs":7,
            "syncState":0,"lastSyncAt":9,"lastResult":1}]}"#,
    );
    let rule = &outcome.store.rules[0];
    assert_eq!(
        rule.config_error.as_deref().unwrap(),
        [
            "字段“id”不是字符串。",
            "缺少规则 ID，已重新生成。",
            "缺少规则名称，已使用默认名称。",
            "字段“kind”不是字符串。",
            "缺少规则类型，已按文件规则载入。",
            "字段“sourcePath”不是字符串。",
            "源路径缺失。",
            "目标路径缺失。",
            "字段“enabled”不是布尔值。",
            "字段“bidirectional”不是布尔值。",
            "字段“autoSync”不是布尔值。",
            "字段“watchEnabled”不是布尔值。",
            "字段“pollFallbackEnabled”不是布尔值。",
            "字段“pollIntervalSec”不是正整数。",
            "字段“includeGlobs”中有 2 项不是字符串，已忽略。",
            "字段“excludeGlobs”不是字符串数组。",
            "同步清单格式异常，已重置：missing field `mirroredEntries`",
            "字段“lastSyncAt”不是字符串。",
            "最近一次同步结果格式异常，已重置：missing field `message`",
        ]
        .join(" ")
    );
    assert_eq!(rule.name, "异常规则 1");
    assert_eq!(rule.poll_interval_sec, 300);
    assert_eq!(rule.include_globs, vec!["a".to_string()]);
    assert!(rule.enabled);
}

#[test]
fn poll_interval_that_is_no_number_is_told() {
    let outcome = load(r#"{"rules":[{"id":"a","name":"b","kind":"file","sourcePath":"/s","targetPath":"/t","pollIntervalSec":"5"}]}"#);
    assert_eq!(
        outcome.store.rules[0].config_error.as_deref(),
        Some("字段“pollIntervalSec”不是数字。")
    );
}

#[test]
fn message_of_an_old_result_is_kept_in_front() {
    let outcome = load(r#"{"rules":[{"id":"a","name":"b","kind":"x","sourcePath":"/s","targetPath":"/t","lastResult":{"message":"done"}}]}"#);
    assert_eq!(
        outcome.store.rules[0].last_result.message,
        "done | 配置异常：规则类型“x”无效，已按文件规则载入。"
    );
    assert!(!outcome.store.rules[0].last_result.success);
}

#[test]
fn parts_of_the_wrong_sort_are_told() {
    let outcome = load("[1]");
    assert_eq!(outcome.warnings, vec!["配置文件根节点不是对象，已重建默认配置。".to_string()]);
    assert_eq!(outcome.store.rules[0].name, "已损坏的规则配置");

    let outcome = load(r#"{"rules":5,"history":6,"settings":{}}"#);
    assert_eq!(
        outcome.warnings,
        vec![
            "设置项格式异常，已恢复默认值：missing field `launchOnStartup`".to_string(),
            "规则列表格式异常，已标记为损坏规则。".to_string(),
            "同步历史格式异常，已重置为空。".to_string(),
        ]
    );
    assert_eq!(outcome.store.settings.default_poll_interval_sec, 300);

    let outcome = load(r#"{"rules":[7],"history":[{"ruleId":"a"},3]}"#);
    assert_eq!(
        outcome.warnings,
        vec![
            "第 1 条规则不是有效对象，已标记为异常。".to_string(),
            "第 2 条历史记录格式异常，已跳过：missing field `ruleId`".to_string(),
        ]
    );
    assert_eq!(outcome.store.rules[0].name, "异常规则 1");
    assert_eq!(outcome.store.history.len(), 1);

    let outcome = load("{}");
    assert!(!outcome.repaired);
    assert!(outcome.store.rules.is_empty());
}

#[test]
fn json_values_are_taken_over_one_for_one() {
    let json = parse_json(r#"{"a":[null,true,7,-7,1.5,"x"],"b":{}}"#).unwrap();
    match member(&json, "a") {
        Some(Json::Array(items)) => {
            assert_eq!(items.len(), 6);
            assert!(matches!(items[0], Json::Null));
            assert!(matches!(items[1], Json::Bool(true)));
            assert!(matches!(&items[2], Json::Number { value: Some(7), text } if text == "7"));
            assert!(matches!(&items[3], Json::Number { value: None, text } if text == "-7"));
            assert!(matches!(&items[4], Json::Number { value: None, text } if text == "1.5"));
            assert!(matches!(&items[5], Json::Text(text) if text == "x"));
        }
        _ => panic!("no list"),
    }
    assert!(matches!(member(&json, "b"), Some(Json::Object(fields)) if fields.is_empty()));
    assert!(parse_json("").is_err());
}
