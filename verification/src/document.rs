//! Writing down what is kept between two starts, and what becomes of it when
//! it is loaded again.
use crate::json::{
    field_views, item_views, json_array_view, json_document, json_object_view, member, same_members,
    Json, JsonField, JsonView,
};
use crate::models::{
    AppSettings, DeletePolicy, DraftView, HistoryView, LastResultView, PersistedStore, RuleHealth,
    RuleKind, RuleLastResult, RuleSyncState, RuleView, SettingsView, StoreView, SyncHistoryItem, SyncRule,
    SyncTrigger,
};
use crate::rules::{
    bare_path, delete_policy_of, drafted_rule, sanitized, sanitized_patterns_are_trimmed,
    MIN_POLL_INTERVAL_SEC,
};
use crate::store::{
    decoded_by, decoded_history, decoded_history_warnings, loaded_rule, loaded_rule_warnings,
    loaded_store, other_items, rule_issues, rule_list_warnings, rule_parts_of, store_parts_of,
    string_items, RulePartsView, StorePartsView,
};
use crate::text::{
    decimal, decimal_count, decimal_text, is_blank_text, opt_text, texts, trim_is_idempotent,
    trim_text, CharClass,
};
use vstd::prelude::*;
use vstd::string::*;

verus! {

broadcast use vstd::string::group_string_axioms;

pub open spec fn number_document(n: nat) -> JsonView {
    JsonView::Number { value: Some(n as u64), text: decimal_text(n) }
}

pub open spec fn opt_text_document(text: Option<Seq<char>>) -> JsonView {
    match text {
        Some(inner) => JsonView::Text(inner),
        None => JsonView::Null,
    }
}

pub open spec fn texts_document(list: Seq<Seq<char>>) -> JsonView {
    JsonView::Array(list.map_values(|t: Seq<char>| JsonView::Text(t)))
}

/// How the kind of a rule is written.
pub open spec fn kind_word(kind: RuleKind) -> Seq<char> {
    match kind {
        RuleKind::File => "file"@,
        RuleKind::Folder => "folder"@,
    }
}

pub open spec fn policy_word(policy: DeletePolicy) -> Seq<char> {
    match policy {
        DeletePolicy::NoDelete => "noDelete"@,
        DeletePolicy::MoveToBackup => "moveToBackup"@,
    }
}

pub open spec fn trigger_word(trigger: SyncTrigger) -> Seq<char> {
    match trigger {
        SyncTrigger::Manual => "manual"@,
        SyncTrigger::Watch => "watch"@,
        SyncTrigger::Poll => "poll"@,
        SyncTrigger::Startup => "startup"@,
        SyncTrigger::Cleanup => "cleanup"@,
    }
}

pub open spec fn health_word(health: RuleHealth) -> Seq<char> {
    match health {
        RuleHealth::Healthy => "healthy"@,
        RuleHealth::MissingSource => "missingSource"@,
        RuleHealth::InvalidSourceType => "invalidSourceType"@,
        RuleHealth::InvalidTargetPath => "invalidTargetPath"@,
        RuleHealth::OverlappingDirectories => "overlappingDirectories"@,
        RuleHealth::InvalidConfiguration => "invalidConfiguration"@,
        RuleHealth::WatchUnavailable => "watchUnavailable"@,
    }
}

pub open spec fn last_result_document(r: LastResultView) -> JsonView {
    JsonView::Object(
        seq![
            ("success"@, JsonView::Bool(r.success)),
            ("message"@, JsonView::Text(r.message)),
            (
                "trigger"@,
                match r.trigger {
                    Some(trigger) => JsonView::Text(trigger_word(trigger)),
                    None => JsonView::Null,
                },
            ),
            ("startedAt"@, opt_text_document(r.started_at)),
            ("finishedAt"@, opt_text_document(r.finished_at)),
            ("copiedCount"@, number_document(r.copied_count as nat)),
            ("updatedCount"@, number_document(r.updated_count as nat)),
            ("skippedCount"@, number_document(r.skipped_count as nat)),
            ("backupCount"@, number_document(r.backup_count as nat)),
            ("deletedCount"@, number_document(r.deleted_count as nat)),
            ("errorCount"@, number_document(r.error_count as nat)),
        ],
    )
}

pub open spec fn sync_state_document(mirrored: Seq<Seq<char>>) -> JsonView {
    JsonView::Object(seq![("mirroredEntries"@, texts_document(mirrored))])
}

/// The members of the object that a rule is written as.
pub open spec fn rule_fields(rule: RuleView) -> Seq<(Seq<char>, JsonView)> {
    seq![
        ("id"@, JsonView::Text(rule.id)),
        ("name"@, JsonView::Text(rule.name)),
        ("enabled"@, JsonView::Bool(rule.enabled)),
        ("kind"@, JsonView::Text(kind_word(rule.kind))),
        ("sourcePath"@, JsonView::Text(rule.source_path)),
        ("targetPath"@, JsonView::Text(rule.target_path)),
        ("bidirectional"@, JsonView::Bool(rule.bidirectional)),
        ("autoSync"@, JsonView::Bool(rule.auto_sync)),
        ("watchEnabled"@, JsonView::Bool(rule.watch_enabled)),
        ("pollFallbackEnabled"@, JsonView::Bool(rule.poll_fallback_enabled)),
        ("pollIntervalSec"@, number_document(rule.poll_interval_sec as nat)),
        ("conflictPolicy"@, JsonView::Text("overwriteWithBackup"@)),
        ("deletePolicy"@, JsonView::Text(policy_word(rule.delete_policy))),
        ("includeGlobs"@, texts_document(rule.include_globs)),
        ("excludeGlobs"@, texts_document(rule.exclude_globs)),
        ("syncState"@, sync_state_document(rule.sync_state)),
        ("lastSyncAt"@, opt_text_document(rule.last_sync_at)),
        ("lastResult"@, last_result_document(rule.last_result)),
        ("health"@, JsonView::Text(health_word(rule.health))),
        ("configError"@, opt_text_document(rule.config_error)),
    ]
}

pub open spec fn settings_document(s: SettingsView) -> JsonView {
    JsonView::Object(
        seq![
            ("launchOnStartup"@, JsonView::Bool(s.launch_on_startup)),
            ("startMinimizedToTray"@, JsonView::Bool(s.start_minimized_to_tray)),
            ("closeToTray"@, JsonView::Bool(s.close_to_tray)),
            ("theme"@, JsonView::Text(s.theme)),
            ("showNotifications"@, JsonView::Bool(s.show_notifications)),
            ("defaultPollIntervalSec"@, number_document(s.default_poll_interval_sec as nat)),
            ("backupRetentionDays"@, number_document(s.backup_retention_days as nat)),
        ],
    )
}

pub open spec fn history_document(h: HistoryView) -> JsonView {
    JsonView::Object(
        seq![
            ("ruleId"@, JsonView::Text(h.rule_id)),
            ("ruleName"@, JsonView::Text(h.rule_name)),
            ("startedAt"@, JsonView::Text(h.started_at)),
            ("finishedAt"@, JsonView::Text(h.finished_at)),
            ("trigger"@, JsonView::Text(trigger_word(h.trigger))),
            ("copiedCount"@, number_document(h.copied_count as nat)),
            ("updatedCount"@, number_document(h.updated_count as nat)),
            ("skippedCount"@, number_document(h.skipped_count as nat)),
            ("backupCount"@, number_document(h.backup_count as nat)),
            ("deletedCount"@, number_document(h.deleted_count as nat)),
            ("errorCount"@, number_document(h.error_count as nat)),
            ("success"@, JsonView::Bool(h.success)),
            ("message"@, JsonView::Text(h.message)),
        ],
    )
}

/// The document that a store is written as.
pub open spec fn store_document(store: StoreView) -> JsonView {
    JsonView::Object(
        seq![
            (
                "rules"@,
                JsonView::Array(
                    store.rules.map_values(|r: RuleView| JsonView::Object(rule_fields(r))),
                ),
            ),
            ("settings"@, settings_document(store.settings)),
            (
                "history"@,
                JsonView::Array(store.history.map_values(|h: HistoryView| history_document(h))),
            ),
        ],
    )
}

fn text_json(text: &str) -> (r: Json)
    ensures
        r@ == JsonView::Text(text@),
{
    Json::Text(String::from_str(text))
}

fn opt_text_json(text: &Option<String>) -> (r: Json)
    ensures
        r@ == opt_text_document(opt_text(*text)),
{
    match text {
        Some(inner) => Json::Text(inner.clone()),
        None => Json::Null,
    }
}

fn number_json(n: u64) -> (r: Json)
    ensures
        r@ == number_document(n as nat),
{
    Json::Number { value: Some(n), text: decimal(n) }
}

fn count_json(n: usize) -> (r: Json)
    ensures
        r@ == number_document(n as nat),
{
    Json::Number { value: Some(n as u64), text: decimal_count(n) }
}

fn texts_json(list: &Vec<String>) -> (r: Json)
    ensures
        r@ == texts_document(texts(list@)),
{
    let mut items: Vec<Json> = Vec::new();
    let mut i: usize = 0;
    while i < list.len()
        invariant
            i <= list@.len(),
            items@.len() == i,
            forall|k: int| 0 <= k < i ==> (#[trigger] items@[k])@ == JsonView::Text(list@[k]@),
        decreases list@.len() - i,
    {
        items.push(text_json(list[i].as_str()));
        i = i + 1;
    }
    proof {
        json_array_view(items);
        assert(item_views(items@) =~= texts(list@).map_values(|t: Seq<char>| JsonView::Text(t)));
    }
    Json::Array(items)
}

fn put(fields: &mut Vec<JsonField>, key: &str, value: Json)
    ensures
        field_views(final(fields)@) == field_views(old(fields)@).push((key@, value@)),
{
    let ghost before = field_views(fields@);
    let ghost added = (key@, value@);
    fields.push(JsonField { key: String::from_str(key), value });
    proof {
        assert(field_views(fields@) =~= before.push(added));
    }
}

fn trigger_json(trigger: SyncTrigger) -> (r: Json)
    ensures
        r@ == JsonView::Text(trigger_word(trigger)),
{
    match trigger {
        SyncTrigger::Manual => text_json("manual"),
        SyncTrigger::Watch => text_json("watch"),
        SyncTrigger::Poll => text_json("poll"),
        SyncTrigger::Startup => text_json("startup"),
        SyncTrigger::Cleanup => text_json("cleanup"),
    }
}

fn health_json(health: RuleHealth) -> (r: Json)
    ensures
        r@ == JsonView::Text(health_word(health)),
{
    match health {
        RuleHealth::Healthy => text_json("healthy"),
        RuleHealth::MissingSource => text_json("missingSource"),
        RuleHealth::InvalidSourceType => text_json("invalidSourceType"),
        RuleHealth::InvalidTargetPath => text_json("invalidTargetPath"),
        RuleHealth::OverlappingDirectories => text_json("overlappingDirectories"),
        RuleHealth::InvalidConfiguration => text_json("invalidConfiguration"),
        RuleHealth::WatchUnavailable => text_json("watchUnavailable"),
    }
}

/// How the last result of a rule is written down.
pub fn last_result_json(result: &RuleLastResult) -> (r: Json)
    ensures
        r@ == last_result_document(result@),
{
    let mut fields: Vec<JsonField> = Vec::new();
    put(&mut fields, "success", Json::Bool(result.success));
    put(&mut fields, "message", text_json(result.message.as_str()));
    put(
        &mut fields,
        "trigger",
        match result.trigger {
            Some(trigger) => trigger_json(trigger),
            None => Json::Null,
        },
    );
    put(&mut fields, "startedAt", opt_text_json(&result.started_at));
    put(&mut fields, "finishedAt", opt_text_json(&result.finished_at));
    put(&mut fields, "copiedCount", count_json(result.copied_count));
    put(&mut fields, "updatedCount", count_json(result.updated_count));
    put(&mut fields, "skippedCount", count_json(result.skipped_count));
    put(&mut fields, "backupCount", count_json(result.backup_count));
    put(&mut fields, "deletedCount", count_json(result.deleted_count));
    put(&mut fields, "errorCount", count_json(result.error_count));
    proof {
        json_object_view(fields);
        assert(field_views(fields@) =~= last_result_document(result@)->Object_0);
    }
    Json::Object(fields)
}

/// How a rule is written down.
pub fn rule_json(rule: &SyncRule) -> (r: Json)
    ensures
        r@ == JsonView::Object(rule_fields(rule@)),
{
    let mut mirrored: Vec<JsonField> = Vec::new();
    put(&mut mirrored, "mirroredEntries", texts_json(&rule.sync_state.mirrored_entries));
    proof {
        json_object_view(mirrored);
        assert(field_views(mirrored@) =~= sync_state_document(rule@.sync_state)->Object_0);
    }
    let mut fields: Vec<JsonField> = Vec::new();
    put(&mut fields, "id", text_json(rule.id.as_str()));
    put(&mut fields, "name", text_json(rule.name.as_str()));
    put(&mut fields, "enabled", Json::Bool(rule.enabled));
    put(
        &mut fields,
        "kind",
        match rule.kind {
            RuleKind::File => text_json("file"),
            RuleKind::Folder => text_json("folder"),
        },
    );
    put(&mut fields, "sourcePath", text_json(rule.source_path.as_str()));
    put(&mut fields, "targetPath", text_json(rule.target_path.as_str()));
    put(&mut fields, "bidirectional", Json::Bool(rule.bidirectional));
    put(&mut fields, "autoSync", Json::Bool(rule.auto_sync));
    put(&mut fields, "watchEnabled", Json::Bool(rule.watch_enabled));
    put(&mut fields, "pollFallbackEnabled", Json::Bool(rule.poll_fallback_enabled));
    put(&mut fields, "pollIntervalSec", number_json(rule.poll_interval_sec));
    put(&mut fields, "conflictPolicy", text_json("overwriteWithBackup"));
    put(
        &mut fields,
        "deletePolicy",
        match rule.delete_policy {
            DeletePolicy::NoDelete => text_json("noDelete"),
            DeletePolicy::MoveToBackup => text_json("moveToBackup"),
        },
    );
    put(&mut fields, "includeGlobs", texts_json(&rule.include_globs));
    put(&mut fields, "excludeGlobs", texts_json(&rule.exclude_globs));
    put(&mut fields, "syncState", Json::Object(mirrored));
    put(&mut fields, "lastSyncAt", opt_text_json(&rule.last_sync_at));
    put(&mut fields, "lastResult", last_result_json(&rule.last_result));
    put(&mut fields, "health", health_json(rule.health));
    put(&mut fields, "configError", opt_text_json(&rule.config_error));
    proof {
        json_object_view(fields);
        assert(field_views(fields@) =~= rule_fields(rule@));
    }
    Json::Object(fields)
}

/// How the settings are written down.
pub fn settings_json(settings: &AppSettings) -> (r: Json)
    ensures
        r@ == settings_document(settings@),
{
    let mut fields: Vec<JsonField> = Vec::new();
    put(&mut fields, "launchOnStartup", Json::Bool(settings.launch_on_startup));
    put(&mut fields, "startMinimizedToTray", Json::Bool(settings.start_minimized_to_tray));
    put(&mut fields, "closeToTray", Json::Bool(settings.close_to_tray));
    put(&mut fields, "theme", text_json(settings.theme.as_str()));
    put(&mut fields, "showNotifications", Json::Bool(settings.show_notifications));
    put(
        &mut fields,
        "defaultPollIntervalSec",
        number_json(settings.default_poll_interval_sec),
    );
    put(&mut fields, "backupRetentionDays", number_json(settings.backup_retention_days));
    proof {
        json_object_view(fields);
        assert(field_views(fields@) =~= settings_document(settings@)->Object_0);
    }
    Json::Object(fields)
}

/// How a run in the history is written down.
pub fn history_json(item: &SyncHistoryItem) -> (r: Json)
    ensures
        r@ == history_document(item@),
{
    let mut fields: Vec<JsonField> = Vec::new();
    put(&mut fields, "ruleId", text_json(item.rule_id.as_str()));
    put(&mut fields, "ruleName", text_json(item.rule_name.as_str()));
    put(&mut fields, "startedAt", text_json(item.started_at.as_str()));
    put(&mut fields, "finishedAt", text_json(item.finished_at.as_str()));
    put(&mut fields, "trigger", trigger_json(item.trigger));
    put(&mut fields, "copiedCount", count_json(item.copied_count));
    put(&mut fields, "updatedCount", count_json(item.updated_count));
    put(&mut fields, "skippedCount", count_json(item.skipped_count));
    put(&mut fields, "backupCount", count_json(item.backup_count));
    put(&mut fields, "deletedCount", count_json(item.deleted_count));
    put(&mut fields, "errorCount", count_json(item.error_count));
    put(&mut fields, "success", Json::Bool(item.success));
    put(&mut fields, "message", text_json(item.message.as_str()));
    proof {
        json_object_view(fields);
        assert(field_views(fields@) =~= history_document(item@)->Object_0);
    }
    Json::Object(fields)
}

/// The document that a store is written as.
pub fn save_store(store: &PersistedStore) -> (r: Json)
    ensures
        r@ == store_document(store@),
{
    let mut rules: Vec<Json> = Vec::new();
    let mut i: usize = 0;
    while i < store.rules.len()
        invariant
            i <= store.rules@.len(),
            rules@.len() == i,
            forall|k: int|
                0 <= k < i ==> (#[trigger] rules@[k])@ == JsonView::Object(
                    rule_fields(store.rules@[k]@),
                ),
        decreases store.rules@.len() - i,
    {
        rules.push(rule_json(&store.rules[i]));
        i = i + 1;
    }
    let mut history: Vec<Json> = Vec::new();
    let mut k: usize = 0;
    while k < store.history.len()
        invariant
            k <= store.history@.len(),
            history@.len() == k,
            forall|j: int|
                0 <= j < k ==> (#[trigger] history@[j])@ == history_document(store.history@[j]@),
        decreases store.history@.len() - k,
    {
        history.push(history_json(&store.history[k]));
        k = k + 1;
    }
    proof {
        json_array_view(rules);
        json_array_view(history);
        assert(item_views(rules@) =~= store@.rules.map_values(
            |r: RuleView| JsonView::Object(rule_fields(r)),
        ));
        assert(item_views(history@) =~= store@.history.map_values(
            |h: HistoryView| history_document(h),
        ));
    }
    let mut fields: Vec<JsonField> = Vec::new();
    put(&mut fields, "rules", Json::Array(rules));
    put(&mut fields, "settings", settings_json(&store.settings));
    put(&mut fields, "history", Json::Array(history));
    proof {
        json_object_view(fields);
        assert(field_views(fields@) =~= store_document(store@)->Object_0);
    }
    Json::Object(fields)
}

proof fn lemma_member_at(fields: Seq<(Seq<char>, JsonView)>, i: int)
    requires
        0 <= i < fields.len(),
        forall|j: int| 0 <= j < i ==> (#[trigger] fields[j]).0 != fields[i].0,
    ensures
        member(fields, fields[i].0) == Some(fields[i].1),
    decreases i,
{
    if i > 0 {
        let rest = fields.skip(1);
        assert(fields[0].0 != fields[i].0);
        assert forall|j: int| 0 <= j < i - 1 implies (#[trigger] rest[j]).0 != rest[i - 1].0 by {
            assert(fields[j + 1].0 != fields[i].0);
        }
        lemma_member_at(rest, i - 1);
    }
}

/// The keys of a rule are all different: they differ in length, or in their
/// first or fifth character.
proof fn lemma_rule_keys(rule: RuleView, i: int, j: int)
    requires
        0 <= j < i < rule_fields(rule).len(),
    ensures
        rule_fields(rule)[j].0 != rule_fields(rule)[i].0,
{
    let fields = rule_fields(rule);
    reveal_strlit("id");
    reveal_strlit("name");
    reveal_strlit("enabled");
    reveal_strlit("kind");
    reveal_strlit("sourcePath");
    reveal_strlit("targetPath");
    reveal_strlit("bidirectional");
    reveal_strlit("autoSync");
    reveal_strlit("watchEnabled");
    reveal_strlit("pollFallbackEnabled");
    reveal_strlit("pollIntervalSec");
    reveal_strlit("conflictPolicy");
    reveal_strlit("deletePolicy");
    reveal_strlit("includeGlobs");
    reveal_strlit("excludeGlobs");
    reveal_strlit("syncState");
    reveal_strlit("lastSyncAt");
    reveal_strlit("lastResult");
    reveal_strlit("health");
    reveal_strlit("configError");
    assert(fields[0].0 == "id"@);
    assert(fields[1].0 == "name"@);
    assert(fields[2].0 == "enabled"@);
    assert(fields[3].0 == "kind"@);
    assert(fields[4].0 == "sourcePath"@);
    assert(fields[5].0 == "targetPath"@);
    assert(fields[6].0 == "bidirectional"@);
    assert(fields[7].0 == "autoSync"@);
    assert(fields[8].0 == "watchEnabled"@);
    assert(fields[9].0 == "pollFallbackEnabled"@);
    assert(fields[10].0 == "pollIntervalSec"@);
    assert(fields[11].0 == "conflictPolicy"@);
    assert(fields[12].0 == "deletePolicy"@);
    assert(fields[13].0 == "includeGlobs"@);
    assert(fields[14].0 == "excludeGlobs"@);
    assert(fields[15].0 == "syncState"@);
    assert(fields[16].0 == "lastSyncAt"@);
    assert(fields[17].0 == "lastResult"@);
    assert(fields[18].0 == "health"@);
    assert(fields[19].0 == "configError"@);
    let a = fields[j].0;
    let b = fields[i].0;
    assert(a.len() != b.len() || a[0] != b[0] || a[4] != b[4]);
}

proof fn lemma_rule_members(rule: RuleView)
    ensures
        member(rule_fields(rule), "id"@) == Some(rule_fields(rule)[0].1),
        member(rule_fields(rule), "name"@) == Some(rule_fields(rule)[1].1),
        member(rule_fields(rule), "enabled"@) == Some(rule_fields(rule)[2].1),
        member(rule_fields(rule), "kind"@) == Some(rule_fields(rule)[3].1),
        member(rule_fields(rule), "sourcePath"@) == Some(rule_fields(rule)[4].1),
        member(rule_fields(rule), "targetPath"@) == Some(rule_fields(rule)[5].1),
        member(rule_fields(rule), "bidirectional"@) == Some(rule_fields(rule)[6].1),
        member(rule_fields(rule), "autoSync"@) == Some(rule_fields(rule)[7].1),
        member(rule_fields(rule), "watchEnabled"@) == Some(rule_fields(rule)[8].1),
        member(rule_fields(rule), "pollFallbackEnabled"@) == Some(rule_fields(rule)[9].1),
        member(rule_fields(rule), "pollIntervalSec"@) == Some(rule_fields(rule)[10].1),
        member(rule_fields(rule), "includeGlobs"@) == Some(rule_fields(rule)[13].1),
        member(rule_fields(rule), "excludeGlobs"@) == Some(rule_fields(rule)[14].1),
        member(rule_fields(rule), "syncState"@) == Some(rule_fields(rule)[15].1),
        member(rule_fields(rule), "lastSyncAt"@) == Some(rule_fields(rule)[16].1),
        member(rule_fields(rule), "lastResult"@) == Some(rule_fields(rule)[17].1),
{
    let fields = rule_fields(rule);
    assert forall|i: int, j: int| 0 <= j < i < fields.len() implies (#[trigger] fields[j]).0 != (
    #[trigger] fields[i]).0 by {
        lemma_rule_keys(rule, i, j);
    }
    lemma_member_at(fields, 0);
    lemma_member_at(fields, 1);
    lemma_member_at(fields, 2);
    lemma_member_at(fields, 3);
    lemma_member_at(fields, 4);
    lemma_member_at(fields, 5);
    lemma_member_at(fields, 6);
    lemma_member_at(fields, 7);
    lemma_member_at(fields, 8);
    lemma_member_at(fields, 9);
    lemma_member_at(fields, 10);
    lemma_member_at(fields, 13);
    lemma_member_at(fields, 14);
    lemma_member_at(fields, 15);
    lemma_member_at(fields, 16);
    lemma_member_at(fields, 17);
}

/// Whether every pattern of a list is trimmed and not blank, as those of a rule are.
pub open spec fn trimmed_texts(list: Seq<Seq<char>>) -> bool {
    forall|i: int|
        0 <= i < list.len() ==> trim_text(#[trigger] list[i]) == list[i] && list[i].len() > 0
}

proof fn lemma_texts_come_back(list: Seq<Seq<char>>)
    requires
        trimmed_texts(list),
    ensures
        string_items(texts_document(list)->Array_0) == list,
        other_items(texts_document(list)->Array_0) == 0,
    decreases list.len(),
{
    let items = texts_document(list)->Array_0;
    if list.len() == 0 {
        assert(string_items(items) =~= list);
    } else {
        lemma_texts_come_back(list.drop_last());
        assert(items.drop_last() =~= texts_document(list.drop_last())->Array_0);
        assert(items.last() == JsonView::Text(list.last()));
        assert(list.drop_last().push(list.last()) =~= list);
    }
}

/// Whether nothing about a rule is left out or changed when it is loaded again.
pub open spec fn is_storable(rule: RuleView) -> bool {
    &&& !is_blank_text(rule.id)
    &&& !is_blank_text(rule.name)
    &&& !is_blank_text(rule.source_path)
    &&& !is_blank_text(rule.target_path)
    &&& rule.poll_interval_sec >= MIN_POLL_INTERVAL_SEC
    &&& rule.delete_policy == delete_policy_of(rule.kind)
    &&& trimmed_texts(rule.include_globs)
    &&& trimmed_texts(rule.exclude_globs)
    &&& rule.last_sync_at matches Some(at) ==> !is_blank_text(at)
}

/// Whether a value is what a rule is written as, whatever the order of members.
pub open spec fn holds_rule(value: JsonView, rule: RuleView) -> bool {
    value matches JsonView::Object(fields) && {
        &&& forall|key: Seq<char>|
            key != "lastResult"@ && key != "syncState"@ ==> #[trigger] member(fields, key)
                == member(rule_fields(rule), key)
        &&& member(fields, "lastResult"@) matches Some(inner) && same_members(
            inner,
            last_result_document(rule.last_result),
        )
        &&& member(fields, "syncState"@) matches Some(inner) && same_members(
            inner,
            sync_state_document(rule.sync_state),
        )
    }
}

/// Whether a document is what a store is written as, whatever the order of members.
pub open spec fn holds_store(document: JsonView, store: StoreView) -> bool {
    document matches JsonView::Object(fields) && {
        &&& member(fields, "rules"@) matches Some(JsonView::Array(items)) && items.len()
            == store.rules.len() && forall|i: int|
            0 <= i < items.len() ==> holds_rule(#[trigger] items[i], store.rules[i])
        &&& member(fields, "settings"@) matches Some(inner) && same_members(
            inner,
            settings_document(store.settings),
        )
        &&& member(fields, "history"@) matches Some(JsonView::Array(items)) && items.len()
            == store.history.len() && forall|i: int|
            0 <= i < items.len() ==> same_members(
                #[trigger] items[i],
                history_document(store.history[i]),
            )
    }
}

/// The document that is written holds the store that it was made of.
pub proof fn written_document_holds_the_store(store: StoreView)
    ensures
        holds_store(store_document(store), store),
{
    let fields = store_document(store)->Object_0;
    lemma_store_members(store);
    let rules = member(fields, "rules"@)->0->Array_0;
    assert forall|i: int| 0 <= i < rules.len() implies holds_rule(
        #[trigger] rules[i],
        store.rules[i],
    ) by {
        lemma_rule_members(store.rules[i]);
    }
}

proof fn lemma_store_members(store: StoreView)
    ensures
        ({
            let fields = store_document(store)->Object_0;
            &&& member(fields, "rules"@) == Some(fields[0].1)
            &&& member(fields, "settings"@) == Some(fields[1].1)
            &&& member(fields, "history"@) == Some(fields[2].1)
        }),
{
    let fields = store_document(store)->Object_0;
    reveal_strlit("rules");
    reveal_strlit("settings");
    reveal_strlit("history");
    assert("rules"@.len() == 5 && "settings"@.len() == 8 && "history"@.len() == 7);
    assert(fields[0].0 == "rules"@ && fields[1].0 == "settings"@ && fields[2].0 == "history"@);
    lemma_member_at(fields, 0);
    lemma_member_at(fields, 1);
    lemma_member_at(fields, 2);
}

/// The keys under which a rule keeps plain values are not those of its last
/// result and its mirrored entries.
proof fn lemma_plain_keys()
    ensures
        forall|i: int|
            0 <= i < plain_keys().len() ==> #[trigger] plain_keys()[i] != "lastResult"@
                && plain_keys()[i] != "syncState"@,
{
    reveal_strlit("id");
    reveal_strlit("name");
    reveal_strlit("enabled");
    reveal_strlit("kind");
    reveal_strlit("sourcePath");
    reveal_strlit("targetPath");
    reveal_strlit("bidirectional");
    reveal_strlit("autoSync");
    reveal_strlit("watchEnabled");
    reveal_strlit("pollFallbackEnabled");
    reveal_strlit("pollIntervalSec");
    reveal_strlit("includeGlobs");
    reveal_strlit("excludeGlobs");
    reveal_strlit("syncState");
    reveal_strlit("lastSyncAt");
    reveal_strlit("lastResult");
    assert forall|i: int| 0 <= i < plain_keys().len() implies #[trigger] plain_keys()[i]
        != "lastResult"@ && plain_keys()[i] != "syncState"@ by {
        let key = plain_keys()[i];
        assert(key.len() != 10 || key[0] != 'l' || key[4] != "lastResult"@[4]);
        assert(key.len() != 9);
    }
}

spec fn plain_keys() -> Seq<Seq<char>> {
    seq![
        "id"@,
        "name"@,
        "enabled"@,
        "kind"@,
        "sourcePath"@,
        "targetPath"@,
        "bidirectional"@,
        "autoSync"@,
        "watchEnabled"@,
        "pollFallbackEnabled"@,
        "pollIntervalSec"@,
        "includeGlobs"@,
        "excludeGlobs"@,
        "lastSyncAt"@,
    ]
}

/// The plain members of a value that holds a rule are those of the rule.
proof fn lemma_held_members(value: JsonView, rule: RuleView)
    requires
        holds_rule(value, rule),
    ensures
        forall|i: int|
            0 <= i < plain_keys().len() ==> member(value->Object_0, #[trigger] plain_keys()[i])
                == member(rule_fields(rule), plain_keys()[i]),
{
    lemma_plain_keys();
}

/// A rule that was written down is loaded as it was, but for its health, which
/// is worked out anew. That its last result and its mirrored entries are
/// decoded to what was written is for the decoders to see to.
pub proof fn written_rule_is_loaded_again(
    value: JsonView,
    rule: RuleView,
    fresh_id: Seq<char>,
    index: int,
    settings: SettingsView,
)
    requires
        is_storable(rule),
        holds_rule(value, rule),
    ensures
        ({
            let parts = RulePartsView {
                fresh_id,
                last_result: Some(Ok(rule.last_result)),
                sync_state: Some(Ok(rule.sync_state)),
            };
            &&& loaded_rule(value, parts, index, settings) == (RuleView {
                health: RuleHealth::Healthy,
                config_error: None,
                ..rule
            })
            &&& loaded_rule_warnings(value, parts, index).len() == 0
        }),
{
    let parts = RulePartsView {
        fresh_id,
        last_result: Some(Ok(rule.last_result)),
        sync_state: Some(Ok(rule.sync_state)),
    };
    let fields = value->Object_0;
    lemma_rule_members(rule);
    lemma_held_members(value, rule);
    assert(plain_keys()[0] == "id"@);
    assert(plain_keys()[1] == "name"@);
    assert(plain_keys()[2] == "enabled"@);
    assert(plain_keys()[3] == "kind"@);
    assert(plain_keys()[4] == "sourcePath"@);
    assert(plain_keys()[5] == "targetPath"@);
    assert(plain_keys()[6] == "bidirectional"@);
    assert(plain_keys()[7] == "autoSync"@);
    assert(plain_keys()[8] == "watchEnabled"@);
    assert(plain_keys()[9] == "pollFallbackEnabled"@);
    assert(plain_keys()[10] == "pollIntervalSec"@);
    assert(plain_keys()[11] == "includeGlobs"@);
    assert(plain_keys()[12] == "excludeGlobs"@);
    assert(plain_keys()[13] == "lastSyncAt"@);
    lemma_texts_come_back(rule.include_globs);
    lemma_texts_come_back(rule.exclude_globs);
    reveal_strlit("file");
    reveal_strlit("folder");
    assert("file"@.len() != "folder"@.len());
    assert(rule_issues(fields, parts) =~= Seq::<Seq<char>>::empty());
}

/// Whether a decoder gives back what was written: of a value that has the
/// members of `document(inner)`, in whatever order, it makes `inner`.
pub open spec fn gives_back<T: View, F: Fn(&Json) -> Result<T, String>>(
    decode: F,
    document: spec_fn(T::V) -> JsonView,
) -> bool {
    forall|value: JsonView, inner: T::V, part: Result<T::V, Seq<char>>|
        #![trigger decoded_by::<T, F>(decode, value, part), document(inner)]
        same_members(value, document(inner)) && decoded_by::<T, F>(decode, value, part) ==> part
            == Ok::<T::V, Seq<char>>(inner)
}

/// A store that was written down is loaded as it was, but for the health of its
/// rules, and nothing has to be repaired: from every text that is read as the
/// document of the store, with decoders that give back what was written. It is
/// the very same store where its rules were healthy.
pub proof fn written_store_is_loaded_again<
    S: Fn(&Json) -> Result<AppSettings, String>,
    L: Fn(&Json) -> Result<RuleLastResult, String>,
    M: Fn(&Json) -> Result<RuleSyncState, String>,
    H: Fn(&Json) -> Result<SyncHistoryItem, String>,
>(
    content: Seq<char>,
    settings: S,
    last_result: L,
    sync_state: M,
    history: H,
    store: StoreView,
    parts: StorePartsView,
)
    requires
        forall|i: int| 0 <= i < store.rules.len() ==> is_storable(#[trigger] store.rules[i]),
        json_document(content) matches Ok(document) && holds_store(document, store),
        gives_back::<AppSettings, S>(settings, |s: SettingsView| settings_document(s)),
        gives_back::<RuleLastResult, L>(last_result, |r: LastResultView| last_result_document(r)),
        gives_back::<RuleSyncState, M>(
            sync_state,
            |entries: Seq<Seq<char>>| sync_state_document(entries),
        ),
        gives_back::<SyncHistoryItem, H>(history, |h: HistoryView| history_document(h)),
        store_parts_of(
            settings,
            last_result,
            sync_state,
            history,
            json_document(content),
            parts,
        ),
    ensures
        ({
            let loaded = loaded_store(json_document(content), parts);
            &&& !loaded.repaired
            &&& loaded.warnings.len() == 0
            &&& loaded.store.settings == store.settings
            &&& loaded.store.history == store.history
            &&& loaded.store.rules == store.rules.map_values(
                |r: RuleView| RuleView { health: RuleHealth::Healthy, config_error: None, ..r },
            )
            &&& (forall|i: int|
                0 <= i < store.rules.len() ==> (#[trigger] store.rules[i]).health
                    == RuleHealth::Healthy && store.rules[i].config_error is None) ==> loaded.store
                == store
        }),
{
    let fields = json_document(content)->Ok_0->Object_0;
    let items = member(fields, "rules"@)->0->Array_0;
    let entries = member(fields, "history"@)->0->Array_0;
    let loaded = loaded_store(json_document(content), parts);
    let settings_of_document = |s: SettingsView| settings_document(s);
    let result_of_document = |r: LastResultView| last_result_document(r);
    let state_of_document = |e: Seq<Seq<char>>| sync_state_document(e);
    let entry_of_document = |h: HistoryView| history_document(h);
    assert(settings_of_document(store.settings) == settings_document(store.settings));
    assert(parts.settings == Some(Ok::<SettingsView, Seq<char>>(store.settings)));
    assert forall|i: int| 0 <= i < items.len() implies loaded_rule_warnings(
        items[i],
        #[trigger] parts.rules[i],
        i,
    ).len() == 0 && loaded.store.rules[i] == (RuleView {
        health: RuleHealth::Healthy,
        config_error: None,
        ..store.rules[i]
    }) by {
        let rule = store.rules[i];
        assert(holds_rule(items[i], rule));
        assert(rule_parts_of(last_result, sync_state, items[i], parts.rules[i]));
        assert(result_of_document(rule.last_result) == last_result_document(rule.last_result));
        assert(state_of_document(rule.sync_state) == sync_state_document(rule.sync_state));
        assert(parts.rules[i] == (RulePartsView {
            fresh_id: parts.rules[i].fresh_id,
            last_result: Some(Ok(rule.last_result)),
            sync_state: Some(Ok(rule.sync_state)),
        }));
        written_rule_is_loaded_again(
            items[i],
            rule,
            parts.rules[i].fresh_id,
            i,
            store.settings,
        );
    }
    lemma_no_rule_warnings(items, parts.rules, items.len() as int);
    assert(parts.history =~= store.history.map_values(
        |h: HistoryView| Ok::<HistoryView, Seq<char>>(h),
    )) by {
        assert forall|i: int| 0 <= i < entries.len() implies #[trigger] parts.history[i] == Ok::<
            HistoryView,
            Seq<char>,
        >(store.history[i]) by {
            assert(same_members(entries[i], history_document(store.history[i])));
            assert(entry_of_document(store.history[i]) == history_document(store.history[i]));
        }
    }
    lemma_history_comes_back(store.history);
    assert(loaded.store.rules =~= store.rules.map_values(
        |r: RuleView| RuleView { health: RuleHealth::Healthy, config_error: None, ..r },
    ));
    if forall|i: int|
        0 <= i < store.rules.len() ==> (#[trigger] store.rules[i]).health == RuleHealth::Healthy
            && store.rules[i].config_error is None {
        assert(loaded.store.rules =~= store.rules);
    }
}

proof fn lemma_no_rule_warnings(items: Seq<JsonView>, parts: Seq<RulePartsView>, n: int)
    requires
        n <= items.len() == parts.len(),
        forall|i: int|
            0 <= i < n ==> loaded_rule_warnings(items[i], #[trigger] parts[i], i).len() == 0,
    ensures
        rule_list_warnings(items, parts, n).len() == 0,
    decreases n,
{
    if n > 0 {
        lemma_no_rule_warnings(items, parts, n - 1);
        assert(loaded_rule_warnings(items[n - 1], parts[n - 1], n - 1).len() == 0);
    }
}

proof fn lemma_history_comes_back(history: Seq<HistoryView>)
    ensures
        decoded_history(
            history.map_values(|h: HistoryView| Ok::<HistoryView, Seq<char>>(h)),
        ) == history,
        decoded_history_warnings(
            history.map_values(|h: HistoryView| Ok::<HistoryView, Seq<char>>(h)),
        ).len() == 0,
    decreases history.len(),
{
    let decoded = history.map_values(|h: HistoryView| Ok::<HistoryView, Seq<char>>(h));
    if history.len() == 0 {
        assert(decoded_history(decoded) =~= history);
    } else {
        lemma_history_comes_back(history.drop_last());
        assert(decoded.drop_last() =~= history.drop_last().map_values(
            |h: HistoryView| Ok::<HistoryView, Seq<char>>(h),
        ));
        assert(decoded.last() == Ok::<HistoryView, Seq<char>>(history.last()));
        assert(history.drop_last().push(history.last()) =~= history);
    }
}

/// A rule that a draft with a name makes is written and loaded without loss.
pub proof fn drafted_rule_is_storable(id: Seq<char>, draft: DraftView)
    requires
        !is_blank_text(id),
        !is_blank_text(draft.name),
        !is_blank_text(bare_path(draft.source_path)),
        !is_blank_text(bare_path(draft.target_path)),
    ensures
        is_storable(drafted_rule(id, draft)),
{
    trim_is_idempotent(draft.name, CharClass::WhiteSpace);
    assert forall|i: int| 0 <= i < sanitized(draft.include_globs).len() implies trim_text(
        #[trigger] sanitized(draft.include_globs)[i],
    ) == sanitized(draft.include_globs)[i] && sanitized(draft.include_globs)[i].len() > 0 by {
        sanitized_patterns_are_trimmed(draft.include_globs, i);
    }
    assert forall|i: int| 0 <= i < sanitized(draft.exclude_globs).len() implies trim_text(
        #[trigger] sanitized(draft.exclude_globs)[i],
    ) == sanitized(draft.exclude_globs)[i] && sanitized(draft.exclude_globs)[i].len() > 0 by {
        sanitized_patterns_are_trimmed(draft.exclude_globs, i);
    }
}

} // verus!
