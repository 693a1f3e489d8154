//! What is made of the document of the store, and what it is written as, said
//! of the members of its objects.
use crate::document::{
    health_word, history_document, last_result_document, rule_fields, settings_document,
    store_document, trigger_word,
};
use crate::json::{member, JsonView};
use crate::models::{
    blank_rule, default_settings, empty_last_result, ConflictPolicy, DeletePolicy, HistoryView,
    LastResultView, RuleHealth, RuleKind, RuleView, SettingsView, StoreView, SyncTrigger,
};
use crate::store::{
    bool_field_issues, decoded_history, decoded_history_warnings, described_rule, filled,
    history_warnings, issue_if, last_result_issues, loaded_rule, loaded_rule_warnings, loaded_store,
    other_items, path_field, rule_issues, rule_kind_issues, rule_list_warnings, settings_warnings,
    string_array_field_issues, string_field, string_field_issues, string_items, sync_state_issues,
    u64_field_issues, RulePartsView, StorePartsView,
};
use crate::text::{decimal_text, is_blank_text, is_white_space, joined, trim_text};
use crate::text_laws::blank_is_all_white_space;
use vstd::prelude::*;
use vstd::string::*;

verus! {

/// A member of an object is found exactly where one has the key, and it is the
/// first that has.
pub proof fn first_member_is_found(fields: Seq<(Seq<char>, JsonView)>, key: Seq<char>)
    ensures
        match member(fields, key) {
            Some(value) => exists|i: int|
                0 <= i < fields.len() && #[trigger] fields[i] == (key, value) && forall|k: int|
                    0 <= k < i ==> (#[trigger] fields[k]).0 != key,
            None => forall|i: int| 0 <= i < fields.len() ==> (#[trigger] fields[i]).0 != key,
        },
    decreases fields.len(),
{
    if fields.len() > 0 && fields[0].0 != key {
        let rest = fields.skip(1);
        first_member_is_found(rest, key);
        match member(rest, key) {
            Some(value) => {
                let i = choose|i: int|
                    0 <= i < rest.len() && #[trigger] rest[i] == (key, value) && forall|k: int|
                        0 <= k < i ==> (#[trigger] rest[k]).0 != key;
                assert(fields[i + 1] == (key, value));
                assert forall|k: int| 0 <= k < i + 1 implies (#[trigger] fields[k]).0 != key by {
                    if k > 0 {
                        assert(rest[k - 1] == fields[k]);
                    }
                }
            },
            None => {
                assert forall|i: int| 0 <= i < fields.len() implies (#[trigger] fields[i]).0 != key by {
                    if i > 0 {
                        assert(rest[i - 1] == fields[i]);
                    }
                }
            },
        }
    } else if fields.len() > 0 {
        assert(fields[0] == (key, fields[0].1));
    }
}

/// The texts of a list are those of its items that are texts and hold anything
/// but white space, in order, each without the white space around it.
pub proof fn texts_of_a_list_are_kept_in_order(items: Seq<JsonView>)
    ensures
        string_items(items) == items.filter(
            |v: JsonView|
                v matches JsonView::Text(t) && exists|k: int|
                    0 <= k < t.len() && !is_white_space(#[trigger] t[k]),
        ).map_values(|v: JsonView| trim_text(v->Text_0)),
        other_items(items) == items.filter(
            |v: JsonView| !(v is Text) && !(v is Null),
        ).len(),
    decreases items.len(),
{
    let says = |v: JsonView|
        v matches JsonView::Text(t) && exists|k: int|
            0 <= k < t.len() && !is_white_space(#[trigger] t[k]);
    let bare = |v: JsonView| trim_text(v->Text_0);
    reveal(Seq::filter);
    if items.len() > 0 {
        let last = items.last();
        texts_of_a_list_are_kept_in_order(items.drop_last());
        let before = items.drop_last().filter(says);
        if let JsonView::Text(t) = last {
            blank_is_all_white_space(t);
        }
        if says(last) {
            assert(before.push(last).map_values(bare) =~= before.map_values(bare).push(bare(last)));
        }
    }
    assert(string_items(items) =~= items.filter(says).map_values(bare));
}

/// What a rule of a document is read as. Every member has its own key. A text,
/// a truth value or a number that is missing, or is something else, leaves the
/// rule with what rules have by default: it is switched on, works one way, runs
/// by itself, is watched and polled. A rule is of the kind file unless it says
/// that it is of the kind folder. It is polled no more often than every five
/// seconds.
pub proof fn rule_is_read_member_by_member(
    fields: Seq<(Seq<char>, JsonView)>,
    parts: RulePartsView,
    index: int,
    settings: SettingsView,
)
    ensures
        ({
            let rule = described_rule(fields, parts, index, settings);
            let says = |key: Seq<char>, otherwise: bool|
                match member(fields, key) {
                    Some(JsonView::Bool(value)) => value,
                    _ => otherwise,
                };
            &&& rule.id == match member(fields, "id"@) {
                Some(JsonView::Text(text)) if !is_blank_text(text) => text,
                _ => parts.fresh_id,
            }
            &&& rule.name == match member(fields, "name"@) {
                Some(JsonView::Text(text)) if !is_blank_text(text) => text,
                _ => "异常规则 "@ + decimal_text((index + 1) as nat),
            }
            &&& rule.enabled == says("enabled"@, true)
            &&& rule.kind == RuleKind::Folder <==> member(fields, "kind"@) == Some(
                JsonView::Text("folder"@),
            )
            &&& rule.source_path == match member(fields, "sourcePath"@) {
                Some(JsonView::Text(text)) => text,
                _ => Seq::empty(),
            }
            &&& rule.target_path == match member(fields, "targetPath"@) {
                Some(JsonView::Text(text)) => text,
                _ => Seq::empty(),
            }
            &&& rule.bidirectional == says("bidirectional"@, false)
            &&& rule.auto_sync == says("autoSync"@, true)
            &&& rule.watch_enabled == says("watchEnabled"@, true)
            &&& rule.poll_fallback_enabled == says("pollFallbackEnabled"@, true)
            &&& match member(fields, "pollIntervalSec"@) {
                Some(JsonView::Number { value: Some(n), .. }) => (n >= 5 ==> rule.poll_interval_sec
                    == n) && (n < 5 ==> rule.poll_interval_sec == 5),
                _ => (settings.default_poll_interval_sec >= 5 ==> rule.poll_interval_sec
                    == settings.default_poll_interval_sec) && (settings.default_poll_interval_sec
                    < 5 ==> rule.poll_interval_sec == 5),
            }
            &&& rule.conflict_policy == ConflictPolicy::OverwriteWithBackup
            &&& rule.kind == RuleKind::Folder ==> rule.delete_policy == DeletePolicy::MoveToBackup
            &&& rule.kind == RuleKind::File ==> rule.delete_policy == DeletePolicy::NoDelete
            &&& rule.include_globs == match member(fields, "includeGlobs"@) {
                Some(JsonView::Array(items)) => string_items(items),
                _ => Seq::empty(),
            }
            &&& rule.exclude_globs == match member(fields, "excludeGlobs"@) {
                Some(JsonView::Array(items)) => string_items(items),
                _ => Seq::empty(),
            }
            &&& rule.sync_state == match parts.sync_state {
                Some(Ok(entries)) => entries,
                _ => Seq::empty(),
            }
            &&& rule.last_sync_at == match member(fields, "lastSyncAt"@) {
                Some(JsonView::Text(text)) if !is_blank_text(text) => Some(text),
                _ => None,
            }
            &&& rule.last_result == match parts.last_result {
                Some(Ok(result)) => result,
                _ => empty_last_result(),
            }
        }),
{
    reveal_strlit("folder");
}

/// Whether a member is missing, `null` or a truth value.
pub open spec fn may_be_truth(value: Option<JsonView>) -> bool {
    match value {
        None => true,
        Some(JsonView::Null) => true,
        Some(JsonView::Bool(_)) => true,
        _ => false,
    }
}

/// Whether a member is missing, `null` or a list of nothing but texts and `null`.
pub open spec fn may_be_texts(value: Option<JsonView>) -> bool {
    match value {
        None => true,
        Some(JsonView::Null) => true,
        Some(JsonView::Array(items)) => forall|i: int|
            0 <= i < items.len() ==> (#[trigger] items[i]) is Text || items[i] is Null,
        _ => false,
    }
}

/// Whether a member is a text that holds anything but white space.
pub open spec fn says_something(value: Option<JsonView>) -> bool {
    value matches Some(JsonView::Text(text)) && !is_blank_text(text)
}

proof fn lemma_other_items(items: Seq<JsonView>)
    ensures
        other_items(items) == 0 <==> forall|i: int|
            0 <= i < items.len() ==> (#[trigger] items[i]) is Text || items[i] is Null,
    decreases items.len(),
{
    if items.len() > 0 {
        let front = items.drop_last();
        lemma_other_items(front);
        assert(items[items.len() - 1] == items.last());
        assert forall|i: int| 0 <= i < front.len() implies front[i] == #[trigger] items[i] by {}
        if other_items(items) == 0 {
            assert forall|i: int| 0 <= i < items.len() implies (#[trigger] items[i]) is Text
                || items[i] is Null by {
                if i < front.len() {
                    assert(front[i] == items[i]);
                }
            }
        } else if other_items(front) > 0 {
            let i = choose|i: int|
                0 <= i < front.len() && !((#[trigger] front[i]) is Text || front[i] is Null);
            assert(items[i] == front[i]);
        }
    }
}

/// How many things are the matter with a rule: those with each of its members.
proof fn lemma_issue_count(fields: Seq<(Seq<char>, JsonView)>, parts: RulePartsView)
    ensures
        rule_issues(fields, parts).len() == string_field_issues(fields, "id"@).len() + issue_if(
            filled(string_field(fields, "id"@)) is None,
            "缺少规则 ID，已重新生成。"@,
        ).len() + string_field_issues(fields, "name"@).len() + issue_if(
            filled(string_field(fields, "name"@)) is None,
            "缺少规则名称，已使用默认名称。"@,
        ).len() + string_field_issues(fields, "kind"@).len() + rule_kind_issues(
            string_field(fields, "kind"@),
        ).len() + string_field_issues(fields, "sourcePath"@).len() + issue_if(
            is_blank_text(path_field(fields, "sourcePath"@)),
            "源路径缺失。"@,
        ).len() + string_field_issues(fields, "targetPath"@).len() + issue_if(
            is_blank_text(path_field(fields, "targetPath"@)),
            "目标路径缺失。"@,
        ).len() + bool_field_issues(fields, "enabled"@).len() + bool_field_issues(
            fields,
            "bidirectional"@,
        ).len() + bool_field_issues(fields, "autoSync"@).len() + bool_field_issues(
            fields,
            "watchEnabled"@,
        ).len() + bool_field_issues(fields, "pollFallbackEnabled"@).len() + u64_field_issues(
            fields,
            "pollIntervalSec"@,
        ).len() + string_array_field_issues(fields, "includeGlobs"@).len()
            + string_array_field_issues(fields, "excludeGlobs"@).len() + sync_state_issues(
            parts.sync_state,
        ).len() + string_field_issues(fields, "lastSyncAt"@).len() + last_result_issues(
            parts.last_result,
        ).len(),
{
}

proof fn lemma_text_member(fields: Seq<(Seq<char>, JsonView)>, key: Seq<char>, issue: Seq<char>)
    ensures
        string_field_issues(fields, key).len() == 0 && issue_if(
            filled(string_field(fields, key)) is None,
            issue,
        ).len() == 0 <==> says_something(member(fields, key)),
        string_field_issues(fields, key).len() == 0 && issue_if(
            is_blank_text(path_field(fields, key)),
            issue,
        ).len() == 0 <==> says_something(member(fields, key)),
        string_field_issues(fields, key).len() == 0 <==> match member(fields, key) {
            None => true,
            Some(JsonView::Null) => true,
            Some(JsonView::Text(_)) => true,
            _ => false,
        },
{
    blank_is_all_white_space(Seq::empty());
}

proof fn lemma_kind_member(fields: Seq<(Seq<char>, JsonView)>)
    ensures
        string_field_issues(fields, "kind"@).len() == 0 && rule_kind_issues(
            string_field(fields, "kind"@),
        ).len() == 0 <==> member(fields, "kind"@) == Some(JsonView::Text("file"@)) || member(
            fields,
            "kind"@,
        ) == Some(JsonView::Text("folder"@)),
{
}

proof fn lemma_other_member(fields: Seq<(Seq<char>, JsonView)>, key: Seq<char>)
    ensures
        bool_field_issues(fields, key).len() == 0 <==> may_be_truth(member(fields, key)),
        string_array_field_issues(fields, key).len() == 0 <==> may_be_texts(member(fields, key)),
        u64_field_issues(fields, key).len() == 0 <==> match member(fields, key) {
            None => true,
            Some(JsonView::Null) => true,
            Some(JsonView::Number { value: Some(_), .. }) => true,
            _ => false,
        },
{
    if let Some(JsonView::Array(items)) = member(fields, key) {
        lemma_other_items(items);
    }
}

/// Nothing is the matter with a rule of a document exactly where its id, its
/// name and its two paths say anything, its kind is file or folder, and every
/// other member is missing or of its own sort.
pub proof fn rule_is_good_if_its_members_are(
    fields: Seq<(Seq<char>, JsonView)>,
    parts: RulePartsView,
)
    ensures
        rule_issues(fields, parts).len() == 0 <==> {
            &&& says_something(member(fields, "id"@))
            &&& says_something(member(fields, "name"@))
            &&& member(fields, "kind"@) == Some(JsonView::Text("file"@)) || member(fields, "kind"@)
                == Some(JsonView::Text("folder"@))
            &&& says_something(member(fields, "sourcePath"@))
            &&& says_something(member(fields, "targetPath"@))
            &&& may_be_truth(member(fields, "enabled"@))
            &&& may_be_truth(member(fields, "bidirectional"@))
            &&& may_be_truth(member(fields, "autoSync"@))
            &&& may_be_truth(member(fields, "watchEnabled"@))
            &&& may_be_truth(member(fields, "pollFallbackEnabled"@))
            &&& match member(fields, "pollIntervalSec"@) {
                None => true,
                Some(JsonView::Null) => true,
                Some(JsonView::Number { value: Some(_), .. }) => true,
                _ => false,
            }
            &&& may_be_texts(member(fields, "includeGlobs"@))
            &&& may_be_texts(member(fields, "excludeGlobs"@))
            &&& !(parts.sync_state matches Some(Err(_)))
            &&& match member(fields, "lastSyncAt"@) {
                None => true,
                Some(JsonView::Null) => true,
                Some(JsonView::Text(_)) => true,
                _ => false,
            }
            &&& !(parts.last_result matches Some(Err(_)))
        },
{
    lemma_issue_count(fields, parts);
    lemma_text_member(fields, "id"@, "缺少规则 ID，已重新生成。"@);
    lemma_text_member(fields, "name"@, "缺少规则名称，已使用默认名称。"@);
    lemma_kind_member(fields);
    lemma_text_member(fields, "sourcePath"@, "源路径缺失。"@);
    lemma_text_member(fields, "targetPath"@, "目标路径缺失。"@);
    lemma_text_member(fields, "lastSyncAt"@, Seq::empty());
    lemma_other_member(fields, "enabled"@);
    lemma_other_member(fields, "bidirectional"@);
    lemma_other_member(fields, "autoSync"@);
    lemma_other_member(fields, "watchEnabled"@);
    lemma_other_member(fields, "pollFallbackEnabled"@);
    lemma_other_member(fields, "pollIntervalSec"@);
    lemma_other_member(fields, "includeGlobs"@);
    lemma_other_member(fields, "excludeGlobs"@);
}

/// A rule of a document with which nothing is the matter is loaded as it is
/// read. One with which anything is the matter keeps what could be read, but is
/// not watched, remembers no mirrored entries, counts as failed and as wrongly
/// configured, and shows what is the matter.
pub proof fn bad_rule_is_kept_and_marked(
    fields: Seq<(Seq<char>, JsonView)>,
    parts: RulePartsView,
    index: int,
    settings: SettingsView,
)
    ensures
        ({
            let rule = loaded_rule(JsonView::Object(fields), parts, index, settings);
            let read = described_rule(fields, parts, index, settings);
            let issues = rule_issues(fields, parts);
            let told = loaded_rule_warnings(JsonView::Object(fields), parts, index);
            &&& issues.len() == 0 ==> rule == read && told.len() == 0
            &&& issues.len() == 0 ==> rule.health == RuleHealth::Healthy && rule.config_error is None
            &&& issues.len() > 0 ==> {
                &&& rule.id == read.id && rule.name == read.name && rule.kind == read.kind
                &&& rule.enabled == read.enabled && rule.bidirectional == read.bidirectional
                &&& rule.auto_sync == read.auto_sync && rule.poll_fallback_enabled
                    == read.poll_fallback_enabled
                &&& rule.poll_interval_sec == read.poll_interval_sec
                &&& rule.delete_policy == read.delete_policy && rule.conflict_policy
                    == read.conflict_policy
                &&& rule.include_globs == read.include_globs && rule.exclude_globs
                    == read.exclude_globs
                &&& rule.last_sync_at == read.last_sync_at
                &&& is_blank_text(read.source_path) ==> rule.source_path.len() == 0
                &&& !is_blank_text(read.source_path) ==> rule.source_path == read.source_path
                &&& is_blank_text(read.target_path) ==> rule.target_path.len() == 0
                &&& !is_blank_text(read.target_path) ==> rule.target_path == read.target_path
                &&& !rule.watch_enabled
                &&& rule.sync_state.len() == 0
                &&& !rule.last_result.success
                &&& read.last_result.error_count >= 1 ==> rule.last_result.error_count
                    == read.last_result.error_count
                &&& read.last_result.error_count == 0 ==> rule.last_result.error_count == 1
                &&& rule.last_result.trigger == read.last_result.trigger
                &&& rule.last_result.started_at == read.last_result.started_at
                &&& rule.last_result.finished_at == read.last_result.finished_at
                &&& rule.last_result.copied_count == read.last_result.copied_count
                &&& rule.last_result.updated_count == read.last_result.updated_count
                &&& rule.last_result.skipped_count == read.last_result.skipped_count
                &&& rule.last_result.backup_count == read.last_result.backup_count
                &&& rule.last_result.deleted_count == read.last_result.deleted_count
                &&& is_blank_text(read.last_result.message) ==> rule.last_result.message
                    == "规则配置异常："@ + joined(issues, " "@)
                &&& !is_blank_text(read.last_result.message) ==> rule.last_result.message
                    == read.last_result.message + " | 配置异常："@ + joined(issues, " "@)
                &&& rule.health == RuleHealth::InvalidConfiguration
                &&& rule.config_error == Some(joined(issues, " "@))
                &&& told == seq![
                    "规则“"@ + rule.name + "”存在配置异常，已按异常规则加载。"@ + joined(issues, " "@),
                ]
            }
        }),
{
    let issues = rule_issues(fields, parts);
    let told = joined(issues, " "@);
    let message = described_rule(fields, parts, index, settings).last_result.message;
    let fresh = "规则配置异常："@ + told;
    let longer = message + " | 配置异常："@ + told;
    reveal_strlit("规则配置异常：");
    reveal_strlit(" | 配置异常：");
    blank_is_all_white_space(fresh);
    blank_is_all_white_space(longer);
    assert(!is_white_space(fresh[0]));
    assert(longer[message.len() as int + 1] == '|');
    assert(!is_white_space(longer[message.len() as int + 1]));
    assert(loaded_rule_warnings(JsonView::Object(fields), parts, index) =~= if issues.len() == 0 {
        Seq::<Seq<char>>::empty()
    } else {
        seq![
            "规则“"@ + described_rule(fields, parts, index, settings).name
                + "”存在配置异常，已按异常规则加载。"@ + joined(issues, " "@),
        ]
    });
}

/// Something in the list of rules that is no object comes out as a rule that
/// cannot run: a file rule without paths, which does not run by itself, under a
/// fresh id and a name that tells its number.
pub proof fn strange_item_becomes_a_broken_rule(
    value: JsonView,
    parts: RulePartsView,
    index: int,
    settings: SettingsView,
)
    requires
        !(value is Object),
    ensures
        ({
            let rule = loaded_rule(value, parts, index, settings);
            let number = decimal_text((index + 1) as nat);
            let message = "第 "@ + number + " 条规则不是有效对象，已标记为异常。"@;
            &&& rule.id == parts.fresh_id
            &&& rule.name == "异常规则 "@ + number
            &&& rule.kind == RuleKind::File && rule.enabled && !rule.bidirectional
            &&& !rule.auto_sync && !rule.watch_enabled && !rule.poll_fallback_enabled
            &&& rule.source_path.len() == 0 && rule.target_path.len() == 0
            &&& rule.include_globs.len() == 0 && rule.exclude_globs.len() == 0
            &&& rule.sync_state.len() == 0 && rule.last_sync_at is None
            &&& !rule.last_result.success && rule.last_result.error_count == 1
            &&& rule.health == RuleHealth::InvalidConfiguration
            &&& rule.config_error == Some(message)
            &&& loaded_rule_warnings(value, parts, index) == seq![message]
        }),
{
    let number = decimal_text((index + 1) as nat);
    let message = "第 "@ + number + " 条规则不是有效对象，已标记为异常。"@;
    assert(joined(seq![message], " "@) == message);
}

proof fn lemma_good_history(decoded: Seq<Result<HistoryView, Seq<char>>>)
    ensures
        decoded_history(decoded) == decoded.filter(
            |d: Result<HistoryView, Seq<char>>| d is Ok,
        ).map_values(|d: Result<HistoryView, Seq<char>>| d->Ok_0),
        decoded_history_warnings(decoded).len() == decoded.filter(
            |d: Result<HistoryView, Seq<char>>| d is Err,
        ).len(),
    decreases decoded.len(),
{
    let good = |d: Result<HistoryView, Seq<char>>| d is Ok;
    let inner = |d: Result<HistoryView, Seq<char>>| d->Ok_0;
    reveal(Seq::filter);
    if decoded.len() > 0 {
        let last = decoded.last();
        lemma_good_history(decoded.drop_last());
        let before = decoded.drop_last().filter(good);
        if good(last) {
            assert(before.push(last).map_values(inner) =~= before.map_values(inner).push(
                inner(last),
            ));
        }
    }
    assert(decoded_history(decoded) =~= decoded.filter(good).map_values(inner));
}

/// What a document that can be read as an object is loaded as. Settings that
/// cannot be made out are the default ones; without a list of rules there are
/// none, and where something else stands in its place there is one that is
/// broken. Of the history what can be made out is kept, in order. For each thing
/// that is put right there is something to tell.
pub proof fn document_is_loaded_part_by_part(
    fields: Seq<(Seq<char>, JsonView)>,
    parts: StorePartsView,
    i: int,
)
    ensures
        ({
            let load = loaded_store(Ok(JsonView::Object(fields)), parts);
            let rules = member(fields, "rules"@);
            let history = member(fields, "history"@);
            let settings = match parts.settings {
                Some(Ok(settings)) => settings,
                _ => default_settings(),
            };
            &&& load.store.settings == settings
            &&& rules is None ==> load.store.rules.len() == 0
            &&& rules matches Some(JsonView::Array(items)) ==> load.store.rules.len()
                == items.len() && (0 <= i < items.len() ==> load.store.rules[i] == loaded_rule(
                items[i],
                parts.rules[i],
                i,
                settings,
            ))
            &&& rules matches Some(value) ==> (!(value is Array) ==> load.store.rules.len() == 1
                && load.store.rules[0].health == RuleHealth::InvalidConfiguration
                && load.store.rules[0].id == parts.fresh_id && load.store.rules[0].name
                == "已损坏的规则配置"@ && load.store.rules[0].config_error == Some(
                "规则列表格式异常，已标记为损坏规则。"@,
            ))
            &&& history matches Some(JsonView::Array(_)) ==> load.store.history
                == parts.history.filter(
                |d: Result<HistoryView, Seq<char>>| d is Ok,
            ).map_values(|d: Result<HistoryView, Seq<char>>| d->Ok_0)
            &&& !(history matches Some(JsonView::Array(_))) ==> load.store.history.len() == 0
            &&& (parts.settings matches Some(Err(_))) ==> load.repaired && load.warnings.len() > 0
            &&& (history matches Some(value) && !(value is Array)) ==> load.repaired
            &&& (rules matches Some(value) && !(value is Array)) ==> load.repaired
            &&& (history matches Some(JsonView::Array(_))) && parts.history.filter(
                |d: Result<HistoryView, Seq<char>>| d is Err,
            ).len() > 0 ==> load.repaired
        }),
{
    lemma_good_history(parts.history);
    let message = "规则列表格式异常，已标记为损坏规则。"@;
    assert(joined(seq![message], " "@) == message);
}

/// A document that cannot be read, or is no object, is replaced: by the default
/// settings, no history, and one rule that is broken and says why.
pub proof fn unreadable_document_is_replaced(
    document: Result<JsonView, Seq<char>>,
    parts: StorePartsView,
)
    requires
        !(document matches Ok(JsonView::Object(_))),
    ensures
        ({
            let load = loaded_store(document, parts);
            let message = match document {
                Err(error) => "配置文件无法解析："@ + error,
                Ok(_) => "配置文件根节点不是对象，已重建默认配置。"@,
            };
            &&& load.store.settings == default_settings()
            &&& load.store.history.len() == 0
            &&& load.store.rules.len() == 1
            &&& load.store.rules[0].id == parts.fresh_id
            &&& load.store.rules[0].name == "已损坏的规则配置"@
            &&& load.store.rules[0].health == RuleHealth::InvalidConfiguration
            &&& load.store.rules[0].config_error == Some(message)
            &&& load.repaired
            &&& load.warnings == seq![message]
        }),
{
    let message = match document {
        Err(error) => "配置文件无法解析："@ + error,
        Ok(_) => "配置文件根节点不是对象，已重建默认配置。"@,
    };
    assert(joined(seq![message], " "@) == message);
}

/// By default the program is not started with the system, shows its window,
/// hides it when it is closed, is light, tells of what it does, polls every five
/// minutes and keeps backups for thirty days; a rule is switched on, works one
/// way, runs by itself, is watched, and is polled every five minutes.
pub proof fn defaults_are_as_documented()
    ensures
        ({
            let s = default_settings();
            &&& !s.launch_on_startup && !s.start_minimized_to_tray && s.close_to_tray
            &&& s.theme == "light"@ && s.show_notifications
            &&& s.default_poll_interval_sec == 5 * 60 && s.backup_retention_days == 30
        }),
        ({
            let r = blank_rule();
            &&& r.enabled && !r.bidirectional && r.auto_sync && r.watch_enabled
                && r.poll_fallback_enabled
            &&& r.kind == RuleKind::File && r.poll_interval_sec == 5 * 60
            &&& r.delete_policy == DeletePolicy::NoDelete && r.health == RuleHealth::Healthy
            &&& r.id.len() == 0 && r.name.len() == 0 && r.source_path.len() == 0
                && r.target_path.len() == 0
            &&& r.include_globs.len() == 0 && r.exclude_globs.len() == 0 && r.sync_state.len() == 0
            &&& r.last_sync_at is None && r.config_error is None && r.last_result
                == empty_last_result()
        }),
        ({
            let e = empty_last_result();
            &&& !e.success && e.message.len() == 0 && e.trigger is None && e.started_at is None
                && e.finished_at is None
            &&& e.copied_count == 0 && e.updated_count == 0 && e.skipped_count == 0
                && e.backup_count == 0 && e.deleted_count == 0 && e.error_count == 0
        }),
{
}

/// A rule is written with each of its fields under its own key.
pub proof fn rule_is_written_under_its_keys(rule: RuleView)
    ensures
        ({
            let fields = rule_fields(rule);
            let number = |n: nat| JsonView::Number { value: Some(n as u64), text: decimal_text(n) };
            let maybe = |t: Option<Seq<char>>|
                match t {
                    Some(text) => JsonView::Text(text),
                    None => JsonView::Null,
                };
            let list = |l: Seq<Seq<char>>|
                JsonView::Array(l.map_values(|t: Seq<char>| JsonView::Text(t)));
            &&& fields.len() == 20
            &&& fields.contains(("id"@, JsonView::Text(rule.id)))
            &&& fields.contains(("name"@, JsonView::Text(rule.name)))
            &&& fields.contains(("enabled"@, JsonView::Bool(rule.enabled)))
            &&& fields.contains(
                (
                    "kind"@,
                    JsonView::Text(
                        if rule.kind == RuleKind::File {
                            "file"@
                        } else {
                            "folder"@
                        },
                    ),
                ),
            )
            &&& fields.contains(("sourcePath"@, JsonView::Text(rule.source_path)))
            &&& fields.contains(("targetPath"@, JsonView::Text(rule.target_path)))
            &&& fields.contains(("bidirectional"@, JsonView::Bool(rule.bidirectional)))
            &&& fields.contains(("autoSync"@, JsonView::Bool(rule.auto_sync)))
            &&& fields.contains(("watchEnabled"@, JsonView::Bool(rule.watch_enabled)))
            &&& fields.contains(("pollFallbackEnabled"@, JsonView::Bool(rule.poll_fallback_enabled)))
            &&& fields.contains(("pollIntervalSec"@, number(rule.poll_interval_sec as nat)))
            &&& fields.contains(("conflictPolicy"@, JsonView::Text("overwriteWithBackup"@)))
            &&& fields.contains(
                (
                    "deletePolicy"@,
                    JsonView::Text(
                        if rule.delete_policy == DeletePolicy::NoDelete {
                            "noDelete"@
                        } else {
                            "moveToBackup"@
                        },
                    ),
                ),
            )
            &&& fields.contains(("includeGlobs"@, list(rule.include_globs)))
            &&& fields.contains(("excludeGlobs"@, list(rule.exclude_globs)))
            &&& fields.contains(
                ("syncState"@, JsonView::Object(seq![("mirroredEntries"@, list(rule.sync_state))])),
            )
            &&& fields.contains(("lastSyncAt"@, maybe(rule.last_sync_at)))
            &&& fields.contains(("lastResult"@, last_result_document(rule.last_result)))
            &&& fields.contains(("health"@, JsonView::Text(health_word(rule.health))))
            &&& fields.contains(("configError"@, maybe(rule.config_error)))
        }),
{
    let fields = rule_fields(rule);
    let number = |n: nat| JsonView::Number { value: Some(n as u64), text: decimal_text(n) };
    let maybe = |t: Option<Seq<char>>|
        match t {
            Some(text) => JsonView::Text(text),
            None => JsonView::Null,
        };
    let list = |l: Seq<Seq<char>>| JsonView::Array(l.map_values(|t: Seq<char>| JsonView::Text(t)));
    assert(fields[0] == ("id"@, JsonView::Text(rule.id)));
    assert(fields[1] == ("name"@, JsonView::Text(rule.name)));
    assert(fields[2] == ("enabled"@, JsonView::Bool(rule.enabled)));
    assert(fields[3] == (
        "kind"@,
        JsonView::Text(
            if rule.kind == RuleKind::File {
                "file"@
            } else {
                "folder"@
            },
        ),
    ));
    assert(fields[4] == ("sourcePath"@, JsonView::Text(rule.source_path)));
    assert(fields[5] == ("targetPath"@, JsonView::Text(rule.target_path)));
    assert(fields[6] == ("bidirectional"@, JsonView::Bool(rule.bidirectional)));
    assert(fields[7] == ("autoSync"@, JsonView::Bool(rule.auto_sync)));
    assert(fields[8] == ("watchEnabled"@, JsonView::Bool(rule.watch_enabled)));
    assert(fields[9] == ("pollFallbackEnabled"@, JsonView::Bool(rule.poll_fallback_enabled)));
    assert(fields[10] == ("pollIntervalSec"@, number(rule.poll_interval_sec as nat)));
    assert(fields[11] == ("conflictPolicy"@, JsonView::Text("overwriteWithBackup"@)));
    assert(fields[12] == (
        "deletePolicy"@,
        JsonView::Text(
            if rule.delete_policy == DeletePolicy::NoDelete {
                "noDelete"@
            } else {
                "moveToBackup"@
            },
        ),
    ));
    assert(fields[13] == ("includeGlobs"@, list(rule.include_globs)));
    assert(fields[14] == ("excludeGlobs"@, list(rule.exclude_globs)));
    assert(fields[15] == (
        "syncState"@,
        JsonView::Object(seq![("mirroredEntries"@, list(rule.sync_state))]),
    ));
    assert(fields[16] == ("lastSyncAt"@, maybe(rule.last_sync_at)));
    assert(fields[17] == ("lastResult"@, last_result_document(rule.last_result)));
    assert(fields[18] == ("health"@, JsonView::Text(health_word(rule.health))));
    assert(fields[19] == ("configError"@, maybe(rule.config_error)));
}

/// The last result of a rule is written with each of its fields under its own key.
pub proof fn last_result_is_written_under_its_keys(r: LastResultView)
    ensures
        ({
            let fields = last_result_document(r)->Object_0;
            let number = |n: nat| JsonView::Number { value: Some(n as u64), text: decimal_text(n) };
            let maybe = |t: Option<Seq<char>>|
                match t {
                    Some(text) => JsonView::Text(text),
                    None => JsonView::Null,
                };
            &&& last_result_document(r) is Object
            &&& fields.len() == 11
            &&& fields.contains(("success"@, JsonView::Bool(r.success)))
            &&& fields.contains(("message"@, JsonView::Text(r.message)))
            &&& fields.contains(
                (
                    "trigger"@,
                    match r.trigger {
                        Some(t) => JsonView::Text(trigger_word(t)),
                        None => JsonView::Null,
                    },
                ),
            )
            &&& fields.contains(("startedAt"@, maybe(r.started_at)))
            &&& fields.contains(("finishedAt"@, maybe(r.finished_at)))
            &&& fields.contains(("copiedCount"@, number(r.copied_count as nat)))
            &&& fields.contains(("updatedCount"@, number(r.updated_count as nat)))
            &&& fields.contains(("skippedCount"@, number(r.skipped_count as nat)))
            &&& fields.contains(("backupCount"@, number(r.backup_count as nat)))
            &&& fields.contains(("deletedCount"@, number(r.deleted_count as nat)))
            &&& fields.contains(("errorCount"@, number(r.error_count as nat)))
        }),
{
    let fields = last_result_document(r)->Object_0;
    let number = |n: nat| JsonView::Number { value: Some(n as u64), text: decimal_text(n) };
    let maybe = |t: Option<Seq<char>>|
        match t {
            Some(text) => JsonView::Text(text),
            None => JsonView::Null,
        };
    assert(fields[0] == ("success"@, JsonView::Bool(r.success)));
    assert(fields[1] == ("message"@, JsonView::Text(r.message)));
    assert(fields[2] == (
        "trigger"@,
        match r.trigger {
            Some(t) => JsonView::Text(trigger_word(t)),
            None => JsonView::Null,
        },
    ));
    assert(fields[3] == ("startedAt"@, maybe(r.started_at)));
    assert(fields[4] == ("finishedAt"@, maybe(r.finished_at)));
    assert(fields[5] == ("copiedCount"@, number(r.copied_count as nat)));
    assert(fields[6] == ("updatedCount"@, number(r.updated_count as nat)));
    assert(fields[7] == ("skippedCount"@, number(r.skipped_count as nat)));
    assert(fields[8] == ("backupCount"@, number(r.backup_count as nat)));
    assert(fields[9] == ("deletedCount"@, number(r.deleted_count as nat)));
    assert(fields[10] == ("errorCount"@, number(r.error_count as nat)));
}

/// The settings are written with each of their fields under its own key.
pub proof fn settings_are_written_under_their_keys(s: SettingsView)
    ensures
        ({
            let fields = settings_document(s)->Object_0;
            let number = |n: nat| JsonView::Number { value: Some(n as u64), text: decimal_text(n) };
            &&& settings_document(s) is Object
            &&& fields.len() == 7
            &&& fields.contains(("launchOnStartup"@, JsonView::Bool(s.launch_on_startup)))
            &&& fields.contains(("startMinimizedToTray"@, JsonView::Bool(s.start_minimized_to_tray)))
            &&& fields.contains(("closeToTray"@, JsonView::Bool(s.close_to_tray)))
            &&& fields.contains(("theme"@, JsonView::Text(s.theme)))
            &&& fields.contains(("showNotifications"@, JsonView::Bool(s.show_notifications)))
            &&& fields.contains(("defaultPollIntervalSec"@, number(s.default_poll_interval_sec as nat)))
            &&& fields.contains(("backupRetentionDays"@, number(s.backup_retention_days as nat)))
        }),
{
    let fields = settings_document(s)->Object_0;
    let number = |n: nat| JsonView::Number { value: Some(n as u64), text: decimal_text(n) };
    assert(fields[0] == ("launchOnStartup"@, JsonView::Bool(s.launch_on_startup)));
    assert(fields[1] == ("startMinimizedToTray"@, JsonView::Bool(s.start_minimized_to_tray)));
    assert(fields[2] == ("closeToTray"@, JsonView::Bool(s.close_to_tray)));
    assert(fields[3] == ("theme"@, JsonView::Text(s.theme)));
    assert(fields[4] == ("showNotifications"@, JsonView::Bool(s.show_notifications)));
    assert(fields[5] == ("defaultPollIntervalSec"@, number(s.default_poll_interval_sec as nat)));
    assert(fields[6] == ("backupRetentionDays"@, number(s.backup_retention_days as nat)));
}

/// A run of the history is written with each of its fields under its own key.
pub proof fn history_is_written_under_its_keys(h: HistoryView)
    ensures
        ({
            let fields = history_document(h)->Object_0;
            let number = |n: nat| JsonView::Number { value: Some(n as u64), text: decimal_text(n) };
            &&& history_document(h) is Object
            &&& fields.len() == 13
            &&& fields.contains(("ruleId"@, JsonView::Text(h.rule_id)))
            &&& fields.contains(("ruleName"@, JsonView::Text(h.rule_name)))
            &&& fields.contains(("startedAt"@, JsonView::Text(h.started_at)))
            &&& fields.contains(("finishedAt"@, JsonView::Text(h.finished_at)))
            &&& fields.contains(("trigger"@, JsonView::Text(trigger_word(h.trigger))))
            &&& fields.contains(("copiedCount"@, number(h.copied_count as nat)))
            &&& fields.contains(("updatedCount"@, number(h.updated_count as nat)))
            &&& fields.contains(("skippedCount"@, number(h.skipped_count as nat)))
            &&& fields.contains(("backupCount"@, number(h.backup_count as nat)))
            &&& fields.contains(("deletedCount"@, number(h.deleted_count as nat)))
            &&& fields.contains(("errorCount"@, number(h.error_count as nat)))
            &&& fields.contains(("success"@, JsonView::Bool(h.success)))
            &&& fields.contains(("message"@, JsonView::Text(h.message)))
        }),
{
    let fields = history_document(h)->Object_0;
    let number = |n: nat| JsonView::Number { value: Some(n as u64), text: decimal_text(n) };
    assert(fields[0] == ("ruleId"@, JsonView::Text(h.rule_id)));
    assert(fields[1] == ("ruleName"@, JsonView::Text(h.rule_name)));
    assert(fields[2] == ("startedAt"@, JsonView::Text(h.started_at)));
    assert(fields[3] == ("finishedAt"@, JsonView::Text(h.finished_at)));
    assert(fields[4] == ("trigger"@, JsonView::Text(trigger_word(h.trigger))));
    assert(fields[5] == ("copiedCount"@, number(h.copied_count as nat)));
    assert(fields[6] == ("updatedCount"@, number(h.updated_count as nat)));
    assert(fields[7] == ("skippedCount"@, number(h.skipped_count as nat)));
    assert(fields[8] == ("backupCount"@, number(h.backup_count as nat)));
    assert(fields[9] == ("deletedCount"@, number(h.deleted_count as nat)));
    assert(fields[10] == ("errorCount"@, number(h.error_count as nat)));
    assert(fields[11] == ("success"@, JsonView::Bool(h.success)));
    assert(fields[12] == ("message"@, JsonView::Text(h.message)));
}

/// The words for what set a run off, and for how a rule is.
pub proof fn words_are_those_of_the_document()
    ensures
        trigger_word(SyncTrigger::Manual) == "manual"@,
        trigger_word(SyncTrigger::Watch) == "watch"@,
        trigger_word(SyncTrigger::Poll) == "poll"@,
        trigger_word(SyncTrigger::Startup) == "startup"@,
        trigger_word(SyncTrigger::Cleanup) == "cleanup"@,
        health_word(RuleHealth::Healthy) == "healthy"@,
        health_word(RuleHealth::MissingSource) == "missingSource"@,
        health_word(RuleHealth::InvalidSourceType) == "invalidSourceType"@,
        health_word(RuleHealth::InvalidTargetPath) == "invalidTargetPath"@,
        health_word(RuleHealth::OverlappingDirectories) == "overlappingDirectories"@,
        health_word(RuleHealth::InvalidConfiguration) == "invalidConfiguration"@,
        health_word(RuleHealth::WatchUnavailable) == "watchUnavailable"@,
{
}

/// A store is written with its rules and its history as lists, in order, and
/// its settings.
pub proof fn store_is_written_in_order(store: StoreView, i: int)
    ensures
        ({
            let fields = store_document(store)->Object_0;
            &&& store_document(store) is Object && fields.len() == 3
            &&& fields[0].0 == "rules"@ && fields[1].0 == "settings"@ && fields[2].0 == "history"@
            &&& fields[1].1 == settings_document(store.settings)
            &&& fields[0].1 matches JsonView::Array(rules) && rules.len() == store.rules.len() && (0
                <= i < rules.len() ==> rules[i] == JsonView::Object(rule_fields(store.rules[i])))
            &&& fields[2].1 matches JsonView::Array(runs) && runs.len() == store.history.len() && (0
                <= i < runs.len() ==> runs[i] == history_document(store.history[i]))
        }),
{
}

/// What is said of a member that is not of its own sort names its key.
pub proof fn strange_member_is_named(fields: Seq<(Seq<char>, JsonView)>, key: Seq<char>)
    ensures
        member(fields, key) matches Some(value) ==> {
            let named = "字段“"@ + key + "”"@;
            &&& !(value is Text) && !(value is Null) ==> string_field_issues(fields, key) == seq![
                named + "不是字符串。"@,
            ]
            &&& !(value is Bool) && !(value is Null) ==> bool_field_issues(fields, key) == seq![
                named + "不是布尔值。"@,
            ]
            &&& !(value is Number) && !(value is Null) ==> u64_field_issues(fields, key) == seq![
                named + "不是数字。"@,
            ]
            &&& (value matches JsonView::Number { value: None, .. }) ==> u64_field_issues(
                fields,
                key,
            ) == seq![named + "不是正整数。"@]
            &&& !(value is Array) && !(value is Null) ==> string_array_field_issues(fields, key)
                == seq![named + "不是字符串数组。"@]
            &&& (value matches JsonView::Array(items) && other_items(items) > 0)
                ==> string_array_field_issues(fields, key) == seq![
                "字段“"@ + key + "”中有 "@ + decimal_text(other_items(value->Array_0))
                    + " 项不是字符串，已忽略。"@,
            ]
        },
{
}

proof fn lemma_issues_add_up(s: Seq<Seq<char>>, p: Seq<Seq<char>>)
    ensures
        forall|x: Seq<char>| #[trigger] s.contains(x) ==> (s + p).contains(x),
        forall|x: Seq<char>| #[trigger] p.contains(x) ==> (s + p).contains(x),
{
    assert forall|x: Seq<char>| #[trigger] s.contains(x) implies (s + p).contains(x) by {
        let i = choose|i: int| 0 <= i < s.len() && s[i] == x;
        assert((s + p)[i] == x);
    }
    assert forall|x: Seq<char>| #[trigger] p.contains(x) implies (s + p).contains(x) by {
        let i = choose|i: int| 0 <= i < p.len() && p[i] == x;
        assert((s + p)[s.len() + i] == x);
    }
}

/// What is said of a rule that lacks something, or whose last result or
/// mirrored entries could not be made out.
pub proof fn lacking_rule_says_what_is_missing(
    fields: Seq<(Seq<char>, JsonView)>,
    parts: RulePartsView,
    text: Seq<char>,
)
    ensures
        filled(string_field(fields, "id"@)) is None ==> rule_issues(fields, parts).contains(
            "缺少规则 ID，已重新生成。"@,
        ),
        filled(string_field(fields, "name"@)) is None ==> rule_issues(fields, parts).contains(
            "缺少规则名称，已使用默认名称。"@,
        ),
        is_blank_text(path_field(fields, "sourcePath"@)) ==> rule_issues(fields, parts).contains(
            "源路径缺失。"@,
        ),
        is_blank_text(path_field(fields, "targetPath"@)) ==> rule_issues(fields, parts).contains(
            "目标路径缺失。"@,
        ),
        parts.sync_state == Some(Err::<Seq<Seq<char>>, Seq<char>>(text)) ==> rule_issues(
            fields,
            parts,
        ).contains("同步清单格式异常，已重置："@ + text),
        parts.last_result == Some(Err::<LastResultView, Seq<char>>(text)) ==> rule_issues(
            fields,
            parts,
        ).contains("最近一次同步结果格式异常，已重置："@ + text),
        rule_kind_issues(None) == seq!["缺少规则类型，已按文件规则载入。"@],
        text != "file"@ && text != "folder"@ ==> rule_kind_issues(Some(text)) == seq![
            "规则类型“"@ + text + "”无效，已按文件规则载入。"@,
        ],
{
    let s0 = Seq::<Seq<char>>::empty();
    let p1 = string_field_issues(fields, "id"@);
    let s1 = s0 + p1;
    lemma_issues_add_up(s0, p1);
    let p2 = issue_if(filled(string_field(fields, "id"@)) is None, "缺少规则 ID，已重新生成。"@);
    let s2 = s1 + p2;
    lemma_issues_add_up(s1, p2);
    let p3 = string_field_issues(fields, "name"@);
    let s3 = s2 + p3;
    lemma_issues_add_up(s2, p3);
    let p4 = issue_if(
        filled(string_field(fields, "name"@)) is None,
        "缺少规则名称，已使用默认名称。"@,
    );
    let s4 = s3 + p4;
    lemma_issues_add_up(s3, p4);
    let p5 = string_field_issues(fields, "kind"@);
    let s5 = s4 + p5;
    lemma_issues_add_up(s4, p5);
    let p6 = rule_kind_issues(string_field(fields, "kind"@));
    let s6 = s5 + p6;
    lemma_issues_add_up(s5, p6);
    let p7 = string_field_issues(fields, "sourcePath"@);
    let s7 = s6 + p7;
    lemma_issues_add_up(s6, p7);
    let p8 = issue_if(is_blank_text(path_field(fields, "sourcePath"@)), "源路径缺失。"@);
    let s8 = s7 + p8;
    lemma_issues_add_up(s7, p8);
    let p9 = string_field_issues(fields, "targetPath"@);
    let s9 = s8 + p9;
    lemma_issues_add_up(s8, p9);
    let p10 = issue_if(is_blank_text(path_field(fields, "targetPath"@)), "目标路径缺失。"@);
    let s10 = s9 + p10;
    lemma_issues_add_up(s9, p10);
    let p11 = bool_field_issues(fields, "enabled"@);
    let s11 = s10 + p11;
    lemma_issues_add_up(s10, p11);
    let p12 = bool_field_issues(fields, "bidirectional"@);
    let s12 = s11 + p12;
    lemma_issues_add_up(s11, p12);
    let p13 = bool_field_issues(fields, "autoSync"@);
    let s13 = s12 + p13;
    lemma_issues_add_up(s12, p13);
    let p14 = bool_field_issues(fields, "watchEnabled"@);
    let s14 = s13 + p14;
    lemma_issues_add_up(s13, p14);
    let p15 = bool_field_issues(fields, "pollFallbackEnabled"@);
    let s15 = s14 + p15;
    lemma_issues_add_up(s14, p15);
    let p16 = u64_field_issues(fields, "pollIntervalSec"@);
    let s16 = s15 + p16;
    lemma_issues_add_up(s15, p16);
    let p17 = string_array_field_issues(fields, "includeGlobs"@);
    let s17 = s16 + p17;
    lemma_issues_add_up(s16, p17);
    let p18 = string_array_field_issues(fields, "excludeGlobs"@);
    let s18 = s17 + p18;
    lemma_issues_add_up(s17, p18);
    let p19 = sync_state_issues(parts.sync_state);
    let s19 = s18 + p19;
    lemma_issues_add_up(s18, p19);
    let p20 = string_field_issues(fields, "lastSyncAt"@);
    let s20 = s19 + p20;
    lemma_issues_add_up(s19, p20);
    let p21 = last_result_issues(parts.last_result);
    let s21 = s20 + p21;
    lemma_issues_add_up(s20, p21);
    assert(rule_issues(fields, parts) == s21);
    if p2.len() > 0 {
        assert(p2.contains(p2[0]));
    }
    if p4.len() > 0 {
        assert(p4.contains(p4[0]));
    }
    if p8.len() > 0 {
        assert(p8.contains(p8[0]));
    }
    if p10.len() > 0 {
        assert(p10.contains(p10[0]));
    }
    if p19.len() > 0 {
        assert(p19.contains(p19[0]));
    }
    if p21.len() > 0 {
        assert(p21.contains(p21[0]));
    }
}

/// What is told of a store that had to be put right names what was put right:
/// the settings, a run of the history by its number, and a history that was
/// none.
pub proof fn repairs_are_told(
    message: Seq<char>,
    decoded: Seq<Result<HistoryView, Seq<char>>>,
    item: HistoryView,
    value: JsonView,
)
    ensures
        settings_warnings(Some(Err(message))) == seq!["设置项格式异常，已恢复默认值："@ + message],
        settings_warnings(None).len() == 0,
        decoded_history_warnings(decoded.push(Err(message))) == decoded_history_warnings(
            decoded,
        ).push(
            "第 "@ + decimal_text((decoded.len() + 1) as nat) + " 条历史记录格式异常，已跳过："@
                + message,
        ),
        !(value is Array) ==> history_warnings(Some(value), decoded) == seq![
            "同步历史格式异常，已重置为空。"@,
        ],
        history_warnings(None, decoded).len() == 0,
        decoded_history_warnings(decoded.push(Ok(item))) == decoded_history_warnings(decoded),
{
    assert(decoded.push(Err(message)).drop_last() =~= decoded);
    assert(decoded.push(Ok(item)).drop_last() =~= decoded);
}

/// What is told of a rule stands behind all that is told of those before it,
/// and what follows does not move it.
proof fn lemma_rule_is_told_at(items: Seq<JsonView>, parts: Seq<RulePartsView>, i: int, n: int)
    requires
        0 <= i < n,
    ensures
        ({
            let told = rule_list_warnings(items, parts, n);
            let before = rule_list_warnings(items, parts, i).len();
            let own = loaded_rule_warnings(items[i], parts[i], i);
            &&& before + own.len() <= told.len()
            &&& own.len() > 0 ==> told[before as int] == own[0]
        }),
    decreases n,
{
    if i < n - 1 {
        lemma_rule_is_told_at(items, parts, i, n - 1);
    }
}

/// What is told of a store comes in the order of the store: the settings, the
/// rules one after the other, and the history, its last run at the end.
pub proof fn repairs_are_told_in_order(
    fields: Seq<(Seq<char>, JsonView)>,
    items: Seq<JsonView>,
    entries: Seq<JsonView>,
    parts: StorePartsView,
    i: int,
    j: int,
)
    requires
        member(fields, "rules"@) == Some(JsonView::Array(items)),
        member(fields, "history"@) == Some(JsonView::Array(entries)),
        parts.rules.len() == items.len(),
        0 <= i < j < items.len(),
        loaded_rule_warnings(items[i], parts.rules[i], i).len() > 0,
        loaded_rule_warnings(items[j], parts.rules[j], j).len() > 0,
    ensures
        ({
            let told = loaded_store(Ok(JsonView::Object(fields)), parts).warnings;
            &&& parts.settings matches Some(Err(message)) ==> told[0]
                == "设置项格式异常，已恢复默认值："@ + message
            &&& exists|a: int, b: int|
                0 <= a < b < told.len() && #[trigger] told[a] == loaded_rule_warnings(
                    items[i],
                    parts.rules[i],
                    i,
                )[0] && #[trigger] told[b] == loaded_rule_warnings(items[j], parts.rules[j], j)[0]
            &&& parts.history.len() > 0 && parts.history.last() is Err ==> told.last() == "第 "@
                + decimal_text(parts.history.len()) + " 条历史记录格式异常，已跳过："@
                + parts.history.last()->Err_0
        }),
{
    let told = loaded_store(Ok(JsonView::Object(fields)), parts).warnings;
    let n = items.len() as int;
    let first = settings_warnings(parts.settings);
    let second = rule_list_warnings(items, parts.rules, n);
    let third = decoded_history_warnings(parts.history);
    assert(told == first + second + third);
    lemma_rule_is_told_at(items, parts.rules, i, n);
    lemma_rule_is_told_at(items, parts.rules, j, n);
    lemma_rule_is_told_at(items, parts.rules, i, j);
    let a = first.len() + rule_list_warnings(items, parts.rules, i).len();
    let b = first.len() + rule_list_warnings(items, parts.rules, j).len();
    assert(a < b < first.len() + second.len());
    assert(told[a as int] == loaded_rule_warnings(items[i], parts.rules[i], i)[0]);
    assert(told[b as int] == loaded_rule_warnings(items[j], parts.rules[j], j)[0]);
    if parts.history.len() > 0 && parts.history.last() is Err {
        assert(third.len() > 0);
        assert(told.last() == third.last());
    }
}

} // verus!
