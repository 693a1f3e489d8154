//! Loading what was kept between two starts: whatever the document holds, a
//! store comes of it, with rules that could not be read marked as such.
use crate::ids::{fresh_id_is_not_blank, is_uuid_text, new_id};
use crate::json::{
    field_views, get_field, item_views, json_array_view, json_document, json_object_view, member,
    opt_json, parse_json, Json, JsonField, JsonView,
};
use crate::models::{
    default_settings, empty_last_result, history_views, rule_views, AppSettings, ConflictPolicy,
    HistoryView, LastResultView, PersistedStore, RuleHealth, RuleKind, RuleLastResult,
    RuleSyncState, RuleView, SettingsView, StoreView, SyncHistoryItem, SyncRule,
};
use crate::rules::{
    default_delete_policy, delete_policy_of, larger, larger_of, MIN_POLL_INTERVAL_SEC,
};
use crate::text::{
    decimal_count, decimal_text, is_blank, is_blank_text, join, joined, opt_text, same_text, texts,
    trim, trim_text,
};
use vstd::prelude::*;
use vstd::string::*;

verus! {

broadcast use vstd::string::group_string_axioms;

/// What is told of a field: `字段“key”` and then what is the matter with it.
pub open spec fn field_issue(key: Seq<char>, matter: Seq<char>) -> Seq<char> {
    "字段“"@ + key + "”"@ + matter
}

fn push_field_issue(issues: &mut Vec<String>, key: &str, matter: &str)
    ensures
        texts(final(issues)@) == texts(old(issues)@).push(field_issue(key@, matter@)),
{
    let ghost before = texts(issues@);
    let mut text = String::from_str("字段“");
    text.append(key);
    text.append("”");
    text.append(matter);
    issues.push(text);
    proof {
        assert(texts(issues@) =~= before.push(field_issue(key@, matter@)));
    }
}

/// Adds a text to a list of texts.
fn push_text(list: &mut Vec<String>, text: String)
    ensures
        texts(final(list)@) == texts(old(list)@).push(text@),
{
    let ghost before = texts(list@);
    list.push(text);
    proof {
        assert(texts(list@) =~= before.push(text@));
    }
}

/// The text under a key, where there is one.
pub open spec fn string_field(fields: Seq<(Seq<char>, JsonView)>, key: Seq<char>) -> Option<
    Seq<char>,
> {
    match member(fields, key) {
        Some(JsonView::Text(text)) => Some(text),
        _ => None,
    }
}

/// What is the matter with a field that is to hold a text.
pub open spec fn string_field_issues(fields: Seq<(Seq<char>, JsonView)>, key: Seq<char>) -> Seq<
    Seq<char>,
> {
    match member(fields, key) {
        None => Seq::empty(),
        Some(JsonView::Text(_)) => Seq::empty(),
        Some(JsonView::Null) => Seq::empty(),
        Some(_) => seq![field_issue(key, "不是字符串。"@)],
    }
}

/// Reads a text; a missing field and `null` are nothing, anything else is an issue.
pub fn read_string_field(object: &Vec<JsonField>, key: &str, issues: &mut Vec<String>) -> (r:
    Option<String>)
    ensures
        opt_text(r) == string_field(field_views(object@), key@),
        texts(final(issues)@) == texts(old(issues)@) + string_field_issues(
            field_views(object@),
            key@,
        ),
{
    let ghost before = texts(issues@);
    proof {
        assert(before + Seq::<Seq<char>>::empty() =~= before);
        let issue = field_issue(key@, "不是字符串。"@);
        assert(before + seq![issue] =~= before.push(issue));
    }
    match get_field(object, key) {
        Some(Json::Text(value)) => Some(value.clone()),
        Some(Json::Null) => None,
        Some(_) => {
            push_field_issue(issues, key, "不是字符串。");
            None
        },
        None => None,
    }
}

/// A text that is not blank, where there is one.
pub open spec fn filled(text: Option<Seq<char>>) -> Option<Seq<char>> {
    match text {
        Some(value) => if is_blank_text(value) {
            None
        } else {
            Some(value)
        },
        None => None,
    }
}

fn keep_filled(text: Option<String>) -> (r: Option<String>)
    ensures
        opt_text(r) == filled(opt_text(text)),
{
    match text {
        Some(value) => {
            if is_blank(value.as_str()) {
                None
            } else {
                Some(value)
            }
        },
        None => None,
    }
}

/// Reads a text that may as well be missing or blank.
pub fn read_optional_string_field(
    object: &Vec<JsonField>,
    key: &str,
    issues: &mut Vec<String>,
) -> (r: Option<String>)
    ensures
        opt_text(r) == filled(string_field(field_views(object@), key@)),
        texts(final(issues)@) == texts(old(issues)@) + string_field_issues(
            field_views(object@),
            key@,
        ),
{
    let value = read_string_field(object, key, issues);
    keep_filled(value)
}

pub open spec fn bool_field(
    fields: Seq<(Seq<char>, JsonView)>,
    key: Seq<char>,
    default_value: bool,
) -> bool {
    match member(fields, key) {
        Some(JsonView::Bool(value)) => value,
        _ => default_value,
    }
}

pub open spec fn bool_field_issues(fields: Seq<(Seq<char>, JsonView)>, key: Seq<char>) -> Seq<
    Seq<char>,
> {
    match member(fields, key) {
        None => Seq::empty(),
        Some(JsonView::Bool(_)) => Seq::empty(),
        Some(JsonView::Null) => Seq::empty(),
        Some(_) => seq![field_issue(key, "不是布尔值。"@)],
    }
}

/// Reads a truth value; a missing field and `null` stand for the default,
/// anything else is an issue.
pub fn read_bool_field(
    object: &Vec<JsonField>,
    key: &str,
    default_value: bool,
    issues: &mut Vec<String>,
) -> (r: bool)
    ensures
        r == bool_field(field_views(object@), key@, default_value),
        texts(final(issues)@) == texts(old(issues)@) + bool_field_issues(
            field_views(object@),
            key@,
        ),
{
    let ghost before = texts(issues@);
    proof {
        assert(before + Seq::<Seq<char>>::empty() =~= before);
        let issue = field_issue(key@, "不是布尔值。"@);
        assert(before + seq![issue] =~= before.push(issue));
    }
    match get_field(object, key) {
        Some(Json::Bool(value)) => *value,
        Some(Json::Null) => default_value,
        Some(_) => {
            push_field_issue(issues, key, "不是布尔值。");
            default_value
        },
        None => default_value,
    }
}

pub open spec fn u64_field(
    fields: Seq<(Seq<char>, JsonView)>,
    key: Seq<char>,
    default_value: u64,
) -> u64 {
    match member(fields, key) {
        Some(JsonView::Number { value: Some(value), .. }) => value,
        _ => default_value,
    }
}

pub open spec fn u64_field_issues(fields: Seq<(Seq<char>, JsonView)>, key: Seq<char>) -> Seq<
    Seq<char>,
> {
    match member(fields, key) {
        None => Seq::empty(),
        Some(JsonView::Number { value: Some(_), .. }) => Seq::empty(),
        Some(JsonView::Number { value: None, .. }) => seq![field_issue(key, "不是正整数。"@)],
        Some(JsonView::Null) => Seq::empty(),
        Some(_) => seq![field_issue(key, "不是数字。"@)],
    }
}

/// Reads a whole number; a missing field and `null` stand for the default,
/// anything else is an issue.
pub fn read_u64_field(
    object: &Vec<JsonField>,
    key: &str,
    default_value: u64,
    issues: &mut Vec<String>,
) -> (r: u64)
    ensures
        r == u64_field(field_views(object@), key@, default_value),
        texts(final(issues)@) == texts(old(issues)@) + u64_field_issues(field_views(object@), key@),
{
    let ghost before = texts(issues@);
    proof {
        assert(before + Seq::<Seq<char>>::empty() =~= before);
        let a = field_issue(key@, "不是正整数。"@);
        assert(before + seq![a] =~= before.push(a));
        let b = field_issue(key@, "不是数字。"@);
        assert(before + seq![b] =~= before.push(b));
    }
    match get_field(object, key) {
        Some(Json::Number { value, text }) => {
            match value {
                Some(number) => *number,
                None => {
                    push_field_issue(issues, key, "不是正整数。");
                    default_value
                },
            }
        },
        Some(Json::Null) => default_value,
        Some(_) => {
            push_field_issue(issues, key, "不是数字。");
            default_value
        },
        None => default_value,
    }
}

/// The texts among `items`, trimmed, without the blank ones.
pub open spec fn string_items(items: Seq<JsonView>) -> Seq<Seq<char>>
    decreases items.len(),
{
    if items.len() == 0 {
        Seq::empty()
    } else {
        let before = string_items(items.drop_last());
        match items.last() {
            JsonView::Text(text) => if is_blank_text(text) {
                before
            } else {
                before.push(trim_text(text))
            },
            _ => before,
        }
    }
}

/// How many of `items` are neither texts nor `null`.
pub open spec fn other_items(items: Seq<JsonView>) -> nat
    decreases items.len(),
{
    if items.len() == 0 {
        0
    } else {
        let before = other_items(items.drop_last());
        match items.last() {
            JsonView::Text(_) => before,
            JsonView::Null => before,
            _ => before + 1,
        }
    }
}

pub open spec fn string_array_field(fields: Seq<(Seq<char>, JsonView)>, key: Seq<char>) -> Seq<
    Seq<char>,
> {
    match member(fields, key) {
        Some(JsonView::Array(items)) => string_items(items),
        _ => Seq::empty(),
    }
}

/// What is told of a list some of whose items are no texts.
pub open spec fn ignored_items_issue(key: Seq<char>, count: nat) -> Seq<char> {
    "字段“"@ + key + "”中有 "@ + decimal_text(count) + " 项不是字符串，已忽略。"@
}

pub open spec fn string_array_field_issues(
    fields: Seq<(Seq<char>, JsonView)>,
    key: Seq<char>,
) -> Seq<Seq<char>> {
    match member(fields, key) {
        None => Seq::empty(),
        Some(JsonView::Array(items)) => if other_items(items) > 0 {
            seq![ignored_items_issue(key, other_items(items))]
        } else {
            Seq::empty()
        },
        Some(JsonView::Null) => Seq::empty(),
        Some(_) => seq![field_issue(key, "不是字符串数组。"@)],
    }
}

/// Reads a list of texts: they are trimmed, blank ones and `null` are left
/// out, and anything else is an issue.
pub fn read_string_array_field(object: &Vec<JsonField>, key: &str, issues: &mut Vec<String>) -> (r:
    Vec<String>)
    ensures
        texts(r@) == string_array_field(field_views(object@), key@),
        texts(final(issues)@) == texts(old(issues)@) + string_array_field_issues(
            field_views(object@),
            key@,
        ),
{
    let ghost before = texts(issues@);
    proof {
        assert(before + Seq::<Seq<char>>::empty() =~= before);
        let issue = field_issue(key@, "不是字符串数组。"@);
        assert(before + seq![issue] =~= before.push(issue));
    }
    let mut result: Vec<String> = Vec::new();
    proof {
        assert(texts(result@) =~= Seq::<Seq<char>>::empty());
    }
    match get_field(object, key) {
        Some(Json::Array(items)) => {
            proof {
                json_array_view(*items);
            }
            let ghost all = item_views(items@);
            let mut invalid_count: usize = 0;
            let mut i: usize = 0;
            while i < items.len()
                invariant
                    i <= items@.len(),
                    all == item_views(items@),
                    texts(result@) == string_items(all.take(i as int)),
                    invalid_count == other_items(all.take(i as int)),
                    invalid_count <= i,
                decreases items@.len() - i,
            {
                let ghost so_far = texts(result@);
                proof {
                    assert(all.take(i + 1).drop_last() =~= all.take(i as int));
                    assert(all.take(i + 1).last() == items@[i as int]@);
                }
                match &items[i] {
                    Json::Text(value) => {
                        let trimmed = trim(value.as_str());
                        if trimmed.unicode_len() != 0 {
                            result.push(trimmed);
                            proof {
                                assert(texts(result@) =~= so_far.push(trim_text(value@)));
                            }
                        }
                    },
                    Json::Null => {},
                    _ => {
                        invalid_count = invalid_count + 1;
                    },
                }
                i = i + 1;
            }
            proof {
                assert(all.take(all.len() as int) =~= all);
            }
            if invalid_count > 0 {
                let mut text = String::from_str("字段“");
                text.append(key);
                text.append("”中有 ");
                text.append(decimal_count(invalid_count).as_str());
                text.append(" 项不是字符串，已忽略。");
                let ghost issue = text@;
                push_text(issues, text);
                proof {
                    assert(before + seq![issue] =~= before.push(issue));
                }
            }
            result
        },
        Some(Json::Null) => result,
        Some(_) => {
            push_field_issue(issues, key, "不是字符串数组。");
            result
        },
        None => result,
    }
}

pub open spec fn rule_kind(raw: Option<Seq<char>>) -> RuleKind {
    if raw == Some("folder"@) {
        RuleKind::Folder
    } else {
        RuleKind::File
    }
}

pub open spec fn rule_kind_issues(raw: Option<Seq<char>>) -> Seq<Seq<char>> {
    match raw {
        Some(text) => if text == "file"@ || text == "folder"@ {
            Seq::empty()
        } else {
            seq!["规则类型“"@ + text + "”无效，已按文件规则载入。"@]
        },
        None => seq!["缺少规则类型，已按文件规则载入。"@],
    }
}

/// Reads the kind of a rule; anything that is none is an issue and is taken
/// for a file.
pub fn parse_rule_kind(raw_kind: Option<String>, issues: &mut Vec<String>) -> (r: RuleKind)
    ensures
        r == rule_kind(opt_text(raw_kind)),
        texts(final(issues)@) == texts(old(issues)@) + rule_kind_issues(opt_text(raw_kind)),
{
    let ghost before = texts(issues@);
    proof {
        assert(before + Seq::<Seq<char>>::empty() =~= before);
        reveal_strlit("file");
        reveal_strlit("folder");
        assert("file"@.len() != "folder"@.len());
    }
    match raw_kind {
        Some(kind) => {
            if same_text(kind.as_str(), "file") {
                RuleKind::File
            } else if same_text(kind.as_str(), "folder") {
                RuleKind::Folder
            } else {
                let mut text = String::from_str("规则类型“");
                text.append(kind.as_str());
                text.append("”无效，已按文件规则载入。");
                let ghost issue = text@;
                push_text(issues, text);
                proof {
                    assert(before + seq![issue] =~= before.push(issue));
                }
                RuleKind::File
            }
        },
        None => {
            let text = String::from_str("缺少规则类型，已按文件规则载入。");
            let ghost issue = text@;
            push_text(issues, text);
            proof {
                assert(before + seq![issue] =~= before.push(issue));
            }
            RuleKind::File
        },
    }
}

/// The view of what came of decoding a part of the document.
pub open spec fn result_view<T: View>(decoded: Result<T, String>) -> Result<T::V, Seq<char>> {
    match decoded {
        Ok(value) => Ok(value@),
        Err(message) => Err(message@),
    }
}

pub open spec fn opt_result_view<T: View>(decoded: Option<Result<T, String>>) -> Option<
    Result<T::V, Seq<char>>,
> {
    match decoded {
        Some(result) => Some(result_view(result)),
        None => None,
    }
}

pub open spec fn settings_of(decoded: Option<Result<SettingsView, Seq<char>>>) -> SettingsView {
    match decoded {
        Some(Ok(settings)) => settings,
        _ => default_settings(),
    }
}

pub open spec fn settings_warnings(decoded: Option<Result<SettingsView, Seq<char>>>) -> Seq<
    Seq<char>,
> {
    match decoded {
        Some(Err(message)) => seq!["设置项格式异常，已恢复默认值："@ + message],
        _ => Seq::empty(),
    }
}

/// The settings: those that were decoded, the default ones where there are
/// none, and the default ones with a warning where they could not be decoded.
pub fn parse_settings(
    decoded: &Option<Result<AppSettings, String>>,
    warnings: &mut Vec<String>,
) -> (r: AppSettings)
    ensures
        r@ == settings_of(opt_result_view(*decoded)),
        texts(final(warnings)@) == texts(old(warnings)@) + settings_warnings(
            opt_result_view(*decoded),
        ),
{
    let ghost before = texts(warnings@);
    proof {
        assert(before + Seq::<Seq<char>>::empty() =~= before);
    }
    match decoded {
        Some(Ok(settings)) => settings.clone(),
        Some(Err(message)) => {
            let mut text = String::from_str("设置项格式异常，已恢复默认值：");
            text.append(message.as_str());
            let ghost warning = text@;
            push_text(warnings, text);
            proof {
                assert(before + seq![warning] =~= before.push(warning));
            }
            AppSettings::default()
        },
        None => AppSettings::default(),
    }
}

pub open spec fn last_result_of(decoded: Option<Result<LastResultView, Seq<char>>>) -> LastResultView {
    match decoded {
        Some(Ok(result)) => result,
        _ => empty_last_result(),
    }
}

pub open spec fn last_result_issues(decoded: Option<Result<LastResultView, Seq<char>>>) -> Seq<
    Seq<char>,
> {
    match decoded {
        Some(Err(message)) => seq!["最近一次同步结果格式异常，已重置："@ + message],
        _ => Seq::empty(),
    }
}

/// The last result of a rule, empty with an issue where it could not be decoded.
pub fn parse_last_result(
    decoded: &Option<Result<RuleLastResult, String>>,
    issues: &mut Vec<String>,
) -> (r: RuleLastResult)
    ensures
        r@ == last_result_of(opt_result_view(*decoded)),
        texts(final(issues)@) == texts(old(issues)@) + last_result_issues(opt_result_view(*decoded)),
{
    let ghost before = texts(issues@);
    proof {
        assert(before + Seq::<Seq<char>>::empty() =~= before);
    }
    match decoded {
        Some(Ok(result)) => result.clone(),
        Some(Err(message)) => {
            let mut text = String::from_str("最近一次同步结果格式异常，已重置：");
            text.append(message.as_str());
            let ghost issue = text@;
            push_text(issues, text);
            proof {
                assert(before + seq![issue] =~= before.push(issue));
            }
            RuleLastResult::default()
        },
        None => RuleLastResult::default(),
    }
}

pub open spec fn sync_state_of(decoded: Option<Result<Seq<Seq<char>>, Seq<char>>>) -> Seq<Seq<char>> {
    match decoded {
        Some(Ok(state)) => state,
        _ => Seq::empty(),
    }
}

pub open spec fn sync_state_issues(decoded: Option<Result<Seq<Seq<char>>, Seq<char>>>) -> Seq<
    Seq<char>,
> {
    match decoded {
        Some(Err(message)) => seq!["同步清单格式异常，已重置："@ + message],
        _ => Seq::empty(),
    }
}

/// The mirrored entries of a rule, none with an issue where they could not be decoded.
pub fn parse_sync_state(
    decoded: &Option<Result<RuleSyncState, String>>,
    issues: &mut Vec<String>,
) -> (r: RuleSyncState)
    ensures
        r@ == sync_state_of(opt_result_view(*decoded)),
        texts(final(issues)@) == texts(old(issues)@) + sync_state_issues(opt_result_view(*decoded)),
{
    let ghost before = texts(issues@);
    proof {
        assert(before + Seq::<Seq<char>>::empty() =~= before);
    }
    match decoded {
        Some(Ok(state)) => state.clone(),
        Some(Err(message)) => {
            let mut text = String::from_str("同步清单格式异常，已重置：");
            text.append(message.as_str());
            let ghost issue = text@;
            push_text(issues, text);
            proof {
                assert(before + seq![issue] =~= before.push(issue));
            }
            RuleSyncState::default()
        },
        None => RuleSyncState::default(),
    }
}

/// The number of errors of a result that counts as failed.
pub open spec fn at_least_one(count: usize) -> usize {
    if count >= 1 {
        count
    } else {
        1
    }
}

/// A rule that could not be read in full: it is marked as wrongly configured,
/// is not watched, and its last result says what is the matter.
pub open spec fn invalid_rule(
    id: Seq<char>,
    name: Seq<char>,
    kind: RuleKind,
    source_path: Seq<char>,
    target_path: Seq<char>,
    enabled: bool,
    bidirectional: bool,
    auto_sync: bool,
    poll_fallback_enabled: bool,
    poll_interval_sec: u64,
    include_globs: Seq<Seq<char>>,
    exclude_globs: Seq<Seq<char>>,
    last_sync_at: Option<Seq<char>>,
    last_result: LastResultView,
    issues: Seq<Seq<char>>,
) -> RuleView {
    let issue_text = joined(issues, " "@);
    RuleView {
        id,
        name,
        enabled,
        kind,
        source_path,
        target_path,
        bidirectional,
        auto_sync,
        watch_enabled: false,
        poll_fallback_enabled,
        poll_interval_sec: larger(poll_interval_sec, MIN_POLL_INTERVAL_SEC),
        conflict_policy: ConflictPolicy::OverwriteWithBackup,
        delete_policy: delete_policy_of(kind),
        include_globs,
        exclude_globs,
        sync_state: Seq::empty(),
        last_sync_at,
        last_result: LastResultView {
            success: false,
            message: if is_blank_text(last_result.message) {
                "规则配置异常："@ + issue_text
            } else {
                last_result.message
            },
            error_count: at_least_one(last_result.error_count),
            ..last_result
        },
        health: RuleHealth::InvalidConfiguration,
        config_error: Some(issue_text),
    }
}

/// The name of a rule of which not even the name is known.
pub open spec fn broken_rule_name() -> Seq<char> {
    "已损坏的规则配置"@
}

pub open spec fn or_text(text: Option<Seq<char>>, otherwise: Seq<char>) -> Seq<char> {
    match text {
        Some(value) => value,
        None => otherwise,
    }
}

/// Marks a rule that could not be read in full. Where it has no id it gets the
/// fresh one.
pub fn build_invalid_rule(
    id: Option<String>,
    fresh_id: &str,
    name: Option<String>,
    kind: RuleKind,
    source_path: Option<String>,
    target_path: Option<String>,
    enabled: bool,
    bidirectional: bool,
    auto_sync: bool,
    poll_fallback_enabled: bool,
    poll_interval_sec: u64,
    include_globs: Vec<String>,
    exclude_globs: Vec<String>,
    last_sync_at: Option<String>,
    last_result: RuleLastResult,
    issues: &Vec<String>,
) -> (r: SyncRule)
    ensures
        r@ == invalid_rule(
            or_text(opt_text(id), fresh_id@),
            or_text(opt_text(name), broken_rule_name()),
            kind,
            or_text(opt_text(source_path), Seq::empty()),
            or_text(opt_text(target_path), Seq::empty()),
            enabled,
            bidirectional,
            auto_sync,
            poll_fallback_enabled,
            poll_interval_sec,
            texts(include_globs@),
            texts(exclude_globs@),
            opt_text(last_sync_at),
            last_result@,
            texts(issues@),
        ),
{
    let mut last_result = last_result;
    let issue_text = join(issues, " ");
    if is_blank(last_result.message.as_str()) {
        let mut message = String::from_str("规则配置异常：");
        message.append(issue_text.as_str());
        last_result.message = message;
    }
    last_result.success = false;
    if last_result.error_count < 1 {
        last_result.error_count = 1;
    }
    SyncRule {
        id: match id {
            Some(value) => value,
            None => String::from_str(fresh_id),
        },
        name: match name {
            Some(value) => value,
            None => String::from_str("已损坏的规则配置"),
        },
        enabled,
        kind,
        source_path: match source_path {
            Some(value) => value,
            None => String::new(),
        },
        target_path: match target_path {
            Some(value) => value,
            None => String::new(),
        },
        bidirectional,
        auto_sync,
        watch_enabled: false,
        poll_fallback_enabled,
        poll_interval_sec: larger_of(poll_interval_sec, MIN_POLL_INTERVAL_SEC),
        conflict_policy: ConflictPolicy::OverwriteWithBackup,
        delete_policy: default_delete_policy(kind, bidirectional),
        include_globs,
        exclude_globs,
        sync_state: RuleSyncState::default(),
        last_sync_at,
        last_result,
        health: RuleHealth::InvalidConfiguration,
        config_error: Some(issue_text),
    }
}

/// A rule that stands for a part of the document that could not be read at all.
pub open spec fn unreadable_rule(
    fresh_id: Seq<char>,
    name: Seq<char>,
    poll_interval_sec: u64,
    message: Seq<char>,
) -> RuleView {
    invalid_rule(
        fresh_id,
        name,
        RuleKind::File,
        Seq::empty(),
        Seq::empty(),
        true,
        false,
        false,
        false,
        poll_interval_sec,
        Seq::empty(),
        Seq::empty(),
        None,
        empty_last_result(),
        seq![message],
    )
}

fn build_unreadable_rule(
    fresh_id: &str,
    name: Option<String>,
    poll_interval_sec: u64,
    message: &str,
) -> (r: SyncRule)
    ensures
        r@ == unreadable_rule(
            fresh_id@,
            or_text(opt_text(name), broken_rule_name()),
            poll_interval_sec,
            message@,
        ),
{
    let mut issues: Vec<String> = Vec::new();
    issues.push(String::from_str(message));
    let none: Vec<String> = Vec::new();
    let no_globs: Vec<String> = Vec::new();
    proof {
        assert(texts(issues@) =~= seq![message@]);
        assert(texts(none@) =~= Seq::<Seq<char>>::empty());
        assert(texts(no_globs@) =~= Seq::<Seq<char>>::empty());
    }
    build_invalid_rule(
        None,
        fresh_id,
        name,
        RuleKind::File,
        None,
        None,
        true,
        false,
        false,
        false,
        poll_interval_sec,
        none,
        no_globs,
        None,
        RuleLastResult::default(),
        &issues,
    )
}

/// What is decoded of a rule in the document, and an id for it in case it has none.
#[derive(Debug)]
pub struct RuleParts {
    pub fresh_id: String,
    pub last_result: Option<Result<RuleLastResult, String>>,
    pub sync_state: Option<Result<RuleSyncState, String>>,
}

pub struct RulePartsView {
    pub fresh_id: Seq<char>,
    pub last_result: Option<Result<LastResultView, Seq<char>>>,
    pub sync_state: Option<Result<Seq<Seq<char>>, Seq<char>>>,
}

impl View for RuleParts {
    type V = RulePartsView;

    open spec fn view(&self) -> RulePartsView {
        RulePartsView {
            fresh_id: self.fresh_id@,
            last_result: opt_result_view(self.last_result),
            sync_state: opt_result_view(self.sync_state),
        }
    }
}

/// The issue `text`, where `is_one`.
pub open spec fn issue_if(is_one: bool, text: Seq<char>) -> Seq<Seq<char>> {
    if is_one {
        seq![text]
    } else {
        Seq::empty()
    }
}

fn push_issue_if(issues: &mut Vec<String>, is_one: bool, text: &str)
    ensures
        texts(final(issues)@) == texts(old(issues)@) + issue_if(is_one, text@),
{
    let ghost before = texts(issues@);
    proof {
        assert(before + Seq::<Seq<char>>::empty() =~= before);
        assert(before + seq![text@] =~= before.push(text@));
    }
    if is_one {
        push_text(issues, String::from_str(text));
    }
}

/// The name of a rule that has none: its number in the document.
pub open spec fn numbered_name(index: int) -> Seq<char> {
    "异常规则 "@ + decimal_text((index + 1) as nat)
}

fn make_numbered_name(index: usize) -> (r: String)
    requires
        index < usize::MAX,
    ensures
        r@ == numbered_name(index as int),
{
    let mut name = String::from_str("异常规则 ");
    name.append(decimal_count(index + 1).as_str());
    name
}

/// A path of a rule in the document; empty where there is none.
pub open spec fn path_field(fields: Seq<(Seq<char>, JsonView)>, key: Seq<char>) -> Seq<char> {
    or_text(string_field(fields, key), Seq::empty())
}

/// Everything that is the matter with a rule in the document, in order.
pub open spec fn rule_issues(fields: Seq<(Seq<char>, JsonView)>, parts: RulePartsView) -> Seq<
    Seq<char>,
> {
    Seq::<Seq<char>>::empty() + string_field_issues(fields, "id"@) + issue_if(
        filled(string_field(fields, "id"@)) is None,
        "缺少规则 ID，已重新生成。"@,
    ) + string_field_issues(fields, "name"@) + issue_if(
        filled(string_field(fields, "name"@)) is None,
        "缺少规则名称，已使用默认名称。"@,
    ) + string_field_issues(fields, "kind"@) + rule_kind_issues(string_field(fields, "kind"@))
        + string_field_issues(fields, "sourcePath"@) + issue_if(
        is_blank_text(path_field(fields, "sourcePath"@)),
        "源路径缺失。"@,
    ) + string_field_issues(fields, "targetPath"@) + issue_if(
        is_blank_text(path_field(fields, "targetPath"@)),
        "目标路径缺失。"@,
    ) + bool_field_issues(fields, "enabled"@) + bool_field_issues(fields, "bidirectional"@)
        + bool_field_issues(fields, "autoSync"@) + bool_field_issues(fields, "watchEnabled"@)
        + bool_field_issues(fields, "pollFallbackEnabled"@) + u64_field_issues(
        fields,
        "pollIntervalSec"@,
    ) + string_array_field_issues(fields, "includeGlobs"@) + string_array_field_issues(
        fields,
        "excludeGlobs"@,
    ) + sync_state_issues(parts.sync_state) + string_field_issues(fields, "lastSyncAt"@)
        + last_result_issues(parts.last_result)
}

/// The rule that the fields of an object describe, as if nothing were the
/// matter with them.
pub open spec fn described_rule(
    fields: Seq<(Seq<char>, JsonView)>,
    parts: RulePartsView,
    index: int,
    settings: SettingsView,
) -> RuleView {
    let kind = rule_kind(string_field(fields, "kind"@));
    RuleView {
        id: or_text(filled(string_field(fields, "id"@)), parts.fresh_id),
        name: or_text(filled(string_field(fields, "name"@)), numbered_name(index)),
        enabled: bool_field(fields, "enabled"@, true),
        kind,
        source_path: path_field(fields, "sourcePath"@),
        target_path: path_field(fields, "targetPath"@),
        bidirectional: bool_field(fields, "bidirectional"@, false),
        auto_sync: bool_field(fields, "autoSync"@, true),
        watch_enabled: bool_field(fields, "watchEnabled"@, true),
        poll_fallback_enabled: bool_field(fields, "pollFallbackEnabled"@, true),
        poll_interval_sec: larger(
            u64_field(
                fields,
                "pollIntervalSec"@,
                larger(settings.default_poll_interval_sec, MIN_POLL_INTERVAL_SEC),
            ),
            MIN_POLL_INTERVAL_SEC,
        ),
        conflict_policy: ConflictPolicy::OverwriteWithBackup,
        delete_policy: delete_policy_of(kind),
        include_globs: string_array_field(fields, "includeGlobs"@),
        exclude_globs: string_array_field(fields, "excludeGlobs"@),
        sync_state: sync_state_of(parts.sync_state),
        last_sync_at: filled(string_field(fields, "lastSyncAt"@)),
        last_result: last_result_of(parts.last_result),
        health: RuleHealth::Healthy,
        config_error: None,
    }
}

/// The message of a last result that is joined by what is the matter with the rule.
pub open spec fn joined_message(message: Seq<char>, issue_text: Seq<char>) -> Seq<char> {
    if is_blank_text(message) {
        "规则配置异常："@ + issue_text
    } else {
        message + " | 配置异常："@ + issue_text
    }
}

/// A path that is kept in a rule that could not be read in full.
pub open spec fn kept_path(path: Seq<char>) -> Seq<char> {
    if is_blank_text(path) {
        Seq::empty()
    } else {
        path
    }
}

/// The rule in the document at `index`.
pub open spec fn loaded_rule(
    value: JsonView,
    parts: RulePartsView,
    index: int,
    settings: SettingsView,
) -> RuleView {
    match value {
        JsonView::Object(fields) => {
            let issues = rule_issues(fields, parts);
            let rule = described_rule(fields, parts, index, settings);
            if issues.len() == 0 {
                rule
            } else {
                invalid_rule(
                    rule.id,
                    rule.name,
                    rule.kind,
                    kept_path(rule.source_path),
                    kept_path(rule.target_path),
                    rule.enabled,
                    rule.bidirectional,
                    rule.auto_sync,
                    rule.poll_fallback_enabled,
                    rule.poll_interval_sec,
                    rule.include_globs,
                    rule.exclude_globs,
                    rule.last_sync_at,
                    marked_result(rule.last_result, joined(issues, " "@)),
                    issues,
                )
            }
        },
        _ => unreadable_rule(
            parts.fresh_id,
            numbered_name(index),
            settings.default_poll_interval_sec,
            no_object_warning(index),
        ),
    }
}

pub open spec fn no_object_warning(index: int) -> Seq<char> {
    "第 "@ + decimal_text((index + 1) as nat) + " 条规则不是有效对象，已标记为异常。"@
}

/// What is told of the rule in the document at `index`.
pub open spec fn loaded_rule_warnings(value: JsonView, parts: RulePartsView, index: int) -> Seq<
    Seq<char>,
> {
    match value {
        JsonView::Object(fields) => {
            let issues = rule_issues(fields, parts);
            if issues.len() == 0 {
                Seq::empty()
            } else {
                seq![
                    "规则“"@ + or_text(filled(string_field(fields, "name"@)), numbered_name(index))
                        + "”存在配置异常，已按异常规则加载。"@ + joined(issues, " "@),
                ]
            }
        },
        _ => seq![no_object_warning(index)],
    }
}

/// Reads the fields of a rule, as if nothing were the matter with them, and
/// tells everything that is.
fn read_rule(
    object: &Vec<JsonField>,
    parts: &RuleParts,
    index: usize,
    settings: &AppSettings,
) -> (r: (SyncRule, Vec<String>))
    requires
        index < usize::MAX,
    ensures
        r.0@ == described_rule(field_views(object@), parts@, index as int, settings@),
        texts(r.1@) == rule_issues(field_views(object@), parts@),
{
    let mut issues: Vec<String> = Vec::new();
    proof {
        assert(texts(issues@) =~= Seq::<Seq<char>>::empty());
    }
    let read_id = read_string_field(object, "id", &mut issues);
    let kept_id = keep_filled(read_id);
    push_issue_if(&mut issues, kept_id.is_none(), "缺少规则 ID，已重新生成。");
    let id = match kept_id {
        Some(text) => text,
        None => parts.fresh_id.clone(),
    };
    let read_name = read_string_field(object, "name", &mut issues);
    let kept_name = keep_filled(read_name);
    push_issue_if(&mut issues, kept_name.is_none(), "缺少规则名称，已使用默认名称。");
    let name = match kept_name {
        Some(text) => text,
        None => make_numbered_name(index),
    };
    let raw_kind = read_string_field(object, "kind", &mut issues);
    let kind = parse_rule_kind(raw_kind, &mut issues);
    let source_path = match read_string_field(object, "sourcePath", &mut issues) {
        Some(text) => text,
        None => String::new(),
    };
    push_issue_if(&mut issues, is_blank(source_path.as_str()), "源路径缺失。");
    let target_path = match read_string_field(object, "targetPath", &mut issues) {
        Some(text) => text,
        None => String::new(),
    };
    push_issue_if(&mut issues, is_blank(target_path.as_str()), "目标路径缺失。");
    let enabled = read_bool_field(object, "enabled", true, &mut issues);
    let bidirectional = read_bool_field(object, "bidirectional", false, &mut issues);
    let auto_sync = read_bool_field(object, "autoSync", true, &mut issues);
    let watch_enabled = read_bool_field(object, "watchEnabled", true, &mut issues);
    let poll_fallback_enabled = read_bool_field(object, "pollFallbackEnabled", true, &mut issues);
    let read_interval: u64 = read_u64_field(
        object,
        "pollIntervalSec",
        larger_of(settings.default_poll_interval_sec, MIN_POLL_INTERVAL_SEC),
        &mut issues,
    );
    let poll_interval_sec: u64 = larger_of(read_interval, MIN_POLL_INTERVAL_SEC);
    let include_globs = read_string_array_field(object, "includeGlobs", &mut issues);
    let exclude_globs = read_string_array_field(object, "excludeGlobs", &mut issues);
    let sync_state = parse_sync_state(&parts.sync_state, &mut issues);
    let last_sync_at = read_optional_string_field(object, "lastSyncAt", &mut issues);
    let last_result = parse_last_result(&parts.last_result, &mut issues);
    let rule = SyncRule {
        id,
        name,
        enabled,
        kind,
        source_path,
        target_path,
        bidirectional,
        auto_sync,
        watch_enabled,
        poll_fallback_enabled,
        poll_interval_sec,
        conflict_policy: ConflictPolicy::OverwriteWithBackup,
        delete_policy: default_delete_policy(kind, bidirectional),
        include_globs,
        exclude_globs,
        sync_state,
        last_sync_at,
        last_result,
        health: RuleHealth::Healthy,
        config_error: None,
    };
    (rule, issues)
}

/// The last result of a rule with which something is the matter.
pub open spec fn marked_result(result: LastResultView, issue_text: Seq<char>) -> LastResultView {
    LastResultView {
        message: joined_message(result.message, issue_text),
        success: false,
        error_count: at_least_one(result.error_count),
        ..result
    }
}

/// Marks the last result of a rule with what is the matter with the rule.
fn mark_result(result: RuleLastResult, issue_text: &str) -> (r: RuleLastResult)
    ensures
        r@ == marked_result(result@, issue_text@),
{
    let mut marked = result;
    let message = if is_blank(marked.message.as_str()) {
        let mut text = String::from_str("规则配置异常：");
        text.append(issue_text);
        text
    } else {
        let mut text = marked.message.clone();
        text.append(" | 配置异常：");
        text.append(issue_text);
        text
    };
    marked.message = message;
    marked.success = false;
    if marked.error_count < 1 {
        marked.error_count = 1;
    }
    marked
}

fn unless_blank(text: String) -> (r: Option<String>)
    ensures
        or_text(opt_text(r), Seq::empty()) == kept_path(text@),
{
    if is_blank(text.as_str()) {
        None
    } else {
        Some(text)
    }
}

/// Reads a rule. Whatever the document holds in its place, a rule comes of it.
pub fn parse_rule(
    value: &Json,
    parts: &RuleParts,
    index: usize,
    settings: &AppSettings,
    warnings: &mut Vec<String>,
) -> (r: SyncRule)
    requires
        index < usize::MAX,
    ensures
        r@ == loaded_rule(value@, parts@, index as int, settings@),
        texts(final(warnings)@) == texts(old(warnings)@) + loaded_rule_warnings(
            value@,
            parts@,
            index as int,
        ),
{
    let ghost warned = texts(warnings@);
    proof {
        assert(warned + Seq::<Seq<char>>::empty() =~= warned);
    }
    match value {
        Json::Object(object) => {
            proof {
                json_object_view(*object);
            }
            let (rule, issues) = read_rule(object, parts, index, settings);
            if issues.len() == 0 {
                return rule;
            }
            let issue_text = join(&issues, " ");
            let mut warning = String::from_str("规则“");
            warning.append(rule.name.as_str());
            warning.append("”存在配置异常，已按异常规则加载。");
            warning.append(issue_text.as_str());
            let ghost told = warning@;
            push_text(warnings, warning);
            proof {
                assert(warned + seq![told] =~= warned.push(told));
            }
            build_invalid_rule(
                Some(rule.id),
                parts.fresh_id.as_str(),
                Some(rule.name),
                rule.kind,
                unless_blank(rule.source_path),
                unless_blank(rule.target_path),
                rule.enabled,
                rule.bidirectional,
                rule.auto_sync,
                rule.poll_fallback_enabled,
                rule.poll_interval_sec,
                rule.include_globs,
                rule.exclude_globs,
                rule.last_sync_at,
                mark_result(rule.last_result, issue_text.as_str()),
                &issues,
            )
        },
        _ => {
            let mut message = String::from_str("第 ");
            message.append(decimal_count(index + 1).as_str());
            message.append(" 条规则不是有效对象，已标记为异常。");
            let ghost told = message@;
            push_text(warnings, message.clone());
            proof {
                assert(warned + seq![told] =~= warned.push(told));
            }
            build_unreadable_rule(
                parts.fresh_id.as_str(),
                Some(make_numbered_name(index)),
                settings.default_poll_interval_sec,
                message.as_str(),
            )
        },
    }
}

pub open spec fn rule_parts_views(parts: Seq<RuleParts>) -> Seq<RulePartsView> {
    parts.map_values(|p: RuleParts| p@)
}

/// The rules of a list in the document.
pub open spec fn loaded_rule_list(
    items: Seq<JsonView>,
    parts: Seq<RulePartsView>,
    settings: SettingsView,
) -> Seq<RuleView> {
    Seq::new(items.len(), |i: int| loaded_rule(items[i], parts[i], i, settings))
}

/// What is told of the first `n` rules of a list in the document.
pub open spec fn rule_list_warnings(items: Seq<JsonView>, parts: Seq<RulePartsView>, n: int) -> Seq<
    Seq<char>,
>
    decreases n,
{
    if n <= 0 {
        Seq::empty()
    } else {
        rule_list_warnings(items, parts, n - 1) + loaded_rule_warnings(
            items[n - 1],
            parts[n - 1],
            n - 1,
        )
    }
}

pub open spec fn rule_list_message() -> Seq<char> {
    "规则列表格式异常，已标记为损坏规则。"@
}

/// The rules of the document.
pub open spec fn loaded_rules(
    value: Option<JsonView>,
    parts: Seq<RulePartsView>,
    fresh_id: Seq<char>,
    settings: SettingsView,
) -> Seq<RuleView> {
    match value {
        Some(JsonView::Array(items)) => loaded_rule_list(items, parts, settings),
        Some(_) => seq![
            unreadable_rule(
                fresh_id,
                broken_rule_name(),
                settings.default_poll_interval_sec,
                rule_list_message(),
            ),
        ],
        None => Seq::empty(),
    }
}

pub open spec fn rules_warnings(value: Option<JsonView>, parts: Seq<RulePartsView>) -> Seq<
    Seq<char>,
> {
    match value {
        Some(JsonView::Array(items)) => rule_list_warnings(items, parts, items.len() as int),
        Some(_) => seq![rule_list_message()],
        None => Seq::empty(),
    }
}

/// Whether there is a part for every rule of the document.
pub open spec fn parts_cover(value: Option<JsonView>, count: nat) -> bool {
    value matches Some(JsonView::Array(items)) ==> count == items.len()
}

/// Reads the rules. Whatever the document holds in their place, a list of
/// rules comes of it.
pub fn parse_rules(
    value: Option<&Json>,
    parts: &Vec<RuleParts>,
    fresh_id: &str,
    settings: &AppSettings,
    warnings: &mut Vec<String>,
) -> (r: Vec<SyncRule>)
    requires
        parts_cover(opt_json(value), parts@.len()),
    ensures
        rule_views(r@) == loaded_rules(
            opt_json(value),
            rule_parts_views(parts@),
            fresh_id@,
            settings@,
        ),
        texts(final(warnings)@) == texts(old(warnings)@) + rules_warnings(
            opt_json(value),
            rule_parts_views(parts@),
        ),
{
    let ghost warned = texts(warnings@);
    let mut rules: Vec<SyncRule> = Vec::new();
    proof {
        assert(warned + Seq::<Seq<char>>::empty() =~= warned);
        assert(rule_views(rules@) =~= Seq::<RuleView>::empty());
    }
    match value {
        Some(Json::Array(items)) => {
            proof {
                json_array_view(*items);
            }
            let ghost all = item_views(items@);
            let ghost given = rule_parts_views(parts@);
            let mut i: usize = 0;
            while i < items.len()
                invariant
                    i <= items@.len(),
                    items@.len() == parts@.len(),
                    all == item_views(items@),
                    given == rule_parts_views(parts@),
                    rules@.len() == i,
                    forall|k: int|
                        0 <= k < i ==> (#[trigger] rules@[k])@ == loaded_rule(
                            all[k],
                            given[k],
                            k,
                            settings@,
                        ),
                    texts(warnings@) == warned + rule_list_warnings(all, given, i as int),
                decreases items@.len() - i,
            {
                let rule = parse_rule(&items[i], &parts[i], i, settings, warnings);
                rules.push(rule);
                proof {
                    assert(warned + rule_list_warnings(all, given, i as int) + loaded_rule_warnings(
                        all[i as int],
                        given[i as int],
                        i as int,
                    ) =~= warned + rule_list_warnings(all, given, i + 1));
                }
                i = i + 1;
            }
            proof {
                assert(rule_views(rules@) =~= loaded_rule_list(all, given, settings@));
            }
            rules
        },
        Some(_) => {
            let message = String::from_str("规则列表格式异常，已标记为损坏规则。");
            push_text(warnings, message.clone());
            rules.push(
                build_unreadable_rule(
                    fresh_id,
                    Some(String::from_str("已损坏的规则配置")),
                    settings.default_poll_interval_sec,
                    message.as_str(),
                ),
            );
            proof {
                assert(warned + seq![message@] =~= warned.push(message@));
                assert(rule_views(rules@) =~= loaded_rules(
                    opt_json(value),
                    rule_parts_views(parts@),
                    fresh_id@,
                    settings@,
                ));
            }
            rules
        },
        None => rules,
    }
}

pub open spec fn decoded_views(decoded: Seq<Result<SyncHistoryItem, String>>) -> Seq<
    Result<HistoryView, Seq<char>>,
> {
    decoded.map_values(|d: Result<SyncHistoryItem, String>| result_view(d))
}

/// The history entries that could be decoded.
pub open spec fn decoded_history(decoded: Seq<Result<HistoryView, Seq<char>>>) -> Seq<HistoryView>
    decreases decoded.len(),
{
    if decoded.len() == 0 {
        Seq::empty()
    } else {
        let before = decoded_history(decoded.drop_last());
        match decoded.last() {
            Ok(entry) => before.push(entry),
            Err(_) => before,
        }
    }
}

/// What is told of the history entries that could not be decoded.
pub open spec fn decoded_history_warnings(decoded: Seq<Result<HistoryView, Seq<char>>>) -> Seq<
    Seq<char>,
>
    decreases decoded.len(),
{
    if decoded.len() == 0 {
        Seq::empty()
    } else {
        let before = decoded_history_warnings(decoded.drop_last());
        match decoded.last() {
            Ok(_) => before,
            Err(message) => before.push(
                "第 "@ + decimal_text(decoded.len()) + " 条历史记录格式异常，已跳过："@ + message,
            ),
        }
    }
}

pub open spec fn loaded_history(
    value: Option<JsonView>,
    decoded: Seq<Result<HistoryView, Seq<char>>>,
) -> Seq<HistoryView> {
    match value {
        Some(JsonView::Array(_)) => decoded_history(decoded),
        _ => Seq::empty(),
    }
}

pub open spec fn history_warnings(
    value: Option<JsonView>,
    decoded: Seq<Result<HistoryView, Seq<char>>>,
) -> Seq<Seq<char>> {
    match value {
        Some(JsonView::Array(_)) => decoded_history_warnings(decoded),
        Some(_) => seq!["同步历史格式异常，已重置为空。"@],
        None => Seq::empty(),
    }
}

/// Reads the history: entries that could not be decoded are left out, and
/// anything but a list is taken for an empty one.
pub fn parse_history(
    value: Option<&Json>,
    decoded: &Vec<Result<SyncHistoryItem, String>>,
    warnings: &mut Vec<String>,
) -> (r: Vec<SyncHistoryItem>)
    ensures
        history_views(r@) == loaded_history(opt_json(value), decoded_views(decoded@)),
        texts(final(warnings)@) == texts(old(warnings)@) + history_warnings(
            opt_json(value),
            decoded_views(decoded@),
        ),
{
    let ghost warned = texts(warnings@);
    let mut history: Vec<SyncHistoryItem> = Vec::new();
    proof {
        assert(warned + Seq::<Seq<char>>::empty() =~= warned);
        assert(history_views(history@) =~= Seq::<HistoryView>::empty());
    }
    match value {
        Some(Json::Array(items)) => {
            let ghost all = decoded_views(decoded@);
            let mut i: usize = 0;
            while i < decoded.len()
                invariant
                    i <= decoded@.len(),
                    all == decoded_views(decoded@),
                    history_views(history@) == decoded_history(all.take(i as int)),
                    texts(warnings@) == warned + decoded_history_warnings(all.take(i as int)),
                decreases decoded@.len() - i,
            {
                let ghost so_far = history_views(history@);
                proof {
                    assert(all.take(i + 1).drop_last() =~= all.take(i as int));
                    assert(all.take(i + 1).last() == result_view(decoded@[i as int]));
                }
                match &decoded[i] {
                    Ok(entry) => {
                        history.push(entry.clone());
                        proof {
                            assert(history_views(history@) =~= so_far.push(entry@));
                        }
                    },
                    Err(message) => {
                        let mut text = String::from_str("第 ");
                        text.append(decimal_count(i + 1).as_str());
                        text.append(" 条历史记录格式异常，已跳过：");
                        text.append(message.as_str());
                        let ghost told = text@;
                        push_text(warnings, text);
                        proof {
                            let earlier = decoded_history_warnings(all.take(i as int));
                            assert((warned + earlier).push(told) =~= warned + earlier.push(told));
                        }
                    },
                }
                i = i + 1;
            }
            proof {
                assert(all.take(all.len() as int) =~= all);
            }
            history
        },
        Some(_) => {
            let text = String::from_str("同步历史格式异常，已重置为空。");
            let ghost told = text@;
            push_text(warnings, text);
            proof {
                assert(warned + seq![told] =~= warned.push(told));
            }
            history
        },
        None => history,
    }
}

/// What is decoded of the document, and ids for what has none.
#[derive(Debug)]
pub struct StoreParts {
    pub fresh_id: String,
    pub settings: Option<Result<AppSettings, String>>,
    pub rules: Vec<RuleParts>,
    pub history: Vec<Result<SyncHistoryItem, String>>,
}

pub struct StorePartsView {
    pub fresh_id: Seq<char>,
    pub settings: Option<Result<SettingsView, Seq<char>>>,
    pub rules: Seq<RulePartsView>,
    pub history: Seq<Result<HistoryView, Seq<char>>>,
}

impl View for StoreParts {
    type V = StorePartsView;

    open spec fn view(&self) -> StorePartsView {
        StorePartsView {
            fresh_id: self.fresh_id@,
            settings: opt_result_view(self.settings),
            rules: rule_parts_views(self.rules@),
            history: decoded_views(self.history@),
        }
    }
}

/// What came of loading a store.
#[derive(Debug)]
pub struct StoreLoadOutcome {
    pub store: PersistedStore,
    pub repaired: bool,
    pub warnings: Vec<String>,
}

pub struct LoadView {
    pub store: StoreView,
    pub repaired: bool,
    pub warnings: Seq<Seq<char>>,
}

impl View for StoreLoadOutcome {
    type V = LoadView;

    open spec fn view(&self) -> LoadView {
        LoadView {
            store: self.store@,
            repaired: self.repaired,
            warnings: texts(self.warnings@),
        }
    }
}

/// The store that takes the place of a document that could not be read at all.
pub open spec fn rebuilt_store(fresh_id: Seq<char>, message: Seq<char>) -> LoadView {
    LoadView {
        store: StoreView {
            rules: seq![
                unreadable_rule(
                    fresh_id,
                    broken_rule_name(),
                    default_settings().default_poll_interval_sec,
                    message,
                ),
            ],
            settings: default_settings(),
            history: Seq::empty(),
        },
        repaired: true,
        warnings: seq![message],
    }
}

/// The store that a document holds.
pub open spec fn loaded_store(
    document: Result<JsonView, Seq<char>>,
    parts: StorePartsView,
) -> LoadView {
    match document {
        Err(error) => rebuilt_store(parts.fresh_id, "配置文件无法解析："@ + error),
        Ok(JsonView::Object(fields)) => {
            let settings = settings_of(parts.settings);
            let warnings = settings_warnings(parts.settings) + rules_warnings(
                member(fields, "rules"@),
                parts.rules,
            ) + history_warnings(member(fields, "history"@), parts.history);
            LoadView {
                store: StoreView {
                    rules: loaded_rules(
                        member(fields, "rules"@),
                        parts.rules,
                        parts.fresh_id,
                        settings,
                    ),
                    settings,
                    history: loaded_history(member(fields, "history"@), parts.history),
                },
                repaired: warnings.len() > 0,
                warnings,
            }
        },
        Ok(_) => rebuilt_store(parts.fresh_id, "配置文件根节点不是对象，已重建默认配置。"@),
    }
}

/// Whether there is a part for every rule of the document.
pub open spec fn parts_fit(document: Result<JsonView, Seq<char>>, parts: StorePartsView) -> bool {
    document matches Ok(JsonView::Object(fields)) ==> parts_cover(
        member(fields, "rules"@),
        parts.rules.len(),
    )
}

fn rebuild_store(fresh_id: &str, name: Option<String>, message: String) -> (r: StoreLoadOutcome)
    requires
        or_text(opt_text(name), broken_rule_name()) == broken_rule_name(),
    ensures
        r@ == rebuilt_store(fresh_id@, message@),
{
    let settings = AppSettings::default();
    let mut rules: Vec<SyncRule> = Vec::new();
    rules.push(
        build_unreadable_rule(
            fresh_id,
            name,
            settings.default_poll_interval_sec,
            message.as_str(),
        ),
    );
    let mut warnings: Vec<String> = Vec::new();
    warnings.push(message);
    let r = StoreLoadOutcome {
        store: PersistedStore { rules, settings, history: Vec::new() },
        repaired: true,
        warnings,
    };
    proof {
        let expected = rebuilt_store(fresh_id@, message@);
        assert(r@.store.rules =~= expected.store.rules);
        assert(r@.store.history =~= expected.store.history);
        assert(r@.warnings =~= expected.warnings);
    }
    r
}

pub open spec fn document_view(document: Result<Json, String>) -> Result<JsonView, Seq<char>> {
    match document {
        Ok(json) => Ok(json@),
        Err(message) => Err(message@),
    }
}

/// The store that a document holds. A document that cannot be read at all
/// gives default settings and one rule that says so.
pub fn store_from_document(document: &Result<Json, String>, parts: &StoreParts) -> (r:
    StoreLoadOutcome)
    requires
        parts_fit(document_view(*document), parts@),
    ensures
        r@ == loaded_store(document_view(*document), parts@),
{
    match document {
        Err(error) => {
            let mut message = String::from_str("配置文件无法解析：");
            message.append(error.as_str());
            rebuild_store(parts.fresh_id.as_str(), None, message)
        },
        Ok(Json::Object(object)) => {
            proof {
                json_object_view(*object);
            }
            let mut warnings: Vec<String> = Vec::new();
            proof {
                assert(texts(warnings@) =~= Seq::<Seq<char>>::empty());
            }
            let settings = parse_settings(&parts.settings, &mut warnings);
            proof {
                assert(texts(warnings@) =~= settings_warnings(parts@.settings));
            }
            let rules = parse_rules(
                get_field(object, "rules"),
                &parts.rules,
                parts.fresh_id.as_str(),
                &settings,
                &mut warnings,
            );
            let history = parse_history(
                get_field(object, "history"),
                &parts.history,
                &mut warnings,
            );
            let repaired = warnings.len() > 0;
            StoreLoadOutcome {
                store: PersistedStore { rules, settings, history },
                repaired,
                warnings,
            }
        },
        Ok(_) => rebuild_store(
            parts.fresh_id.as_str(),
            Some(String::from_str("已损坏的规则配置")),
            String::from_str("配置文件根节点不是对象，已重建默认配置。"),
        ),
    }
}

/// Whether `part` is what `decode` makes of `value`.
pub open spec fn decoded_by<T: View, F: Fn(&Json) -> Result<T, String>>(
    decode: F,
    value: JsonView,
    part: Result<T::V, Seq<char>>,
) -> bool {
    exists|json: Json, result: Result<T, String>|
        json@ == value && #[trigger] call_ensures(decode, (&json,), result) && part == result_view(
            result,
        )
}

/// Whether `part` is what `decode` makes of the value that is there, if any.
pub open spec fn decoded_if_there<T: View, F: Fn(&Json) -> Result<T, String>>(
    decode: F,
    value: Option<JsonView>,
    part: Option<Result<T::V, Seq<char>>>,
) -> bool {
    match (value, part) {
        (Some(json), Some(result)) => decoded_by(decode, json, result),
        (None, None) => true,
        _ => false,
    }
}

/// The fields of an object; none of anything else.
pub open spec fn object_fields(value: JsonView) -> Seq<(Seq<char>, JsonView)> {
    match value {
        JsonView::Object(fields) => fields,
        _ => Seq::empty(),
    }
}

/// The items of a list under a key; none of anything else.
pub open spec fn list_field(fields: Seq<(Seq<char>, JsonView)>, key: Seq<char>) -> Seq<JsonView> {
    match member(fields, key) {
        Some(JsonView::Array(items)) => items,
        _ => Seq::empty(),
    }
}

/// Whether `parts` is what the decoders make of the parts of a rule.
pub open spec fn rule_parts_of<
    L: Fn(&Json) -> Result<RuleLastResult, String>,
    M: Fn(&Json) -> Result<RuleSyncState, String>,
>(last_result: L, sync_state: M, value: JsonView, parts: RulePartsView) -> bool {
    &&& is_uuid_text(parts.fresh_id)
    &&& decoded_if_there(
        last_result,
        member(object_fields(value), "lastResult"@),
        parts.last_result,
    )
    &&& decoded_if_there(sync_state, member(object_fields(value), "syncState"@), parts.sync_state)
}

/// Whether `parts` is what the decoders make of the parts of a document.
pub open spec fn store_parts_of<
    S: Fn(&Json) -> Result<AppSettings, String>,
    L: Fn(&Json) -> Result<RuleLastResult, String>,
    M: Fn(&Json) -> Result<RuleSyncState, String>,
    H: Fn(&Json) -> Result<SyncHistoryItem, String>,
>(
    settings: S,
    last_result: L,
    sync_state: M,
    history: H,
    document: Result<JsonView, Seq<char>>,
    parts: StorePartsView,
) -> bool {
    let fields = match document {
        Ok(value) => object_fields(value),
        Err(_) => Seq::empty(),
    };
    let rules = list_field(fields, "rules"@);
    let entries = list_field(fields, "history"@);
    &&& is_uuid_text(parts.fresh_id)
    &&& decoded_if_there(settings, member(fields, "settings"@), parts.settings)
    &&& parts.rules.len() == rules.len()
    &&& forall|i: int|
        0 <= i < rules.len() ==> rule_parts_of(
            last_result,
            sync_state,
            rules[i],
            #[trigger] parts.rules[i],
        )
    &&& parts.history.len() == entries.len()
    &&& forall|i: int|
        0 <= i < entries.len() ==> decoded_by(history, entries[i], #[trigger] parts.history[i])
}

fn decode_if_there<T: View, F: Fn(&Json) -> Result<T, String>>(
    decode: &F,
    object: &Vec<JsonField>,
    key: &str,
) -> (r: Option<Result<T, String>>)
    requires
        forall|json: &Json| #[trigger] call_requires(*decode, (json,)),
    ensures
        decoded_if_there(*decode, member(field_views(object@), key@), opt_result_view(r)),
{
    match get_field(object, key) {
        Some(json) => Some(decode(json)),
        None => None,
    }
}

fn decode_rule_parts<
    L: Fn(&Json) -> Result<RuleLastResult, String>,
    M: Fn(&Json) -> Result<RuleSyncState, String>,
>(last_result: &L, sync_state: &M, value: &Json) -> (r: RuleParts)
    requires
        forall|json: &Json| #[trigger] call_requires(*last_result, (json,)),
        forall|json: &Json| #[trigger] call_requires(*sync_state, (json,)),
    ensures
        rule_parts_of(*last_result, *sync_state, value@, r@),
{
    let fresh_id = new_id();
    match value {
        Json::Object(object) => {
            proof {
                json_object_view(*object);
            }
            RuleParts {
                fresh_id,
                last_result: decode_if_there(last_result, object, "lastResult"),
                sync_state: decode_if_there(sync_state, object, "syncState"),
            }
        },
        _ => RuleParts { fresh_id, last_result: None, sync_state: None },
    }
}

fn decode_parts<
    S: Fn(&Json) -> Result<AppSettings, String>,
    L: Fn(&Json) -> Result<RuleLastResult, String>,
    M: Fn(&Json) -> Result<RuleSyncState, String>,
    H: Fn(&Json) -> Result<SyncHistoryItem, String>,
>(
    settings: &S,
    last_result: &L,
    sync_state: &M,
    history: &H,
    document: &Result<Json, String>,
) -> (r: StoreParts)
    requires
        forall|json: &Json| #[trigger] call_requires(*settings, (json,)),
        forall|json: &Json| #[trigger] call_requires(*last_result, (json,)),
        forall|json: &Json| #[trigger] call_requires(*sync_state, (json,)),
        forall|json: &Json| #[trigger] call_requires(*history, (json,)),
    ensures
        store_parts_of(
            *settings,
            *last_result,
            *sync_state,
            *history,
            document_view(*document),
            r@,
        ),
{
    let mut parts = StoreParts {
        fresh_id: new_id(),
        settings: None,
        rules: Vec::new(),
        history: Vec::new(),
    };
    if let Ok(Json::Object(object)) = document {
        proof {
            json_object_view(*object);
        }
        let ghost fields = field_views(object@);
        parts.settings = decode_if_there(settings, object, "settings");
        if let Some(Json::Array(items)) = get_field(object, "rules") {
            proof {
                json_array_view(*items);
            }
            let ghost all = item_views(items@);
            let mut decoded: Vec<RuleParts> = Vec::new();
            let mut i: usize = 0;
            while i < items.len()
                invariant
                    i <= items@.len(),
                    all == item_views(items@),
                    decoded@.len() == i,
                    forall|json: &Json| #[trigger] call_requires(*last_result, (json,)),
                    forall|json: &Json| #[trigger] call_requires(*sync_state, (json,)),
                    forall|k: int|
                        0 <= k < i ==> rule_parts_of(
                            *last_result,
                            *sync_state,
                            all[k],
                            (#[trigger] decoded@[k])@,
                        ),
                decreases items@.len() - i,
            {
                decoded.push(decode_rule_parts(last_result, sync_state, &items[i]));
                i = i + 1;
            }
            parts.rules = decoded;
        }
        if let Some(Json::Array(items)) = get_field(object, "history") {
            proof {
                json_array_view(*items);
            }
            let ghost all = item_views(items@);
            let mut decoded: Vec<Result<SyncHistoryItem, String>> = Vec::new();
            let mut i: usize = 0;
            while i < items.len()
                invariant
                    i <= items@.len(),
                    all == item_views(items@),
                    decoded@.len() == i,
                    forall|json: &Json| #[trigger] call_requires(*history, (json,)),
                    forall|k: int|
                        0 <= k < i ==> decoded_by(*history, all[k], result_view(#[trigger] decoded@[k])),
                decreases items@.len() - i,
            {
                let entry = history(&items[i]);
                decoded.push(entry);
                i = i + 1;
            }
            parts.history = decoded;
        }
    }
    parts
}

/// Loads a store from the text of its document. The decoders turn parts of the
/// document into the settings, the last result and the mirrored entries of a
/// rule, and an entry of the history; where one fails, its text says why.
pub fn deserialize_store_lossy<
    S: Fn(&Json) -> Result<AppSettings, String>,
    L: Fn(&Json) -> Result<RuleLastResult, String>,
    M: Fn(&Json) -> Result<RuleSyncState, String>,
    H: Fn(&Json) -> Result<SyncHistoryItem, String>,
>(content: &str, settings: S, last_result: L, sync_state: M, history: H) -> (r: StoreLoadOutcome)
    requires
        forall|json: &Json| #[trigger] call_requires(settings, (json,)),
        forall|json: &Json| #[trigger] call_requires(last_result, (json,)),
        forall|json: &Json| #[trigger] call_requires(sync_state, (json,)),
        forall|json: &Json| #[trigger] call_requires(history, (json,)),
    ensures
        exists|parts: StorePartsView|
            store_parts_of(
                settings,
                last_result,
                sync_state,
                history,
                json_document(content@),
                parts,
            ) && r@ == #[trigger] loaded_store(json_document(content@), parts),
{
    let document = parse_json(content);
    let parts = decode_parts(&settings, &last_result, &sync_state, &history, &document);
    proof {
        assert(document_view(document) == json_document(content@));
    }
    store_from_document(&document, &parts)
}

/// A store is repaired exactly where there is something to tell of.
pub proof fn repaired_means_warned(document: Result<JsonView, Seq<char>>, parts: StorePartsView)
    ensures
        loaded_store(document, parts).repaired <==> loaded_store(document, parts).warnings.len() > 0,
{
}

/// Every rule of a document comes out as a rule, in its place, and a rule with
/// which anything is the matter comes out as wrongly configured.
pub proof fn every_rule_is_kept(
    fields: Seq<(Seq<char>, JsonView)>,
    items: Seq<JsonView>,
    parts: StorePartsView,
    i: int,
)
    requires
        member(fields, "rules"@) == Some(JsonView::Array(items)),
        0 <= i < items.len(),
    ensures
        ({
            let rules = loaded_store(Ok(JsonView::Object(fields)), parts).store.rules;
            &&& rules.len() == items.len()
            &&& rules[i].health == RuleHealth::InvalidConfiguration <==> !(items[i] is Object)
                || rule_issues(items[i]->Object_0, parts.rules[i]).len() > 0
            &&& rules[i].health == RuleHealth::InvalidConfiguration <==> rules[i].config_error is Some
            &&& rules[i].health == RuleHealth::InvalidConfiguration
                || rules[i].health == RuleHealth::Healthy
            &&& rules[i].poll_interval_sec >= MIN_POLL_INTERVAL_SEC
        }),
{
}

/// Whatever the document holds, every rule that comes of it has an id, as long
/// as there are fresh ones for those that have none.
pub proof fn every_loaded_rule_has_an_id(
    document: Result<JsonView, Seq<char>>,
    parts: StorePartsView,
    i: int,
)
    requires
        parts_fit(document, parts),
        is_uuid_text(parts.fresh_id),
        forall|k: int|
            0 <= k < parts.rules.len() ==> is_uuid_text((#[trigger] parts.rules[k]).fresh_id),
        0 <= i < loaded_store(document, parts).store.rules.len(),
    ensures
        !is_blank_text(loaded_store(document, parts).store.rules[i].id),
{
    fresh_id_is_not_blank(parts.fresh_id);
    match document {
        Ok(JsonView::Object(fields)) => {
            if let Some(JsonView::Array(items)) = member(fields, "rules"@) {
                fresh_id_is_not_blank(parts.rules[i].fresh_id);
            }
        },
        _ => {},
    }
}

} // verus!
