//! Making rules out of what a user fills in, and telling whether they can run.
use crate::ids::{is_uuid_text, new_id};
use crate::models::{
    empty_last_result, AppSettings, ConflictPolicy, DeletePolicy, DraftView, RuleDraft, RuleHealth,
    RuleKind, RuleLastResult, RuleSyncState, RuleView, SyncRule,
};
use crate::paths::{
    has_root, is_plain_path, is_reading, is_same_path, main_separator, overlap, paths_overlap,
    same_path, ParsedPath, PathView,
};
use crate::text::{
    is_blank_text, opt_text, texts, trim, trim_class, trim_text, trimmed, CharClass,
};
use vstd::prelude::*;
use vstd::string::*;

verus! {

broadcast use vstd::string::group_string_axioms;

/// The shortest interval between two polls, in seconds.
pub const MIN_POLL_INTERVAL_SEC: u64 = 5;

/// The number that is not below the other.
pub open spec fn larger(a: u64, b: u64) -> u64 {
    if a >= b {
        a
    } else {
        b
    }
}

pub fn larger_of(a: u64, b: u64) -> (r: u64)
    ensures
        r == larger(a, b),
{
    if a >= b {
        a
    } else {
        b
    }
}

/// What a new rule does with target files that the source does not have.
pub open spec fn delete_policy_of(kind: RuleKind) -> DeletePolicy {
    match kind {
        RuleKind::Folder => DeletePolicy::MoveToBackup,
        RuleKind::File => DeletePolicy::NoDelete,
    }
}

/// What a new rule does with target files that the source does not have: a
/// folder rule moves them to the backup, whether or not it works both ways.
pub fn default_delete_policy(kind: RuleKind, bidirectional: bool) -> (r: DeletePolicy)
    ensures
        r == delete_policy_of(kind),
{
    match kind {
        RuleKind::Folder => DeletePolicy::MoveToBackup,
        RuleKind::File => DeletePolicy::NoDelete,
    }
}

/// What stands at a path.
#[derive(Debug, Clone, Copy, PartialEq, Eq, Structural)]
pub enum PathState {
    Missing,
    File,
    Folder,
    /// Something that is neither a file nor a folder.
    Other,
}

/// What is kept of a path that was typed or pasted: no white space around it,
/// and no quotation marks around what is left.
pub open spec fn bare_path(input: Seq<char>) -> Seq<char> {
    trimmed(trim_text(input), CharClass::DoubleQuote)
}

fn strip_path(input: &str) -> (r: String)
    ensures
        r@ == bare_path(input@),
{
    let inner = trim(input);
    trim_class(inner.as_str(), CharClass::DoubleQuote)
}

/// The path that was typed, or what is the matter with it, once it is known
/// whether it is absolute.
pub open spec fn checked_path(
    input: Seq<char>,
    absolute: bool,
    if_empty: Seq<char>,
    if_relative: Seq<char>,
) -> Result<Seq<char>, Seq<char>> {
    if bare_path(input).len() == 0 {
        Err(if_empty)
    } else if !absolute {
        Err(if_relative)
    } else {
        Ok(bare_path(input))
    }
}

pub open spec fn text_result(r: Result<String, String>) -> Result<Seq<char>, Seq<char>> {
    match r {
        Ok(text) => Ok(text@),
        Err(message) => Err(message@),
    }
}

pub open spec fn checked_source(input: Seq<char>, absolute: bool) -> Result<Seq<char>, Seq<char>> {
    checked_path(input, absolute, "路径不能为空。"@, "请使用绝对路径。"@)
}

pub open spec fn checked_target(input: Seq<char>, absolute: bool) -> Result<Seq<char>, Seq<char>> {
    checked_path(input, absolute, "目标路径不能为空。"@, "目标路径必须是绝对路径。"@)
}

fn check_path(input: &str, absolute: bool, if_empty: &str, if_relative: &str) -> (r: Result<
    String,
    String,
>)
    ensures
        text_result(r) == checked_path(input@, absolute, if_empty@, if_relative@),
{
    let path = strip_path(input);
    if path.unicode_len() == 0 {
        return Err(String::from_str(if_empty));
    }
    if !absolute {
        return Err(String::from_str(if_relative));
    }
    Ok(path)
}

/// The source path that was typed, or what is the matter with it. Whether a
/// path is absolute is for the system to say.
pub fn normalize_source_path(input: &str) -> (r: Result<String, String>)
    ensures
        exists|path: PathView|
            is_reading(path, bare_path(input@)) && text_result(r) == #[trigger] checked_source(
                input@,
                path.absolute,
            ),
{
    let path = ParsedPath::read(strip_path(input).as_str());
    let r = check_path(input, path.absolute, "路径不能为空。", "请使用绝对路径。");
    proof {
        assert(text_result(r) == checked_source(input@, path@.absolute));
    }
    r
}

/// The target path that was typed, or what is the matter with it. Whether a
/// path is absolute is for the system to say.
pub fn normalize_target_path(input: &str) -> (r: Result<String, String>)
    ensures
        exists|path: PathView|
            is_reading(path, bare_path(input@)) && text_result(r) == #[trigger] checked_target(
                input@,
                path.absolute,
            ),
{
    let path = ParsedPath::read(strip_path(input).as_str());
    let r = check_path(
        input,
        path.absolute,
        "目标路径不能为空。",
        "目标路径必须是绝对路径。",
    );
    proof {
        assert(text_result(r) == checked_target(input@, path@.absolute));
    }
    r
}

/// What is the matter with a side of a new rule, if anything: what stands
/// there is not of the rule's kind.
pub open spec fn side_fault(kind: RuleKind, state: PathState, is_source: bool) -> Option<Seq<char>> {
    match (kind, state) {
        (RuleKind::File, PathState::Folder) => if is_source {
            Some("文件规则要求源路径必须是文件。"@)
        } else {
            Some("文件规则的目标路径不能是文件夹，请选择最终文件路径。"@)
        },
        (RuleKind::Folder, PathState::File) => if is_source {
            Some("文件夹规则要求源路径必须是文件夹。"@)
        } else {
            Some("文件夹规则的目标路径不能是文件，请选择目标目录路径。"@)
        },
        _ => None,
    }
}

pub open spec fn fault_result(fault: Option<Seq<char>>) -> Result<(), Seq<char>> {
    match fault {
        Some(message) => Err(message),
        None => Ok(()),
    }
}

pub open spec fn unit_result(r: Result<(), String>) -> Result<(), Seq<char>> {
    match r {
        Ok(_) => Ok(()),
        Err(message) => Err(message@),
    }
}

/// Whether a side of a new rule is of the rule's kind, where anything stands there.
pub fn validate_existing_side(kind: RuleKind, state: PathState, is_source: bool) -> (r: Result<
    (),
    String,
>)
    ensures
        unit_result(r) == fault_result(side_fault(kind, state, is_source)),
{
    match (kind, state) {
        (RuleKind::File, PathState::Folder) => {
            if is_source {
                Err(String::from_str("文件规则要求源路径必须是文件。"))
            } else {
                Err(
                    String::from_str(
                        "文件规则的目标路径不能是文件夹，请选择最终文件路径。",
                    ),
                )
            }
        },
        (RuleKind::Folder, PathState::File) => {
            if is_source {
                Err(String::from_str("文件夹规则要求源路径必须是文件夹。"))
            } else {
                Err(
                    String::from_str(
                        "文件夹规则的目标路径不能是文件，请选择目标目录路径。",
                    ),
                )
            }
        },
        _ => Ok(()),
    }
}

/// What is the matter with the two paths of a new rule, if anything.
pub open spec fn paths_fault(
    kind: RuleKind,
    source: PathView,
    target: PathView,
    bidirectional: bool,
    source_state: PathState,
    target_state: PathState,
) -> Option<Seq<char>> {
    if side_fault(kind, source_state, true) is Some {
        side_fault(kind, source_state, true)
    } else if side_fault(kind, target_state, false) is Some {
        side_fault(kind, target_state, false)
    } else if bidirectional && source_state == PathState::Missing && target_state
        == PathState::Missing {
        Some("双向同步要求源路径和目标路径至少有一侧已存在。"@)
    } else if !bidirectional && source_state == PathState::Missing {
        Some("源路径不存在。"@)
    } else if same_path(source.components, target.components) {
        Some("源路径和目标路径不能相同。"@)
    } else if kind == RuleKind::Folder && overlap(source, target) {
        Some("文件夹规则中，源目录和目标目录不能互相包含。"@)
    } else {
        None
    }
}

/// Whether the two paths of a new rule go together.
pub fn validate_rule_paths(
    kind: RuleKind,
    source: &ParsedPath,
    target: &ParsedPath,
    bidirectional: bool,
    source_state: PathState,
    target_state: PathState,
) -> (r: Result<(), String>)
    ensures
        unit_result(r) == fault_result(
            paths_fault(kind, source@, target@, bidirectional, source_state, target_state),
        ),
{
    let source_fault = validate_existing_side(kind, source_state, true);
    if source_fault.is_err() {
        return source_fault;
    }
    let target_fault = validate_existing_side(kind, target_state, false);
    if target_fault.is_err() {
        return target_fault;
    }
    if bidirectional {
        if source_state == PathState::Missing && target_state == PathState::Missing {
            return Err(
                String::from_str("双向同步要求源路径和目标路径至少有一侧已存在。"),
            );
        }
    } else if source_state == PathState::Missing {
        return Err(String::from_str("源路径不存在。"));
    }
    if is_same_path(&source.components, &target.components) {
        return Err(String::from_str("源路径和目标路径不能相同。"));
    }
    if kind == RuleKind::Folder && paths_overlap(source, target) {
        return Err(
            String::from_str("文件夹规则中，源目录和目标目录不能互相包含。"),
        );
    }
    Ok(())
}

/// Patterns without white space around them, and without blank ones.
pub open spec fn sanitized(patterns: Seq<Seq<char>>) -> Seq<Seq<char>>
    decreases patterns.len(),
{
    if patterns.len() == 0 {
        Seq::empty()
    } else {
        let before = sanitized(patterns.drop_last());
        if is_blank_text(patterns.last()) {
            before
        } else {
            before.push(trim_text(patterns.last()))
        }
    }
}

/// Patterns without white space around them, and without blank ones.
pub fn sanitize_globs(patterns: &Vec<String>) -> (r: Vec<String>)
    ensures
        texts(r@) == sanitized(texts(patterns@)),
{
    let ghost all = texts(patterns@);
    let mut r: Vec<String> = Vec::new();
    let mut i: usize = 0;
    proof {
        assert(texts(r@) =~= sanitized(all.take(0)));
    }
    while i < patterns.len()
        invariant
            i <= patterns@.len(),
            all == texts(patterns@),
            texts(r@) == sanitized(all.take(i as int)),
        decreases patterns@.len() - i,
    {
        let ghost before = texts(r@);
        proof {
            assert(all.take(i + 1).drop_last() =~= all.take(i as int));
            assert(all.take(i + 1).last() == patterns@[i as int]@);
        }
        let pattern = trim(patterns[i].as_str());
        if pattern.unicode_len() != 0 {
            r.push(pattern);
            proof {
                assert(texts(r@) =~= before.push(trim_text(patterns@[i as int]@)));
            }
        }
        i = i + 1;
    }
    proof {
        assert(all.take(all.len() as int) =~= all);
    }
    r
}

/// No pattern of a rule is blank or has white space around it.
pub proof fn sanitized_patterns_are_trimmed(patterns: Seq<Seq<char>>, i: int)
    requires
        0 <= i < sanitized(patterns).len(),
    ensures
        sanitized(patterns)[i].len() > 0,
        trim_text(sanitized(patterns)[i]) == sanitized(patterns)[i],
    decreases patterns.len(),
{
    let front = patterns.drop_last();
    if i < sanitized(front).len() {
        sanitized_patterns_are_trimmed(front, i);
    } else {
        crate::text::trim_is_idempotent(patterns.last(), CharClass::WhiteSpace);
    }
}

/// The rule that a draft makes, under an id.
pub open spec fn drafted_rule(id: Seq<char>, draft: DraftView) -> RuleView {
    RuleView {
        id,
        name: trim_text(draft.name),
        enabled: draft.enabled,
        kind: draft.kind,
        source_path: bare_path(draft.source_path),
        target_path: bare_path(draft.target_path),
        bidirectional: draft.bidirectional,
        auto_sync: draft.auto_sync,
        watch_enabled: draft.watch_enabled,
        poll_fallback_enabled: draft.poll_fallback_enabled,
        poll_interval_sec: larger(draft.poll_interval_sec, MIN_POLL_INTERVAL_SEC),
        conflict_policy: ConflictPolicy::OverwriteWithBackup,
        delete_policy: delete_policy_of(draft.kind),
        include_globs: sanitized(draft.include_globs),
        exclude_globs: sanitized(draft.exclude_globs),
        sync_state: Seq::empty(),
        last_sync_at: None,
        last_result: empty_last_result(),
        health: RuleHealth::Healthy,
        config_error: None,
    }
}

/// What is the matter with a draft, if anything.
pub open spec fn draft_fault(
    draft: DraftView,
    source: PathView,
    target: PathView,
    source_state: PathState,
    target_state: PathState,
) -> Option<Seq<char>> {
    match (
        checked_source(draft.source_path, source.absolute),
        checked_target(draft.target_path, target.absolute),
    ) {
        (Err(message), _) => Some(message),
        (_, Err(message)) => Some(message),
        _ => paths_fault(
            draft.kind,
            source,
            target,
            draft.bidirectional,
            source_state,
            target_state,
        ),
    }
}

pub open spec fn rule_result(r: Result<SyncRule, String>) -> Result<RuleView, Seq<char>> {
    match r {
        Ok(rule) => Ok(rule@),
        Err(message) => Err(message@),
    }
}

/// What a draft makes: a rule, or what is the matter with it.
pub open spec fn draft_result(
    id: Seq<char>,
    draft: DraftView,
    source: PathView,
    target: PathView,
    source_state: PathState,
    target_state: PathState,
) -> Result<RuleView, Seq<char>> {
    match draft_fault(draft, source, target, source_state, target_state) {
        Some(message) => Err(message),
        None => Ok(drafted_rule(id, draft)),
    }
}

/// Makes a rule out of a draft whose two paths were read already.
pub fn build_rule_from_paths(
    rule_id: String,
    draft: &RuleDraft,
    settings: &AppSettings,
    source: &ParsedPath,
    target: &ParsedPath,
    source_state: PathState,
    target_state: PathState,
) -> (r: Result<SyncRule, String>)
    ensures
        rule_result(r) == draft_result(
            rule_id@,
            draft@,
            source@,
            target@,
            source_state,
            target_state,
        ),
        r matches Ok(rule) ==> {
            &&& rule.enabled == draft.enabled && rule.kind == draft.kind
            &&& rule.bidirectional == draft.bidirectional && rule.auto_sync == draft.auto_sync
            &&& rule.watch_enabled == draft.watch_enabled
            &&& rule.poll_fallback_enabled == draft.poll_fallback_enabled
            &&& rule.poll_interval_sec >= draft.poll_interval_sec
            &&& draft.poll_interval_sec >= MIN_POLL_INTERVAL_SEC ==> rule.poll_interval_sec
                == draft.poll_interval_sec
            &&& rule.name@ == trim_text(draft.name@)
            &&& rule.source_path@ == bare_path(draft.source_path@)
            &&& rule.target_path@ == bare_path(draft.target_path@)
            &&& texts(rule.include_globs@) == sanitized(texts(draft.include_globs@))
            &&& texts(rule.exclude_globs@) == sanitized(texts(draft.exclude_globs@))
        },
{
    let source_path = match check_path(
        draft.source_path.as_str(),
        source.absolute,
        "路径不能为空。",
        "请使用绝对路径。",
    ) {
        Ok(path) => path,
        Err(message) => {
            return Err(message);
        },
    };
    let target_path = match check_path(
        draft.target_path.as_str(),
        target.absolute,
        "目标路径不能为空。",
        "目标路径必须是绝对路径。",
    ) {
        Ok(path) => path,
        Err(message) => {
            return Err(message);
        },
    };
    let fault = validate_rule_paths(
        draft.kind,
        source,
        target,
        draft.bidirectional,
        source_state,
        target_state,
    );
    if let Err(message) = fault {
        return Err(message);
    }
    let asked: u64 = larger_of(draft.poll_interval_sec, MIN_POLL_INTERVAL_SEC);
    let usual: u64 = if settings.default_poll_interval_sec < asked {
        settings.default_poll_interval_sec
    } else {
        asked
    };
    Ok(
        SyncRule {
            id: rule_id,
            name: trim(draft.name.as_str()),
            enabled: draft.enabled,
            kind: draft.kind,
            source_path,
            target_path,
            bidirectional: draft.bidirectional,
            auto_sync: draft.auto_sync,
            watch_enabled: draft.watch_enabled,
            poll_fallback_enabled: draft.poll_fallback_enabled,
            poll_interval_sec: larger_of(asked, usual),
            conflict_policy: ConflictPolicy::OverwriteWithBackup,
            delete_policy: default_delete_policy(draft.kind, draft.bidirectional),
            include_globs: sanitize_globs(&draft.include_globs),
            exclude_globs: sanitize_globs(&draft.exclude_globs),
            sync_state: RuleSyncState::default(),
            last_sync_at: None,
            last_result: RuleLastResult::default(),
            health: RuleHealth::Healthy,
            config_error: None,
        },
    )
}

/// The two paths of a draft, as the system reads them.
pub open spec fn reads_draft(draft: DraftView, source: PathView, target: PathView) -> bool {
    is_reading(source, bare_path(draft.source_path)) && is_reading(
        target,
        bare_path(draft.target_path),
    ) && source.separator == target.separator
}

/// Makes a rule out of a draft, under the id or, where there is none, a fresh
/// one. `source_state` and `target_state` say what stands at the two paths.
pub fn build_rule(
    rule_id: Option<String>,
    draft: RuleDraft,
    settings: &AppSettings,
    source_state: PathState,
    target_state: PathState,
) -> (r: Result<SyncRule, String>)
    ensures
        exists|id: Seq<char>, source: PathView, target: PathView|
            reads_draft(draft@, source, target) && (match opt_text(rule_id) {
                Some(given) => id == given,
                None => is_uuid_text(id),
            }) && rule_result(r) == #[trigger] draft_result(
                id,
                draft@,
                source,
                target,
                source_state,
                target_state,
            ),
        r matches Ok(rule) ==> {
            &&& rule.enabled == draft.enabled && rule.kind == draft.kind
            &&& rule.bidirectional == draft.bidirectional && rule.auto_sync == draft.auto_sync
            &&& rule.watch_enabled == draft.watch_enabled
            &&& rule.poll_fallback_enabled == draft.poll_fallback_enabled
            &&& rule.poll_interval_sec >= draft.poll_interval_sec
            &&& draft.poll_interval_sec >= MIN_POLL_INTERVAL_SEC ==> rule.poll_interval_sec
                == draft.poll_interval_sec
            &&& rule.name@ == trim_text(draft.name@)
            &&& rule.source_path@ == bare_path(draft.source_path@)
            &&& rule.target_path@ == bare_path(draft.target_path@)
            &&& texts(rule.include_globs@) == sanitized(texts(draft.include_globs@))
            &&& texts(rule.exclude_globs@) == sanitized(texts(draft.exclude_globs@))
        },
{
    let separator = main_separator();
    let source = ParsedPath::read_with(
        strip_path(draft.source_path.as_str()).as_str(),
        separator.clone(),
    );
    let target = ParsedPath::read_with(strip_path(draft.target_path.as_str()).as_str(), separator);
    let id = match rule_id {
        Some(id) => id,
        None => new_id(),
    };
    let ghost used = id@;
    let r = build_rule_from_paths(
        id,
        &draft,
        settings,
        &source,
        &target,
        source_state,
        target_state,
    );
    proof {
        assert(rule_result(r) == draft_result(
            used,
            draft@,
            source@,
            target@,
            source_state,
            target_state,
        ));
    }
    r
}

/// The health of a rule, by what stands at its two paths.
pub open spec fn health_of(
    rule: RuleView,
    source: PathView,
    target: PathView,
    source_state: PathState,
    target_state: PathState,
) -> RuleHealth {
    let source_exists = source_state != PathState::Missing;
    let target_exists = target_state != PathState::Missing;
    let right_kind = match rule.kind {
        RuleKind::File => PathState::File,
        RuleKind::Folder => PathState::Folder,
    };
    let wrong_kind = match rule.kind {
        RuleKind::File => PathState::Folder,
        RuleKind::Folder => PathState::File,
    };
    let overlaps = rule.kind == RuleKind::Folder && overlap(source, target);
    if rule.config_error is Some {
        RuleHealth::InvalidConfiguration
    } else if !source.absolute || !target.absolute || same_path(
        source.components,
        target.components,
    ) {
        RuleHealth::InvalidTargetPath
    } else if !source_exists && (!rule.bidirectional || !target_exists) {
        RuleHealth::MissingSource
    } else if source_exists && source_state != right_kind {
        RuleHealth::InvalidSourceType
    } else if target_state == wrong_kind {
        RuleHealth::InvalidTargetPath
    } else if overlaps && (!rule.bidirectional || (source_exists && target_exists)) {
        RuleHealth::OverlappingDirectories
    } else {
        RuleHealth::Healthy
    }
}

/// The health of a rule whose two paths were read already.
pub fn health_from_paths(
    rule: &SyncRule,
    source: &ParsedPath,
    target: &ParsedPath,
    source_state: PathState,
    target_state: PathState,
) -> (r: RuleHealth)
    ensures
        r == health_of(rule@, source@, target@, source_state, target_state),
{
    if rule.config_error.is_some() {
        return RuleHealth::InvalidConfiguration;
    }
    if !source.absolute || !target.absolute {
        return RuleHealth::InvalidTargetPath;
    }
    if is_same_path(&source.components, &target.components) {
        return RuleHealth::InvalidTargetPath;
    }
    let source_exists = source_state != PathState::Missing;
    let target_exists = target_state != PathState::Missing;
    if rule.bidirectional {
        if !source_exists && !target_exists {
            return RuleHealth::MissingSource;
        }
        match rule.kind {
            RuleKind::File => {
                if source_exists && source_state != PathState::File {
                    return RuleHealth::InvalidSourceType;
                }
                if target_exists && target_state == PathState::Folder {
                    return RuleHealth::InvalidTargetPath;
                }
            },
            RuleKind::Folder => {
                if source_exists && source_state != PathState::Folder {
                    return RuleHealth::InvalidSourceType;
                }
                if target_exists && target_state == PathState::File {
                    return RuleHealth::InvalidTargetPath;
                }
                if source_exists && target_exists && paths_overlap(source, target) {
                    return RuleHealth::OverlappingDirectories;
                }
            },
        }
        return RuleHealth::Healthy;
    }
    if !source_exists {
        return RuleHealth::MissingSource;
    }
    match rule.kind {
        RuleKind::File => {
            if source_state != PathState::File {
                return RuleHealth::InvalidSourceType;
            }
            if target_state == PathState::Folder {
                return RuleHealth::InvalidTargetPath;
            }
        },
        RuleKind::Folder => {
            if source_state != PathState::Folder {
                return RuleHealth::InvalidSourceType;
            }
            if target_state == PathState::File {
                return RuleHealth::InvalidTargetPath;
            }
            if paths_overlap(source, target) {
                return RuleHealth::OverlappingDirectories;
            }
        },
    }
    RuleHealth::Healthy
}

/// The two paths of a rule, as the system reads them.
pub open spec fn reads_rule(rule: RuleView, source: PathView, target: PathView) -> bool {
    is_reading(source, rule.source_path) && is_reading(target, rule.target_path)
        && source.separator == target.separator
}

/// The health of a rule. `source_state` and `target_state` say what stands at
/// its two paths.
pub fn evaluate_rule_health(rule: &SyncRule, source_state: PathState, target_state: PathState) -> (r:
    RuleHealth)
    ensures
        exists|source: PathView, target: PathView|
            reads_rule(rule@, source, target) && r == #[trigger] health_of(
                rule@,
                source,
                target,
                source_state,
                target_state,
            ),
        rule@.config_error is Some ==> r == RuleHealth::InvalidConfiguration,
{
    let separator = main_separator();
    let source = ParsedPath::read_with(rule.source_path.as_str(), separator.clone());
    let target = ParsedPath::read_with(rule.target_path.as_str(), separator);
    let r = health_from_paths(rule, &source, &target, source_state, target_state);
    proof {
        assert(r == health_of(rule@, source@, target@, source_state, target_state));
    }
    r
}

/// A rule that was just made can run, where its source is a file or a folder
/// or is missing.
pub proof fn drafted_rule_is_healthy(
    id: Seq<char>,
    draft: DraftView,
    source: PathView,
    target: PathView,
    source_state: PathState,
    target_state: PathState,
)
    requires
        draft_result(id, draft, source, target, source_state, target_state) is Ok,
        source_state != PathState::Other,
    ensures
        health_of(drafted_rule(id, draft), source, target, source_state, target_state)
            == RuleHealth::Healthy,
{
}

/// A draft whose target is missing makes a rule, as long as the source is of
/// the rule's kind and the paths go together.
pub proof fn missing_target_is_allowed(
    id: Seq<char>,
    draft: DraftView,
    source: PathView,
    target: PathView,
    source_state: PathState,
)
    requires
        bare_path(draft.source_path).len() > 0,
        bare_path(draft.target_path).len() > 0,
        source.absolute && target.absolute,
        source_state == match draft.kind {
            RuleKind::File => PathState::File,
            RuleKind::Folder => PathState::Folder,
        },
        !same_path(source.components, target.components),
        draft.kind == RuleKind::Folder ==> !overlap(source, target),
    ensures
        draft_result(id, draft, source, target, source_state, PathState::Missing) == Ok::<
            RuleView,
            Seq<char>,
        >(drafted_rule(id, draft)),
{
}

/// A healthy one-way rule has a source of its kind.
pub proof fn healthy_rule_has_a_source(
    rule: RuleView,
    source: PathView,
    target: PathView,
    source_state: PathState,
    target_state: PathState,
)
    requires
        health_of(rule, source, target, source_state, target_state) == RuleHealth::Healthy,
        !rule.bidirectional,
    ensures
        source_state == match rule.kind {
            RuleKind::File => PathState::File,
            RuleKind::Folder => PathState::Folder,
        },
        source.absolute && target.absolute,
        rule.kind == RuleKind::Folder ==> !overlap(source, target),
{
}

/// No rule is made of a relative path.
pub proof fn relative_paths_are_refused(
    id: Seq<char>,
    draft: DraftView,
    source: PathView,
    target: PathView,
    source_state: PathState,
    target_state: PathState,
)
    requires
        reads_draft(draft, source, target),
        ({
            ||| is_plain_path(bare_path(draft.source_path)) && !has_root(
                bare_path(draft.source_path),
            )
            ||| is_plain_path(bare_path(draft.target_path)) && !has_root(
                bare_path(draft.target_path),
            )
        }),
    ensures
        draft_result(id, draft, source, target, source_state, target_state) is Err,
{
}

/// A one-way rule is not made without a source.
pub proof fn one_way_rule_needs_a_source(
    id: Seq<char>,
    draft: DraftView,
    source: PathView,
    target: PathView,
    target_state: PathState,
)
    requires
        !draft.bidirectional,
    ensures
        draft_result(id, draft, source, target, PathState::Missing, target_state) is Err,
{
}

} // verus!
