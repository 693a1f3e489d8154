//! What a rule that was drafted is, and when one can run, said of the draft and
//! of what stands at the two paths.
use crate::models::{
    empty_last_result, ConflictPolicy, DeletePolicy, DraftView, RuleHealth, RuleKind, RuleView,
};
use crate::backups::reads_side;
use crate::paths::{overlap, same_path, PathView};
use crate::rules::{
    bare_path, checked_source, checked_target, draft_result, health_of, reads_draft, reads_rule,
    sanitized, PathState,
};
use crate::sync_engine::RuleSide;
use crate::text::{is_white_space, trim_text, trimmed, CharClass};
use crate::text_laws::{
    blank_is_all_white_space, trim_takes_off_quotation_marks, trim_takes_off_white_space,
};
use vstd::prelude::*;
use vstd::string::*;

verus! {

/// The patterns of a rule are those that were given and hold anything but white
/// space, in order, each without the white space around it.
pub proof fn patterns_are_kept_in_order(patterns: Seq<Seq<char>>)
    ensures
        sanitized(patterns) == patterns.filter(
            |p: Seq<char>| exists|k: int| 0 <= k < p.len() && !is_white_space(#[trigger] p[k]),
        ).map_values(|p: Seq<char>| trim_text(p)),
    decreases patterns.len(),
{
    let says = |p: Seq<char>| exists|k: int| 0 <= k < p.len() && !is_white_space(#[trigger] p[k]);
    let bare = |p: Seq<char>| trim_text(p);
    reveal(Seq::filter);
    if patterns.len() > 0 {
        let last = patterns.last();
        patterns_are_kept_in_order(patterns.drop_last());
        blank_is_all_white_space(last);
        let before = patterns.drop_last().filter(says);
        if says(last) {
            assert(patterns.filter(says) == before.push(last));
            assert(before.push(last).map_values(bare) =~= before.map_values(bare).push(
                trim_text(last),
            ));
        }
    }
    assert(sanitized(patterns) =~= patterns.filter(says).map_values(bare));
}

/// A rule is what was drafted: its switches, its kind and its intervals are
/// those of the draft, its name and its patterns those of the draft without
/// the white space around them, and its include patterns are made of include
/// patterns, its exclude patterns of exclude patterns. It is polled no more
/// often than every five seconds. A folder rule moves files that only the
/// target has to the backup, a file rule removes nothing. It has not run yet.
pub proof fn rule_is_as_drafted(
    id: Seq<char>,
    draft: DraftView,
    source: PathView,
    target: PathView,
    source_state: PathState,
    target_state: PathState,
)
    requires
        draft_result(id, draft, source, target, source_state, target_state) is Ok,
    ensures
        ({
            let rule = draft_result(id, draft, source, target, source_state, target_state)->Ok_0;
            let says = |p: Seq<char>|
                exists|k: int| 0 <= k < p.len() && !is_white_space(#[trigger] p[k]);
            let bare = |p: Seq<char>| trim_text(p);
            &&& rule.id == id
            &&& rule.name == trim_text(draft.name)
            &&& rule.enabled == draft.enabled
            &&& rule.kind == draft.kind
            &&& rule.source_path == bare_path(draft.source_path)
            &&& rule.target_path == bare_path(draft.target_path)
            &&& rule.bidirectional == draft.bidirectional
            &&& rule.auto_sync == draft.auto_sync
            &&& rule.watch_enabled == draft.watch_enabled
            &&& rule.poll_fallback_enabled == draft.poll_fallback_enabled
            &&& draft.poll_interval_sec >= 5 ==> rule.poll_interval_sec == draft.poll_interval_sec
            &&& draft.poll_interval_sec < 5 ==> rule.poll_interval_sec == 5
            &&& rule.conflict_policy == ConflictPolicy::OverwriteWithBackup
            &&& rule.kind == RuleKind::Folder ==> rule.delete_policy == DeletePolicy::MoveToBackup
            &&& rule.kind == RuleKind::File ==> rule.delete_policy == DeletePolicy::NoDelete
            &&& rule.include_globs == draft.include_globs.filter(says).map_values(bare)
            &&& rule.exclude_globs == draft.exclude_globs.filter(says).map_values(bare)
            &&& rule.sync_state == Seq::<Seq<char>>::empty()
            &&& rule.last_sync_at is None
            &&& rule.last_result == empty_last_result()
            &&& rule.health == RuleHealth::Healthy
            &&& rule.config_error is None
        }),
{
    patterns_are_kept_in_order(draft.include_globs);
    patterns_are_kept_in_order(draft.exclude_globs);
}

/// Of a path that was typed only white space and, inside that, quotation marks
/// at its ends are taken off.
pub proof fn typed_path_keeps_its_middle(input: Seq<char>)
    ensures
        exists|i: int, a: int, b: int, j: int|
            0 <= i <= a <= b <= j <= input.len() && #[trigger] input.subrange(i, j) == trim_text(
                input,
            ) && bare_path(input) == #[trigger] input.subrange(a, b) && (forall|k: int|
                0 <= k < i || j <= k < input.len() ==> is_white_space(#[trigger] input[k])) && (
            forall|k: int| i <= k < a || b <= k < j ==> #[trigger] input[k] == '"') && (a < b
                ==> input[a] != '"' && input[b - 1] != '"'),
{
    let inner = trim_text(input);
    trim_takes_off_white_space(input);
    trim_takes_off_quotation_marks(inner);
    let (i, j) = choose|i: int, j: int|
        0 <= i <= j <= input.len() && inner == #[trigger] input.subrange(i, j) && (forall|k: int|
            0 <= k < i || j <= k < input.len() ==> is_white_space(#[trigger] input[k])) && (i < j
            ==> !is_white_space(input[i]) && !is_white_space(input[j - 1]));
    let (p, q) = choose|p: int, q: int|
        0 <= p <= q <= inner.len() && trimmed(inner, CharClass::DoubleQuote)
            == #[trigger] inner.subrange(p, q) && (forall|k: int|
            0 <= k < p || q <= k < inner.len() ==> #[trigger] inner[k] == '"') && (p < q
            ==> inner[p] != '"' && inner[q - 1] != '"');
    let a = i + p;
    let b = i + q;
    assert(inner.subrange(p, q) =~= input.subrange(a, b));
    assert forall|k: int| i <= k < a || b <= k < j implies #[trigger] input[k] == '"' by {
        assert(inner[k - i] == input[k]);
    }
    if a < b {
        assert(inner[p] == input[a]);
        assert(inner[q - 1] == input[b - 1]);
    }
    assert(input.subrange(i, j) == trim_text(input) && bare_path(input) == input.subrange(a, b));
}

/// A path that was typed is accepted where anything is left of it and it is
/// absolute, and is then what is left of it; otherwise it is said which of the
/// two is missing.
pub proof fn typed_path_is_accepted_if_absolute(input: Seq<char>, absolute: bool)
    ensures
        bare_path(input).len() == 0 ==> checked_source(input, absolute) == Err::<
            Seq<char>,
            Seq<char>,
        >("路径不能为空。"@) && checked_target(input, absolute) == Err::<Seq<char>, Seq<char>>(
            "目标路径不能为空。"@,
        ),
        bare_path(input).len() > 0 && !absolute ==> checked_source(input, absolute) == Err::<
            Seq<char>,
            Seq<char>,
        >("请使用绝对路径。"@) && checked_target(input, absolute) == Err::<
            Seq<char>,
            Seq<char>,
        >("目标路径必须是绝对路径。"@),
        bare_path(input).len() > 0 && absolute ==> checked_source(input, absolute) == Ok::<
            Seq<char>,
            Seq<char>,
        >(bare_path(input)) && checked_target(input, absolute) == Ok::<Seq<char>, Seq<char>>(
            bare_path(input),
        ),
{
}

/// A draft makes a rule exactly where both paths say anything and are absolute,
/// nothing of the other kind stands at either, something stands at the source
/// or, for a rule that works both ways, at one of them, the two paths differ,
/// and two folders do not overlap.
pub proof fn draft_makes_a_rule_if_its_paths_go_together(
    id: Seq<char>,
    draft: DraftView,
    source: PathView,
    target: PathView,
    source_state: PathState,
    target_state: PathState,
)
    ensures
        draft_result(id, draft, source, target, source_state, target_state) is Ok <==> {
            &&& bare_path(draft.source_path).len() > 0
            &&& bare_path(draft.target_path).len() > 0
            &&& source.absolute
            &&& target.absolute
            &&& draft.kind == RuleKind::File ==> source_state != PathState::Folder && target_state
                != PathState::Folder
            &&& draft.kind == RuleKind::Folder ==> source_state != PathState::File && target_state
                != PathState::File
            &&& source_state != PathState::Missing || (draft.bidirectional && target_state
                != PathState::Missing)
            &&& !same_path(source.components, target.components)
            &&& draft.kind == RuleKind::Folder ==> !overlap(source, target)
        },
{
}

/// What is said of a draft that makes no rule. The first thing that is the
/// matter is said: with the source path, the target path, what stands at the
/// source, what stands at the target, what is missing, two paths that are the
/// same, two folders that overlap.
pub proof fn refused_draft_says_why(
    id: Seq<char>,
    draft: DraftView,
    source: PathView,
    target: PathView,
    source_state: PathState,
    target_state: PathState,
)
    ensures
        ({
            let said = draft_result(id, draft, source, target, source_state, target_state);
            let read = bare_path(draft.source_path).len() > 0 && bare_path(draft.target_path).len()
                > 0 && source.absolute && target.absolute;
            let file = draft.kind == RuleKind::File;
            let kinds = if file {
                source_state != PathState::Folder && target_state != PathState::Folder
            } else {
                source_state != PathState::File && target_state != PathState::File
            };
            let there = source_state != PathState::Missing || (draft.bidirectional && target_state
                != PathState::Missing);
            &&& bare_path(draft.source_path).len() == 0 ==> said == Err::<RuleView, Seq<char>>(
                "路径不能为空。"@,
            )
            &&& bare_path(draft.source_path).len() > 0 && !source.absolute ==> said == Err::<
                RuleView,
                Seq<char>,
            >("请使用绝对路径。"@)
            &&& read && file && source_state == PathState::Folder ==> said == Err::<
                RuleView,
                Seq<char>,
            >("文件规则要求源路径必须是文件。"@)
            &&& read && !file && source_state == PathState::File ==> said == Err::<
                RuleView,
                Seq<char>,
            >("文件夹规则要求源路径必须是文件夹。"@)
            &&& read && file && source_state != PathState::Folder && target_state
                == PathState::Folder ==> said == Err::<RuleView, Seq<char>>(
                "文件规则的目标路径不能是文件夹，请选择最终文件路径。"@,
            )
            &&& read && !file && source_state != PathState::File && target_state == PathState::File
                ==> said == Err::<RuleView, Seq<char>>(
                "文件夹规则的目标路径不能是文件，请选择目标目录路径。"@,
            )
            &&& read && kinds && !there && draft.bidirectional ==> said == Err::<
                RuleView,
                Seq<char>,
            >("双向同步要求源路径和目标路径至少有一侧已存在。"@)
            &&& read && kinds && !there && !draft.bidirectional ==> said == Err::<
                RuleView,
                Seq<char>,
            >("源路径不存在。"@)
            &&& read && kinds && there && same_path(source.components, target.components) ==> said
                == Err::<RuleView, Seq<char>>("源路径和目标路径不能相同。"@)
            &&& read && kinds && there && !same_path(source.components, target.components) && !file
                && overlap(source, target) ==> said == Err::<RuleView, Seq<char>>(
                "文件夹规则中，源目录和目标目录不能互相包含。"@,
            )
        }),
{
}

/// A rule can run exactly where nothing is the matter with how it is written,
/// both paths are absolute and differ, something stands at the source or, for a
/// rule that works both ways, at one of them, what stands at the source is of
/// the rule's kind, what stands at the target is not of the other kind, and
/// two folders do not overlap; those of a rule that works both ways only count
/// where both are there.
pub proof fn rule_is_healthy_if_it_can_run(
    rule: RuleView,
    source: PathView,
    target: PathView,
    source_state: PathState,
    target_state: PathState,
)
    ensures
        health_of(rule, source, target, source_state, target_state) == RuleHealth::Healthy <==> {
            &&& rule.config_error is None
            &&& source.absolute
            &&& target.absolute
            &&& !same_path(source.components, target.components)
            &&& source_state != PathState::Missing || (rule.bidirectional && target_state
                != PathState::Missing)
            &&& rule.kind == RuleKind::File ==> (source_state == PathState::File || source_state
                == PathState::Missing) && target_state != PathState::Folder
            &&& rule.kind == RuleKind::Folder ==> (source_state == PathState::Folder
                || source_state == PathState::Missing) && target_state != PathState::File
            &&& rule.kind == RuleKind::Folder && (!rule.bidirectional || (source_state
                != PathState::Missing && target_state != PathState::Missing)) ==> !overlap(
                source,
                target,
            )
        },
{
}

/// What is the matter with a rule that cannot run: how it is written comes
/// first, then its paths, then what is missing, then what stands at the source,
/// then what stands at the target, and folders that overlap come last.
pub proof fn unhealthy_rule_shows_why(
    rule: RuleView,
    source: PathView,
    target: PathView,
    source_state: PathState,
    target_state: PathState,
)
    ensures
        ({
            let health = health_of(rule, source, target, source_state, target_state);
            let paths = rule.config_error is None && source.absolute && target.absolute
                && !same_path(source.components, target.components);
            let there = source_state != PathState::Missing || (rule.bidirectional && target_state
                != PathState::Missing);
            let strange_source = source_state != PathState::Missing && (if rule.kind
                == RuleKind::File {
                source_state != PathState::File
            } else {
                source_state != PathState::Folder
            });
            let strange_target = if rule.kind == RuleKind::File {
                target_state == PathState::Folder
            } else {
                target_state == PathState::File
            };
            &&& rule.config_error is Some <==> health == RuleHealth::InvalidConfiguration
            &&& rule.config_error is None && !paths ==> health == RuleHealth::InvalidTargetPath
            &&& paths && !there <==> health == RuleHealth::MissingSource
            &&& paths && there && strange_source <==> health == RuleHealth::InvalidSourceType
            &&& paths && there && !strange_source && strange_target ==> health
                == RuleHealth::InvalidTargetPath
            &&& health == RuleHealth::OverlappingDirectories <==> paths && there && !strange_source
                && !strange_target && rule.kind == RuleKind::Folder && overlap(source, target) && (
            !rule.bidirectional || (source_state != PathState::Missing && target_state
                != PathState::Missing))
        }),
{
}

/// The source of a rule is read from its source path and the target from its
/// target path, and so they are for a draft, whose paths are what is left of
/// what was typed.
pub proof fn paths_are_read_where_they_are_written(
    rule: RuleView,
    draft: DraftView,
    source: PathView,
    target: PathView,
)
    ensures
        reads_rule(rule, source, target) ==> source.text == rule.source_path && target.text
            == rule.target_path,
        reads_draft(draft, source, target) ==> source.text == bare_path(draft.source_path)
            && target.text == bare_path(draft.target_path),
        reads_side(rule, RuleSide::Source, source) ==> source.text == rule.source_path,
        reads_side(rule, RuleSide::Target, target) ==> target.text == rule.target_path,
{
}

} // verus!
