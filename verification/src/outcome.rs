//! What is reported of a run.
use crate::clock::{current_time, format_timestamp, rfc3339_text, Timestamp};
use crate::models::{
    HistoryView, LastResultView, RuleLastResult, RuleView, SyncHistoryItem, SyncRule, SyncTrigger,
};
use crate::sync_engine::{no_counts, RunCounts};
use crate::text::{decimal_count, decimal_text};
use vstd::prelude::*;
use vstd::string::*;

verus! {

broadcast use vstd::string::group_string_axioms;

/// What came of a run: the last result of the rule, and a line for the history.
#[derive(Debug)]
pub struct RuleRunOutcome {
    pub last_result: RuleLastResult,
    pub history_item: SyncHistoryItem,
}

pub struct OutcomeView {
    pub last_result: LastResultView,
    pub history_item: HistoryView,
}

impl View for RuleRunOutcome {
    type V = OutcomeView;

    open spec fn view(&self) -> OutcomeView {
        OutcomeView { last_result: self.last_result@, history_item: self.history_item@ }
    }
}

pub open spec fn stamp_text(at: Timestamp) -> Seq<char> {
    rfc3339_text(at.seconds, at.nanos)
}

/// What is reported of a run of a rule.
pub open spec fn outcome_of(
    rule: RuleView,
    trigger: SyncTrigger,
    started: Timestamp,
    finished: Timestamp,
    success: bool,
    message: Seq<char>,
    counts: RunCounts,
) -> OutcomeView {
    OutcomeView {
        last_result: LastResultView {
            success,
            message,
            trigger: Some(trigger),
            started_at: Some(stamp_text(started)),
            finished_at: Some(stamp_text(finished)),
            copied_count: counts.copied_count,
            updated_count: counts.updated_count,
            skipped_count: counts.skipped_count,
            backup_count: counts.backup_count,
            deleted_count: counts.deleted_count,
            error_count: counts.error_count,
        },
        history_item: HistoryView {
            rule_id: rule.id,
            rule_name: rule.name,
            started_at: stamp_text(started),
            finished_at: stamp_text(finished),
            trigger,
            copied_count: counts.copied_count,
            updated_count: counts.updated_count,
            skipped_count: counts.skipped_count,
            backup_count: counts.backup_count,
            deleted_count: counts.deleted_count,
            error_count: counts.error_count,
            success,
            message,
        },
    }
}

/// What is reported of a run that began and ended at given times.
pub fn build_outcome_at(
    rule: &SyncRule,
    trigger: SyncTrigger,
    started: Timestamp,
    finished: Timestamp,
    success: bool,
    message: String,
    counts: RunCounts,
) -> (r: RuleRunOutcome)
    requires
        started.in_calendar(),
        finished.in_calendar(),
    ensures
        r@ == outcome_of(rule@, trigger, started, finished, success, message@, counts),
{
    RuleRunOutcome {
        last_result: RuleLastResult {
            success,
            message: message.clone(),
            trigger: Some(trigger),
            started_at: Some(format_timestamp(started)),
            finished_at: Some(format_timestamp(finished)),
            copied_count: counts.copied_count,
            updated_count: counts.updated_count,
            skipped_count: counts.skipped_count,
            backup_count: counts.backup_count,
            deleted_count: counts.deleted_count,
            error_count: counts.error_count,
        },
        history_item: SyncHistoryItem {
            rule_id: rule.id.clone(),
            rule_name: rule.name.clone(),
            started_at: format_timestamp(started),
            finished_at: format_timestamp(finished),
            trigger,
            copied_count: counts.copied_count,
            updated_count: counts.updated_count,
            skipped_count: counts.skipped_count,
            backup_count: counts.backup_count,
            deleted_count: counts.deleted_count,
            error_count: counts.error_count,
            success,
            message,
        },
    }
}

/// What is reported of a run that ends now.
pub fn build_outcome(
    rule: &SyncRule,
    trigger: SyncTrigger,
    started: Timestamp,
    success: bool,
    message: String,
    counts: RunCounts,
) -> (r: RuleRunOutcome)
    requires
        started.in_calendar(),
    ensures
        exists|finished: Timestamp|
            finished.in_calendar() && r@ == #[trigger] outcome_of(
                rule@,
                trigger,
                started,
                finished,
                success,
                message@,
                counts,
            ),
{
    let finished = current_time();
    build_outcome_at(rule, trigger, started, finished, success, message, counts)
}

/// How a run that succeeded is described.
pub open spec fn success_text(bidirectional: bool, counts: RunCounts) -> Seq<char> {
    let mode = if bidirectional {
        "双向同步"@
    } else {
        "同步"@
    };
    if counts.copied_count == 0 && counts.updated_count == 0 && counts.skipped_count > 0
        && counts.backup_count == 0 {
        mode + "完成：两侧内容已是最新状态（未变更 "@ + decimal_text(
            counts.skipped_count as nat,
        ) + "）。"@
    } else {
        mode + "完成：新增 "@ + decimal_text(counts.copied_count as nat) + "，更新 "@ + decimal_text(
            counts.updated_count as nat,
        ) + "，删除 "@ + decimal_text(counts.deleted_count as nat) + "，未变更 "@ + decimal_text(
            counts.skipped_count as nat,
        ) + "，备份 "@ + decimal_text(counts.backup_count as nat) + "。"@
    }
}

/// How a run that succeeded is described.
pub fn success_message(bidirectional: bool, counts: &RunCounts) -> (r: String)
    ensures
        r@ == success_text(bidirectional, *counts),
{
    let mut r = if bidirectional {
        String::from_str("双向同步")
    } else {
        String::from_str("同步")
    };
    if counts.copied_count == 0 && counts.updated_count == 0 && counts.skipped_count > 0
        && counts.backup_count == 0 {
        r.append("完成：两侧内容已是最新状态（未变更 ");
        r.append(decimal_count(counts.skipped_count).as_str());
        r.append("）。");
        return r;
    }
    r.append("完成：新增 ");
    r.append(decimal_count(counts.copied_count).as_str());
    r.append("，更新 ");
    r.append(decimal_count(counts.updated_count).as_str());
    r.append("，删除 ");
    r.append(decimal_count(counts.deleted_count).as_str());
    r.append("，未变更 ");
    r.append(decimal_count(counts.skipped_count).as_str());
    r.append("，备份 ");
    r.append(decimal_count(counts.backup_count).as_str());
    r.append("。");
    r
}

/// The counts of a run that failed.
pub open spec fn one_error() -> RunCounts {
    RunCounts { error_count: 1, ..no_counts() }
}

/// What is reported of a run that ended with `result`.
pub open spec fn sync_outcome(
    rule: RuleView,
    trigger: SyncTrigger,
    started: Timestamp,
    finished: Timestamp,
    result: Result<RunCounts, Seq<char>>,
) -> OutcomeView {
    match result {
        Ok(counts) => outcome_of(
            rule,
            trigger,
            started,
            finished,
            true,
            success_text(rule.bidirectional, counts),
            counts,
        ),
        Err(message) => outcome_of(rule, trigger, started, finished, false, message, one_error()),
    }
}

pub open spec fn counts_result(r: Result<RunCounts, String>) -> Result<RunCounts, Seq<char>> {
    match r {
        Ok(counts) => Ok(counts),
        Err(message) => Err(message@),
    }
}

/// What is reported of a run that ended at a given time with `result`.
pub fn run_rule_sync_at(
    rule: &SyncRule,
    trigger: SyncTrigger,
    started: Timestamp,
    finished: Timestamp,
    result: Result<RunCounts, String>,
) -> (r: RuleRunOutcome)
    requires
        started.in_calendar(),
        finished.in_calendar(),
    ensures
        r@ == sync_outcome(rule@, trigger, started, finished, counts_result(result)),
{
    match result {
        Ok(counts) => {
            let message = success_message(rule.bidirectional, &counts);
            build_outcome_at(rule, trigger, started, finished, true, message, counts)
        },
        Err(message) => {
            let mut counts = RunCounts::default();
            counts.error_count = 1;
            build_outcome_at(rule, trigger, started, finished, false, message, counts)
        },
    }
}

/// What is reported of a run that ends now with `result`.
pub fn run_rule_sync(
    rule: &SyncRule,
    trigger: SyncTrigger,
    started: Timestamp,
    result: Result<RunCounts, String>,
) -> (r: RuleRunOutcome)
    requires
        started.in_calendar(),
    ensures
        exists|finished: Timestamp|
            finished.in_calendar() && r@ == #[trigger] sync_outcome(
                rule@,
                trigger,
                started,
                finished,
                counts_result(result),
            ),
{
    let finished = current_time();
    run_rule_sync_at(rule, trigger, started, finished, result)
}

/// How a cleanup is described.
pub open spec fn cleanup_text(deleted_count: usize) -> Seq<char> {
    if deleted_count == 0 {
        "没有需要清理的备份。"@
    } else {
        "备份清理完成：删除 "@ + decimal_text(deleted_count as nat) + " 个备份文件或目录。"@
    }
}

/// How a cleanup is described.
pub fn cleanup_message(deleted_count: usize) -> (r: String)
    ensures
        r@ == cleanup_text(deleted_count),
{
    if deleted_count == 0 {
        String::from_str("没有需要清理的备份。")
    } else {
        let mut r = String::from_str("备份清理完成：删除 ");
        r.append(decimal_count(deleted_count).as_str());
        r.append(" 个备份文件或目录。");
        r
    }
}

/// The last result and the history tell the same of a run.
pub proof fn history_agrees_with_last_result(
    rule: RuleView,
    trigger: SyncTrigger,
    started: Timestamp,
    finished: Timestamp,
    result: Result<RunCounts, Seq<char>>,
)
    ensures
        ({
            let o = sync_outcome(rule, trigger, started, finished, result);
            &&& o.last_result.success == (result is Ok)
            &&& o.history_item.success == (result is Ok)
            &&& o.last_result.message == o.history_item.message
            &&& o.last_result.trigger == Some(o.history_item.trigger)
            &&& o.last_result.started_at == Some(o.history_item.started_at)
            &&& o.last_result.finished_at == Some(o.history_item.finished_at)
            &&& o.last_result.copied_count == o.history_item.copied_count
            &&& o.last_result.updated_count == o.history_item.updated_count
            &&& o.last_result.skipped_count == o.history_item.skipped_count
            &&& o.last_result.backup_count == o.history_item.backup_count
            &&& o.last_result.deleted_count == o.history_item.deleted_count
            &&& o.last_result.error_count == o.history_item.error_count
            &&& result is Err ==> o.last_result.error_count == 1
        }),
{
}

} // verus!
