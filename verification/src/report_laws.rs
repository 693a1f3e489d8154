//! What is reported of runs, written into the log and shown of it.
use crate::cleanup::{cleanup_next, cleanup_outcome, CleanupActionView, CleanupEventView,
    CleanupPhase, CleanupView};
use crate::clock::{rfc3339_text, Timestamp};
use crate::logs::{filled_lines, first_feed, log_entry, newest_first};
use crate::models::{CleanupCandidateKind, LogView, RuleView, SyncTrigger};
use crate::outcome::{cleanup_text, success_text, sync_outcome};
use crate::paths::PathView;
use crate::rules::PathState;
use crate::shell::{command_of, revealed, RevealView, TrayCommand};
use crate::store_files::{corrupt_name, repair_text, signed_text, temp_store_name};
use crate::sync_engine::RunCounts;
use crate::text::{decimal_text, is_white_space};
use crate::text_laws::blank_is_all_white_space;
use vstd::prelude::*;
use vstd::string::*;

verus! {

/// A run is reported under its rule and its trigger, with the times at which it
/// began and ended. One that succeeded is reported with its counts; one that
/// failed with what went wrong, one error and nothing else.
pub proof fn run_is_reported_as_it_ended(
    rule: RuleView,
    trigger: SyncTrigger,
    started: Timestamp,
    finished: Timestamp,
    result: Result<RunCounts, Seq<char>>,
)
    ensures
        ({
            let told = sync_outcome(rule, trigger, started, finished, result).last_result;
            let item = sync_outcome(rule, trigger, started, finished, result).history_item;
            &&& item.rule_id == rule.id && item.rule_name == rule.name
            &&& item.trigger == trigger && told.trigger == Some(trigger)
            &&& item.started_at == rfc3339_text(started.seconds, started.nanos)
            &&& item.finished_at == rfc3339_text(finished.seconds, finished.nanos)
            &&& told.started_at == Some(rfc3339_text(started.seconds, started.nanos))
            &&& told.finished_at == Some(rfc3339_text(finished.seconds, finished.nanos))
            &&& told.success == (result is Ok) && item.success == (result is Ok)
            &&& result matches Ok(counts) ==> {
                &&& told.copied_count == counts.copied_count && item.copied_count
                    == counts.copied_count
                &&& told.updated_count == counts.updated_count && item.updated_count
                    == counts.updated_count
                &&& told.skipped_count == counts.skipped_count && item.skipped_count
                    == counts.skipped_count
                &&& told.backup_count == counts.backup_count && item.backup_count
                    == counts.backup_count
                &&& told.deleted_count == counts.deleted_count && item.deleted_count
                    == counts.deleted_count
                &&& told.error_count == counts.error_count && item.error_count
                    == counts.error_count
                &&& told.message == success_text(rule.bidirectional, counts) && item.message
                    == success_text(rule.bidirectional, counts)
            }
            &&& result matches Err(message) ==> {
                &&& told.message == message && item.message == message
                &&& told.copied_count == 0 && told.updated_count == 0 && told.skipped_count == 0
                &&& told.backup_count == 0 && told.deleted_count == 0 && told.error_count == 1
                &&& item.copied_count == 0 && item.updated_count == 0 && item.skipped_count == 0
                &&& item.backup_count == 0 && item.deleted_count == 0 && item.error_count == 1
            }
        }),
{
}

/// A cleanup that succeeded is reported under its rule as a cleanup, with its
/// counts; of one that failed only what went wrong is told.
pub proof fn cleanup_is_reported_as_it_ended(
    rule: RuleView,
    started: Timestamp,
    finished: Timestamp,
    result: Result<RunCounts, Seq<char>>,
)
    ensures
        match (cleanup_outcome(rule, started, finished, result), result) {
            (Ok(told), Ok(counts)) => {
                &&& told.history_item.rule_id == rule.id
                &&& told.history_item.rule_name == rule.name
                &&& told.history_item.trigger == SyncTrigger::Cleanup
                &&& told.last_result.trigger == Some(SyncTrigger::Cleanup)
                &&& told.last_result.success && told.history_item.success
                &&& told.history_item.started_at == rfc3339_text(started.seconds, started.nanos)
                &&& told.history_item.finished_at == rfc3339_text(finished.seconds, finished.nanos)
                &&& told.last_result.started_at == Some(
                    rfc3339_text(started.seconds, started.nanos),
                )
                &&& told.last_result.finished_at == Some(
                    rfc3339_text(finished.seconds, finished.nanos),
                )
                &&& told.last_result.deleted_count == counts.deleted_count
                &&& told.history_item.deleted_count == counts.deleted_count
                &&& told.last_result.message == cleanup_text(counts.deleted_count)
                &&& told.history_item.message == cleanup_text(counts.deleted_count)
            },
            (Err(told), Err(message)) => told == message,
            _ => false,
        },
{
}

/// A run that changed nothing and found something in step says so, with the
/// number of what it found; any other names its counts one by one. A rule that
/// works both ways says that it does.
pub proof fn success_names_the_counts(bidirectional: bool, counts: RunCounts)
    ensures
        ({
            let mode = if bidirectional {
                "双向同步"@
            } else {
                "同步"@
            };
            let in_step = counts.copied_count == 0 && counts.updated_count == 0
                && counts.skipped_count > 0 && counts.backup_count == 0;
            &&& in_step ==> success_text(bidirectional, counts) == mode
                + "完成：两侧内容已是最新状态（未变更 "@ + decimal_text(
                counts.skipped_count as nat,
            ) + "）。"@
            &&& !in_step ==> success_text(bidirectional, counts) == mode + "完成：新增 "@
                + decimal_text(counts.copied_count as nat) + "，更新 "@ + decimal_text(
                counts.updated_count as nat,
            ) + "，删除 "@ + decimal_text(counts.deleted_count as nat) + "，未变更 "@
                + decimal_text(counts.skipped_count as nat) + "，备份 "@ + decimal_text(
                counts.backup_count as nat,
            ) + "。"@
        }),
{
}

/// A cleanup names the number of the backups that it removed, unless there were none.
pub proof fn cleanup_names_its_count(deleted_count: usize)
    ensures
        deleted_count == 0 ==> cleanup_text(deleted_count) == "没有需要清理的备份。"@,
        deleted_count > 0 ==> cleanup_text(deleted_count) == "备份清理完成：删除 "@ + decimal_text(
            deleted_count as nat,
        ) + " 个备份文件或目录。"@,
{
}

/// A cleanup that finds a backup has it removed: as a file where it is a file,
/// and with everything in it where it is a folder. Where it does not find it,
/// nothing is removed, and what fails ends the cleanup.
pub proof fn cleanup_removes_by_kind(c: CleanupView, there: bool, message: Seq<char>)
    requires
        0 <= c.position < c.candidates.len(),
    ensures
        ({
            let backup = c.candidates[c.position];
            let probing = CleanupView { phase: CleanupPhase::Probe, ..c };
            let removing = CleanupView { phase: CleanupPhase::Remove, ..c };
            let asks = cleanup_next(probing, CleanupEventView::Exists(there)).1;
            &&& asks == CleanupActionView::RemoveFile(backup.path) <==> there && backup.kind
                == CleanupCandidateKind::File
            &&& asks == CleanupActionView::RemoveFolder(backup.path) <==> there && backup.kind
                == CleanupCandidateKind::Folder
            &&& !there ==> !(asks is RemoveFile) && !(asks is RemoveFolder)
            &&& cleanup_next(removing, CleanupEventView::Failed(message)).1
                == CleanupActionView::Finish(Err(message))
        }),
{
}

proof fn lemma_feed(s: Seq<char>)
    ensures
        0 <= first_feed(s) <= s.len(),
        forall|k: int| 0 <= k < first_feed(s) ==> s[k] != '\n',
        first_feed(s) < s.len() ==> s[first_feed(s)] == '\n',
    decreases s.len(),
{
    if s.len() > 0 && s[0] != '\n' {
        let rest = s.skip(1);
        lemma_feed(rest);
        assert forall|k: int| 0 <= k < first_feed(s) implies s[k] != '\n' by {
            if k > 0 {
                assert(rest[k - 1] == s[k]);
            }
        }
    }
}

/// The lines of a log are what stands before each line feed, and what stands
/// behind the last: a line that says anything is kept, a carriage return before
/// its line feed is not, and a line of nothing but white space is passed over.
pub proof fn log_is_read_line_by_line(line: Seq<char>, rest: Seq<char>)
    requires
        forall|k: int| 0 <= k < line.len() ==> line[k] != '\n',
    ensures
        ({
            let blank = forall|k: int| 0 <= k < line.len() ==> is_white_space(#[trigger] line[k]);
            &&& blank ==> filled_lines(line) == Seq::<Seq<char>>::empty()
            &&& !blank ==> filled_lines(line) == seq![line]
            &&& blank ==> filled_lines(line + seq!['\n'] + rest) == filled_lines(rest)
            &&& !blank && line.last() != '\r' ==> filled_lines(line + seq!['\n'] + rest) == seq![
                line,
            ] + filled_lines(rest)
            &&& !blank && line.last() == '\r' ==> filled_lines(line + seq!['\n'] + rest) == seq![
                line.drop_last(),
            ] + filled_lines(rest)
        }),
{
    let s = line + seq!['\n'] + rest;
    let n = line.len() as int;
    lemma_feed(line);
    lemma_feed(s);
    blank_is_all_white_space(line);
    assert(s[n] == '\n');
    if first_feed(s) < n {
        assert(s[first_feed(s)] == line[first_feed(s)]);
    }
    assert(first_feed(s) == n);
    if first_feed(line) < n {
        assert(line[first_feed(line)] == '\n');
    }
    assert(s.take(n) =~= line);
    assert(s.skip(n + 1) =~= rest);
    if n > 0 && line.last() == '\r' {
        let short = line.drop_last();
        blank_is_all_white_space(short);
        assert(is_white_space('\r'));
        if forall|k: int| 0 <= k < short.len() ==> is_white_space(#[trigger] short[k]) {
            assert forall|k: int| 0 <= k < line.len() implies is_white_space(
                #[trigger] line[k],
            ) by {
                if k < short.len() {
                    assert(short[k] == line[k]);
                }
            }
        } else {
            let k = choose|k: int| 0 <= k < short.len() && !is_white_space(#[trigger] short[k]);
            assert(line[k] == short[k]);
        }
    }
}

/// The log is shown the newest entry first, without the lines that could not be
/// read: one more entry at its end is shown before all others.
pub proof fn newest_entry_is_shown_first(entries: Seq<Option<LogView>>, entry: LogView)
    ensures
        newest_first(Seq::empty()) == Seq::<LogView>::empty(),
        newest_first(entries.push(Some(entry))) == seq![entry] + newest_first(entries),
        newest_first(entries.push(None)) == newest_first(entries),
{
    assert(entries.push(Some(entry)).drop_last() =~= entries);
    assert(entries.push(None).drop_last() =~= entries);
}

/// An entry of the log holds its level, its message and its time.
pub proof fn log_entry_holds_what_is_logged(level: Seq<char>, message: Seq<char>, at: Timestamp)
    ensures
        log_entry(level, message, at).level == level,
        log_entry(level, message, at).message == message,
        log_entry(level, message, at).timestamp == rfc3339_text(at.seconds, at.nanos),
{
}

/// What a file manager shows for a path: a file marked in its folder, a folder
/// itself, and for what is missing the folder that it would be in, if there is
/// one; if not, it is said what is missing.
pub proof fn path_is_shown_where_it_is(path: PathView, state: PathState, parent_exists: bool)
    ensures
        state == PathState::File ==> revealed(path, state, parent_exists) == Ok::<
            RevealView,
            Seq<char>,
        >(RevealView::Select("/select,"@ + path.text)),
        state == PathState::Folder || state == PathState::Other ==> revealed(
            path,
            state,
            parent_exists,
        ) == Ok::<RevealView, Seq<char>>(RevealView::Open(path.text)),
        state == PathState::Missing && path.parent is None ==> revealed(path, state, parent_exists)
            == Err::<RevealView, Seq<char>>("找不到可打开的父目录。"@),
        state == PathState::Missing && path.parent is Some && parent_exists ==> revealed(
            path,
            state,
            parent_exists,
        ) == Ok::<RevealView, Seq<char>>(RevealView::Open(path.parent->0)),
        state == PathState::Missing && path.parent is Some && !parent_exists ==> revealed(
            path,
            state,
            parent_exists,
        ) == Err::<RevealView, Seq<char>>("路径不存在："@ + path.parent->0),
{
}

/// What the entries of the menu of the tray stand for.
pub proof fn menu_entries_stand_for_commands(id: Seq<char>)
    ensures
        command_of("show"@) == TrayCommand::ShowWindow,
        command_of("settings"@) == TrayCommand::ShowWindow,
        command_of("sync_now"@) == TrayCommand::SyncAll,
        command_of("toggle_pause"@) == TrayCommand::TogglePause,
        command_of("quit"@) == TrayCommand::Quit,
        command_of(id) == TrayCommand::Nothing <==> id != "show"@ && id != "settings"@ && id
            != "sync_now"@ && id != "toggle_pause"@ && id != "quit"@,
{
    reveal_strlit("show");
    reveal_strlit("settings");
    reveal_strlit("sync_now");
    reveal_strlit("toggle_pause");
    reveal_strlit("quit");
    assert("show"@.len() == 4 && "settings"@.len() == 8 && "sync_now"@.len() == 8);
    assert("toggle_pause"@.len() == 12 && "quit"@.len() == 4);
    assert("quit"@[0] != "show"@[0]);
    assert("sync_now"@[1] != "settings"@[1]);
}

/// The files around the store are named by the millisecond: the copy of a
/// broken document, and the file that is written first.
pub proof fn store_files_are_named_by_the_millisecond(at: Timestamp, n: nat)
    ensures
        at.seconds >= 0 ==> corrupt_name(at) == "store.corrupt."@ + decimal_text(
            (at.seconds * 1000 + at.nanos / 1_000_000) as nat,
        ) + ".json"@,
        at.seconds >= 0 ==> temp_store_name(at) == "store."@ + decimal_text(
            (at.seconds * 1000 + at.nanos / 1_000_000) as nat,
        ) + ".tmp"@,
        signed_text(n as int) == decimal_text(n),
        n > 0 ==> signed_text(-(n as int)) == "-"@ + decimal_text(n),
{
}

/// What the log says of a repair names the copy that was kept, or why there is
/// none, and what was repaired.
pub proof fn repair_is_logged_with_its_copy(text: Seq<char>, warning: Seq<char>)
    ensures
        repair_text(Ok(text), warning) == "检测到配置异常，已自动修复。"@ + ("原配置已备份到 "@ + text)
            + "。"@ + warning,
        repair_text(Err(text), warning) == "检测到配置异常，已自动修复。"@ + ("原配置备份失败："@
            + text) + "。"@ + warning,
{
}

} // verus!
