//! What reports, requests and results stand for.
use crate::atomic_copy::{
    failure_view, CopyAction, CopyActionView, CopyEvent, CopyEventView, IoFailure,
};
use crate::backups::{
    backup_entry_views, candidates_result, location_result, location_views, opt_location,
    opt_plan_result, opt_str, plan_result, preview_result, wanted, BackupEntry, BackupListing,
    BackupPlan, BackupPlanView, ListingView, Location,
};
use crate::cleanup::{
    outcome_result, CleanupAction, CleanupActionView, CleanupEvent, CleanupEventView,
};
use crate::clock::Timestamp;
use crate::hashing::piece_views;
use crate::json::Json;
use crate::logs::{log_views, opt_entry_views};
use crate::matcher::{entry_views, WalkEntry};
use crate::models::{
    history_views, rule_views, AppLogEntry, CleanupCandidate, CleanupPreview, HistoryView,
    LastResultView, RuleSyncState, RuleView, SettingsView, SyncHistoryItem, SyncRule,
};
use crate::ordering::numbers;
use crate::outcome::RuleRunOutcome;
use crate::paths::{component_views, ComponentView, PathComponent, PrefixKind, PrefixView};
use crate::purging::{
    removes, PurgeAction, PurgeActionView, PurgeEvent, PurgeEventView, Retention, SweepAction,
    SweepActionView, SweepEvent, SweepEventView,
};
use crate::rules::{fault_result, rule_result, text_result, unit_result};
use crate::saving::{SaveAction, SaveActionView, SaveEvent, SaveEventView};
use crate::shell::{reveal_result, Reveal, RevealView};
use crate::state::{
    error_result, opt_entries, plan_view, poll_views, text_table, with_rule, PollTarget, StateView,
};
use crate::store::{document_view, RuleParts, StoreLoadOutcome, StoreParts};
use crate::store_files::copy_result;
use crate::sync_engine::{meta_result, FileMeta, RunCounts};
use crate::text::{opt_text, texts};
use crate::watching::{
    job_views, target_views, targets_result, RefreshAction, RefreshActionView, RefreshEvent,
    RefreshEventView, WatchJob, WatchTarget,
};
use vstd::prelude::*;
use vstd::string::*;

verus! {

/// A request of a copy stands for what it asks for.
pub proof fn copy_request_is_what_it_asks(message: String)
    ensures
        CopyAction::CreateParent@ == CopyActionView::CreateParent,
        CopyAction::OpenSource@ == CopyActionView::OpenSource,
        CopyAction::CreateTemp@ == CopyActionView::CreateTemp,
        CopyAction::WriteTemp@ == CopyActionView::WriteTemp,
        CopyAction::FlushTemp@ == CopyActionView::FlushTemp,
        CopyAction::ProbeTarget@ == CopyActionView::ProbeTarget,
        CopyAction::ClearReadonly@ == CopyActionView::ClearReadonly,
        CopyAction::RenameTemp@ == CopyActionView::RenameTemp,
        CopyAction::RemoveTarget@ == CopyActionView::RemoveTarget,
        CopyAction::CopyTemp@ == CopyActionView::CopyTemp,
        CopyAction::RemoveTemp@ == CopyActionView::RemoveTemp,
        CopyAction::ReadModified@ == CopyActionView::ReadModified,
        CopyAction::WriteModified@ == CopyActionView::WriteModified,
        CopyAction::Finish(Ok(()))@ == CopyActionView::Finish(Ok(())),
        CopyAction::Finish(Err(message))@ == CopyActionView::Finish(Err(message@)),
{
}

/// A report to a copy stands for what it tells.
pub proof fn copy_report_is_what_it_tells(failure: IoFailure, there: bool)
    ensures
        CopyEvent::Begin@ == CopyEventView::Begin,
        CopyEvent::Done@ == CopyEventView::Done,
        CopyEvent::Exists(there)@ == CopyEventView::Exists(there),
        CopyEvent::Failed(failure)@ == CopyEventView::Failed(failure@),
        failure@.text == failure.text@,
        failure@.os_code == failure.os_code,
        failure_view(Some(failure)) == Some(failure@),
        failure_view(None) is None,
{
}

/// A request of a cleanup stands for what it asks for, and where.
pub proof fn cleanup_request_is_what_it_asks(path: String, counts: RunCounts)
    ensures
        CleanupAction::Probe(path)@ == CleanupActionView::Probe(path@),
        CleanupAction::RemoveFile(path)@ == CleanupActionView::RemoveFile(path@),
        CleanupAction::RemoveFolder(path)@ == CleanupActionView::RemoveFolder(path@),
        CleanupAction::Finish(Ok(counts))@ == CleanupActionView::Finish(Ok(counts)),
        CleanupAction::Finish(Err(path))@ == CleanupActionView::Finish(Err(path@)),
{
}

/// A report to a cleanup stands for what it tells.
pub proof fn cleanup_report_is_what_it_tells(message: String, there: bool)
    ensures
        CleanupEvent::Begin@ == CleanupEventView::Begin,
        CleanupEvent::Done@ == CleanupEventView::Done,
        CleanupEvent::Exists(there)@ == CleanupEventView::Exists(there),
        CleanupEvent::Failed(message)@ == CleanupEventView::Failed(message@),
{
}

/// A request of a purge or of a sweep stands for what it asks for, and of which
/// entry.
pub proof fn purge_request_is_what_it_asks(i: usize, message: String)
    ensures
        PurgeAction::Inspect(i)@ == PurgeActionView::Inspect(i as int),
        PurgeAction::Remove(i)@ == PurgeActionView::Remove(i as int),
        PurgeAction::Sweep@ == PurgeActionView::Sweep,
        PurgeAction::Finish(Ok(()))@ == PurgeActionView::Finish(Ok(())),
        PurgeAction::Finish(Err(message))@ == PurgeActionView::Finish(Err(message@)),
        SweepAction::Look(i)@ == SweepActionView::Look(i as int),
        SweepAction::Remove(i)@ == SweepActionView::Remove(i as int),
        SweepAction::Finish(Ok(()))@ == SweepActionView::Finish(Ok(())),
        SweepAction::Finish(Err(message))@ == SweepActionView::Finish(Err(message@)),
{
}

/// A report to a purge or to a sweep stands for what it tells.
pub proof fn purge_report_is_what_it_tells(at: Timestamp, empty: bool, message: String)
    ensures
        PurgeEvent::Begin@ == PurgeEventView::Begin,
        PurgeEvent::Modified(at)@ == PurgeEventView::Modified(at),
        PurgeEvent::Done@ == PurgeEventView::Done,
        PurgeEvent::Failed(message)@ == PurgeEventView::Failed(message@),
        SweepEvent::Begin@ == SweepEventView::Begin,
        SweepEvent::Empty(empty)@ == SweepEventView::Empty(empty),
        SweepEvent::Done@ == SweepEventView::Done,
        SweepEvent::Failed(message)@ == SweepEventView::Failed(message@),
{
}

/// A request of a save stands for what it asks for, and a report to it for what
/// it tells.
pub proof fn save_request_is_what_it_asks(message: String, there: bool)
    ensures
        SaveAction::WriteTemp@ == SaveActionView::WriteTemp,
        SaveAction::RenameTemp@ == SaveActionView::RenameTemp,
        SaveAction::Probe@ == SaveActionView::Probe,
        SaveAction::RemoveStore@ == SaveActionView::RemoveStore,
        SaveAction::Finish(Ok(()))@ == SaveActionView::Finish(Ok(())),
        SaveAction::Finish(Err(message))@ == SaveActionView::Finish(Err(message@)),
        SaveEvent::Begin@ == SaveEventView::Begin,
        SaveEvent::Done@ == SaveEventView::Done,
        SaveEvent::Exists(there)@ == SaveEventView::Exists(there),
        SaveEvent::Failed(message)@ == SaveEventView::Failed(message@),
{
}

/// A request of a refresh stands for what it asks for, and a report to it for
/// what it tells.
pub proof fn refresh_request_is_what_it_asks(
    i: usize,
    path: String,
    recursive: bool,
    source: bool,
    target: bool,
)
    ensures
        RefreshAction::Probe(i)@ == RefreshActionView::Probe(i as int),
        RefreshAction::CreateWatcher(i)@ == RefreshActionView::CreateWatcher(i as int),
        (RefreshAction::Watch { path, recursive })@ == (RefreshActionView::Watch {
            path: path@,
            recursive,
        }),
        RefreshAction::Keep(path)@ == RefreshActionView::Keep(path@),
        RefreshAction::Finish@ == RefreshActionView::Finish,
        RefreshEvent::Begin@ == RefreshEventView::Begin,
        (RefreshEvent::Exists { source, target })@ == (RefreshEventView::Exists { source, target }),
        RefreshEvent::Done@ == RefreshEventView::Done,
        RefreshEvent::Failed(path)@ == RefreshEventView::Failed(path@),
{
}

/// A component of a path stands for its sort and its texts.
pub proof fn component_is_its_texts(first: String, second: String, letter: u8, kind: PrefixKind)
    ensures
        (PathComponent::Prefix { text: first, kind })@ == (ComponentView::Prefix {
            text: first@,
            kind: kind@,
        }),
        PathComponent::RootDir@ == ComponentView::RootDir,
        PathComponent::CurDir@ == ComponentView::CurDir,
        PathComponent::ParentDir@ == ComponentView::ParentDir,
        PathComponent::Normal(first)@ == ComponentView::Normal(first@),
        PrefixKind::Verbatim(first)@ == PrefixView::Verbatim(first@),
        PrefixKind::VerbatimUNC(first, second)@ == PrefixView::VerbatimUNC(first@, second@),
        PrefixKind::VerbatimDisk(letter)@ == PrefixView::VerbatimDisk(letter),
        PrefixKind::DeviceNS(first)@ == PrefixView::DeviceNS(first@),
        PrefixKind::UNC(first, second)@ == PrefixView::UNC(first@, second@),
        PrefixKind::Disk(letter)@ == PrefixView::Disk(letter),
{
}

/// What is shown, what was found of a backup folder and what was met on the way
/// through a folder stand for what they hold.
pub proof fn finding_is_what_it_holds(
    text: String,
    entries: Vec<BackupEntry>,
    met: WalkEntry,
)
    ensures
        Reveal::Select(text)@ == RevealView::Select(text@),
        Reveal::Open(text)@ == RevealView::Open(text@),
        BackupListing::Missing@ == ListingView::Missing,
        BackupListing::Unreadable(text)@ == ListingView::Unreadable(text@),
        BackupListing::Entries(entries)@ == ListingView::Entries(
            entries@.map_values(|e: BackupEntry| e@),
        ),
        met@.components == met.components@.map_values(|c: PathComponent| c@),
        met@.is_dir == met.is_dir,
{
}

/// What is decoded of a document, and what came of loading one, stand for what
/// their fields hold.
pub proof fn parts_are_their_fields(
    rule: RuleParts,
    parts: StoreParts,
    loaded: StoreLoadOutcome,
    i: int,
)
    ensures
        rule@.fresh_id == rule.fresh_id@,
        rule.last_result is None ==> rule@.last_result is None,
        rule.last_result matches Some(Ok(value)) ==> rule@.last_result == Some(
            Ok::<_, Seq<char>>(value@),
        ),
        rule.last_result matches Some(Err(message)) ==> rule@.last_result == Some(
            Err::<LastResultView, _>(message@),
        ),
        rule.sync_state is None ==> rule@.sync_state is None,
        rule.sync_state matches Some(Ok(value)) ==> rule@.sync_state == Some(
            Ok::<_, Seq<char>>(value@),
        ),
        rule.sync_state matches Some(Err(message)) ==> rule@.sync_state == Some(
            Err::<Seq<Seq<char>>, _>(message@),
        ),
        parts@.fresh_id == parts.fresh_id@,
        parts.settings is None ==> parts@.settings is None,
        parts.settings matches Some(Ok(value)) ==> parts@.settings == Some(
            Ok::<_, Seq<char>>(value@),
        ),
        parts.settings matches Some(Err(message)) ==> parts@.settings == Some(
            Err::<SettingsView, _>(message@),
        ),
        parts@.rules == parts.rules@.map_values(|p: RuleParts| p@),
        parts@.history.len() == parts.history@.len(),
        0 <= i < parts.history@.len() ==> (match parts.history@[i] {
            Ok(item) => parts@.history[i] == Ok::<_, Seq<char>>(item@),
            Err(message) => parts@.history[i] == Err::<HistoryView, _>(message@),
        }),
        loaded@.store == loaded.store@,
        loaded@.repaired == loaded.repaired,
        loaded@.warnings == loaded.warnings@.map_values(|s: String| s@),
{
}

/// A list stands for its items, one by one and in order.
pub proof fn lists_are_their_items(
    strings: Seq<String>,
    rules: Seq<SyncRule>,
    history: Seq<SyncHistoryItem>,
    targets: Seq<WatchTarget>,
    locations: Seq<Location>,
    log: Seq<AppLogEntry>,
    lines: Seq<Option<AppLogEntry>>,
    met: Seq<WalkEntry>,
    jobs: Seq<WatchJob>,
    entries: Seq<BackupEntry>,
    components: Seq<PathComponent>,
    pieces: Seq<Vec<u8>>,
    places: Seq<usize>,
    polled: Seq<PollTarget>,
    i: int,
)
    ensures
        texts(strings) == strings.map_values(|s: String| s@),
        rule_views(rules) == rules.map_values(|r: SyncRule| r@),
        history_views(history) == history.map_values(|h: SyncHistoryItem| h@),
        target_views(targets) == targets.map_values(|t: WatchTarget| t@),
        location_views(locations) == locations.map_values(|l: Location| l@),
        log_views(log) == log.map_values(|e: AppLogEntry| e@),
        entry_views(met) == met.map_values(|e: WalkEntry| e@),
        job_views(jobs) == jobs.map_values(|j: WatchJob| j@),
        backup_entry_views(entries) == entries.map_values(|e: BackupEntry| e@),
        component_views(components) == components.map_values(|c: PathComponent| c@),
        piece_views(pieces) == pieces.map_values(|p: Vec<u8>| p@),
        opt_entry_views(lines).len() == lines.len(),
        0 <= i < lines.len() ==> (lines[i] is None <==> opt_entry_views(lines)[i] is None),
        0 <= i < lines.len() ==> (lines[i] matches Some(entry) ==> opt_entry_views(lines)[i] == Some(
            entry@,
        )),
        numbers(places).len() == places.len(),
        0 <= i < places.len() ==> numbers(places)[i] == places[i],
        poll_views(polled).len() == polled.len(),
        0 <= i < polled.len() ==> poll_views(polled)[i].0 == polled[i].rule_id@ && poll_views(
            polled,
        )[i].1 == polled[i].interval_sec,
{
}

/// A result that went well stands for its value.
pub proof fn success_is_its_value(
    text: String,
    rule: SyncRule,
    plan: BackupPlan,
    location: Location,
    candidates: Vec<CleanupCandidate>,
    preview: CleanupPreview,
    targets: Vec<WatchTarget>,
    meta: FileMeta,
    outcome: RuleRunOutcome,
    reveal: Reveal,
    json: Json,
)
    ensures
        text_result(Ok(text)) == Ok::<_, Seq<char>>(text@),
        copy_result(Ok(text)) == Ok::<_, Seq<char>>(text@),
        unit_result(Ok(())) is Ok,
        error_result(Ok(())) is Ok,
        rule_result(Ok(rule)) == Ok::<_, Seq<char>>(rule@),
        plan_view(Ok(Some(rule))) == Ok::<_, Seq<char>>(Some(rule@)),
        plan_view(Ok(None)) == Ok::<_, Seq<char>>(None::<RuleView>),
        plan_result(Ok(plan)) == Ok::<_, Seq<char>>(plan@),
        opt_plan_result(Ok(Some(plan))) == Ok::<_, Seq<char>>(Some(plan@)),
        opt_plan_result(Ok(None)) == Ok::<_, Seq<char>>(None::<BackupPlanView>),
        wanted(Ok(plan@)) == Ok::<_, Seq<char>>(Some(plan@)),
        location_result(Ok(location)) == Ok::<_, Seq<char>>(location@),
        candidates_result(Ok(candidates)) == Ok::<_, Seq<char>>(
            candidates@.map_values(|c: CleanupCandidate| c@),
        ),
        preview_result(Ok(preview)) == Ok::<_, Seq<char>>(preview@),
        targets_result(Ok(targets)) == Ok::<_, Seq<char>>(
            targets@.map_values(|t: WatchTarget| t@),
        ),
        meta_result(Ok(meta)) == Ok::<_, Seq<char>>(meta),
        outcome_result(Ok(outcome)) == Ok::<_, Seq<char>>(outcome@),
        reveal_result(Ok(reveal)) == Ok::<_, Seq<char>>(reveal@),
        document_view(Ok(json)) == Ok::<_, Seq<char>>(json@),
        fault_result(None) is Ok,
{
}

/// A result that went wrong stands for its message.
pub proof fn failure_is_its_message(message: String)
    ensures
        text_result(Err(message)) is Err && text_result(Err(message))->Err_0 == message@,
        copy_result(Err(message)) is Err && copy_result(Err(message))->Err_0 == message@,
        unit_result(Err(message)) is Err && unit_result(Err(message))->Err_0 == message@,
        error_result(Err(message)) is Err && error_result(Err(message))->Err_0 == message@,
        rule_result(Err(message)) is Err && rule_result(Err(message))->Err_0 == message@,
        plan_view(Err(message)) is Err && plan_view(Err(message))->Err_0 == message@,
        plan_result(Err(message)) is Err && plan_result(Err(message))->Err_0 == message@,
        opt_plan_result(Err(message)) is Err && opt_plan_result(Err(message))->Err_0 == message@,
        wanted(Err(message@)) is Err && wanted(Err(message@))->Err_0 == message@,
        location_result(Err(message)) is Err && location_result(Err(message))->Err_0 == message@,
        candidates_result(Err(message)) is Err && candidates_result(Err(message))->Err_0
            == message@,
        preview_result(Err(message)) is Err && preview_result(Err(message))->Err_0 == message@,
        targets_result(Err(message)) is Err && targets_result(Err(message))->Err_0 == message@,
        meta_result(Err(message)) is Err && meta_result(Err(message))->Err_0 == message@,
        outcome_result(Err(message)) is Err && outcome_result(Err(message))->Err_0 == message@,
        reveal_result(Err(message)) is Err && reveal_result(Err(message))->Err_0 == message@,
        document_view(Err(message)) is Err && document_view(Err(message))->Err_0 == message@,
        fault_result(Some(message@)) is Err && fault_result(Some(message@))->Err_0 == message@,
{
}

/// Something that may be missing stands for what is there, if anything is.
pub proof fn option_is_what_is_there(
    text: String,
    slice: &str,
    location: Location,
    captured: RuleSyncState,
)
    ensures
        opt_text(Some(text)) == Some(text@),
        opt_text(None) is None,
        opt_str(Some(slice)) == Some(slice@),
        opt_str(None) is None,
        opt_location(Some(location)) == Some(location@),
        opt_location(None) is None,
        opt_entries(Some(captured)) == Some(captured@),
        opt_entries(None) is None,
        captured@ == captured.mirrored_entries@.map_values(|s: String| s@),
{
}

/// A table of texts has the same keys, and under each the same text.
pub proof fn table_keeps_its_keys(table: Map<Seq<char>, String>, key: Seq<char>)
    ensures
        text_table(table).dom() == table.dom(),
        table.dom().contains(key) ==> text_table(table)[key] == table[key]@,
{
}

/// Putting another rule in the place of one changes nothing else.
pub proof fn only_the_rule_is_replaced(s: StateView, i: int, j: int, rule: RuleView)
    requires
        0 <= i < s.rules.len(),
        0 <= j < s.rules.len(),
    ensures
        with_rule(s, i, rule).rules.len() == s.rules.len(),
        with_rule(s, i, rule).rules[i] == rule,
        j != i ==> with_rule(s, i, rule).rules[j] == s.rules[j],
        with_rule(s, i, rule).settings == s.settings,
        with_rule(s, i, rule).history == s.history,
        with_rule(s, i, rule).failures == s.failures,
        with_rule(s, i, rule).runtime == s.runtime,
        with_rule(s, i, rule).paused == s.paused,
{
}

/// Where backups are kept for a while, those that were written before a point
/// in time are removed; where they are kept, none is.
pub proof fn backups_go_by_when_they_were_written(cutoff: Timestamp, modified: Timestamp)
    ensures
        removes(Retention::Before(cutoff), modified) <==> modified.seconds < cutoff.seconds || (
        modified.seconds == cutoff.seconds && modified.nanos < cutoff.nanos),
        !removes(Retention::KeepAll, modified),
{
}

} // verus!
