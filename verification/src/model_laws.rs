//! What the values of the models stand for.
use crate::backups::{BackupEntry, BackupPlan, Location};
use crate::models::{
    AppLogEntry, AppSettings, CleanupCandidate, CleanupPreview, DashboardSummary, PersistedStore,
    RuleDraft, RuleLastResult, SyncHistoryItem, SyncRule,
};
use crate::outcome::RuleRunOutcome;
use crate::paths::ParsedPath;
use crate::sync_engine::{
    ActionView, EventView, FileMeta, RuleSide, RunCounts, SeenView, SidesSeen, SyncAction, SyncEvent,
};
use crate::watching::{WatchJob, WatchTarget};
use vstd::prelude::*;
use vstd::string::*;

verus! {

/// A rule stands for what its fields hold, one by one.
pub proof fn rule_is_its_fields(rule: SyncRule)
    ensures
        rule@.id == rule.id@,
        rule@.name == rule.name@,
        rule@.enabled == rule.enabled,
        rule@.kind == rule.kind,
        rule@.source_path == rule.source_path@,
        rule@.target_path == rule.target_path@,
        rule@.bidirectional == rule.bidirectional,
        rule@.auto_sync == rule.auto_sync,
        rule@.watch_enabled == rule.watch_enabled,
        rule@.poll_fallback_enabled == rule.poll_fallback_enabled,
        rule@.poll_interval_sec == rule.poll_interval_sec,
        rule@.conflict_policy == rule.conflict_policy,
        rule@.delete_policy == rule.delete_policy,
        rule@.include_globs == rule.include_globs@.map_values(|s: String| s@),
        rule@.exclude_globs == rule.exclude_globs@.map_values(|s: String| s@),
        rule@.sync_state == rule.sync_state.mirrored_entries@.map_values(|s: String| s@),
        rule.last_sync_at is None ==> rule@.last_sync_at is None,
        rule.last_sync_at matches Some(text) ==> rule@.last_sync_at == Some(text@),
        rule@.last_result == rule.last_result@,
        rule@.health == rule.health,
        rule.config_error is None ==> rule@.config_error is None,
        rule.config_error matches Some(text) ==> rule@.config_error == Some(text@),
{
}

/// A draft stands for what its fields hold, one by one.
pub proof fn draft_is_its_fields(draft: RuleDraft)
    ensures
        draft@.name == draft.name@,
        draft@.enabled == draft.enabled,
        draft@.kind == draft.kind,
        draft@.source_path == draft.source_path@,
        draft@.target_path == draft.target_path@,
        draft@.bidirectional == draft.bidirectional,
        draft@.auto_sync == draft.auto_sync,
        draft@.watch_enabled == draft.watch_enabled,
        draft@.poll_fallback_enabled == draft.poll_fallback_enabled,
        draft@.poll_interval_sec == draft.poll_interval_sec,
        draft@.include_globs == draft.include_globs@.map_values(|s: String| s@),
        draft@.exclude_globs == draft.exclude_globs@.map_values(|s: String| s@),
{
}

/// A result stands for what its fields hold, one by one.
pub proof fn last_result_is_its_fields(result: RuleLastResult)
    ensures
        result@.success == result.success,
        result@.message == result.message@,
        result@.trigger == result.trigger,
        result.started_at is None ==> result@.started_at is None,
        result.started_at matches Some(text) ==> result@.started_at == Some(text@),
        result.finished_at is None ==> result@.finished_at is None,
        result.finished_at matches Some(text) ==> result@.finished_at == Some(text@),
        result@.copied_count == result.copied_count,
        result@.updated_count == result.updated_count,
        result@.skipped_count == result.skipped_count,
        result@.backup_count == result.backup_count,
        result@.deleted_count == result.deleted_count,
        result@.error_count == result.error_count,
{
}

/// The settings stand for what their fields hold, one by one.
pub proof fn settings_is_its_fields(settings: AppSettings)
    ensures
        settings@.launch_on_startup == settings.launch_on_startup,
        settings@.start_minimized_to_tray == settings.start_minimized_to_tray,
        settings@.close_to_tray == settings.close_to_tray,
        settings@.theme == settings.theme@,
        settings@.show_notifications == settings.show_notifications,
        settings@.default_poll_interval_sec == settings.default_poll_interval_sec,
        settings@.backup_retention_days == settings.backup_retention_days,
{
}

/// A run of the history stands for what its fields hold, one by one.
pub proof fn history_is_its_fields(item: SyncHistoryItem)
    ensures
        item@.rule_id == item.rule_id@,
        item@.rule_name == item.rule_name@,
        item@.started_at == item.started_at@,
        item@.finished_at == item.finished_at@,
        item@.trigger == item.trigger,
        item@.copied_count == item.copied_count,
        item@.updated_count == item.updated_count,
        item@.skipped_count == item.skipped_count,
        item@.backup_count == item.backup_count,
        item@.deleted_count == item.deleted_count,
        item@.error_count == item.error_count,
        item@.success == item.success,
        item@.message == item.message@,
{
}

/// The figures at the top of the window stand for what their fields hold.
pub proof fn summary_is_its_fields(summary: DashboardSummary)
    ensures
        summary@.total_rules == summary.total_rules,
        summary@.enabled_rules == summary.enabled_rules,
        summary@.invalid_rules == summary.invalid_rules,
        summary.last_sync_at is None ==> summary@.last_sync_at is None,
        summary.last_sync_at matches Some(text) ==> summary@.last_sync_at == Some(text@),
        summary.last_error is None ==> summary@.last_error is None,
        summary.last_error matches Some(text) ==> summary@.last_error == Some(text@),
{
}

/// A backup that would be removed stands for what its fields hold.
pub proof fn backup_is_its_fields(backup: CleanupCandidate)
    ensures
        backup@.path == backup.path@,
        backup@.relative_path == backup.relative_path@,
        backup@.kind == backup.kind,
{
}

/// A preview stands for what its fields hold.
pub proof fn preview_is_its_fields(preview: CleanupPreview)
    ensures
        preview@.rule_id == preview.rule_id@,
        preview@.rule_name == preview.rule_name@,
        preview@.candidates == preview.candidates@.map_values(|x: CleanupCandidate| x@),
        preview@.file_count == preview.file_count,
        preview@.folder_count == preview.folder_count,
{
}

/// An entry of the log stands for what its fields hold.
pub proof fn log_entry_is_its_fields(entry: AppLogEntry)
    ensures
        entry@.timestamp == entry.timestamp@,
        entry@.level == entry.level@,
        entry@.message == entry.message@,
{
}

/// A store stands for what its fields hold.
pub proof fn store_is_its_fields(store: PersistedStore)
    ensures
        store@.rules == store.rules@.map_values(|x: SyncRule| x@),
        store@.settings == store.settings@,
        store@.history == store.history@.map_values(|x: SyncHistoryItem| x@),
{
}

/// A report to a run stands for what it tells of each side.
pub proof fn report_is_what_it_tells(
    source: Option<FileMeta>,
    target: Option<FileMeta>,
    first: String,
    second: String,
    keys: Vec<String>,
    there: bool,
)
    ensures
        (SyncEvent::Found { source, target })@ == (EventView::Found { source, target }),
        (SyncEvent::Digests { source: first, target: second })@ == (EventView::Digests {
            source: first@,
            target: second@,
        }),
        SyncEvent::Failed(first)@ == EventView::Failed(first@),
        SyncEvent::Listed(keys)@ == EventView::Listed(keys@.map_values(|s: String| s@)),
        SyncEvent::Exists(there)@ == EventView::Exists(there),
        SyncEvent::Begin@ == EventView::Begin,
        SyncEvent::Done@ == EventView::Done,
{
}

/// A request of a run stands for what it asks for, and on which side.
pub proof fn request_is_what_it_asks(entry: String, side: RuleSide, counts: RunCounts)
    ensures
        SyncAction::List(side)@ == ActionView::List(side),
        SyncAction::CreateFolder(side)@ == ActionView::CreateFolder(side),
        SyncAction::EnsureParent(entry)@ == ActionView::EnsureParent(entry@),
        SyncAction::Inspect(entry)@ == ActionView::Inspect(entry@),
        SyncAction::Digest(entry)@ == ActionView::Digest(entry@),
        (SyncAction::Probe { entry, side })@ == (ActionView::Probe { entry: entry@, side }),
        (SyncAction::Backup { entry, side })@ == (ActionView::Backup { entry: entry@, side }),
        (SyncAction::Copy { entry, from: side })@ == (ActionView::Copy {
            entry: entry@,
            from: side,
        }),
        (SyncAction::Remove { entry, side })@ == (ActionView::Remove { entry: entry@, side }),
        SyncAction::RemoveEmptyFolders(side)@ == ActionView::RemoveEmptyFolders(side),
        SyncAction::PurgeBackups@ == ActionView::PurgeBackups,
        SyncAction::Finish(Ok(counts))@ == ActionView::Finish(Ok(counts)),
        SyncAction::Finish(Err(entry))@ == ActionView::Finish(Err(entry@)),
{
}

/// What was seen of the two sides stands for what was seen of each.
pub proof fn sight_is_what_was_seen(
    source: Option<FileMeta>,
    target: Option<FileMeta>,
    same_digest: bool,
    first: Vec<String>,
    second: Vec<String>,
)
    ensures
        (SidesSeen::Files { source, target, same_digest })@ == (SeenView::Files {
            source,
            target,
            same_digest,
        }),
        (SidesSeen::Folders { source: first, target: second })@ == (SeenView::Folders {
            source: first@.map_values(|s: String| s@),
            target: second@.map_values(|s: String| s@),
        }),
{
}

/// Places, plans, entries and jobs stand for what their fields hold.
pub proof fn places_are_their_fields(
    location: Location,
    plan: BackupPlan,
    entry: BackupEntry,
    watched: WatchTarget,
    job: WatchJob,
    outcome: RuleRunOutcome,
    path: ParsedPath,
)
    ensures
        location@.parent == location.parent@ && location@.names == location.names@.map_values(
            |s: String| s@,
        ),
        plan@.folder == plan.folder@ && plan@.file == plan.file@,
        entry@.path == entry.path@ && entry@.name == entry.name@ && entry@.is_file
            == entry.is_file && entry@.is_dir == entry.is_dir,
        watched@.path == watched.path@ && watched@.recursive == watched.recursive,
        job@.rule_id == job.rule_id@ && job@.name == job.name@ && job@.kind == job.kind
            && job@.bidirectional == job.bidirectional && job@.source == job.source@ && job@.target
            == job.target@,
        outcome@.last_result == outcome.last_result@ && outcome@.history_item
            == outcome.history_item@,
        path@.text == path.text@ && path@.absolute == path.absolute && path@.separator
            == path.separator@,
        path.parent is None ==> path@.parent is None,
        path.parent matches Some(parent) ==> path@.parent == Some(parent@),
{
}

} // verus!
