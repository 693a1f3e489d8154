//! One run of a rule, as a machine that asks for one step at a time.
//!
//! The machine decides; whoever drives it lists, reads, copies and removes
//! files and reports what came of it. What the machine asks next is a function
//! of its state and of the report, and that function is its contract.
use crate::clock::Timestamp;
use crate::listing::{
    add_keys, has_key, is_ascending, is_key_set, keys_within, keys_without, select_keys,
    selection_of_keys, with_keys,
};
use crate::models::{DeletePolicy, RuleKind, RuleSyncState, SyncRule};
use crate::text::{clone_strings, texts};
use vstd::prelude::*;
use vstd::string::*;

verus! {

broadcast use vstd::string::group_string_axioms;

/// How many files a run has dealt with, and how.
#[derive(Debug, Clone, Copy, PartialEq, Eq, Structural)]
pub struct RunCounts {
    pub copied_count: usize,
    pub updated_count: usize,
    pub skipped_count: usize,
    pub backup_count: usize,
    pub deleted_count: usize,
    pub error_count: usize,
}

/// The counts of a run that has done nothing yet.
pub open spec fn no_counts() -> RunCounts {
    RunCounts {
        copied_count: 0,
        updated_count: 0,
        skipped_count: 0,
        backup_count: 0,
        deleted_count: 0,
        error_count: 0,
    }
}

impl Default for RunCounts {
    fn default() -> (r: Self)
        ensures
            r == no_counts(),
    {
        RunCounts {
            copied_count: 0,
            updated_count: 0,
            skipped_count: 0,
            backup_count: 0,
            deleted_count: 0,
            error_count: 0,
        }
    }
}

/// One of the two places that a rule keeps in step.
#[derive(Debug, Clone, Copy, PartialEq, Eq, Structural)]
pub enum RuleSide {
    Source,
    Target,
}

impl RuleSide {
    pub open spec fn other(self) -> RuleSide {
        match self {
            RuleSide::Source => RuleSide::Target,
            RuleSide::Target => RuleSide::Source,
        }
    }

    /// The side that this one is kept in step with.
    pub fn opposite(self) -> (r: Self)
        ensures
            r == self.other(),
    {
        match self {
            RuleSide::Source => RuleSide::Target,
            RuleSide::Target => RuleSide::Source,
        }
    }
}

/// The entry that stands for the one file of a file rule.
pub const FILE_SYNC_ENTRY: &'static str = "__file__";

/// What is known of a file without reading it.
#[derive(Debug, Clone, Copy, PartialEq, Eq, Structural)]
pub struct FileMeta {
    pub len: u64,
    pub modified: Timestamp,
    pub is_file: bool,
}

/// What a run does to one entry.
#[derive(Debug, Clone, Copy, PartialEq, Eq, Structural)]
pub enum Change {
    /// The file of one side is copied to the other side, which has none.
    Create { from: RuleSide },
    /// The file of the other side is backed up and then replaced.
    Replace { from: RuleSide },
    /// The file of one side is backed up and then removed.
    Delete { side: RuleSide },
}

/// Where a run stands: what it has asked for last.
#[derive(Debug, Clone, Copy, PartialEq, Eq, Structural)]
pub enum SyncPhase {
    Ready,
    ListSource,
    ListTarget,
    CreateTarget,
    Parent,
    Inspect,
    Digest { target_newer: bool },
    Probe { winner: RuleSide },
    Saving { change: Change },
    Writing { change: Change },
    ListExtra,
    EmptySource,
    EmptyTarget,
    Purge,
    Finished,
}

/// What the driver of a run reports.
#[derive(Debug)]
pub enum SyncEvent {
    /// The run is to begin.
    Begin,
    /// What was asked for is done.
    Done,
    /// What was asked for failed; the text says why.
    Failed(String),
    /// The selected files of a side, in ascending order.
    Listed(Vec<String>),
    /// What stands at an entry on either side.
    Found { source: Option<FileMeta>, target: Option<FileMeta> },
    /// The digests of the two files of an entry.
    Digests { source: String, target: String },
    /// Whether there is a file.
    Exists(bool),
}

pub enum EventView {
    Begin,
    Done,
    Failed(Seq<char>),
    Listed(Seq<Seq<char>>),
    Found { source: Option<FileMeta>, target: Option<FileMeta> },
    Digests { source: Seq<char>, target: Seq<char> },
    Exists(bool),
}

impl View for SyncEvent {
    type V = EventView;

    open spec fn view(&self) -> EventView {
        match *self {
            SyncEvent::Begin => EventView::Begin,
            SyncEvent::Done => EventView::Done,
            SyncEvent::Failed(message) => EventView::Failed(message@),
            SyncEvent::Listed(keys) => EventView::Listed(texts(keys@)),
            SyncEvent::Found { source, target } => EventView::Found { source, target },
            SyncEvent::Digests { source, target } => EventView::Digests {
                source: source@,
                target: target@,
            },
            SyncEvent::Exists(there) => EventView::Exists(there),
        }
    }
}

/// What a run asks of its driver.
#[derive(Debug)]
pub enum SyncAction {
    /// List the selected files of a side.
    List(RuleSide),
    /// Make the folder of a side where it is missing.
    CreateFolder(RuleSide),
    /// Make the folder that the target file of the entry belongs in.
    EnsureParent(String),
    /// Look at both files of the entry.
    Inspect(String),
    /// Read both files of the entry.
    Digest(String),
    /// Say whether a side has a file at the entry.
    Probe { entry: String, side: RuleSide },
    /// Copy the file of a side to its backup folder.
    Backup { entry: String, side: RuleSide },
    /// Put the file of a side in the place of the other side's.
    Copy { entry: String, from: RuleSide },
    /// Remove the file of a side.
    Remove { entry: String, side: RuleSide },
    /// Remove the empty folders of a side.
    RemoveEmptyFolders(RuleSide),
    /// Remove the backups that have outlived the time of keeping.
    PurgeBackups,
    /// The run is over.
    Finish(Result<RunCounts, String>),
}

pub enum ActionView {
    List(RuleSide),
    CreateFolder(RuleSide),
    EnsureParent(Seq<char>),
    Inspect(Seq<char>),
    Digest(Seq<char>),
    Probe { entry: Seq<char>, side: RuleSide },
    Backup { entry: Seq<char>, side: RuleSide },
    Copy { entry: Seq<char>, from: RuleSide },
    Remove { entry: Seq<char>, side: RuleSide },
    RemoveEmptyFolders(RuleSide),
    PurgeBackups,
    Finish(Result<RunCounts, Seq<char>>),
}

impl View for SyncAction {
    type V = ActionView;

    open spec fn view(&self) -> ActionView {
        match *self {
            SyncAction::List(side) => ActionView::List(side),
            SyncAction::CreateFolder(side) => ActionView::CreateFolder(side),
            SyncAction::EnsureParent(entry) => ActionView::EnsureParent(entry@),
            SyncAction::Inspect(entry) => ActionView::Inspect(entry@),
            SyncAction::Digest(entry) => ActionView::Digest(entry@),
            SyncAction::Probe { entry, side } => ActionView::Probe { entry: entry@, side },
            SyncAction::Backup { entry, side } => ActionView::Backup { entry: entry@, side },
            SyncAction::Copy { entry, from } => ActionView::Copy { entry: entry@, from },
            SyncAction::Remove { entry, side } => ActionView::Remove { entry: entry@, side },
            SyncAction::RemoveEmptyFolders(side) => ActionView::RemoveEmptyFolders(side),
            SyncAction::PurgeBackups => ActionView::PurgeBackups,
            SyncAction::Finish(result) => ActionView::Finish(
                match result {
                    Ok(counts) => Ok(counts),
                    Err(message) => Err(message@),
                },
            ),
        }
    }
}

/// A run of a rule.
#[derive(Debug)]
pub struct SyncRun {
    kind: RuleKind,
    bidirectional: bool,
    delete_policy: DeletePolicy,
    mirrored: Vec<String>,
    phase: SyncPhase,
    source_keys: Vec<String>,
    target_keys: Vec<String>,
    entries: Vec<String>,
    position: usize,
    extras: bool,
    counts: RunCounts,
}

/// The state of a run. `entries` are dealt with in order, `position` of them
/// already; `extras` says that they are the files that only the target has.
#[verifier::ext_equal]
pub struct RunView {
    pub kind: RuleKind,
    pub bidirectional: bool,
    pub delete_policy: DeletePolicy,
    pub mirrored: Seq<Seq<char>>,
    pub phase: SyncPhase,
    pub source_keys: Seq<Seq<char>>,
    pub target_keys: Seq<Seq<char>>,
    pub entries: Seq<Seq<char>>,
    pub position: int,
    pub extras: bool,
    pub counts: RunCounts,
}

impl View for SyncRun {
    type V = RunView;

    closed spec fn view(&self) -> RunView {
        RunView {
            kind: self.kind,
            bidirectional: self.bidirectional,
            delete_policy: self.delete_policy,
            mirrored: texts(self.mirrored@),
            phase: self.phase,
            source_keys: texts(self.source_keys@),
            target_keys: texts(self.target_keys@),
            entries: texts(self.entries@),
            position: self.position as int,
            extras: self.extras,
            counts: self.counts,
        }
    }
}

/// The run of a rule before it begins.
pub open spec fn new_run(
    kind: RuleKind,
    bidirectional: bool,
    delete_policy: DeletePolicy,
    mirrored: Seq<Seq<char>>,
) -> RunView {
    RunView {
        kind,
        bidirectional,
        delete_policy,
        mirrored: with_keys(Seq::empty(), mirrored),
        phase: SyncPhase::Ready,
        source_keys: Seq::empty(),
        target_keys: Seq::empty(),
        entries: Seq::empty(),
        position: 0,
        extras: false,
        counts: no_counts(),
    }
}

/// Whether the files that only the target has are moved to the backup.
pub open spec fn moves_extras(r: RunView) -> bool {
    r.kind == RuleKind::Folder && !r.bidirectional && r.delete_policy == DeletePolicy::MoveToBackup
}

pub open spec fn at_phase(r: RunView, phase: SyncPhase) -> RunView {
    RunView { phase, ..r }
}

/// The counts after one more entry was found to be in step.
pub open spec fn count_skip(c: RunCounts) -> RunCounts {
    RunCounts { skipped_count: (c.skipped_count + 1) as usize, ..c }
}

/// The counts after one more change.
pub open spec fn count_change(c: RunCounts, change: Change) -> RunCounts {
    match change {
        Change::Create { from } => RunCounts { copied_count: (c.copied_count + 1) as usize, ..c },
        Change::Replace { from } => RunCounts {
            updated_count: (c.updated_count + 1) as usize,
            backup_count: (c.backup_count + 1) as usize,
            ..c
        },
        Change::Delete { side } => RunCounts {
            deleted_count: (c.deleted_count + 1) as usize,
            backup_count: (c.backup_count + 1) as usize,
            ..c
        },
    }
}

/// The run of which the entry at hand is done with.
pub open spec fn past_entry(r: RunView, counts: RunCounts) -> RunView {
    RunView { position: r.position + 1, counts, ..r }
}

/// The run once all entries are dealt with, and what it asks for.
pub open spec fn after_entries(r: RunView) -> (RunView, ActionView) {
    if r.kind == RuleKind::File {
        (at_phase(r, SyncPhase::Purge), ActionView::PurgeBackups)
    } else if r.bidirectional {
        (
            at_phase(r, SyncPhase::EmptySource),
            ActionView::RemoveEmptyFolders(RuleSide::Source),
        )
    } else if r.extras {
        (
            at_phase(r, SyncPhase::EmptyTarget),
            ActionView::RemoveEmptyFolders(RuleSide::Target),
        )
    } else if r.delete_policy == DeletePolicy::MoveToBackup {
        (at_phase(r, SyncPhase::ListExtra), ActionView::List(RuleSide::Target))
    } else {
        (at_phase(r, SyncPhase::Purge), ActionView::PurgeBackups)
    }
}

/// The run that sets out to change the entry at hand, and its first request.
pub open spec fn begin_change(r: RunView, change: Change) -> (RunView, ActionView) {
    let entry = r.entries[r.position];
    match change {
        Change::Create { from } => (
            at_phase(r, SyncPhase::Writing { change }),
            ActionView::Copy { entry, from },
        ),
        Change::Replace { from } => (
            at_phase(r, SyncPhase::Saving { change }),
            ActionView::Backup { entry, side: from.other() },
        ),
        Change::Delete { side } => (
            at_phase(r, SyncPhase::Saving { change }),
            ActionView::Backup { entry, side },
        ),
    }
}

/// The run whose backup was made, and the request that changes the file.
pub open spec fn after_backup(r: RunView, change: Change) -> (RunView, ActionView) {
    let entry = r.entries[r.position];
    let action = match change {
        Change::Create { from } => ActionView::Copy { entry, from },
        Change::Replace { from } => ActionView::Copy { entry, from },
        Change::Delete { side } => ActionView::Remove { entry, side },
    };
    (at_phase(r, SyncPhase::Writing { change }), action)
}

/// What a file that only `side` has calls for: it was removed from the other
/// side if both had it after the last run, and is new otherwise.
pub open spec fn lone_change(was_mirrored: bool, side: RuleSide) -> Change {
    if was_mirrored {
        Change::Delete { side }
    } else {
        Change::Create { from: side }
    }
}

/// The run at its next entry, and what it asks for.
pub open spec fn enter(r: RunView) -> (RunView, ActionView)
    decreases r.entries.len() - r.position,
{
    if r.position >= r.entries.len() {
        after_entries(r)
    } else {
        let entry = r.entries[r.position];
        if r.extras {
            begin_change(r, Change::Delete { side: RuleSide::Target })
        } else if !r.bidirectional {
            (at_phase(r, SyncPhase::Parent), ActionView::EnsureParent(entry))
        } else if r.kind == RuleKind::File {
            (at_phase(r, SyncPhase::Inspect), ActionView::Inspect(entry))
        } else {
            let in_source = r.source_keys.contains(entry);
            let in_target = r.target_keys.contains(entry);
            let was_mirrored = r.mirrored.contains(entry);
            if in_source && in_target {
                (at_phase(r, SyncPhase::Inspect), ActionView::Inspect(entry))
            } else if in_source {
                begin_change(r, lone_change(was_mirrored, RuleSide::Source))
            } else if in_target {
                begin_change(r, lone_change(was_mirrored, RuleSide::Target))
            } else {
                enter(past_entry(r, count_skip(r.counts)))
            }
        }
    }
}

/// The run whose entry at hand is in step.
pub open spec fn skip_entry(r: RunView) -> (RunView, ActionView) {
    enter(past_entry(r, count_skip(r.counts)))
}

/// The run that gives up.
pub open spec fn give_up(r: RunView, message: Seq<char>) -> (RunView, ActionView) {
    (at_phase(r, SyncPhase::Finished), ActionView::Finish(Err(message)))
}

/// The side whose file was written last; the source where neither is later.
pub open spec fn newer_side(target_newer: bool) -> RuleSide {
    if target_newer {
        RuleSide::Target
    } else {
        RuleSide::Source
    }
}

/// The run whose entry at hand differs between the sides.
pub open spec fn differing(r: RunView, target_newer: bool) -> (RunView, ActionView) {
    if r.bidirectional {
        let winner = newer_side(target_newer);
        (
            at_phase(r, SyncPhase::Probe { winner }),
            ActionView::Probe { entry: r.entries[r.position], side: winner.other() },
        )
    } else {
        begin_change(r, Change::Replace { from: RuleSide::Source })
    }
}

/// What is told of two files without reading them.
#[derive(Debug, Clone, Copy, PartialEq, Eq, Structural)]
pub enum Likeness {
    Same,
    Different,
    /// They are equally long but were written at different times.
    Unknown,
}

pub open spec fn likeness(source: FileMeta, target: FileMeta) -> Likeness {
    if source.len != target.len {
        Likeness::Different
    } else if source.modified == target.modified {
        Likeness::Same
    } else {
        Likeness::Unknown
    }
}

/// The run that knows both files of its entry, without having read them.
pub open spec fn compared(r: RunView, source: FileMeta, target: FileMeta) -> (RunView, ActionView) {
    let target_newer = source.modified.before(target.modified);
    match likeness(source, target) {
        Likeness::Same => skip_entry(r),
        Likeness::Different => differing(r, target_newer),
        Likeness::Unknown => (
            at_phase(r, SyncPhase::Digest { target_newer }),
            ActionView::Digest(r.entries[r.position]),
        ),
    }
}

/// The run of a one-way rule that knows what stands at its entry.
pub open spec fn found_one_way(
    r: RunView,
    source: Option<FileMeta>,
    target: Option<FileMeta>,
) -> (RunView, ActionView) {
    match (source, target) {
        (Some(s), Some(t)) => compared(r, s, t),
        _ => begin_change(r, Change::Create { from: RuleSide::Source }),
    }
}

/// The run of a two-way file rule that knows what stands at its two paths.
pub open spec fn found_two_way_file(
    r: RunView,
    source: Option<FileMeta>,
    target: Option<FileMeta>,
) -> (RunView, ActionView) {
    let was_synced = r.mirrored.contains(FILE_SYNC_ENTRY@);
    match (source, target) {
        (None, None) => if was_synced {
            skip_entry(r)
        } else {
            give_up(r, "双向同步失败：源路径和目标路径都不存在。"@)
        },
        (Some(_), None) => begin_change(r, lone_change(was_synced, RuleSide::Source)),
        (None, Some(_)) => begin_change(r, lone_change(was_synced, RuleSide::Target)),
        (Some(s), Some(t)) => if !s.is_file || !t.is_file {
            give_up(r, "双向文件规则要求两侧都必须是文件。"@)
        } else {
            compared(r, s, t)
        },
    }
}

/// What follows the steps that are alike for all rules.
pub open spec fn common_next(r: RunView, e: EventView) -> (RunView, ActionView) {
    match (r.phase, e) {
        (SyncPhase::Digest { target_newer }, EventView::Digests { source, target }) => if source
            == target {
            skip_entry(r)
        } else {
            differing(r, target_newer)
        },
        (SyncPhase::Probe { winner }, EventView::Exists(there)) => if there {
            begin_change(r, Change::Replace { from: winner })
        } else {
            begin_change(r, Change::Create { from: winner })
        },
        (SyncPhase::Saving { change }, EventView::Done) => after_backup(r, change),
        (SyncPhase::Writing { change }, EventView::Done) => enter(
            past_entry(r, count_change(r.counts, change)),
        ),
        (SyncPhase::EmptySource, EventView::Done) => (
            at_phase(r, SyncPhase::EmptyTarget),
            ActionView::RemoveEmptyFolders(RuleSide::Target),
        ),
        (SyncPhase::EmptyTarget, EventView::Done) => (
            at_phase(r, SyncPhase::Purge),
            ActionView::PurgeBackups,
        ),
        (SyncPhase::Purge, EventView::Done) => (
            at_phase(r, SyncPhase::Finished),
            ActionView::Finish(Ok(r.counts)),
        ),
        (_, EventView::Failed(message)) => give_up(r, message),
        _ => give_up(r, Seq::empty()),
    }
}

/// The run with the one entry of a file rule.
pub open spec fn one_entry(r: RunView) -> RunView {
    RunView { entries: seq![FILE_SYNC_ENTRY@], position: 0, ..r }
}

pub open spec fn single_file_next(r: RunView, e: EventView) -> (RunView, ActionView) {
    match (r.phase, e) {
        (SyncPhase::Ready, EventView::Begin) => enter(one_entry(r)),
        (SyncPhase::Parent, EventView::Done) => (
            at_phase(r, SyncPhase::Inspect),
            ActionView::Inspect(r.entries[r.position]),
        ),
        (SyncPhase::Inspect, EventView::Found { source, target }) => found_one_way(
            r,
            source,
            target,
        ),
        _ => common_next(r, e),
    }
}

pub open spec fn folder_next(r: RunView, e: EventView) -> (RunView, ActionView) {
    match (r.phase, e) {
        (SyncPhase::Ready, EventView::Begin) => (
            at_phase(r, SyncPhase::ListSource),
            ActionView::List(RuleSide::Source),
        ),
        (SyncPhase::ListSource, EventView::Listed(keys)) => (
            RunView { source_keys: keys, phase: SyncPhase::CreateTarget, ..r },
            ActionView::CreateFolder(RuleSide::Target),
        ),
        (SyncPhase::CreateTarget, EventView::Done) => enter(
            RunView { entries: r.source_keys, position: 0, ..r },
        ),
        (SyncPhase::Parent, EventView::Done) => (
            at_phase(r, SyncPhase::Inspect),
            ActionView::Inspect(r.entries[r.position]),
        ),
        (SyncPhase::Inspect, EventView::Found { source, target }) => found_one_way(
            r,
            source,
            target,
        ),
        (SyncPhase::ListExtra, EventView::Listed(keys)) => enter(
            RunView {
                target_keys: keys,
                entries: keys_without(keys, r.source_keys),
                position: 0,
                extras: true,
                ..r
            },
        ),
        _ => common_next(r, e),
    }
}

pub open spec fn two_way_file_next(r: RunView, e: EventView) -> (RunView, ActionView) {
    match (r.phase, e) {
        (SyncPhase::Ready, EventView::Begin) => enter(one_entry(r)),
        (SyncPhase::Inspect, EventView::Found { source, target }) => found_two_way_file(
            r,
            source,
            target,
        ),
        _ => common_next(r, e),
    }
}

pub open spec fn two_way_folder_next(r: RunView, e: EventView) -> (RunView, ActionView) {
    match (r.phase, e) {
        (SyncPhase::Ready, EventView::Begin) => (
            at_phase(r, SyncPhase::ListSource),
            ActionView::List(RuleSide::Source),
        ),
        (SyncPhase::ListSource, EventView::Listed(keys)) => (
            RunView { source_keys: keys, phase: SyncPhase::ListTarget, ..r },
            ActionView::List(RuleSide::Target),
        ),
        (SyncPhase::ListTarget, EventView::Listed(keys)) => enter(
            RunView {
                target_keys: keys,
                entries: with_keys(with_keys(r.source_keys, keys), r.mirrored),
                position: 0,
                ..r
            },
        ),
        (
            SyncPhase::Inspect,
            EventView::Found { source: Some(source), target: Some(target) },
        ) => compared(r, source, target),
        _ => common_next(r, e),
    }
}

/// What a run does and asks for next, once `e` was reported to it.
pub open spec fn next(r: RunView, e: EventView) -> (RunView, ActionView) {
    match (r.kind, r.bidirectional) {
        (RuleKind::File, false) => single_file_next(r, e),
        (RuleKind::Folder, false) => folder_next(r, e),
        (RuleKind::File, true) => two_way_file_next(r, e),
        (RuleKind::Folder, true) => two_way_folder_next(r, e),
    }
}

/// Whether `e` is a report on what the run has asked for.
pub open spec fn fits(r: RunView, e: EventView) -> bool {
    match (r.phase, e) {
        (SyncPhase::Finished, _) => false,
        (SyncPhase::Ready, EventView::Begin) => true,
        (SyncPhase::Ready, _) => false,
        (_, EventView::Failed(_)) => true,
        (SyncPhase::ListSource, EventView::Listed(keys)) => is_key_set(keys),
        (SyncPhase::ListTarget, EventView::Listed(keys)) => is_key_set(keys),
        (SyncPhase::ListExtra, EventView::Listed(keys)) => is_key_set(keys)
            && r.source_keys.len() + keys.len() <= usize::MAX,
        (SyncPhase::CreateTarget, EventView::Done) => true,
        (SyncPhase::Parent, EventView::Done) => true,
        (SyncPhase::Inspect, EventView::Found { source, target }) => if r.bidirectional {
            r.kind == RuleKind::Folder ==> source is Some && target is Some
        } else {
            target is Some ==> source is Some
        },
        (SyncPhase::Digest { .. }, EventView::Digests { .. }) => true,
        (SyncPhase::Probe { .. }, EventView::Exists(_)) => true,
        (SyncPhase::Saving { .. }, EventView::Done) => true,
        (SyncPhase::Writing { .. }, EventView::Done) => true,
        (SyncPhase::EmptySource, EventView::Done) => true,
        (SyncPhase::EmptyTarget, EventView::Done) => true,
        (SyncPhase::Purge, EventView::Done) => true,
        _ => false,
    }
}

/// How many entries a run has dealt with.
pub open spec fn entries_done(r: RunView) -> int {
    if r.extras {
        r.source_keys.len() + r.position
    } else {
        r.position
    }
}

/// Whether the phase is one in which an entry is at hand.
pub open spec fn has_entry(phase: SyncPhase) -> bool {
    match phase {
        SyncPhase::Parent => true,
        SyncPhase::Inspect => true,
        SyncPhase::Digest { .. } => true,
        SyncPhase::Probe { .. } => true,
        SyncPhase::Saving { .. } => true,
        SyncPhase::Writing { .. } => true,
        _ => false,
    }
}

/// Whether the phase comes before the first entry.
pub open spec fn before_entries(phase: SyncPhase) -> bool {
    match phase {
        SyncPhase::Ready => true,
        SyncPhase::ListSource => true,
        SyncPhase::ListTarget => true,
        SyncPhase::CreateTarget => true,
        _ => false,
    }
}

/// Whether a run of this kind passes through the phase.
pub open spec fn phase_of_mode(r: RunView) -> bool {
    match r.phase {
        SyncPhase::ListSource => r.kind == RuleKind::Folder,
        SyncPhase::ListTarget => r.kind == RuleKind::Folder && r.bidirectional,
        SyncPhase::CreateTarget => r.kind == RuleKind::Folder && !r.bidirectional,
        SyncPhase::Parent => !r.bidirectional && !r.extras,
        SyncPhase::Inspect => !r.extras,
        SyncPhase::Digest { .. } => !r.extras,
        SyncPhase::Probe { .. } => r.bidirectional,
        SyncPhase::ListExtra => r.kind == RuleKind::Folder && !r.bidirectional && !r.extras,
        _ => true,
    }
}

/// What holds of a run at an entry, and behind the last one.
pub open spec fn counts_ok(r: RunView) -> bool {
    &&& r.counts.copied_count + r.counts.updated_count + r.counts.skipped_count
        + r.counts.deleted_count == entries_done(r)
    &&& r.counts.backup_count == r.counts.updated_count + r.counts.deleted_count
    &&& r.counts.error_count == 0
}

pub open spec fn entries_ok(r: RunView) -> bool {
    &&& 0 <= r.position <= r.entries.len()
    &&& r.entries.len() <= usize::MAX
    &&& r.extras ==> r.kind == RuleKind::Folder && !r.bidirectional
    &&& r.extras ==> r.source_keys.len() + r.entries.len() <= usize::MAX
    &&& r.kind == RuleKind::Folder && !r.bidirectional && !r.extras ==> r.entries == r.source_keys
    &&& counts_ok(r)
}

pub open spec fn keys_ok(r: RunView) -> bool {
    is_key_set(r.mirrored) && is_key_set(r.source_keys) && is_key_set(r.target_keys)
}

/// What holds of a run between any two steps.
pub open spec fn run_ok(r: RunView) -> bool {
    ||| r.phase == SyncPhase::Finished
    ||| {
        &&& before_entries(r.phase)
        &&& keys_ok(r)
        &&& phase_of_mode(r)
        &&& r.position == 0
        &&& !r.extras
        &&& r.counts == no_counts()
    }
    ||| {
        &&& !before_entries(r.phase)
        &&& keys_ok(r)
        &&& phase_of_mode(r)
        &&& entries_ok(r)
        &&& has_entry(r.phase) <==> r.position < r.entries.len()
    }
}

impl SyncRun {
    pub open spec fn wf(self) -> bool {
        run_ok(self@)
    }

    /// The run of a rule, before it begins.
    pub fn new(rule: &SyncRule) -> (r: Self)
        ensures
            r@ == new_run(
                rule.kind,
                rule.bidirectional,
                rule.delete_policy,
                texts(rule.sync_state.mirrored_entries@),
            ),
            r.wf(),
    {
        let mirrored = synced_entry_set(&rule.sync_state.mirrored_entries);
        SyncRun {
            kind: rule.kind,
            bidirectional: rule.bidirectional,
            delete_policy: rule.delete_policy,
            mirrored,
            phase: SyncPhase::Ready,
            source_keys: Vec::new(),
            target_keys: Vec::new(),
            entries: Vec::new(),
            position: 0,
            extras: false,
            counts: RunCounts::default(),
        }
    }

    fn entry(&self) -> (r: String)
        requires
            self@.position < self@.entries.len(),
        ensures
            r@ == self@.entries[self@.position],
    {
        self.entries[self.position].clone()
    }

    fn after_entries(&mut self) -> (r: SyncAction)
        requires
            old(self)@.position >= old(self)@.entries.len(),
            keys_ok(old(self)@),
            entries_ok(old(self)@),
        ensures
            (final(self)@, r@) == after_entries(old(self)@),
            final(self).wf(),
    {
        if self.kind == RuleKind::File {
            self.phase = SyncPhase::Purge;
            SyncAction::PurgeBackups
        } else if self.bidirectional {
            self.phase = SyncPhase::EmptySource;
            SyncAction::RemoveEmptyFolders(RuleSide::Source)
        } else if self.extras {
            self.phase = SyncPhase::EmptyTarget;
            SyncAction::RemoveEmptyFolders(RuleSide::Target)
        } else if self.delete_policy == DeletePolicy::MoveToBackup {
            self.phase = SyncPhase::ListExtra;
            SyncAction::List(RuleSide::Target)
        } else {
            self.phase = SyncPhase::Purge;
            SyncAction::PurgeBackups
        }
    }

    fn begin_change(&mut self, change: Change) -> (r: SyncAction)
        requires
            old(self)@.position < old(self)@.entries.len(),
            keys_ok(old(self)@),
            entries_ok(old(self)@),
        ensures
            (final(self)@, r@) == begin_change(old(self)@, change),
            final(self).wf(),
    {
        let entry = self.entry();
        match change {
            Change::Create { from } => {
                self.phase = SyncPhase::Writing { change };
                SyncAction::Copy { entry, from }
            },
            Change::Replace { from } => {
                self.phase = SyncPhase::Saving { change };
                SyncAction::Backup { entry, side: from.opposite() }
            },
            Change::Delete { side } => {
                self.phase = SyncPhase::Saving { change };
                SyncAction::Backup { entry, side }
            },
        }
    }

    /// Turns to the next entry that calls for anything.
    fn enter(&mut self) -> (r: SyncAction)
        requires
            keys_ok(old(self)@),
            entries_ok(old(self)@),
        ensures
            (final(self)@, r@) == enter(old(self)@),
            final(self).wf(),
    {
        while self.position < self.entries.len()
            invariant
                keys_ok(self@),
                entries_ok(self@),
                enter(self@) == enter(old(self)@),
            decreases self@.entries.len() - self@.position,
        {
            let ghost here = self@;
            if self.extras {
                return self.begin_change(Change::Delete { side: RuleSide::Target });
            }
            if !self.bidirectional {
                let entry = self.entry();
                self.phase = SyncPhase::Parent;
                return SyncAction::EnsureParent(entry);
            }
            if self.kind == RuleKind::File {
                let entry = self.entry();
                self.phase = SyncPhase::Inspect;
                return SyncAction::Inspect(entry);
            }
            let entry = self.entry();
            let in_source = has_key(&self.source_keys, entry.as_str());
            let in_target = has_key(&self.target_keys, entry.as_str());
            if in_source && in_target {
                self.phase = SyncPhase::Inspect;
                return SyncAction::Inspect(entry);
            }
            if in_source {
                let change = self.lone_change(entry.as_str(), RuleSide::Source);
                return self.begin_change(change);
            }
            if in_target {
                let change = self.lone_change(entry.as_str(), RuleSide::Target);
                return self.begin_change(change);
            }
            self.counts.skipped_count = self.counts.skipped_count + 1;
            self.position = self.position + 1;
            proof {
                assert(self@ =~= past_entry(here, count_skip(here.counts)));
            }
        }
        self.after_entries()
    }

    /// What a file that only `side` has calls for.
    fn lone_change(&self, entry: &str, side: RuleSide) -> (r: Change)
        requires
            is_key_set(self@.mirrored),
        ensures
            r == lone_change(self@.mirrored.contains(entry@), side),
    {
        if has_key(&self.mirrored, entry) {
            delete_existing_file(side)
        } else {
            Change::Create { from: side }
        }
    }

    fn skip_entry(&mut self) -> (r: SyncAction)
        requires
            old(self)@.position < old(self)@.entries.len(),
            keys_ok(old(self)@),
            entries_ok(old(self)@),
        ensures
            (final(self)@, r@) == skip_entry(old(self)@),
            final(self).wf(),
    {
        let ghost here = self@;
        self.counts.skipped_count = self.counts.skipped_count + 1;
        self.position = self.position + 1;
        proof {
            assert(self@ =~= past_entry(here, count_skip(here.counts)));
        }
        self.enter()
    }

    /// Counts a change that was carried out, and goes on.
    fn finish_change(&mut self, change: Change) -> (r: SyncAction)
        requires
            old(self)@.position < old(self)@.entries.len(),
            keys_ok(old(self)@),
            entries_ok(old(self)@),
        ensures
            (final(self)@, r@) == enter(
                past_entry(old(self)@, count_change(old(self)@.counts, change)),
            ),
            final(self).wf(),
    {
        let ghost here = self@;
        match change {
            Change::Create { from } => {
                self.counts.copied_count = self.counts.copied_count + 1;
            },
            Change::Replace { from } => {
                self.counts.updated_count = self.counts.updated_count + 1;
                self.counts.backup_count = self.counts.backup_count + 1;
            },
            Change::Delete { side } => {
                self.counts.deleted_count = self.counts.deleted_count + 1;
                self.counts.backup_count = self.counts.backup_count + 1;
            },
        }
        self.position = self.position + 1;
        proof {
            assert(self@ =~= past_entry(here, count_change(here.counts, change)));
        }
        self.enter()
    }

    fn give_up(&mut self, message: String) -> (r: SyncAction)
        ensures
            (final(self)@, r@) == give_up(old(self)@, message@),
            final(self).wf(),
    {
        self.phase = SyncPhase::Finished;
        SyncAction::Finish(Err(message))
    }

    fn differing(&mut self, target_newer: bool) -> (r: SyncAction)
        requires
            old(self)@.position < old(self)@.entries.len(),
            keys_ok(old(self)@),
            entries_ok(old(self)@),
        ensures
            (final(self)@, r@) == differing(old(self)@, target_newer),
            final(self).wf(),
    {
        if self.bidirectional {
            let winner = if target_newer {
                RuleSide::Target
            } else {
                RuleSide::Source
            };
            let entry = self.entry();
            self.phase = SyncPhase::Probe { winner };
            SyncAction::Probe { entry, side: winner.opposite() }
        } else {
            self.begin_change(Change::Replace { from: RuleSide::Source })
        }
    }

    fn compared(&mut self, source: FileMeta, target: FileMeta) -> (r: SyncAction)
        requires
            old(self)@.position < old(self)@.entries.len(),
            keys_ok(old(self)@),
            entries_ok(old(self)@),
            !old(self)@.extras,
        ensures
            (final(self)@, r@) == compared(old(self)@, source, target),
            final(self).wf(),
    {
        let target_newer = newer_side_by_timestamp(source, target) == RuleSide::Target;
        match files_match(source, target) {
            Likeness::Same => self.skip_entry(),
            Likeness::Different => self.differing(target_newer),
            Likeness::Unknown => {
                let entry = self.entry();
                self.phase = SyncPhase::Digest { target_newer };
                SyncAction::Digest(entry)
            },
        }
    }

    /// The steps that are alike for all rules.
    fn common_step(&mut self, event: SyncEvent) -> (r: SyncAction)
        requires
            old(self).wf(),
            fits(old(self)@, event@),
        ensures
            (final(self)@, r@) == common_next(old(self)@, event@),
            final(self).wf(),
    {
        match (self.phase, event) {
            (SyncPhase::Digest { target_newer }, SyncEvent::Digests { source, target }) => {
                if source == target {
                    self.skip_entry()
                } else {
                    self.differing(target_newer)
                }
            },
            (SyncPhase::Probe { winner }, SyncEvent::Exists(there)) => {
                let change = sync_file_pair(winner, there);
                self.begin_change(change)
            },
            (SyncPhase::Saving { change }, SyncEvent::Done) => {
                let entry = self.entry();
                self.phase = SyncPhase::Writing { change };
                match change {
                    Change::Create { from } => SyncAction::Copy { entry, from },
                    Change::Replace { from } => SyncAction::Copy { entry, from },
                    Change::Delete { side } => SyncAction::Remove { entry, side },
                }
            },
            (SyncPhase::Writing { change }, SyncEvent::Done) => self.finish_change(change),
            (SyncPhase::EmptySource, SyncEvent::Done) => {
                self.phase = SyncPhase::EmptyTarget;
                SyncAction::RemoveEmptyFolders(RuleSide::Target)
            },
            (SyncPhase::EmptyTarget, SyncEvent::Done) => {
                self.phase = SyncPhase::Purge;
                SyncAction::PurgeBackups
            },
            (SyncPhase::Purge, SyncEvent::Done) => {
                self.phase = SyncPhase::Finished;
                SyncAction::Finish(Ok(self.counts))
            },
            (_, SyncEvent::Failed(message)) => self.give_up(message),
            _ => self.give_up(String::new()),
        }
    }

    /// Begins with the one entry of a file rule.
    fn begin_file(&mut self) -> (r: SyncAction)
        requires
            old(self).wf(),
            old(self)@.phase == SyncPhase::Ready,
            old(self)@.kind == RuleKind::File,
        ensures
            (final(self)@, r@) == enter(one_entry(old(self)@)),
            final(self).wf(),
    {
        let ghost here = self@;
        let mut entries: Vec<String> = Vec::new();
        entries.push(String::from_str(FILE_SYNC_ENTRY));
        self.entries = entries;
        self.position = 0;
        proof {
            assert(self@.entries =~= seq![FILE_SYNC_ENTRY@]);
            assert(self@ =~= one_entry(here));
        }
        self.enter()
    }

    /// What stands at the entry of a one-way rule is known.
    fn found_one_way(&mut self, source: Option<FileMeta>, target: Option<FileMeta>) -> (r:
        SyncAction)
        requires
            old(self)@.position < old(self)@.entries.len(),
            keys_ok(old(self)@),
            entries_ok(old(self)@),
            !old(self)@.extras,
        ensures
            (final(self)@, r@) == found_one_way(old(self)@, source, target),
            final(self).wf(),
    {
        match (source, target) {
            (Some(s), Some(t)) => self.compared(s, t),
            _ => self.begin_change(Change::Create { from: RuleSide::Source }),
        }
    }

    /// A step of a rule that keeps one target file in step with one source file.
    pub fn sync_single_file(&mut self, event: SyncEvent) -> (r: SyncAction)
        requires
            old(self).wf(),
            old(self)@.kind == RuleKind::File && !old(self)@.bidirectional,
            fits(old(self)@, event@),
        ensures
            (final(self)@, r@) == single_file_next(old(self)@, event@),
            final(self).wf(),
    {
        match (self.phase, event) {
            (SyncPhase::Ready, SyncEvent::Begin) => self.begin_file(),
            (SyncPhase::Parent, SyncEvent::Done) => {
                let entry = self.entry();
                self.phase = SyncPhase::Inspect;
                SyncAction::Inspect(entry)
            },
            (SyncPhase::Inspect, SyncEvent::Found { source, target }) => self.found_one_way(
                source,
                target,
            ),
            (_, event) => self.common_step(event),
        }
    }

    /// A step of a rule that keeps a target folder in step with a source folder.
    pub fn sync_folder(&mut self, event: SyncEvent) -> (r: SyncAction)
        requires
            old(self).wf(),
            old(self)@.kind == RuleKind::Folder && !old(self)@.bidirectional,
            fits(old(self)@, event@),
        ensures
            (final(self)@, r@) == folder_next(old(self)@, event@),
            final(self).wf(),
    {
        let ghost here = self@;
        match (self.phase, event) {
            (SyncPhase::Ready, SyncEvent::Begin) => {
                self.phase = SyncPhase::ListSource;
                SyncAction::List(RuleSide::Source)
            },
            (SyncPhase::ListSource, SyncEvent::Listed(keys)) => {
                self.source_keys = keys;
                self.phase = SyncPhase::CreateTarget;
                SyncAction::CreateFolder(RuleSide::Target)
            },
            (SyncPhase::CreateTarget, SyncEvent::Done) => {
                self.entries = clone_strings(&self.source_keys);
                self.position = 0;
                proof {
                    assert(self.entries.len() <= usize::MAX);
                    assert(self@ =~= (RunView { entries: here.source_keys, position: 0, ..here }));
                }
                self.enter()
            },
            (SyncPhase::Parent, SyncEvent::Done) => {
                let entry = self.entry();
                self.phase = SyncPhase::Inspect;
                SyncAction::Inspect(entry)
            },
            (SyncPhase::Inspect, SyncEvent::Found { source, target }) => self.found_one_way(
                source,
                target,
            ),
            (SyncPhase::ListExtra, SyncEvent::Listed(keys)) => {
                let entries = select_keys(&keys, &self.source_keys, false);
                proof {
                    let known = here.source_keys;
                    selection_of_keys(texts(keys@), |k: Seq<char>| !known.contains(k));
                    assert(texts(entries@) == texts(keys@).filter(
                        |k: Seq<char>| !known.contains(k),
                    ));
                    assert(entries.len() <= usize::MAX);
                }
                self.target_keys = keys;
                self.entries = entries;
                self.position = 0;
                self.extras = true;
                self.enter()
            },
            (_, event) => self.common_step(event),
        }
    }

    /// A step of a rule that keeps two files in step with each other.
    pub fn sync_bidirectional_file(&mut self, event: SyncEvent) -> (r: SyncAction)
        requires
            old(self).wf(),
            old(self)@.kind == RuleKind::File && old(self)@.bidirectional,
            fits(old(self)@, event@),
        ensures
            (final(self)@, r@) == two_way_file_next(old(self)@, event@),
            final(self).wf(),
    {
        match (self.phase, event) {
            (SyncPhase::Ready, SyncEvent::Begin) => self.begin_file(),
            (SyncPhase::Inspect, SyncEvent::Found { source, target }) => {
                match (source, target) {
                    (None, None) => {
                        if has_key(&self.mirrored, FILE_SYNC_ENTRY) {
                            self.skip_entry()
                        } else {
                            self.give_up(
                                String::from_str("双向同步失败：源路径和目标路径都不存在。"),
                            )
                        }
                    },
                    (Some(_), None) => {
                        let change = self.lone_change(FILE_SYNC_ENTRY, RuleSide::Source);
                        self.begin_change(change)
                    },
                    (None, Some(_)) => {
                        let change = self.lone_change(FILE_SYNC_ENTRY, RuleSide::Target);
                        self.begin_change(change)
                    },
                    (Some(s), Some(t)) => {
                        if !s.is_file || !t.is_file {
                            self.give_up(
                                String::from_str("双向文件规则要求两侧都必须是文件。"),
                            )
                        } else {
                            self.compared(s, t)
                        }
                    },
                }
            },
            (_, event) => self.common_step(event),
        }
    }

    /// A step of a rule that keeps two folders in step with each other.
    pub fn sync_bidirectional_folder(&mut self, event: SyncEvent) -> (r: SyncAction)
        requires
            old(self).wf(),
            old(self)@.kind == RuleKind::Folder && old(self)@.bidirectional,
            fits(old(self)@, event@),
        ensures
            (final(self)@, r@) == two_way_folder_next(old(self)@, event@),
            final(self).wf(),
    {
        match (self.phase, event) {
            (SyncPhase::Ready, SyncEvent::Begin) => {
                self.phase = SyncPhase::ListSource;
                SyncAction::List(RuleSide::Source)
            },
            (SyncPhase::ListSource, SyncEvent::Listed(keys)) => {
                self.source_keys = keys;
                self.phase = SyncPhase::ListTarget;
                SyncAction::List(RuleSide::Target)
            },
            (SyncPhase::ListTarget, SyncEvent::Listed(keys)) => {
                let mut entries = clone_strings(&self.source_keys);
                add_keys(&mut entries, &keys);
                add_keys(&mut entries, &self.mirrored);
                proof {
                    assert(entries.len() <= usize::MAX);
                }
                self.target_keys = keys;
                self.entries = entries;
                self.position = 0;
                self.enter()
            },
            (
                SyncPhase::Inspect,
                SyncEvent::Found { source: Some(source), target: Some(target) },
            ) => self.compared(source, target),
            (_, event) => self.common_step(event),
        }
    }

    /// Takes the report on what the run has asked for, and asks for the next step.
    pub fn sync_rule_files(&mut self, event: SyncEvent) -> (r: SyncAction)
        requires
            old(self).wf(),
            fits(old(self)@, event@),
        ensures
            (final(self)@, r@) == next(old(self)@, event@),
            final(self).wf(),
    {
        match (self.kind, self.bidirectional) {
            (RuleKind::File, false) => self.sync_single_file(event),
            (RuleKind::Folder, false) => self.sync_folder(event),
            (RuleKind::File, true) => self.sync_bidirectional_file(event),
            (RuleKind::Folder, true) => self.sync_bidirectional_folder(event),
        }
    }

    /// Whether `event` is a report on what the run has asked for.
    pub fn accepts(&self, event: &SyncEvent) -> (r: bool)
        ensures
            r == fits(self@, event@),
    {
        match (self.phase, event) {
            (SyncPhase::Finished, _) => false,
            (SyncPhase::Ready, SyncEvent::Begin) => true,
            (SyncPhase::Ready, _) => false,
            (_, SyncEvent::Failed(_)) => true,
            (SyncPhase::ListSource, SyncEvent::Listed(keys)) => is_ascending(keys),
            (SyncPhase::ListTarget, SyncEvent::Listed(keys)) => is_ascending(keys),
            (SyncPhase::ListExtra, SyncEvent::Listed(keys)) => is_ascending(keys)
                && keys.len() <= usize::MAX - self.source_keys.len(),
            (SyncPhase::CreateTarget, SyncEvent::Done) => true,
            (SyncPhase::Parent, SyncEvent::Done) => true,
            (SyncPhase::Inspect, SyncEvent::Found { source, target }) => {
                if self.bidirectional {
                    self.kind != RuleKind::Folder || (source.is_some() && target.is_some())
                } else {
                    target.is_none() || source.is_some()
                }
            },
            (SyncPhase::Digest { .. }, SyncEvent::Digests { .. }) => true,
            (SyncPhase::Probe { .. }, SyncEvent::Exists(_)) => true,
            (SyncPhase::Saving { .. }, SyncEvent::Done) => true,
            (SyncPhase::Writing { .. }, SyncEvent::Done) => true,
            (SyncPhase::EmptySource, SyncEvent::Done) => true,
            (SyncPhase::EmptyTarget, SyncEvent::Done) => true,
            (SyncPhase::Purge, SyncEvent::Done) => true,
            _ => false,
        }
    }
}

/// The entries that both sides had after the last run, as a set.
pub fn synced_entry_set(mirrored_entries: &Vec<String>) -> (r: Vec<String>)
    ensures
        texts(r@) == with_keys(Seq::empty(), texts(mirrored_entries@)),
        is_key_set(texts(r@)),
{
    let mut keys: Vec<String> = Vec::new();
    proof {
        assert(texts(keys@) =~= Seq::<Seq<char>>::empty());
    }
    add_keys(&mut keys, mirrored_entries);
    keys
}

/// What is told of two files without reading them: files of different length
/// differ, and files of the same length that were written at the same time are
/// taken to be the same.
pub fn files_match(source: FileMeta, target: FileMeta) -> (r: Likeness)
    ensures
        r == likeness(source, target),
        r == Likeness::Different <==> source.len != target.len,
        r == Likeness::Same <==> source.len == target.len && source.modified == target.modified,
{
    if source.len != target.len {
        Likeness::Different
    } else if source.modified == target.modified {
        Likeness::Same
    } else {
        Likeness::Unknown
    }
}

/// The side whose file was written last; the source where neither is later.
pub fn newer_side_by_timestamp(source: FileMeta, target: FileMeta) -> (r: RuleSide)
    ensures
        r == newer_side(source.modified.before(target.modified)),
        r == RuleSide::Target <==> source.modified.seconds < target.modified.seconds || (
        source.modified.seconds == target.modified.seconds && source.modified.nanos
            < target.modified.nanos),
{
    if source.modified.is_before(target.modified) {
        RuleSide::Target
    } else {
        RuleSide::Source
    }
}

/// How the file of `winner` gets to the other side: in the place of a file
/// that is there, or as a new one.
pub fn sync_file_pair(winner: RuleSide, loser_exists: bool) -> (r: Change)
    ensures
        r == if loser_exists {
            (Change::Replace { from: winner })
        } else {
            (Change::Create { from: winner })
        },
{
    if loser_exists {
        Change::Replace { from: winner }
    } else {
        Change::Create { from: winner }
    }
}

/// How a file that was removed from the other side leaves this one.
pub fn delete_existing_file(side: RuleSide) -> (r: Change)
    ensures
        r == (Change::Delete { side }),
{
    Change::Delete { side }
}

/// What was seen of the two sides of a rule after a run.
#[derive(Debug)]
pub enum SidesSeen {
    /// The files of a file rule, and whether they have the same digest; that
    /// counts only where it cannot be told otherwise whether they are the same.
    Files { source: Option<FileMeta>, target: Option<FileMeta>, same_digest: bool },
    /// The selected files of the folders of a folder rule, in ascending order.
    Folders { source: Vec<String>, target: Vec<String> },
}

pub enum SeenView {
    Files { source: Option<FileMeta>, target: Option<FileMeta>, same_digest: bool },
    Folders { source: Seq<Seq<char>>, target: Seq<Seq<char>> },
}

impl View for SidesSeen {
    type V = SeenView;

    open spec fn view(&self) -> SeenView {
        match *self {
            SidesSeen::Files { source, target, same_digest } => SeenView::Files {
                source,
                target,
                same_digest,
            },
            SidesSeen::Folders { source, target } => SeenView::Folders {
                source: texts(source@),
                target: texts(target@),
            },
        }
    }
}

/// Whether two files are the same, given whether their digests are.
pub open spec fn same_files(source: FileMeta, target: FileMeta, same_digest: bool) -> bool {
    match likeness(source, target) {
        Likeness::Same => true,
        Likeness::Different => false,
        Likeness::Unknown => same_digest,
    }
}

/// The entries that both sides have.
pub open spec fn mirrored_entries(bidirectional: bool, seen: SeenView) -> Seq<Seq<char>> {
    if !bidirectional {
        Seq::empty()
    } else {
        match seen {
            SeenView::Files { source: Some(s), target: Some(t), same_digest } => if s.is_file
                && t.is_file && same_files(s, t, same_digest) {
                seq![FILE_SYNC_ENTRY@]
            } else {
                Seq::empty()
            },
            SeenView::Files { .. } => Seq::empty(),
            SeenView::Folders { source, target } => keys_within(source, target),
        }
    }
}

/// Whether two files have to be read before it can be told whether they are
/// the same.
pub open spec fn digest_decides(source: Option<FileMeta>, target: Option<FileMeta>) -> bool {
    source matches Some(s) && target matches Some(t) && s.is_file && t.is_file && likeness(s, t)
        == Likeness::Unknown
}

/// Whether the two files of a file rule have to be read before it can be told
/// whether they are the same; otherwise their digests do not count.
pub fn needs_digest(source: Option<FileMeta>, target: Option<FileMeta>) -> (r: bool)
    ensures
        r == digest_decides(source, target),
        !r ==> mirrored_entries(true, SeenView::Files { source, target, same_digest: true })
            == mirrored_entries(true, SeenView::Files { source, target, same_digest: false }),
{
    match (source, target) {
        (Some(s), Some(t)) => s.is_file && t.is_file && files_match(s, t) == Likeness::Unknown,
        _ => false,
    }
}

pub open spec fn meta_result(r: Result<FileMeta, String>) -> Result<FileMeta, Seq<char>> {
    match r {
        Ok(meta) => Ok(meta),
        Err(message) => Err(message@),
    }
}

pub open spec fn known(r: Result<FileMeta, Seq<char>>) -> Option<FileMeta> {
    match r {
        Ok(meta) => Some(meta),
        Err(_) => None,
    }
}

/// What is reported of a look at the two files of an entry. A file rule that
/// goes both ways takes a file that cannot be looked at for missing, and a
/// one-way rule does so where that is the target's; everywhere else a file that
/// cannot be looked at is a failure.
pub open spec fn looked_at(
    kind: RuleKind,
    bidirectional: bool,
    source: Result<FileMeta, Seq<char>>,
    target: Result<FileMeta, Seq<char>>,
) -> EventView {
    if (bidirectional && kind == RuleKind::File) || (!bidirectional && target is Err) {
        EventView::Found { source: known(source), target: known(target) }
    } else {
        match (source, target) {
            (Err(message), _) => EventView::Failed(message),
            (_, Err(message)) => EventView::Failed(message),
            (Ok(s), Ok(t)) => EventView::Found { source: Some(s), target: Some(t) },
        }
    }
}

/// What is reported of a look at the two files of an entry. It is a report that
/// a run of such a rule takes.
pub fn inspection(
    kind: RuleKind,
    bidirectional: bool,
    source: Result<FileMeta, String>,
    target: Result<FileMeta, String>,
) -> (r: SyncEvent)
    ensures
        r@ == looked_at(kind, bidirectional, meta_result(source), meta_result(target)),
        forall|run: RunView|
            run.kind == kind && run.bidirectional == bidirectional && run.phase
                == SyncPhase::Inspect ==> #[trigger] fits(run, r@),
{
    let may_be_missing = match (kind, bidirectional) {
        (RuleKind::File, true) => true,
        (RuleKind::Folder, true) => false,
        (_, false) => target.is_err(),
    };
    if may_be_missing {
        return SyncEvent::Found { source: source.ok(), target: target.ok() };
    }
    match (source, target) {
        (Err(message), _) => SyncEvent::Failed(message),
        (_, Err(message)) => SyncEvent::Failed(message),
        (Ok(s), Ok(t)) => SyncEvent::Found { source: Some(s), target: Some(t) },
    }
}

/// What a rule remembers of a run: the entries that both sides have. A one-way
/// rule remembers nothing.
pub fn capture_rule_sync_state(bidirectional: bool, seen: &SidesSeen) -> (r: RuleSyncState)
    requires
        seen@ matches SeenView::Folders { target, .. } ==> is_key_set(target),
    ensures
        r@ == mirrored_entries(bidirectional, seen@),
{
    if !bidirectional {
        return RuleSyncState::default();
    }
    match seen {
        SidesSeen::Files { source: Some(s), target: Some(t), same_digest } => {
            let same = match files_match(*s, *t) {
                Likeness::Same => true,
                Likeness::Different => false,
                Likeness::Unknown => *same_digest,
            };
            if s.is_file && t.is_file && same {
                let mut entries: Vec<String> = Vec::new();
                entries.push(String::from_str(FILE_SYNC_ENTRY));
                proof {
                    assert(texts(entries@) =~= seq![FILE_SYNC_ENTRY@]);
                }
                RuleSyncState { mirrored_entries: entries }
            } else {
                RuleSyncState::default()
            }
        },
        SidesSeen::Files { .. } => RuleSyncState::default(),
        SidesSeen::Folders { source, target } => RuleSyncState {
            mirrored_entries: select_keys(source, target, true),
        },
    }
}

/// What failed where a file could not be removed.
pub open spec fn removal_failure(bidirectional: bool) -> Seq<char> {
    if bidirectional {
        "删除同步文件失败"@
    } else {
        "删除目标侧多余文件失败"@
    }
}

/// What is said to have failed where a file could not be removed.
pub fn removal_label(bidirectional: bool) -> (r: &'static str)
    ensures
        r@ == removal_failure(bidirectional),
{
    if bidirectional {
        "删除同步文件失败"
    } else {
        "删除目标侧多余文件失败"
    }
}

} // verus!
