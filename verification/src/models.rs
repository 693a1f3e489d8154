//! The data of the application: rules, settings, history and what is shown of them.
//!
//! Every type that holds strings has a view, in which a string is the sequence
//! of its characters; contracts speak of the views.
use crate::text::{clone_opt, clone_strings, opt_text, texts};
use vstd::prelude::*;
use vstd::string::*;

verus! {

broadcast use vstd::string::group_string_axioms;

/// What a rule keeps in step: one file, or the files of a folder.
#[derive(Debug, Clone, Copy, PartialEq, Eq, Structural)]
pub enum RuleKind {
    File,
    Folder,
}

/// What happens to a file that a run is about to replace.
#[derive(Debug, Clone, Copy, PartialEq, Eq, Structural)]
pub enum ConflictPolicy {
    OverwriteWithBackup,
}

/// What happens to a target file that the source does not have.
#[derive(Debug, Clone, Copy, PartialEq, Eq, Structural)]
pub enum DeletePolicy {
    NoDelete,
    MoveToBackup,
}

/// What set a run going.
#[derive(Debug, Clone, Copy, PartialEq, Eq, Structural)]
pub enum SyncTrigger {
    Manual,
    Watch,
    Poll,
    Startup,
    Cleanup,
}

/// Whether a rule can run, and if not, why.
#[derive(Debug, Clone, Copy, PartialEq, Eq, Structural)]
pub enum RuleHealth {
    Healthy,
    MissingSource,
    InvalidSourceType,
    InvalidTargetPath,
    OverlappingDirectories,
    InvalidConfiguration,
    WatchUnavailable,
}

/// The health of a rule of which nothing else is known.
pub fn default_health() -> (r: RuleHealth)
    ensures
        r == RuleHealth::Healthy,
{
    RuleHealth::Healthy
}

/// How the last run of a rule went.
#[derive(Debug)]
pub struct RuleLastResult {
    pub success: bool,
    pub message: String,
    pub trigger: Option<SyncTrigger>,
    pub started_at: Option<String>,
    pub finished_at: Option<String>,
    pub copied_count: usize,
    pub updated_count: usize,
    pub skipped_count: usize,
    pub backup_count: usize,
    pub deleted_count: usize,
    pub error_count: usize,
}

pub struct LastResultView {
    pub success: bool,
    pub message: Seq<char>,
    pub trigger: Option<SyncTrigger>,
    pub started_at: Option<Seq<char>>,
    pub finished_at: Option<Seq<char>>,
    pub copied_count: usize,
    pub updated_count: usize,
    pub skipped_count: usize,
    pub backup_count: usize,
    pub deleted_count: usize,
    pub error_count: usize,
}

impl View for RuleLastResult {
    type V = LastResultView;

    open spec fn view(&self) -> LastResultView {
        LastResultView {
            success: self.success,
            message: self.message@,
            trigger: self.trigger,
            started_at: opt_text(self.started_at),
            finished_at: opt_text(self.finished_at),
            copied_count: self.copied_count,
            updated_count: self.updated_count,
            skipped_count: self.skipped_count,
            backup_count: self.backup_count,
            deleted_count: self.deleted_count,
            error_count: self.error_count,
        }
    }
}

/// The result of a rule that has not run yet.
pub open spec fn empty_last_result() -> LastResultView {
    LastResultView {
        success: false,
        message: Seq::empty(),
        trigger: None,
        started_at: None,
        finished_at: None,
        copied_count: 0,
        updated_count: 0,
        skipped_count: 0,
        backup_count: 0,
        deleted_count: 0,
        error_count: 0,
    }
}

impl Default for RuleLastResult {
    fn default() -> (r: Self)
        ensures
            r@ == empty_last_result(),
    {
        RuleLastResult {
            success: false,
            message: String::new(),
            trigger: None,
            started_at: None,
            finished_at: None,
            copied_count: 0,
            updated_count: 0,
            skipped_count: 0,
            backup_count: 0,
            deleted_count: 0,
            error_count: 0,
        }
    }
}

impl Clone for RuleLastResult {
    fn clone(&self) -> (r: Self)
        ensures
            r@ == self@,
    {
        RuleLastResult {
            success: self.success,
            message: self.message.clone(),
            trigger: self.trigger,
            started_at: clone_opt(&self.started_at),
            finished_at: clone_opt(&self.finished_at),
            copied_count: self.copied_count,
            updated_count: self.updated_count,
            skipped_count: self.skipped_count,
            backup_count: self.backup_count,
            deleted_count: self.deleted_count,
            error_count: self.error_count,
        }
    }
}

/// What the last successful two-way run left the same on both sides.
#[derive(Debug)]
pub struct RuleSyncState {
    pub mirrored_entries: Vec<String>,
}

impl View for RuleSyncState {
    type V = Seq<Seq<char>>;

    open spec fn view(&self) -> Seq<Seq<char>> {
        texts(self.mirrored_entries@)
    }
}

impl Default for RuleSyncState {
    fn default() -> (r: Self)
        ensures
            r@ == Seq::<Seq<char>>::empty(),
    {
        let r = RuleSyncState { mirrored_entries: Vec::new() };
        proof {
            assert(r@ =~= Seq::<Seq<char>>::empty());
        }
        r
    }
}

impl Clone for RuleSyncState {
    fn clone(&self) -> (r: Self)
        ensures
            r@ == self@,
    {
        RuleSyncState { mirrored_entries: clone_strings(&self.mirrored_entries) }
    }
}

/// A rule that keeps a source and a target in step.
#[derive(Debug)]
pub struct SyncRule {
    pub id: String,
    pub name: String,
    pub enabled: bool,
    pub kind: RuleKind,
    pub source_path: String,
    pub target_path: String,
    pub bidirectional: bool,
    pub auto_sync: bool,
    pub watch_enabled: bool,
    pub poll_fallback_enabled: bool,
    pub poll_interval_sec: u64,
    pub conflict_policy: ConflictPolicy,
    pub delete_policy: DeletePolicy,
    pub include_globs: Vec<String>,
    pub exclude_globs: Vec<String>,
    pub sync_state: RuleSyncState,
    pub last_sync_at: Option<String>,
    pub last_result: RuleLastResult,
    pub health: RuleHealth,
    pub config_error: Option<String>,
}

pub struct RuleView {
    pub id: Seq<char>,
    pub name: Seq<char>,
    pub enabled: bool,
    pub kind: RuleKind,
    pub source_path: Seq<char>,
    pub target_path: Seq<char>,
    pub bidirectional: bool,
    pub auto_sync: bool,
    pub watch_enabled: bool,
    pub poll_fallback_enabled: bool,
    pub poll_interval_sec: u64,
    pub conflict_policy: ConflictPolicy,
    pub delete_policy: DeletePolicy,
    pub include_globs: Seq<Seq<char>>,
    pub exclude_globs: Seq<Seq<char>>,
    pub sync_state: Seq<Seq<char>>,
    pub last_sync_at: Option<Seq<char>>,
    pub last_result: LastResultView,
    pub health: RuleHealth,
    pub config_error: Option<Seq<char>>,
}

impl View for SyncRule {
    type V = RuleView;

    open spec fn view(&self) -> RuleView {
        RuleView {
            id: self.id@,
            name: self.name@,
            enabled: self.enabled,
            kind: self.kind,
            source_path: self.source_path@,
            target_path: self.target_path@,
            bidirectional: self.bidirectional,
            auto_sync: self.auto_sync,
            watch_enabled: self.watch_enabled,
            poll_fallback_enabled: self.poll_fallback_enabled,
            poll_interval_sec: self.poll_interval_sec,
            conflict_policy: self.conflict_policy,
            delete_policy: self.delete_policy,
            include_globs: texts(self.include_globs@),
            exclude_globs: texts(self.exclude_globs@),
            sync_state: self.sync_state@,
            last_sync_at: opt_text(self.last_sync_at),
            last_result: self.last_result@,
            health: self.health,
            config_error: opt_text(self.config_error),
        }
    }
}

/// A rule of which nothing has been filled in.
pub open spec fn blank_rule() -> RuleView {
    RuleView {
        id: Seq::empty(),
        name: Seq::empty(),
        enabled: true,
        kind: RuleKind::File,
        source_path: Seq::empty(),
        target_path: Seq::empty(),
        bidirectional: false,
        auto_sync: true,
        watch_enabled: true,
        poll_fallback_enabled: true,
        poll_interval_sec: 300,
        conflict_policy: ConflictPolicy::OverwriteWithBackup,
        delete_policy: DeletePolicy::NoDelete,
        include_globs: Seq::empty(),
        exclude_globs: Seq::empty(),
        sync_state: Seq::empty(),
        last_sync_at: None,
        last_result: empty_last_result(),
        health: RuleHealth::Healthy,
        config_error: None,
    }
}

impl Default for SyncRule {
    fn default() -> (r: Self)
        ensures
            r@ == blank_rule(),
    {
        let r = SyncRule {
            id: String::new(),
            name: String::new(),
            enabled: true,
            kind: RuleKind::File,
            source_path: String::new(),
            target_path: String::new(),
            bidirectional: false,
            auto_sync: true,
            watch_enabled: true,
            poll_fallback_enabled: true,
            poll_interval_sec: 300,
            conflict_policy: ConflictPolicy::OverwriteWithBackup,
            delete_policy: DeletePolicy::NoDelete,
            include_globs: Vec::new(),
            exclude_globs: Vec::new(),
            sync_state: RuleSyncState::default(),
            last_sync_at: None,
            last_result: RuleLastResult::default(),
            health: default_health(),
            config_error: None,
        };
        proof {
            assert(texts(r.include_globs@) =~= Seq::<Seq<char>>::empty());
            assert(texts(r.exclude_globs@) =~= Seq::<Seq<char>>::empty());
        }
        r
    }
}

impl Clone for SyncRule {
    fn clone(&self) -> (r: Self)
        ensures
            r@ == self@,
    {
        SyncRule {
            id: self.id.clone(),
            name: self.name.clone(),
            enabled: self.enabled,
            kind: self.kind,
            source_path: self.source_path.clone(),
            target_path: self.target_path.clone(),
            bidirectional: self.bidirectional,
            auto_sync: self.auto_sync,
            watch_enabled: self.watch_enabled,
            poll_fallback_enabled: self.poll_fallback_enabled,
            poll_interval_sec: self.poll_interval_sec,
            conflict_policy: self.conflict_policy,
            delete_policy: self.delete_policy,
            include_globs: clone_strings(&self.include_globs),
            exclude_globs: clone_strings(&self.exclude_globs),
            sync_state: self.sync_state.clone(),
            last_sync_at: clone_opt(&self.last_sync_at),
            last_result: self.last_result.clone(),
            health: self.health,
            config_error: clone_opt(&self.config_error),
        }
    }
}

/// What a user fills in to make or change a rule.
#[derive(Debug, Clone)]
pub struct RuleDraft {
    pub name: String,
    pub enabled: bool,
    pub kind: RuleKind,
    pub source_path: String,
    pub target_path: String,
    pub bidirectional: bool,
    pub auto_sync: bool,
    pub watch_enabled: bool,
    pub poll_fallback_enabled: bool,
    pub poll_interval_sec: u64,
    pub include_globs: Vec<String>,
    pub exclude_globs: Vec<String>,
}

pub struct DraftView {
    pub name: Seq<char>,
    pub enabled: bool,
    pub kind: RuleKind,
    pub source_path: Seq<char>,
    pub target_path: Seq<char>,
    pub bidirectional: bool,
    pub auto_sync: bool,
    pub watch_enabled: bool,
    pub poll_fallback_enabled: bool,
    pub poll_interval_sec: u64,
    pub include_globs: Seq<Seq<char>>,
    pub exclude_globs: Seq<Seq<char>>,
}

impl View for RuleDraft {
    type V = DraftView;

    open spec fn view(&self) -> DraftView {
        DraftView {
            name: self.name@,
            enabled: self.enabled,
            kind: self.kind,
            source_path: self.source_path@,
            target_path: self.target_path@,
            bidirectional: self.bidirectional,
            auto_sync: self.auto_sync,
            watch_enabled: self.watch_enabled,
            poll_fallback_enabled: self.poll_fallback_enabled,
            poll_interval_sec: self.poll_interval_sec,
            include_globs: texts(self.include_globs@),
            exclude_globs: texts(self.exclude_globs@),
        }
    }
}

/// The settings of the application.
#[derive(Debug)]
pub struct AppSettings {
    pub launch_on_startup: bool,
    pub start_minimized_to_tray: bool,
    pub close_to_tray: bool,
    pub theme: String,
    pub show_notifications: bool,
    pub default_poll_interval_sec: u64,
    pub backup_retention_days: u64,
}

pub struct SettingsView {
    pub launch_on_startup: bool,
    pub start_minimized_to_tray: bool,
    pub close_to_tray: bool,
    pub theme: Seq<char>,
    pub show_notifications: bool,
    pub default_poll_interval_sec: u64,
    pub backup_retention_days: u64,
}

impl View for AppSettings {
    type V = SettingsView;

    open spec fn view(&self) -> SettingsView {
        SettingsView {
            launch_on_startup: self.launch_on_startup,
            start_minimized_to_tray: self.start_minimized_to_tray,
            close_to_tray: self.close_to_tray,
            theme: self.theme@,
            show_notifications: self.show_notifications,
            default_poll_interval_sec: self.default_poll_interval_sec,
            backup_retention_days: self.backup_retention_days,
        }
    }
}

/// The settings of a fresh installation.
pub open spec fn default_settings() -> SettingsView {
    SettingsView {
        launch_on_startup: false,
        start_minimized_to_tray: false,
        close_to_tray: true,
        theme: "light"@,
        show_notifications: true,
        default_poll_interval_sec: 300,
        backup_retention_days: 30,
    }
}

impl Default for AppSettings {
    fn default() -> (r: Self)
        ensures
            r@ == default_settings(),
    {
        AppSettings {
            launch_on_startup: false,
            start_minimized_to_tray: false,
            close_to_tray: true,
            theme: String::from_str("light"),
            show_notifications: true,
            default_poll_interval_sec: 300,
            backup_retention_days: 30,
        }
    }
}

impl Clone for AppSettings {
    fn clone(&self) -> (r: Self)
        ensures
            r@ == self@,
    {
        AppSettings {
            launch_on_startup: self.launch_on_startup,
            start_minimized_to_tray: self.start_minimized_to_tray,
            close_to_tray: self.close_to_tray,
            theme: self.theme.clone(),
            show_notifications: self.show_notifications,
            default_poll_interval_sec: self.default_poll_interval_sec,
            backup_retention_days: self.backup_retention_days,
        }
    }
}

/// One run in the history.
#[derive(Debug)]
pub struct SyncHistoryItem {
    pub rule_id: String,
    pub rule_name: String,
    pub started_at: String,
    pub finished_at: String,
    pub trigger: SyncTrigger,
    pub copied_count: usize,
    pub updated_count: usize,
    pub skipped_count: usize,
    pub backup_count: usize,
    pub deleted_count: usize,
    pub error_count: usize,
    pub success: bool,
    pub message: String,
}

pub struct HistoryView {
    pub rule_id: Seq<char>,
    pub rule_name: Seq<char>,
    pub started_at: Seq<char>,
    pub finished_at: Seq<char>,
    pub trigger: SyncTrigger,
    pub copied_count: usize,
    pub updated_count: usize,
    pub skipped_count: usize,
    pub backup_count: usize,
    pub deleted_count: usize,
    pub error_count: usize,
    pub success: bool,
    pub message: Seq<char>,
}

impl View for SyncHistoryItem {
    type V = HistoryView;

    open spec fn view(&self) -> HistoryView {
        HistoryView {
            rule_id: self.rule_id@,
            rule_name: self.rule_name@,
            started_at: self.started_at@,
            finished_at: self.finished_at@,
            trigger: self.trigger,
            copied_count: self.copied_count,
            updated_count: self.updated_count,
            skipped_count: self.skipped_count,
            backup_count: self.backup_count,
            deleted_count: self.deleted_count,
            error_count: self.error_count,
            success: self.success,
            message: self.message@,
        }
    }
}

impl Clone for SyncHistoryItem {
    fn clone(&self) -> (r: Self)
        ensures
            r@ == self@,
    {
        SyncHistoryItem {
            rule_id: self.rule_id.clone(),
            rule_name: self.rule_name.clone(),
            started_at: self.started_at.clone(),
            finished_at: self.finished_at.clone(),
            trigger: self.trigger,
            copied_count: self.copied_count,
            updated_count: self.updated_count,
            skipped_count: self.skipped_count,
            backup_count: self.backup_count,
            deleted_count: self.deleted_count,
            error_count: self.error_count,
            success: self.success,
            message: self.message.clone(),
        }
    }
}

/// The figures at the top of the window.
#[derive(Debug, Clone)]
pub struct DashboardSummary {
    pub total_rules: usize,
    pub enabled_rules: usize,
    pub invalid_rules: usize,
    pub last_sync_at: Option<String>,
    pub last_error: Option<String>,
}

pub struct SummaryView {
    pub total_rules: nat,
    pub enabled_rules: nat,
    pub invalid_rules: nat,
    pub last_sync_at: Option<Seq<char>>,
    pub last_error: Option<Seq<char>>,
}

impl View for DashboardSummary {
    type V = SummaryView;

    open spec fn view(&self) -> SummaryView {
        SummaryView {
            total_rules: self.total_rules as nat,
            enabled_rules: self.enabled_rules as nat,
            invalid_rules: self.invalid_rules as nat,
            last_sync_at: opt_text(self.last_sync_at),
            last_error: opt_text(self.last_error),
        }
    }
}

impl Default for DashboardSummary {
    fn default() -> (r: Self)
        ensures
            r@ == (SummaryView {
                total_rules: 0,
                enabled_rules: 0,
                invalid_rules: 0,
                last_sync_at: None,
                last_error: None,
            }),
    {
        DashboardSummary {
            total_rules: 0,
            enabled_rules: 0,
            invalid_rules: 0,
            last_sync_at: None,
            last_error: None,
        }
    }
}

pub open spec fn rule_views(rules: Seq<SyncRule>) -> Seq<RuleView> {
    rules.map_values(|r: SyncRule| r@)
}

pub open spec fn history_views(history: Seq<SyncHistoryItem>) -> Seq<HistoryView> {
    history.map_values(|h: SyncHistoryItem| h@)
}

/// A copy of a list of rules.
pub fn clone_rules(rules: &Vec<SyncRule>) -> (r: Vec<SyncRule>)
    ensures
        rule_views(r@) == rule_views(rules@),
{
    let mut r: Vec<SyncRule> = Vec::new();
    let mut i: usize = 0;
    while i < rules.len()
        invariant
            i <= rules@.len(),
            r@.len() == i,
            forall|k: int| 0 <= k < i ==> (#[trigger] r@[k])@ == rules@[k]@,
        decreases rules@.len() - i,
    {
        r.push(rules[i].clone());
        i = i + 1;
    }
    proof {
        assert(rule_views(r@) =~= rule_views(rules@));
    }
    r
}

/// A copy of a history.
pub fn clone_history(history: &Vec<SyncHistoryItem>) -> (r: Vec<SyncHistoryItem>)
    ensures
        history_views(r@) == history_views(history@),
{
    let mut r: Vec<SyncHistoryItem> = Vec::new();
    let mut i: usize = 0;
    while i < history.len()
        invariant
            i <= history@.len(),
            r@.len() == i,
            forall|k: int| 0 <= k < i ==> (#[trigger] r@[k])@ == history@[k]@,
        decreases history@.len() - i,
    {
        r.push(history[i].clone());
        i = i + 1;
    }
    proof {
        assert(history_views(r@) =~= history_views(history@));
    }
    r
}

/// All that the window shows.
#[derive(Debug, Clone)]
pub struct AppStateSnapshot {
    pub summary: DashboardSummary,
    pub rules: Vec<SyncRule>,
    pub settings: AppSettings,
    pub history: Vec<SyncHistoryItem>,
    pub automatic_sync_paused: bool,
}

impl Default for AppStateSnapshot {
    fn default() -> (r: Self)
        ensures
            r.summary@ == (SummaryView {
                total_rules: 0,
                enabled_rules: 0,
                invalid_rules: 0,
                last_sync_at: None,
                last_error: None,
            }),
            r.rules@ == Seq::<SyncRule>::empty(),
            r.settings@ == default_settings(),
            r.history@ == Seq::<SyncHistoryItem>::empty(),
            r.automatic_sync_paused == false,
    {
        AppStateSnapshot {
            summary: DashboardSummary::default(),
            rules: Vec::new(),
            settings: AppSettings::default(),
            history: Vec::new(),
            automatic_sync_paused: false,
        }
    }
}

#[derive(Debug, Clone, Copy, PartialEq, Eq, Structural)]
pub enum CleanupCandidateKind {
    File,
    Folder,
}

/// A backup that a cleanup would remove.
#[derive(Debug)]
pub struct CleanupCandidate {
    pub path: String,
    pub relative_path: String,
    pub kind: CleanupCandidateKind,
}

pub struct CandidateView {
    pub path: Seq<char>,
    pub relative_path: Seq<char>,
    pub kind: CleanupCandidateKind,
}

impl View for CleanupCandidate {
    type V = CandidateView;

    open spec fn view(&self) -> CandidateView {
        CandidateView { path: self.path@, relative_path: self.relative_path@, kind: self.kind }
    }
}

impl Clone for CleanupCandidate {
    fn clone(&self) -> (r: Self)
        ensures
            r@ == self@,
    {
        CleanupCandidate {
            path: self.path.clone(),
            relative_path: self.relative_path.clone(),
            kind: self.kind,
        }
    }
}

pub open spec fn candidate_views(v: Seq<CleanupCandidate>) -> Seq<CandidateView> {
    v.map_values(|c: CleanupCandidate| c@)
}

/// What a cleanup of a rule's backups would remove.
#[derive(Debug, Clone)]
pub struct CleanupPreview {
    pub rule_id: String,
    pub rule_name: String,
    pub candidates: Vec<CleanupCandidate>,
    pub file_count: usize,
    pub folder_count: usize,
}

pub struct PreviewView {
    pub rule_id: Seq<char>,
    pub rule_name: Seq<char>,
    pub candidates: Seq<CandidateView>,
    pub file_count: nat,
    pub folder_count: nat,
}

impl View for CleanupPreview {
    type V = PreviewView;

    open spec fn view(&self) -> PreviewView {
        PreviewView {
            rule_id: self.rule_id@,
            rule_name: self.rule_name@,
            candidates: candidate_views(self.candidates@),
            file_count: self.file_count as nat,
            folder_count: self.folder_count as nat,
        }
    }
}

impl Default for CleanupPreview {
    fn default() -> (r: Self)
        ensures
            r@ == (PreviewView {
                rule_id: Seq::empty(),
                rule_name: Seq::empty(),
                candidates: Seq::empty(),
                file_count: 0,
                folder_count: 0,
            }),
    {
        let r = CleanupPreview {
            rule_id: String::new(),
            rule_name: String::new(),
            candidates: Vec::new(),
            file_count: 0,
            folder_count: 0,
        };
        proof {
            assert(candidate_views(r.candidates@) =~= Seq::<CandidateView>::empty());
        }
        r
    }
}

/// One line of the log.
#[derive(Debug)]
pub struct AppLogEntry {
    pub timestamp: String,
    pub level: String,
    pub message: String,
}

pub struct LogView {
    pub timestamp: Seq<char>,
    pub level: Seq<char>,
    pub message: Seq<char>,
}

impl View for AppLogEntry {
    type V = LogView;

    open spec fn view(&self) -> LogView {
        LogView { timestamp: self.timestamp@, level: self.level@, message: self.message@ }
    }
}

impl Clone for AppLogEntry {
    fn clone(&self) -> (r: Self)
        ensures
            r@ == self@,
    {
        AppLogEntry {
            timestamp: self.timestamp.clone(),
            level: self.level.clone(),
            message: self.message.clone(),
        }
    }
}

/// What is kept between two starts of the application.
#[derive(Debug, Clone)]
pub struct PersistedStore {
    pub rules: Vec<SyncRule>,
    pub settings: AppSettings,
    pub history: Vec<SyncHistoryItem>,
}

pub struct StoreView {
    pub rules: Seq<RuleView>,
    pub settings: SettingsView,
    pub history: Seq<HistoryView>,
}

impl View for PersistedStore {
    type V = StoreView;

    open spec fn view(&self) -> StoreView {
        StoreView {
            rules: rule_views(self.rules@),
            settings: self.settings@,
            history: history_views(self.history@),
        }
    }
}

impl Default for PersistedStore {
    fn default() -> (r: Self)
        ensures
            r@ == (StoreView {
                rules: Seq::empty(),
                settings: default_settings(),
                history: Seq::empty(),
            }),
    {
        let r = PersistedStore {
            rules: Vec::new(),
            settings: AppSettings::default(),
            history: Vec::new(),
        };
        proof {
            assert(rule_views(r.rules@) =~= Seq::<RuleView>::empty());
            assert(history_views(r.history@) =~= Seq::<HistoryView>::empty());
        }
        r
    }
}

} // verus!
