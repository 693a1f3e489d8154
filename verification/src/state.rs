//! The state of the running application: the store, the rules that are
//! running or waiting to run, and what could not be watched.
use crate::keyed::KeyedList;
use crate::models::{
    clone_history, clone_rules, history_views, rule_views, AppSettings, AppStateSnapshot,
    DashboardSummary, HistoryView, LastResultView, PersistedStore, RuleDraft, RuleHealth,
    RuleLastResult, RuleSyncState, RuleView, SettingsView, StoreView, SummaryView,
    SyncHistoryItem, SyncRule, SyncTrigger,
};
use crate::outcome::RuleRunOutcome;
use crate::paths::PathView;
use crate::rules::{
    build_rule, draft_result, evaluate_rule_health, health_of, reads_draft, reads_rule, PathState,
};
use crate::state_laws::{all_enabled_rules_run, polled_are_the_willing_and_able};
use crate::text::{
    clone_opt, contains, occurs_in, opt_text, order_of, same_text, text_order, texts, Order,
};
use vstd::prelude::*;
use vstd::string::*;

verus! {

broadcast use vstd::string::group_string_axioms;

/// Marks a rule whose files could not be watched.
pub open spec fn marked_rule(rule: RuleView, failures: Map<Seq<char>, Seq<char>>) -> RuleView {
    if failures.dom().contains(rule.id) {
        RuleView {
            health: if rule.health == RuleHealth::Healthy {
                RuleHealth::WatchUnavailable
            } else {
                rule.health
            },
            config_error: match rule.config_error {
                Some(error) => Some(error),
                None => Some(failures[rule.id]),
            },
            ..rule
        }
    } else {
        rule
    }
}

pub open spec fn marked_rules(rules: Seq<RuleView>, failures: Map<Seq<char>, Seq<char>>) -> Seq<
    RuleView,
> {
    Seq::new(rules.len(), |i: int| marked_rule(rules[i], failures))
}

pub open spec fn text_table(table: Map<Seq<char>, String>) -> Map<Seq<char>, Seq<char>> {
    table.map_values(|s: String| s@)
}

/// Marks the rules whose files could not be watched: a healthy one is no
/// longer shown as healthy, and one without an error shows why.
pub fn apply_watcher_failures_to_rules(rules: &mut Vec<SyncRule>, failures: &KeyedList<String>)
    requires
        failures.wf(),
    ensures
        rule_views(final(rules)@) == marked_rules(rule_views(old(rules)@), text_table(failures@)),
{
    let ghost before = rule_views(rules@);
    let ghost table = text_table(failures@);
    let n: usize = rules.len();
    let mut i: usize = 0;
    while i < n
        invariant
            i <= n == rules@.len(),
            n == before.len(),
            failures.wf(),
            table == text_table(failures@),
            forall|k: int|
                0 <= k < i ==> (#[trigger] rules@[k])@ == marked_rule(before[k], table),
            forall|k: int| i <= k < n ==> (#[trigger] rules@[k])@ == before[k],
        decreases n - i,
    {
        let mut rule = rules[i].clone();
        if let Some(message) = failures.get(rule.id.as_str()) {
            if rule.health == RuleHealth::Healthy {
                rule.health = RuleHealth::WatchUnavailable;
            }
            if rule.config_error.is_none() {
                rule.config_error = Some(message.clone());
            }
        }
        rules.set(i, rule);
        i = i + 1;
    }
    proof {
        assert(rule_views(rules@) =~= marked_rules(before, table));
    }
}

/// What is known of a rule while the application runs. Times are counted in
/// nanoseconds on a clock that never goes back.
#[derive(Debug, Clone, Copy, PartialEq, Eq, Structural)]
pub struct RuleRuntime {
    pub in_progress: bool,
    pub rerun_requested: bool,
    pub queued_trigger: Option<SyncTrigger>,
    pub debounce_generation: u64,
    pub last_poll_at: Option<u64>,
}

/// A rule that has not run.
pub open spec fn idle_runtime() -> RuleRuntime {
    RuleRuntime {
        in_progress: false,
        rerun_requested: false,
        queued_trigger: None,
        debounce_generation: 0,
        last_poll_at: None,
    }
}

impl Default for RuleRuntime {
    fn default() -> (r: Self)
        ensures
            r == idle_runtime(),
    {
        RuleRuntime {
            in_progress: false,
            rerun_requested: false,
            queued_trigger: None,
            debounce_generation: 0,
            last_poll_at: None,
        }
    }
}

/// The state of the running application.
#[derive(Debug)]
pub struct SharedState {
    store: PersistedStore,
    watcher_failures: KeyedList<String>,
    runtime: KeyedList<RuleRuntime>,
    automatic_sync_paused: bool,
}

#[verifier::ext_equal]
pub struct StateView {
    pub rules: Seq<RuleView>,
    pub settings: SettingsView,
    pub history: Seq<HistoryView>,
    pub failures: Map<Seq<char>, Seq<char>>,
    pub runtime: Map<Seq<char>, RuleRuntime>,
    pub paused: bool,
}

impl View for SharedState {
    type V = StateView;

    closed spec fn view(&self) -> StateView {
        StateView {
            rules: self.store@.rules,
            settings: self.store@.settings,
            history: self.store@.history,
            failures: text_table(self.watcher_failures@),
            runtime: self.runtime@,
            paused: self.automatic_sync_paused,
        }
    }
}

/// What is known of a rule while the application runs; of one that has not run
/// yet, that it is idle.
pub open spec fn runtime_of(s: StateView, id: Seq<char>) -> RuleRuntime {
    if s.runtime.dom().contains(id) {
        s.runtime[id]
    } else {
        idle_runtime()
    }
}

/// The state with other things known of a rule.
pub open spec fn with_runtime(s: StateView, id: Seq<char>, entry: RuleRuntime) -> StateView {
    StateView { runtime: s.runtime.insert(id, entry), ..s }
}

/// The number of the first rule with an id.
pub open spec fn rule_index(rules: Seq<RuleView>, id: Seq<char>) -> Option<int>
    decreases rules.len(),
{
    if rules.len() == 0 {
        None
    } else {
        match rule_index(rules.drop_last(), id) {
            Some(i) => Some(i),
            None => if rules.last().id == id {
                Some(rules.len() - 1)
            } else {
                None
            },
        }
    }
}

proof fn lemma_rule_index(rules: Seq<RuleView>, id: Seq<char>, i: int)
    requires
        0 <= i <= rules.len(),
        forall|k: int| 0 <= k < i ==> (#[trigger] rules[k]).id != id,
        i < rules.len() ==> rules[i].id == id,
    ensures
        rule_index(rules, id) == if i < rules.len() {
            Some(i)
        } else {
            None::<int>
        },
    decreases rules.len(),
{
    if rules.len() > 0 {
        if i == rules.len() {
            lemma_rule_index(rules.drop_last(), id, i - 1);
            assert(rules.drop_last().len() == i - 1);
        } else if i < rules.len() - 1 {
            lemma_rule_index(rules.drop_last(), id, i);
        } else {
            lemma_rule_index(rules.drop_last(), id, i);
        }
    }
}

fn find_rule(rules: &Vec<SyncRule>, id: &str) -> (r: Option<usize>)
    ensures
        match r {
            Some(i) => i < rules@.len() && rule_index(rule_views(rules@), id@) == Some(i as int)
                && rules@[i as int]@.id == id@,
            None => rule_index(rule_views(rules@), id@) is None,
        },
{
    let ghost all = rule_views(rules@);
    let mut i: usize = 0;
    while i < rules.len()
        invariant
            i <= rules@.len(),
            all == rule_views(rules@),
            forall|k: int| 0 <= k < i ==> (#[trigger] all[k]).id != id@,
        decreases rules@.len() - i,
    {
        if same_text(rules[i].id.as_str(), id) {
            proof {
                assert(all[i as int].id == id@);
                lemma_rule_index(all, id@, i as int);
            }
            return Some(i);
        }
        proof {
            assert(all[i as int].id != id@);
        }
        i = i + 1;
    }
    proof {
        lemma_rule_index(all, id@, i as int);
    }
    None
}

/// A rule is found exactly where one has the id, and it is the first that has.
pub proof fn rule_index_finds_the_first(rules: Seq<RuleView>, id: Seq<char>)
    ensures
        match rule_index(rules, id) {
            Some(i) => 0 <= i < rules.len() && rules[i].id == id && forall|k: int|
                0 <= k < i ==> (#[trigger] rules[k]).id != id,
            None => forall|k: int| 0 <= k < rules.len() ==> (#[trigger] rules[k]).id != id,
        },
    decreases rules.len(),
{
    if rules.len() > 0 {
        rule_index_finds_the_first(rules.drop_last(), id);
        assert forall|k: int| 0 <= k < rules.len() - 1 implies rules.drop_last()[k] == (
        #[trigger] rules[k]) by {}
    }
}

/// Whether `health` is the health of a rule, given what stands at its paths.
pub open spec fn is_health_of(
    rule: RuleView,
    source_state: PathState,
    target_state: PathState,
    health: RuleHealth,
) -> bool {
    exists|source: PathView, target: PathView|
        reads_rule(rule, source, target) && health == #[trigger] health_of(
            rule,
            source,
            target,
            source_state,
            target_state,
        )
}

/// What stands at the two paths of a rule.
#[derive(Debug, Clone, Copy, PartialEq, Eq, Structural)]
pub struct PathStates {
    pub source: PathState,
    pub target: PathState,
}

/// How many rules hold for the test.
pub open spec fn count_rules(rules: Seq<RuleView>, test: spec_fn(RuleView) -> bool) -> nat
    decreases rules.len(),
{
    if rules.len() == 0 {
        0
    } else if test(rules.last()) {
        count_rules(rules.drop_last(), test) + 1
    } else {
        count_rules(rules.drop_last(), test)
    }
}

/// The latest of the times at which rules ran last.
pub open spec fn latest_sync(rules: Seq<RuleView>) -> Option<Seq<char>>
    decreases rules.len(),
{
    if rules.len() == 0 {
        None
    } else {
        let before = latest_sync(rules.drop_last());
        match (before, rules.last().last_sync_at) {
            (Some(a), Some(b)) => if text_order(a, b) == Order::Greater {
                Some(a)
            } else {
                Some(b)
            },
            (Some(a), None) => Some(a),
            (None, later) => later,
        }
    }
}

/// Whether the last run of a rule failed and says why.
pub open spec fn shows_error(rule: RuleView) -> bool {
    !rule.last_result.success && rule.last_result.message.len() > 0
}

/// The error of the first rule that shows one.
pub open spec fn first_error(rules: Seq<RuleView>) -> Option<Seq<char>>
    decreases rules.len(),
{
    if rules.len() == 0 {
        None
    } else {
        match first_error(rules.drop_last()) {
            Some(error) => Some(error),
            None => if shows_error(rules.last()) {
                Some(rules.last().name + "："@ + rules.last().last_result.message)
            } else {
                None
            },
        }
    }
}

/// The figures at the top of the window.
pub open spec fn summary_of(rules: Seq<RuleView>) -> SummaryView {
    SummaryView {
        total_rules: rules.len(),
        enabled_rules: count_rules(rules, |r: RuleView| r.enabled),
        invalid_rules: count_rules(rules, |r: RuleView| r.health != RuleHealth::Healthy),
        last_sync_at: latest_sync(rules),
        last_error: first_error(rules),
    }
}

/// The figures at the top of the window.
pub fn summarize(rules: &Vec<SyncRule>) -> (r: DashboardSummary)
    ensures
        r@ == summary_of(rule_views(rules@)),
{
    let ghost all = rule_views(rules@);
    let ghost on = |r: RuleView| r.enabled;
    let ghost bad = |r: RuleView| r.health != RuleHealth::Healthy;
    let mut enabled_rules: usize = 0;
    let mut invalid_rules: usize = 0;
    let mut last_sync_at: Option<String> = None;
    let mut last_error: Option<String> = None;
    let mut i: usize = 0;
    while i < rules.len()
        invariant
            i <= rules@.len(),
            all == rule_views(rules@),
            on == (|r: RuleView| r.enabled),
            bad == (|r: RuleView| r.health != RuleHealth::Healthy),
            enabled_rules == count_rules(all.take(i as int), on),
            enabled_rules <= i,
            invalid_rules == count_rules(all.take(i as int), bad),
            invalid_rules <= i,
            opt_text(last_sync_at) == latest_sync(all.take(i as int)),
            opt_text(last_error) == first_error(all.take(i as int)),
        decreases rules@.len() - i,
    {
        proof {
            assert(all.take(i + 1).drop_last() =~= all.take(i as int));
            assert(all.take(i + 1).last() == rules@[i as int]@);
        }
        let rule = &rules[i];
        if rule.enabled {
            enabled_rules = enabled_rules + 1;
        }
        if rule.health != RuleHealth::Healthy {
            invalid_rules = invalid_rules + 1;
        }
        if let Some(at) = &rule.last_sync_at {
            let later = match &last_sync_at {
                Some(before) => order_of(before.as_str(), at.as_str()) != Order::Greater,
                None => true,
            };
            if later {
                last_sync_at = Some(at.clone());
            }
        }
        if last_error.is_none() && !rule.last_result.success
            && rule.last_result.message.unicode_len() > 0 {
            let mut text = rule.name.clone();
            text.append("：");
            text.append(rule.last_result.message.as_str());
            last_error = Some(text);
        }
        i = i + 1;
    }
    proof {
        assert(all.take(all.len() as int) =~= all);
    }
    DashboardSummary {
        total_rules: rules.len(),
        enabled_rules,
        invalid_rules,
        last_sync_at,
        last_error,
    }
}

/// The window shows the rules with what could not be watched marked in them.
pub open spec fn snapshot_rules(s: StateView) -> Seq<RuleView> {
    marked_rules(s.rules, s.failures)
}

/// The state with the rule at `i` changed.
pub open spec fn with_rule(s: StateView, i: int, rule: RuleView) -> StateView {
    StateView { rules: s.rules.update(i, rule), ..s }
}

/// The rules without those of an id.
pub open spec fn rules_without(rules: Seq<RuleView>, id: Seq<char>) -> Seq<RuleView> {
    rules.filter(|r: RuleView| r.id != id)
}

/// The ids of the rules that are switched on, in order.
pub open spec fn enabled_ids(rules: Seq<RuleView>) -> Seq<Seq<char>>
    decreases rules.len(),
{
    if rules.len() == 0 {
        Seq::empty()
    } else {
        let before = enabled_ids(rules.drop_last());
        if rules.last().enabled {
            before.push(rules.last().id)
        } else {
            before
        }
    }
}

/// How many milliseconds after the last change to its files a rule runs.
pub const WATCH_DELAY_MILLIS: u64 = 1_500;

/// How many seconds lie between two wake-ups that poll the rules.
pub const POLL_WAKE_UP_SEC: u64 = 10;

/// How many runs the history holds at most.
pub const HISTORY_LIMIT: usize = 200;

/// The history with one more run in front, and no more than it holds.
pub open spec fn longer_history(history: Seq<HistoryView>, item: HistoryView) -> Seq<HistoryView> {
    let all = seq![item] + history;
    if all.len() > HISTORY_LIMIT {
        all.take(HISTORY_LIMIT as int)
    } else {
        all
    }
}

/// How a trigger is written in the log.
pub open spec fn trigger_name(trigger: SyncTrigger) -> Seq<char> {
    match trigger {
        SyncTrigger::Manual => "Manual"@,
        SyncTrigger::Watch => "Watch"@,
        SyncTrigger::Poll => "Poll"@,
        SyncTrigger::Startup => "Startup"@,
        SyncTrigger::Cleanup => "Cleanup"@,
    }
}

/// How a trigger is written in the log.
pub fn trigger_label(trigger: SyncTrigger) -> (r: &'static str)
    ensures
        r@ == trigger_name(trigger),
{
    match trigger {
        SyncTrigger::Manual => "Manual",
        SyncTrigger::Watch => "Watch",
        SyncTrigger::Poll => "Poll",
        SyncTrigger::Startup => "Startup",
        SyncTrigger::Cleanup => "Cleanup",
    }
}

/// What the log says of a run that begins.
pub open spec fn start_text(rule: RuleView, trigger: SyncTrigger) -> Seq<char> {
    "开始执行规则“"@ + rule.name + "”，触发方式："@ + trigger_name(trigger) + "，源："@
        + rule.source_path + "，目标："@ + rule.target_path
}

/// What the log says of a run that begins.
pub fn start_message(rule: &SyncRule, trigger: SyncTrigger) -> (r: String)
    ensures
        r@ == start_text(rule@, trigger),
{
    let mut r = String::from_str("开始执行规则“");
    r.append(rule.name.as_str());
    r.append("”，触发方式：");
    r.append(trigger_label(trigger));
    r.append("，源：");
    r.append(rule.source_path.as_str());
    r.append("，目标：");
    r.append(rule.target_path.as_str());
    r
}

/// What the log says of a run that is over.
pub open spec fn end_text(item: HistoryView) -> Seq<char> {
    let verdict = if item.success {
        "”执行成功，触发方式："@
    } else {
        "”执行失败，触发方式："@
    };
    "规则“"@ + item.rule_name + verdict + trigger_name(item.trigger) + "，消息："@ + item.message
}

fn end_message(item: &SyncHistoryItem) -> (r: String)
    ensures
        r@ == end_text(item@),
{
    let mut r = String::from_str("规则“");
    r.append(item.rule_name.as_str());
    if item.success {
        r.append("”执行成功，触发方式：");
    } else {
        r.append("”执行失败，触发方式：");
    }
    r.append(trigger_label(item.trigger));
    r.append("，消息：");
    r.append(item.message.as_str());
    r
}

/// The level at which a text goes into the log.
pub open spec fn level_of(text: Seq<char>) -> Seq<char> {
    if occurs_in(text, "失败"@) {
        "error"@
    } else {
        "info"@
    }
}

/// Something for the log.
#[derive(Debug)]
pub struct LogNote {
    pub level: String,
    pub message: String,
}

/// A rule after a run: its last result is that of the run, and where that
/// succeeded it remembers the mirrored entries that could be read.
pub open spec fn rule_after_run(
    rule: RuleView,
    last_result: LastResultView,
    captured: Option<Seq<Seq<char>>>,
    health: RuleHealth,
) -> RuleView {
    RuleView {
        last_sync_at: last_result.finished_at,
        last_result,
        sync_state: match captured {
            Some(entries) => if last_result.success {
                entries
            } else {
                rule.sync_state
            },
            None => rule.sync_state,
        },
        health,
        ..rule
    }
}

/// Whether the rules `after` are the rules `before` with what came of a run
/// taken into the first one with the id, if there is any.
pub open spec fn applied_to_rule(
    before: Seq<RuleView>,
    after: Seq<RuleView>,
    id: Seq<char>,
    last_result: LastResultView,
    captured: Option<Seq<Seq<char>>>,
    states: PathStates,
) -> bool {
    match rule_index(before, id) {
        Some(i) => {
            &&& after == before.update(i, after[i])
            &&& after[i] == rule_after_run(before[i], last_result, captured, after[i].health)
            &&& is_health_of(
                RuleView { health: before[i].health, ..after[i] },
                states.source,
                states.target,
                after[i].health,
            )
        },
        None => after == before,
    }
}

pub open spec fn opt_entries(captured: Option<RuleSyncState>) -> Option<Seq<Seq<char>>> {
    match captured {
        Some(state) => Some(state@),
        None => None,
    }
}

/// Whether a trigger is one that comes without the user.
pub open spec fn is_automatic(trigger: SyncTrigger) -> bool {
    trigger == SyncTrigger::Watch || trigger == SyncTrigger::Poll
}

/// What a request to run a rule comes to.
pub open spec fn run_plan(s: StateView, id: Seq<char>, trigger: SyncTrigger) -> Result<
    Option<RuleView>,
    Seq<char>,
> {
    if s.paused && is_automatic(trigger) {
        Ok(None)
    } else {
        match rule_index(s.rules, id) {
            None => Err("未找到对应的同步规则。"@),
            Some(i) => if s.rules[i].enabled {
                Ok(Some(s.rules[i]))
            } else {
                Ok(None)
            },
        }
    }
}

pub open spec fn plan_view(r: Result<Option<SyncRule>, String>) -> Result<Option<RuleView>, Seq<char>> {
    match r {
        Ok(Some(rule)) => Ok(Some(rule@)),
        Ok(None) => Ok(None),
        Err(message) => Err(message@),
    }
}

/// A rule that is polled, and how often.
#[derive(Debug)]
pub struct PollTarget {
    pub rule_id: String,
    pub interval_sec: u64,
}

/// Whether a rule is polled.
pub open spec fn is_polled(rule: RuleView) -> bool {
    rule.enabled && rule.auto_sync && rule.poll_fallback_enabled && rule.health
        == RuleHealth::Healthy
}

/// The rules that are polled, in order.
pub open spec fn polled_rules(rules: Seq<RuleView>) -> Seq<(Seq<char>, u64)>
    decreases rules.len(),
{
    if rules.len() == 0 {
        Seq::empty()
    } else {
        let before = polled_rules(rules.drop_last());
        if is_polled(rules.last()) {
            before.push((rules.last().id, rules.last().poll_interval_sec))
        } else {
            before
        }
    }
}

pub open spec fn poll_views(targets: Seq<PollTarget>) -> Seq<(Seq<char>, u64)> {
    targets.map_values(|t: PollTarget| (t.rule_id@, t.interval_sec))
}

/// The whole seconds from one time to a later one; none to an earlier one.
pub open spec fn elapsed_sec(from: u64, to: u64) -> int {
    if to >= from {
        (to - from) / 1_000_000_000
    } else {
        0
    }
}

/// Whether it is time to poll a rule again.
pub open spec fn poll_due(last: Option<u64>, now: u64, interval_sec: u64) -> bool {
    match last {
        Some(at) => elapsed_sec(at, now) >= interval_sec,
        None => true,
    }
}

/// What a rule is polled for at `now`: whether it is its turn, and the state
/// that takes note of it.
pub open spec fn poll_turn(s: StateView, id: Seq<char>, interval_sec: u64, now: u64) -> (
    StateView,
    bool,
) {
    let entry = runtime_of(s, id);
    if poll_due(entry.last_poll_at, now, interval_sec) {
        (with_runtime(s, id, RuleRuntime { last_poll_at: Some(now), ..entry }), true)
    } else {
        (with_runtime(s, id, entry), false)
    }
}

/// The rules whose turn it may be; none while rules do not run by themselves.
pub open spec fn poll_list(s: StateView) -> Seq<(Seq<char>, u64)> {
    if s.paused {
        Seq::empty()
    } else {
        polled_rules(s.rules)
    }
}

/// All of these rules are given their turns at `now`: the state after that, and
/// the ids of those that are to run.
pub open spec fn poll_round(s: StateView, targets: Seq<(Seq<char>, u64)>, now: u64) -> (
    StateView,
    Seq<Seq<char>>,
)
    decreases targets.len(),
{
    if targets.len() == 0 {
        (s, Seq::empty())
    } else {
        let before = poll_round(s, targets.drop_last(), now);
        let turn = poll_turn(before.0, targets.last().0, targets.last().1, now);
        (
            turn.0,
            if turn.1 {
                before.1.push(targets.last().0)
            } else {
                before.1
            },
        )
    }
}

/// Takes note of a change to the files of a rule, under the next number.
pub open spec fn change_noted(s: StateView, id: Seq<char>) -> (StateView, u64) {
    let entry = runtime_of(s, id);
    let generation = (entry.debounce_generation + 1) as u64;
    (
        with_runtime(s, id, RuleRuntime { debounce_generation: generation, ..entry }),
        generation,
    )
}

/// Whether the change of a number is the last one, and rules may run by themselves.
pub open spec fn change_due(s: StateView, id: Seq<char>, generation: u64) -> bool {
    &&& s.runtime.dom().contains(id)
    &&& s.runtime[id].debounce_generation == generation
    &&& !s.paused
}

/// What asking for a run in the background comes to, and whether it begins now.
pub open spec fn enqueued(s: StateView, id: Seq<char>, trigger: SyncTrigger) -> (StateView, bool) {
    let entry = runtime_of(s, id);
    if entry.in_progress {
        (
            with_runtime(
                s,
                id,
                RuleRuntime { rerun_requested: true, queued_trigger: Some(trigger), ..entry },
            ),
            false,
        )
    } else {
        (with_runtime(s, id, RuleRuntime { in_progress: true, ..entry }), true)
    }
}

/// What follows a run in the background.
pub open spec fn next_run(s: StateView, id: Seq<char>) -> (StateView, Option<SyncTrigger>) {
    let entry = runtime_of(s, id);
    if entry.rerun_requested {
        (
            with_runtime(
                s,
                id,
                RuleRuntime { rerun_requested: false, queued_trigger: None, ..entry },
            ),
            Some(
                match entry.queued_trigger {
                    Some(trigger) => trigger,
                    None => SyncTrigger::Watch,
                },
            ),
        )
    } else {
        (with_runtime(s, id, RuleRuntime { in_progress: false, ..entry }), None)
    }
}

pub open spec fn error_result(r: Result<(), String>) -> Result<(), Seq<char>> {
    match r {
        Ok(_) => Ok(()),
        Err(message) => Err(message@),
    }
}

impl SharedState {
    pub closed spec fn wf(self) -> bool {
        self.watcher_failures.wf() && self.runtime.wf()
    }

    /// The state of an application that starts with a store.
    pub fn new(store: PersistedStore) -> (r: Self)
        ensures
            r.wf(),
            r@ == (StateView {
                rules: store@.rules,
                settings: store@.settings,
                history: store@.history,
                failures: Map::empty(),
                runtime: Map::empty(),
                paused: false,
            }),
    {
        let r = SharedState {
            store,
            watcher_failures: KeyedList::new(),
            runtime: KeyedList::new(),
            automatic_sync_paused: false,
        };
        proof {
            assert(r@.failures =~= Map::<Seq<char>, Seq<char>>::empty());
        }
        r
    }

    /// What is kept on disk.
    pub fn persisted(&self) -> (r: &PersistedStore)
        ensures
            r@ == (StoreView {
                rules: self@.rules,
                settings: self@.settings,
                history: self@.history,
            }),
    {
        &self.store
    }

    /// Works the health of every rule out anew. `states` says what stands at
    /// the paths of each.
    pub fn recompute_health_and_save(&mut self, states: &Vec<PathStates>)
        requires
            old(self).wf(),
            states@.len() == old(self)@.rules.len(),
        ensures
            final(self).wf(),
            final(self)@ == (StateView { rules: final(self)@.rules, ..old(self)@ }),
            final(self)@.rules.len() == old(self)@.rules.len(),
            forall|i: int|
                0 <= i < states@.len() ==> #[trigger] final(self)@.rules[i] == (RuleView {
                    health: final(self)@.rules[i].health,
                    ..old(self)@.rules[i]
                }) && is_health_of(
                    old(self)@.rules[i],
                    states@[i].source,
                    states@[i].target,
                    final(self)@.rules[i].health,
                ),
    {
        let ghost before = self@.rules;
        let n: usize = self.store.rules.len();
        let mut i: usize = 0;
        while i < n
            invariant
                i <= n == self.store.rules@.len(),
                n == before.len(),
                n == states@.len(),
                self.wf(),
                self@ == (StateView { rules: self@.rules, ..old(self)@ }),
                forall|k: int|
                    0 <= k < i ==> (#[trigger] self.store.rules@[k])@ == (RuleView {
                        health: self.store.rules@[k]@.health,
                        ..before[k]
                    }) && is_health_of(
                        before[k],
                        states@[k].source,
                        states@[k].target,
                        self.store.rules@[k]@.health,
                    ),
                forall|k: int| i <= k < n ==> (#[trigger] self.store.rules@[k])@ == before[k],
            decreases n - i,
        {
            let mut rule = self.store.rules[i].clone();
            rule.health = evaluate_rule_health(&rule, states[i].source, states[i].target);
            self.store.rules.set(i, rule);
            i = i + 1;
        }
    }

    /// Everything that the window shows.
    pub fn snapshot(&self) -> (r: AppStateSnapshot)
        requires
            self.wf(),
        ensures
            rule_views(r.rules@) == snapshot_rules(self@),
            r.summary@ == summary_of(snapshot_rules(self@)),
            r.settings@ == self@.settings,
            history_views(r.history@) == self@.history,
            r.automatic_sync_paused == self@.paused,
    {
        let mut rules = clone_rules(&self.store.rules);
        apply_watcher_failures_to_rules(&mut rules, &self.watcher_failures);
        let summary = summarize(&rules);
        AppStateSnapshot {
            summary,
            rules,
            settings: self.store.settings.clone(),
            history: clone_history(&self.store.history),
            automatic_sync_paused: self.automatic_sync_paused,
        }
    }

    /// The rules as the window shows them.
    pub fn list_rules(&self) -> (r: Vec<SyncRule>)
        requires
            self.wf(),
        ensures
            rule_views(r@) == snapshot_rules(self@),
    {
        self.snapshot().rules
    }

    /// The settings.
    pub fn get_settings(&self) -> (r: AppSettings)
        ensures
            r@ == self@.settings,
    {
        self.store.settings.clone()
    }

    /// Forgets all runs.
    pub fn clear_history(&mut self)
        requires
            old(self).wf(),
        ensures
            final(self).wf(),
            final(self)@ == (StateView { history: Seq::empty(), ..old(self)@ }),
    {
        self.store.history = Vec::new();
        proof {
            assert(self@.history =~= Seq::<HistoryView>::empty());
        }
    }

    /// Adds the rule that a draft makes, under a fresh id. Where the draft is
    /// at fault nothing changes.
    pub fn create_rule(&mut self, draft: RuleDraft, states: PathStates) -> (r: Result<(), String>)
        requires
            old(self).wf(),
        ensures
            final(self).wf(),
            exists|id: Seq<char>, source: PathView, target: PathView|
                reads_draft(draft@, source, target) && crate::ids::is_uuid_text(id) && (
                match #[trigger] draft_result(
                    id,
                    draft@,
                    source,
                    target,
                    states.source,
                    states.target,
                ) {
                    Ok(rule) => r is Ok && final(self)@ == (StateView {
                        rules: old(self)@.rules.push(rule),
                        ..old(self)@
                    }),
                    Err(message) => error_result(r) == Err::<(), Seq<char>>(message)
                        && final(self)@ == old(self)@,
                }),
    {
        let ghost before = self@.rules;
        match build_rule(None, draft, &self.store.settings, states.source, states.target) {
            Ok(rule) => {
                let ghost added = rule@;
                self.store.rules.push(rule);
                proof {
                    assert(self@.rules =~= before.push(added));
                }
                Ok(())
            },
            Err(message) => Err(message),
        }
    }

    /// Puts the rule that a draft makes in the place of the one with the id,
    /// whose last result it keeps. Where the draft is at fault, or there is no
    /// such rule, nothing changes.
    pub fn update_rule(&mut self, rule_id: String, draft: RuleDraft, states: PathStates) -> (r:
        Result<(), String>)
        requires
            old(self).wf(),
        ensures
            final(self).wf(),
            exists|source: PathView, target: PathView|
                reads_draft(draft@, source, target) && (match #[trigger] draft_result(
                    rule_id@,
                    draft@,
                    source,
                    target,
                    states.source,
                    states.target,
                ) {
                    Ok(rule) => match rule_index(old(self)@.rules, rule_id@) {
                        Some(i) => r is Ok && final(self)@ == with_rule(
                            old(self)@,
                            i,
                            RuleView {
                                last_sync_at: old(self)@.rules[i].last_sync_at,
                                last_result: old(self)@.rules[i].last_result,
                                ..rule
                            },
                        ),
                        None => error_result(r) == Err::<(), Seq<char>>("未找到要更新的规则。"@)
                            && final(self)@ == old(self)@,
                    },
                    Err(message) => error_result(r) == Err::<(), Seq<char>>(message)
                        && final(self)@ == old(self)@,
                }),
    {
        let ghost before = self@.rules;
        match build_rule(
            Some(rule_id.clone()),
            draft,
            &self.store.settings,
            states.source,
            states.target,
        ) {
            Ok(updated) => {
                match find_rule(&self.store.rules, rule_id.as_str()) {
                    Some(i) => {
                        let mut rule = updated;
                        rule.last_sync_at = clone_opt(&self.store.rules[i].last_sync_at);
                        rule.last_result = self.store.rules[i].last_result.clone();
                        let ghost placed = rule@;
                        self.store.rules.set(i, rule);
                        proof {
                            assert(self@.rules =~= before.update(i as int, placed));
                        }
                        Ok(())
                    },
                    None => Err(String::from_str("未找到要更新的规则。")),
                }
            },
            Err(message) => Err(message),
        }
    }

    /// Removes the rules with the id, and forgets what was known of them.
    pub fn delete_rule(&mut self, rule_id: &str)
        requires
            old(self).wf(),
        ensures
            final(self).wf(),
            final(self)@ == (StateView {
                rules: rules_without(old(self)@.rules, rule_id@),
                runtime: old(self)@.runtime.remove(rule_id@),
                ..old(self)@
            }),
    {
        let ghost all = self@.rules;
        let ghost keep = |r: RuleView| r.id != rule_id@;
        let mut rules: Vec<SyncRule> = Vec::new();
        let mut i: usize = 0;
        proof {
            reveal(Seq::filter);
            assert(rule_views(rules@) =~= all.take(0).filter(keep));
        }
        while i < self.store.rules.len()
            invariant
                i <= self.store.rules@.len(),
                all == rule_views(self.store.rules@),
                keep == (|r: RuleView| r.id != rule_id@),
                rule_views(rules@) == all.take(i as int).filter(keep),
            decreases self.store.rules@.len() - i,
        {
            let ghost before = rule_views(rules@);
            proof {
                reveal(Seq::filter);
                assert(all.take(i + 1).drop_last() =~= all.take(i as int));
                assert(all.take(i + 1).last() == self.store.rules@[i as int]@);
            }
            if !same_text(self.store.rules[i].id.as_str(), rule_id) {
                rules.push(self.store.rules[i].clone());
                proof {
                    assert(rule_views(rules@) =~= before.push(all[i as int]));
                }
            }
            i = i + 1;
        }
        proof {
            assert(all.take(all.len() as int) =~= all);
        }
        self.store.rules = rules;
        self.runtime.remove(rule_id);
    }

    /// Switches the rule with the id on or off.
    pub fn toggle_rule_enabled(&mut self, rule_id: &str, enabled: bool) -> (r: Result<(), String>)
        requires
            old(self).wf(),
        ensures
            final(self).wf(),
            match rule_index(old(self)@.rules, rule_id@) {
                Some(i) => r is Ok && final(self)@ == with_rule(
                    old(self)@,
                    i,
                    RuleView { enabled, ..old(self)@.rules[i] },
                ),
                None => error_result(r) == Err::<(), Seq<char>>("未找到要切换的规则。"@)
                    && final(self)@ == old(self)@,
            },
    {
        let ghost before = self@.rules;
        match find_rule(&self.store.rules, rule_id) {
            Some(i) => {
                let mut rule = self.store.rules[i].clone();
                rule.enabled = enabled;
                let ghost placed = rule@;
                self.store.rules.set(i, rule);
                proof {
                    assert(self@.rules =~= before.update(i as int, placed));
                }
                Ok(())
            },
            None => Err(String::from_str("未找到要切换的规则。")),
        }
    }

    /// Puts new settings in the place of the old ones.
    pub fn save_settings(&mut self, settings: AppSettings)
        requires
            old(self).wf(),
        ensures
            final(self).wf(),
            final(self)@ == (StateView { settings: settings@, ..old(self)@ }),
    {
        self.store.settings = settings;
    }

    /// The rules that run when all of them are asked to: those that are
    /// switched on.
    pub fn run_all_sync_command(&self) -> (r: Vec<String>)
        ensures
            texts(r@) == enabled_ids(self@.rules),
            texts(r@) == self@.rules.filter(|r: RuleView| r.enabled).map_values(
                |r: RuleView| r.id,
            ),
    {
        let ghost all = self@.rules;
        let mut ids: Vec<String> = Vec::new();
        let mut i: usize = 0;
        proof {
            assert(texts(ids@) =~= enabled_ids(all.take(0)));
        }
        while i < self.store.rules.len()
            invariant
                i <= self.store.rules@.len(),
                all == rule_views(self.store.rules@),
                texts(ids@) == enabled_ids(all.take(i as int)),
            decreases self.store.rules@.len() - i,
        {
            let ghost before = texts(ids@);
            proof {
                assert(all.take(i + 1).drop_last() =~= all.take(i as int));
                assert(all.take(i + 1).last() == self.store.rules@[i as int]@);
            }
            if self.store.rules[i].enabled {
                ids.push(self.store.rules[i].id.clone());
                proof {
                    assert(texts(ids@) =~= before.push(all[i as int].id));
                }
            }
            i = i + 1;
        }
        proof {
            assert(all.take(all.len() as int) =~= all);
            all_enabled_rules_run(all);
        }
        ids
    }

    /// Lets rules run by themselves, or not.
    pub fn set_auto_sync_paused(&mut self, paused: bool)
        requires
            old(self).wf(),
        ensures
            final(self).wf(),
            final(self)@ == (StateView { paused, ..old(self)@ }),
    {
        self.automatic_sync_paused = paused;
    }

    /// The rule with the id.
    pub fn get_rule(&self, rule_id: &str) -> (r: Result<SyncRule, String>)
        ensures
            match rule_index(self@.rules, rule_id@) {
                Some(i) => r matches Ok(rule) && rule@ == self@.rules[i],
                None => r matches Err(message) && message@ == "未找到对应的同步规则。"@,
            },
    {
        match find_rule(&self.store.rules, rule_id) {
            Some(i) => Ok(self.store.rules[i].clone()),
            None => Err(String::from_str("未找到对应的同步规则。")),
        }
    }

    fn runtime_entry(&self, rule_id: &str) -> (r: RuleRuntime)
        requires
            self.wf(),
        ensures
            r == runtime_of(self@, rule_id@),
    {
        match self.runtime.get(rule_id) {
            Some(entry) => *entry,
            None => RuleRuntime::default(),
        }
    }

    fn put_runtime(&mut self, rule_id: &str, entry: RuleRuntime)
        requires
            old(self).wf(),
        ensures
            final(self).wf(),
            final(self)@ == with_runtime(old(self)@, rule_id@, entry),
    {
        self.runtime.insert(String::from_str(rule_id), entry);
    }

    /// Takes note that files of a rule changed. The number that is returned
    /// tells this change from later ones.
    pub fn schedule_watch_sync(&mut self, rule_id: &str) -> (r: u64)
        requires
            old(self).wf(),
            runtime_of(old(self)@, rule_id@).debounce_generation < u64::MAX,
        ensures
            final(self).wf(),
            (final(self)@, r) == change_noted(old(self)@, rule_id@),
    {
        let mut entry = self.runtime_entry(rule_id);
        entry.debounce_generation = entry.debounce_generation + 1;
        let generation: u64 = entry.debounce_generation;
        self.put_runtime(rule_id, entry);
        generation
    }

    /// Whether one more change of a rule's files can be numbered.
    pub fn can_schedule(&self, rule_id: &str) -> (r: bool)
        requires
            self.wf(),
        ensures
            r == (runtime_of(self@, rule_id@).debounce_generation < u64::MAX),
    {
        self.runtime_entry(rule_id).debounce_generation < u64::MAX
    }

    /// Whether the change that was numbered is to be acted on: no other came
    /// after it, and rules may run by themselves.
    pub fn watch_sync_due(&self, rule_id: &str, generation: u64) -> (r: bool)
        requires
            self.wf(),
        ensures
            r == change_due(self@, rule_id@, generation),
    {
        match self.runtime.get(rule_id) {
            Some(entry) => entry.debounce_generation == generation && !self.automatic_sync_paused,
            None => false,
        }
    }

    /// Asks for a run of a rule in the background. Where the rule is running
    /// already, another run is queued; otherwise the caller is to run it now.
    pub fn enqueue_background_sync(&mut self, rule_id: &str, trigger: SyncTrigger) -> (r: bool)
        requires
            old(self).wf(),
        ensures
            final(self).wf(),
            (final(self)@, r) == enqueued(old(self)@, rule_id@, trigger),
    {
        let mut entry = self.runtime_entry(rule_id);
        let start = !entry.in_progress;
        if start {
            entry.in_progress = true;
        } else {
            entry.rerun_requested = true;
            entry.queued_trigger = Some(trigger);
        }
        self.put_runtime(rule_id, entry);
        start
    }

    /// What a run in the background is followed by: the run that was queued
    /// meanwhile, or nothing, and then the rule is no longer running.
    pub fn next_background_run(&mut self, rule_id: &str) -> (r: Option<SyncTrigger>)
        requires
            old(self).wf(),
        ensures
            final(self).wf(),
            (final(self)@, r) == next_run(old(self)@, rule_id@),
    {
        let mut entry = self.runtime_entry(rule_id);
        if entry.rerun_requested {
            let queued = entry.queued_trigger;
            entry.rerun_requested = false;
            entry.queued_trigger = None;
            self.put_runtime(rule_id, entry);
            match queued {
                Some(trigger) => Some(trigger),
                None => Some(SyncTrigger::Watch),
            }
        } else {
            entry.in_progress = false;
            self.put_runtime(rule_id, entry);
            None
        }
    }

    /// Marks a rule as running because the user asked for it; one that is
    /// running already is not run again.
    pub fn run_rule_sync_now(&mut self, rule_id: &str) -> (r: Result<(), String>)
        requires
            old(self).wf(),
        ensures
            final(self).wf(),
            ({
                let entry = runtime_of(old(self)@, rule_id@);
                &&& error_result(r) == if entry.in_progress {
                    Err::<(), Seq<char>>("该规则正在同步中，请稍候再试。"@)
                } else {
                    Ok(())
                }
                &&& final(self)@ == with_runtime(
                    old(self)@,
                    rule_id@,
                    RuleRuntime { in_progress: true, ..entry },
                )
            }),
    {
        let mut entry = self.runtime_entry(rule_id);
        let running = entry.in_progress;
        entry.in_progress = true;
        self.put_runtime(rule_id, entry);
        if running {
            Err(String::from_str("该规则正在同步中，请稍候再试。"))
        } else {
            Ok(())
        }
    }

    /// Marks a rule that the user asked to run as no longer running.
    pub fn finish_manual_run(&mut self, rule_id: &str)
        requires
            old(self).wf(),
        ensures
            final(self).wf(),
            final(self)@ == with_runtime(
                old(self)@,
                rule_id@,
                RuleRuntime { in_progress: false, ..runtime_of(old(self)@, rule_id@) },
            ),
    {
        let mut entry = self.runtime_entry(rule_id);
        entry.in_progress = false;
        self.put_runtime(rule_id, entry);
    }

    /// The rule that a run is about, if there is to be one: while rules do not
    /// run by themselves, and of a rule that is switched off, there is none.
    pub fn run_rule_sync_no_queue(&self, rule_id: &str, trigger: SyncTrigger) -> (r: Result<
        Option<SyncRule>,
        String,
    >)
        ensures
            plan_view(r) == run_plan(self@, rule_id@, trigger),
    {
        let automatic = match trigger {
            SyncTrigger::Watch => true,
            SyncTrigger::Poll => true,
            _ => false,
        };
        if self.automatic_sync_paused && automatic {
            return Ok(None);
        }
        match self.get_rule(rule_id) {
            Ok(rule) => {
                if rule.enabled {
                    Ok(Some(rule))
                } else {
                    Ok(None)
                }
            },
            Err(message) => Err(message),
        }
    }

    /// Takes what came of a run into the rule.
    fn apply_to_rule(
        &mut self,
        rule_id: &str,
        last_result: RuleLastResult,
        captured: Option<RuleSyncState>,
        states: PathStates,
    )
        requires
            old(self).wf(),
        ensures
            final(self).wf(),
            final(self)@ == (StateView { rules: final(self)@.rules, ..old(self)@ }),
            applied_to_rule(
                old(self)@.rules,
                final(self)@.rules,
                rule_id@,
                last_result@,
                opt_entries(captured),
                states,
            ),
    {
        let ghost before = self@.rules;
        if let Some(i) = find_rule(&self.store.rules, rule_id) {
            let mut rule = self.store.rules[i].clone();
            rule.last_sync_at = clone_opt(&last_result.finished_at);
            rule.last_result = last_result;
            if rule.last_result.success {
                if let Some(state) = captured {
                    rule.sync_state = state;
                }
            }
            let ghost judged = rule@;
            let health = evaluate_rule_health(&rule, states.source, states.target);
            rule.health = health;
            let ghost placed = rule@;
            self.store.rules.set(i, rule);
            proof {
                assert(self@.rules =~= before.update(i as int, placed));
                assert(judged == (RuleView { health: before[i as int].health, ..placed }));
                assert(is_health_of(judged, states.source, states.target, health));
            }
        }
    }

    /// Puts a run in front of the history.
    fn remember_run(&mut self, item: SyncHistoryItem)
        requires
            old(self).wf(),
        ensures
            final(self).wf(),
            final(self)@ == (StateView {
                history: longer_history(old(self)@.history, item@),
                ..old(self)@
            }),
    {
        let ghost past = self@.history;
        let ghost added = item@;
        self.store.history.insert(0, item);
        proof {
            assert(self@.history =~= seq![added] + past);
        }
        if self.store.history.len() > HISTORY_LIMIT {
            self.store.history.truncate(HISTORY_LIMIT);
            proof {
                assert(self@.history =~= (seq![added] + past).take(HISTORY_LIMIT as int));
            }
        }
    }

    /// Takes what came of a run into the rule and into the history, and says
    /// what goes into the log. `captured` are the mirrored entries, where they
    /// could be read; `states` says what stands at the paths of the rule.
    pub fn apply_run_outcome(
        &mut self,
        rule_id: &str,
        outcome: RuleRunOutcome,
        captured: Option<RuleSyncState>,
        states: PathStates,
    ) -> (r: LogNote)
        requires
            old(self).wf(),
        ensures
            final(self).wf(),
            r.message@ == end_text(outcome@.history_item),
            r.level@ == level_of(r.message@),
            final(self)@ == (StateView {
                rules: final(self)@.rules,
                history: longer_history(old(self)@.history, outcome@.history_item),
                ..old(self)@
            }),
            applied_to_rule(
                old(self)@.rules,
                final(self)@.rules,
                rule_id@,
                outcome@.last_result,
                opt_entries(captured),
                states,
            ),
    {
        let RuleRunOutcome { last_result, history_item } = outcome;
        self.apply_to_rule(rule_id, last_result, captured, states);
        let message = end_message(&history_item);
        self.remember_run(history_item);
        let level = if contains(message.as_str(), "失败") {
            String::from_str("error")
        } else {
            String::from_str("info")
        };
        LogNote { level, message }
    }

    /// The rules that are polled; none while rules do not run by themselves.
    pub fn poll_targets(&self) -> (r: Vec<PollTarget>)
        ensures
            poll_views(r@) == poll_list(self@),
            self@.paused ==> r@.len() == 0,
            !self@.paused ==> poll_views(r@) == self@.rules.filter(
                |r: RuleView|
                    r.enabled && r.auto_sync && r.poll_fallback_enabled && r.health
                        == RuleHealth::Healthy,
            ).map_values(|r: RuleView| (r.id, r.poll_interval_sec)),
    {
        let ghost all = self@.rules;
        let mut targets: Vec<PollTarget> = Vec::new();
        proof {
            assert(poll_views(targets@) =~= Seq::<(Seq<char>, u64)>::empty());
        }
        if self.automatic_sync_paused {
            return targets;
        }
        let mut i: usize = 0;
        proof {
            assert(poll_views(targets@) =~= polled_rules(all.take(0)));
        }
        while i < self.store.rules.len()
            invariant
                i <= self.store.rules@.len(),
                all == rule_views(self.store.rules@),
                poll_views(targets@) == polled_rules(all.take(i as int)),
            decreases self.store.rules@.len() - i,
        {
            let ghost before = poll_views(targets@);
            proof {
                assert(all.take(i + 1).drop_last() =~= all.take(i as int));
                assert(all.take(i + 1).last() == self.store.rules@[i as int]@);
            }
            let rule = &self.store.rules[i];
            if rule.enabled && rule.auto_sync && rule.poll_fallback_enabled && rule.health
                == RuleHealth::Healthy {
                targets.push(
                    PollTarget {
                        rule_id: rule.id.clone(),
                        interval_sec: rule.poll_interval_sec,
                    },
                );
                proof {
                    assert(poll_views(targets@) =~= before.push(
                        (all[i as int].id, all[i as int].poll_interval_sec),
                    ));
                }
            }
            i = i + 1;
        }
        proof {
            assert(all.take(all.len() as int) =~= all);
            polled_are_the_willing_and_able(self@);
        }
        targets
    }

    /// Whether a rule is to be polled at `now`; if so, that is taken note of.
    pub fn take_poll_turn(&mut self, rule_id: &str, interval_sec: u64, now: u64) -> (r: bool)
        requires
            old(self).wf(),
        ensures
            final(self).wf(),
            (final(self)@, r) == poll_turn(old(self)@, rule_id@, interval_sec, now),
    {
        let mut entry = self.runtime_entry(rule_id);
        let due = match entry.last_poll_at {
            Some(at) => {
                let elapsed: u64 = if now >= at {
                    (now - at) / 1_000_000_000
                } else {
                    0
                };
                elapsed >= interval_sec
            },
            None => true,
        };
        if due {
            entry.last_poll_at = Some(now);
        }
        self.put_runtime(rule_id, entry);
        due
    }

    /// Puts what could not be watched in the place of what was known of it.
    pub fn replace_watcher_failures(&mut self, failures: KeyedList<String>)
        requires
            old(self).wf(),
            failures.wf(),
        ensures
            final(self).wf(),
            final(self)@ == (StateView { failures: text_table(failures@), ..old(self)@ }),
    {
        self.watcher_failures = failures;
    }
}

/// A run that is asked for while the rule runs is not lost: it follows, with
/// the trigger that was asked for last, and the rule counts as running until then.
pub proof fn queued_run_is_not_lost(
    s: StateView,
    id: Seq<char>,
    first: SyncTrigger,
    last: SyncTrigger,
)
    requires
        runtime_of(s, id).in_progress,
    ensures
        ({
            let once = enqueued(s, id, first);
            let twice = enqueued(once.0, id, last);
            let then = next_run(twice.0, id);
            &&& !once.1 && !twice.1
            &&& then.1 == Some(last)
            &&& runtime_of(then.0, id).in_progress
            &&& next_run(then.0, id).1 is None
            &&& !runtime_of(next_run(then.0, id).0, id).in_progress
        }),
{
}

/// A rule is run by one at a time: between the request that begins a run and
/// the end of that run no other request begins one.
pub proof fn rule_runs_once_at_a_time(s: StateView, id: Seq<char>, a: SyncTrigger, b: SyncTrigger)
    ensures
        enqueued(s, id, a).1 ==> !enqueued(enqueued(s, id, a).0, id, b).1,
        enqueued(s, id, a).1 ==> runtime_of(enqueued(s, id, a).0, id).in_progress,
        next_run(s, id).1 is Some && runtime_of(s, id).in_progress ==> !enqueued(
            next_run(s, id).0,
            id,
            b,
        ).1,
{
}

/// Of changes that follow each other only the last is acted on.
pub proof fn later_change_takes_over(s: StateView, id: Seq<char>)
    requires
        runtime_of(s, id).debounce_generation < u64::MAX - 1,
    ensures
        ({
            let first = change_noted(s, id);
            let second = change_noted(first.0, id);
            &&& !change_due(second.0, id, first.1)
            &&& change_due(second.0, id, second.1) == !s.paused
        }),
{
}

/// What is known of other rules stays as it is.
pub proof fn other_rules_are_not_touched(
    s: StateView,
    id: Seq<char>,
    other: Seq<char>,
    trigger: SyncTrigger,
)
    requires
        id != other,
    ensures
        runtime_of(enqueued(s, id, trigger).0, other) == runtime_of(s, other),
        runtime_of(next_run(s, id).0, other) == runtime_of(s, other),
        runtime_of(change_noted(s, id).0, other) == runtime_of(s, other),
{
}

/// The history holds the newest runs, the newest first, and never too many.
pub proof fn history_keeps_the_newest(history: Seq<HistoryView>, item: HistoryView, i: int)
    requires
        history.len() <= HISTORY_LIMIT,
    ensures
        longer_history(history, item).len() <= HISTORY_LIMIT,
        longer_history(history, item)[0] == item,
        0 < i < longer_history(history, item).len() ==> longer_history(history, item)[i]
            == history[i - 1],
{
}

/// A rule that was deleted is no longer found, and the others still are.
pub proof fn deleted_rule_is_gone(rules: Seq<RuleView>, id: Seq<char>, other: Seq<char>)
    ensures
        rule_index(rules_without(rules, id), id) is None,
        id != other ==> (rule_index(rules_without(rules, id), other) is Some <==> rule_index(
            rules,
            other,
        ) is Some),
    decreases rules.len(),
{
    reveal(Seq::filter);
    if rules.len() > 0 {
        let front = rules.drop_last();
        deleted_rule_is_gone(front, id, other);
        let kept = rules_without(front, id);
        if rules.last().id != id {
            assert(kept.push(rules.last()).drop_last() =~= kept);
        }
    }
}

/// Marking what could not be watched changes neither the number of the rules
/// nor what they are, and hides no other trouble of a rule.
pub proof fn marks_hide_nothing(rules: Seq<RuleView>, failures: Map<Seq<char>, Seq<char>>, i: int)
    requires
        0 <= i < rules.len(),
    ensures
        marked_rules(rules, failures).len() == rules.len(),
        marked_rules(rules, failures)[i].id == rules[i].id,
        rules[i].health != RuleHealth::Healthy ==> marked_rules(rules, failures)[i].health
            == rules[i].health,
        rules[i].config_error is Some ==> marked_rules(rules, failures)[i].config_error
            == rules[i].config_error,
{
}

/// While rules do not run by themselves, neither a change nor a poll begins a
/// run; what the user asks for still does.
pub proof fn paused_rules_wait_for_the_user(
    s: StateView,
    id: Seq<char>,
    trigger: SyncTrigger,
    generation: u64,
)
    requires
        s.paused,
    ensures
        is_automatic(trigger) ==> run_plan(s, id, trigger) == Ok::<Option<RuleView>, Seq<char>>(
            None,
        ),
        !change_due(s, id, generation),
        !is_automatic(trigger) ==> run_plan(s, id, trigger) == run_plan(
            StateView { paused: false, ..s },
            id,
            trigger,
        ),
{
}

/// A rule that is switched off does not run, whoever asks for it.
pub proof fn disabled_rule_does_not_run(s: StateView, id: Seq<char>, trigger: SyncTrigger, i: int)
    requires
        rule_index(s.rules, id) == Some(i),
        !s.rules[i].enabled,
    ensures
        run_plan(s, id, trigger) == Ok::<Option<RuleView>, Seq<char>>(None),
{
}

/// Between two polls of a rule lies at least its interval: a rule that was
/// polled last at `last` has its turn at `now` only once that has passed. The
/// clock does not run backwards.
pub proof fn polls_keep_their_distance(
    s: StateView,
    id: Seq<char>,
    last: u64,
    now: u64,
    interval_sec: u64,
)
    requires
        runtime_of(s, id).last_poll_at == Some(last),
        last <= now,
    ensures
        poll_turn(s, id, interval_sec, now).1 <==> now >= last + interval_sec * 1_000_000_000,
        poll_turn(s, id, interval_sec, now).1 ==> runtime_of(
            poll_turn(s, id, interval_sec, now).0,
            id,
        ).last_poll_at == Some(now),
{
}

/// Whether no two rules have the same id.
pub open spec fn rule_ids_differ(rules: Seq<RuleView>) -> bool {
    forall|i: int, j: int|
        0 <= i < j < rules.len() ==> (#[trigger] rules[i]).id != (#[trigger] rules[j]).id
}

/// A rule is on the list once where it is polled, and not at all otherwise.
proof fn lemma_polled_rules(rules: Seq<RuleView>, j: int)
    requires
        rule_ids_differ(rules),
        0 <= j < rules.len(),
    ensures
        ({
            let list = polled_rules(rules);
            &&& forall|a: int, b: int|
                0 <= a < b < list.len() ==> (#[trigger] list[a]).0 != (#[trigger] list[b]).0
            &&& is_polled(rules[j]) ==> list.contains((rules[j].id, rules[j].poll_interval_sec))
            &&& forall|a: int|
                0 <= a < list.len() && (#[trigger] list[a]).0 == rules[j].id ==> is_polled(rules[j])
                    && list[a].1 == rules[j].poll_interval_sec
        }),
    decreases rules.len(),
{
    let front = rules.drop_last();
    let last = rules.last();
    let list = polled_rules(rules);
    let before = polled_rules(front);
    lemma_polled_ids(front);
    if j < front.len() {
        assert(front[j] == rules[j]);
        lemma_polled_rules(front, j);
        if is_polled(rules[j]) {
            let pair = (rules[j].id, rules[j].poll_interval_sec);
            let a = choose|a: int| 0 <= a < before.len() && before[a] == pair;
            assert(list[a] == pair);
        }
    } else {
        if is_polled(last) {
            assert(list[before.len() as int] == (last.id, last.poll_interval_sec));
        }
        if front.len() > 0 {
            lemma_polled_rules(front, 0);
        }
    }
}

/// Every id on the list is that of a rule.
proof fn lemma_polled_ids(rules: Seq<RuleView>)
    ensures
        forall|a: int|
            0 <= a < polled_rules(rules).len() ==> exists|i: int|
                0 <= i < rules.len() && (#[trigger] rules[i]).id == (#[trigger] polled_rules(
                    rules,
                )[a]).0,
    decreases rules.len(),
{
    if rules.len() > 0 {
        let front = rules.drop_last();
        let list = polled_rules(rules);
        lemma_polled_ids(front);
        assert forall|a: int| 0 <= a < list.len() implies exists|i: int|
            0 <= i < rules.len() && (#[trigger] rules[i]).id == (#[trigger] list[a]).0 by {
            if a < polled_rules(front).len() {
                let i = choose|i: int|
                    0 <= i < front.len() && (#[trigger] front[i]).id == polled_rules(front)[a].0;
                assert(rules[i].id == list[a].0);
            } else {
                assert(rules[rules.len() - 1].id == list[a].0);
            }
        }
    }
}

/// What a round comes to for one id.
proof fn lemma_poll_round(s: StateView, targets: Seq<(Seq<char>, u64)>, now: u64, id: Seq<char>)
    requires
        forall|a: int, b: int|
            0 <= a < b < targets.len() ==> (#[trigger] targets[a]).0 != (#[trigger] targets[b]).0,
    ensures
        ({
            let round = poll_round(s, targets, now);
            &&& (forall|a: int| 0 <= a < targets.len() ==> (#[trigger] targets[a]).0 != id) ==> {
                &&& !round.1.contains(id)
                &&& runtime_of(round.0, id) == runtime_of(s, id)
            }
            &&& forall|a: int|
                0 <= a < targets.len() && (#[trigger] targets[a]).0 == id ==> {
                    &&& round.1.contains(id) <==> poll_turn(s, id, targets[a].1, now).1
                    &&& runtime_of(round.0, id) == runtime_of(
                        poll_turn(s, id, targets[a].1, now).0,
                        id,
                    )
                }
        }),
    decreases targets.len(),
{
    if targets.len() > 0 {
        let front = targets.drop_last();
        let last = targets.last();
        let before = poll_round(s, front, now);
        let round = poll_round(s, targets, now);
        let n = targets.len() - 1;
        lemma_poll_round(s, front, now, id);
        assert(before.1.push(last.0).last() == last.0);
        if before.1.contains(id) {
            let i = choose|i: int| 0 <= i < before.1.len() && before.1[i] == id;
            assert(before.1.push(last.0)[i] == id);
        }
        if last.0 == id {
            assert forall|a: int| 0 <= a < front.len() implies (#[trigger] front[a]).0 != id by {
                assert(targets[a].0 != targets[n].0);
            }
        }
        assert forall|a: int| 0 <= a < front.len() implies front[a] == #[trigger] targets[a] by {}
        if round.1.contains(id) && !before.1.contains(id) {
            let i = choose|i: int| 0 <= i < round.1.len() && round.1[i] == id;
            assert(i >= before.1.len());
        }
        if forall|a: int| 0 <= a < targets.len() ==> (#[trigger] targets[a]).0 != id {
            assert(targets[n].0 != id);
            assert forall|a: int| 0 <= a < front.len() implies (#[trigger] front[a]).0 != id by {
                assert(targets[a].0 != id);
            }
        }
        assert forall|a: int|
            0 <= a < targets.len() && (#[trigger] targets[a]).0 == id implies (round.1.contains(
            id,
        ) <==> poll_turn(s, id, targets[a].1, now).1) && runtime_of(round.0, id) == runtime_of(
            poll_turn(s, id, targets[a].1, now).0,
            id,
        ) by {
            if a < n {
                assert(front[a].0 == id);
                assert(targets[a].0 != targets[n].0);
            }
        }
    }
}

/// At a wake-up a rule is polled exactly where rules run by themselves, the rule
/// is polled at all and can run, and its interval has passed since the last
/// time; only then the time is taken note of.
pub proof fn wake_up_polls_what_is_due(s: StateView, j: int, now: u64)
    requires
        rule_ids_differ(s.rules),
        0 <= j < s.rules.len(),
    ensures
        ({
            let rule = s.rules[j];
            let last = runtime_of(s, rule.id).last_poll_at;
            let round = poll_round(s, poll_list(s), now);
            &&& round.1.contains(rule.id) <==> !s.paused && is_polled(rule) && poll_due(
                last,
                now,
                rule.poll_interval_sec,
            )
            &&& runtime_of(round.0, rule.id).last_poll_at == if round.1.contains(rule.id) {
                Some(now)
            } else {
                last
            }
        }),
{
    let rule = s.rules[j];
    let list = poll_list(s);
    let pair = (rule.id, rule.poll_interval_sec);
    lemma_polled_rules(s.rules, j);
    lemma_poll_round(s, list, now, rule.id);
    if !s.paused && is_polled(rule) {
        let a = choose|a: int| 0 <= a < list.len() && list[a] == pair;
        assert(list[a].0 == rule.id);
    } else {
        assert forall|a: int| 0 <= a < list.len() implies (#[trigger] list[a]).0 != rule.id by {}
    }
}

} // verus!
