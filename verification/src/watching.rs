//! Watching the files of rules: which paths are watched, which changes concern
//! a rule, and what happens where a path cannot be watched.
use crate::keyed::KeyedList;
use crate::models::{rule_views, RuleHealth, RuleKind, RuleView, SyncRule};
use crate::paths::{
    begins_with, component_views, is_same_path, main_separator, path_begins_with, same_path,
    ComponentView, ParsedPath, PathComponent, PathView,
};
use crate::rules::reads_rule;
use crate::state::text_table;
use crate::text::{same_text, texts};
use vstd::prelude::*;
use vstd::string::*;

verus! {

broadcast use vstd::string::group_string_axioms;

/// A path that is watched, with or without everything below it.
#[derive(Debug)]
pub struct WatchTarget {
    pub path: String,
    pub recursive: bool,
}

pub struct TargetView {
    pub path: Seq<char>,
    pub recursive: bool,
}

impl View for WatchTarget {
    type V = TargetView;

    open spec fn view(&self) -> TargetView {
        TargetView { path: self.path@, recursive: self.recursive }
    }
}

pub open spec fn target_views(targets: Seq<WatchTarget>) -> Seq<TargetView> {
    targets.map_values(|t: WatchTarget| t@)
}

pub open spec fn targets_result(r: Result<Vec<WatchTarget>, String>) -> Result<
    Seq<TargetView>,
    Seq<char>,
> {
    match r {
        Ok(targets) => Ok(target_views(targets@)),
        Err(message) => Err(message@),
    }
}

/// The paths that are watched once a side of a rule is added: the folder of a
/// file, or a whole folder. What does not exist is not watched, and nothing is
/// watched twice.
pub open spec fn with_side(
    targets: Seq<TargetView>,
    kind: RuleKind,
    path: PathView,
    exists_there: bool,
) -> Result<Seq<TargetView>, Seq<char>> {
    if !exists_there {
        Ok(targets)
    } else if kind == RuleKind::File && path.parent is None {
        Err("文件路径缺少父目录，无法监听。"@)
    } else {
        let added = match kind {
            RuleKind::File => TargetView { path: path.parent->0, recursive: false },
            RuleKind::Folder => TargetView { path: path.text, recursive: true },
        };
        if targets.contains(added) {
            Ok(targets)
        } else {
            Ok(targets.push(added))
        }
    }
}

/// Adds a side of a rule to the paths that are watched.
pub fn append_watch_target(
    targets: &mut Vec<WatchTarget>,
    kind: RuleKind,
    path: &ParsedPath,
    exists_there: bool,
) -> (r: Result<(), String>)
    ensures
        match with_side(target_views(old(targets)@), kind, path@, exists_there) {
            Ok(after) => r is Ok && target_views(final(targets)@) == after,
            Err(message) => r matches Err(m) && m@ == message && target_views(final(targets)@)
                == target_views(old(targets)@),
        },
{
    if !exists_there {
        return Ok(());
    }
    let added = match kind {
        RuleKind::File => {
            match &path.parent {
                Some(parent) => WatchTarget { path: parent.clone(), recursive: false },
                None => {
                    return Err(String::from_str("文件路径缺少父目录，无法监听。"));
                },
            }
        },
        RuleKind::Folder => WatchTarget { path: path.text.clone(), recursive: true },
    };
    let ghost before = target_views(targets@);
    let ghost expected = with_side(before, kind, path@, exists_there);
    let mut i: usize = 0;
    while i < targets.len()
        invariant
            i <= targets@.len(),
            before == target_views(targets@),
            before == target_views(old(targets)@),
            expected == with_side(before, kind, path@, exists_there),
            expected == Ok::<Seq<TargetView>, Seq<char>>(
                if before.contains(added@) {
                    before
                } else {
                    before.push(added@)
                },
            ),
            forall|k: int| 0 <= k < i ==> #[trigger] before[k] != added@,
        decreases targets@.len() - i,
    {
        if same_text(targets[i].path.as_str(), added.path.as_str()) && targets[i].recursive
            == added.recursive {
            proof {
                assert(before[i as int] == added@);
                assert(before.contains(added@));
            }
            return Ok(());
        }
        i = i + 1;
    }
    let ghost view = added@;
    targets.push(added);
    proof {
        assert(target_views(targets@) =~= before.push(view));
    }
    Ok(())
}

/// The paths that are watched for a rule.
pub open spec fn watch_targets(
    kind: RuleKind,
    bidirectional: bool,
    source: PathView,
    target: PathView,
    source_exists: bool,
    target_exists: bool,
) -> Result<Seq<TargetView>, Seq<char>> {
    let both = match with_side(Seq::empty(), kind, source, source_exists) {
        Err(message) => Err(message),
        Ok(first) => if bidirectional {
            with_side(first, kind, target, target_exists)
        } else {
            Ok(first)
        },
    };
    match both {
        Err(message) => Err(message),
        Ok(targets) => if targets.len() == 0 {
            Err(
                "当前没有可监听的已存在路径，请先创建任一侧目录或开启轮询兜底。"@,
            )
        } else {
            Ok(targets)
        },
    }
}

/// The paths that are watched for a rule: those of its source and, where it
/// works both ways, of its target.
pub fn collect_watch_targets(
    kind: RuleKind,
    bidirectional: bool,
    source: &ParsedPath,
    target: &ParsedPath,
    source_exists: bool,
    target_exists: bool,
) -> (r: Result<Vec<WatchTarget>, String>)
    ensures
        targets_result(r) == watch_targets(
            kind,
            bidirectional,
            source@,
            target@,
            source_exists,
            target_exists,
        ),
{
    let mut targets: Vec<WatchTarget> = Vec::new();
    proof {
        assert(target_views(targets@) =~= Seq::<TargetView>::empty());
    }
    if let Err(message) = append_watch_target(&mut targets, kind, source, source_exists) {
        return Err(message);
    }
    if bidirectional {
        if let Err(message) = append_watch_target(&mut targets, kind, target, target_exists) {
            return Err(message);
        }
    }
    if targets.len() == 0 {
        return Err(
            String::from_str(
                "当前没有可监听的已存在路径，请先创建任一侧目录或开启轮询兜底。",
            ),
        );
    }
    Ok(targets)
}

/// Whether a path belongs to a side of a rule: it is the file, or lies in the folder.
pub open spec fn belongs(kind: RuleKind, side: Seq<ComponentView>, path: Seq<ComponentView>) -> bool {
    match kind {
        RuleKind::File => same_path(path, side),
        RuleKind::Folder => begins_with(path, side),
    }
}

/// Whether a change at a path concerns a rule.
pub open spec fn concerns_rule(
    kind: RuleKind,
    bidirectional: bool,
    source: Seq<ComponentView>,
    target: Seq<ComponentView>,
    path: Seq<ComponentView>,
) -> bool {
    belongs(kind, source, path) || (bidirectional && belongs(kind, target, path))
}

fn belongs_to(kind: RuleKind, side: &Vec<PathComponent>, path: &Vec<PathComponent>) -> (r: bool)
    ensures
        r == belongs(kind, component_views(side@), component_views(path@)),
{
    match kind {
        RuleKind::File => is_same_path(path, side),
        RuleKind::Folder => path_begins_with(path, side),
    }
}

/// Whether a change at any of the paths concerns a rule.
pub fn is_relevant_change(
    kind: RuleKind,
    bidirectional: bool,
    source: &ParsedPath,
    target: &ParsedPath,
    paths: &Vec<ParsedPath>,
) -> (r: bool)
    ensures
        r == (exists|i: int|
            0 <= i < paths@.len() && concerns_rule(
                kind,
                bidirectional,
                source@.components,
                target@.components,
                (#[trigger] paths@[i])@.components,
            )),
{
    let mut i: usize = 0;
    while i < paths.len()
        invariant
            i <= paths@.len(),
            forall|k: int|
                0 <= k < i ==> !concerns_rule(
                    kind,
                    bidirectional,
                    source@.components,
                    target@.components,
                    (#[trigger] paths@[k])@.components,
                ),
        decreases paths@.len() - i,
    {
        if belongs_to(kind, &source.components, &paths[i].components) || (bidirectional
            && belongs_to(kind, &target.components, &paths[i].components)) {
            proof {
                assert(concerns_rule(
                    kind,
                    bidirectional,
                    source@.components,
                    target@.components,
                    paths@[i as int]@.components,
                ));
            }
            return true;
        }
        i = i + 1;
    }
    false
}

/// Every change inside a folder concerns its rule, on both sides of a two-way
/// rule, and on the source's of a one-way rule alone.
pub proof fn changes_inside_a_folder_concern_its_rule(
    bidirectional: bool,
    source: Seq<ComponentView>,
    target: Seq<ComponentView>,
    more: Seq<ComponentView>,
)
    ensures
        concerns_rule(RuleKind::Folder, bidirectional, source, target, source + more),
        bidirectional ==> concerns_rule(
            RuleKind::Folder,
            bidirectional,
            source,
            target,
            target + more,
        ),
        !bidirectional && !begins_with(target + more, source) ==> !concerns_rule(
            RuleKind::Folder,
            bidirectional,
            source,
            target,
            target + more,
        ),
{
    assert forall|i: int| 0 <= i < source.len() implies #[trigger] (source + more)[i]
        == source[i] by {}
    assert forall|i: int| 0 <= i < target.len() implies #[trigger] (target + more)[i]
        == target[i] by {}
}

/// Whether the files of a rule are to be watched.
pub open spec fn wants_watch(rule: RuleView) -> bool {
    rule.enabled && rule.auto_sync && rule.watch_enabled && rule.health == RuleHealth::Healthy
}

/// A rule whose files are to be watched.
#[derive(Debug)]
pub struct WatchJob {
    pub rule_id: String,
    pub name: String,
    pub kind: RuleKind,
    pub bidirectional: bool,
    pub source: ParsedPath,
    pub target: ParsedPath,
}

pub struct JobView {
    pub rule_id: Seq<char>,
    pub name: Seq<char>,
    pub kind: RuleKind,
    pub bidirectional: bool,
    pub source: PathView,
    pub target: PathView,
}

impl View for WatchJob {
    type V = JobView;

    open spec fn view(&self) -> JobView {
        JobView {
            rule_id: self.rule_id@,
            name: self.name@,
            kind: self.kind,
            bidirectional: self.bidirectional,
            source: self.source@,
            target: self.target@,
        }
    }
}

pub open spec fn job_views(jobs: Seq<WatchJob>) -> Seq<JobView> {
    jobs.map_values(|j: WatchJob| j@)
}

/// Whether a job is about a rule.
pub open spec fn is_job_of(rule: RuleView, job: JobView) -> bool {
    &&& job.rule_id == rule.id
    &&& job.name == rule.name
    &&& job.kind == rule.kind
    &&& job.bidirectional == rule.bidirectional
    &&& reads_rule(rule, job.source, job.target)
}

/// The rules whose files are to be watched, in order.
pub open spec fn watched_rules(rules: Seq<RuleView>) -> Seq<RuleView> {
    rules.filter(|r: RuleView| wants_watch(r))
}

/// The rules whose files are to be watched, with their paths read.
pub fn watch_jobs(rules: &Vec<SyncRule>) -> (r: Vec<WatchJob>)
    ensures
        r@.len() == watched_rules(rule_views(rules@)).len(),
        forall|i: int|
            0 <= i < r@.len() ==> is_job_of(
                watched_rules(rule_views(rules@))[i],
                (#[trigger] r@[i])@,
            ),
{
    let ghost all = rule_views(rules@);
    let ghost test = |r: RuleView| wants_watch(r);
    let mut jobs: Vec<WatchJob> = Vec::new();
    let mut i: usize = 0;
    proof {
        reveal(Seq::filter);
        assert(all.take(0).filter(test).len() == 0);
    }
    while i < rules.len()
        invariant
            i <= rules@.len(),
            all == rule_views(rules@),
            test == (|r: RuleView| wants_watch(r)),
            jobs@.len() == all.take(i as int).filter(test).len(),
            forall|k: int|
                0 <= k < jobs@.len() ==> is_job_of(
                    all.take(i as int).filter(test)[k],
                    (#[trigger] jobs@[k])@,
                ),
        decreases rules@.len() - i,
    {
        proof {
            reveal(Seq::filter);
            assert(all.take(i + 1).drop_last() =~= all.take(i as int));
            assert(all.take(i + 1).last() == rules@[i as int]@);
        }
        let rule = &rules[i];
        if rule.enabled && rule.auto_sync && rule.watch_enabled && rule.health
            == RuleHealth::Healthy {
            let separator = main_separator();
            jobs.push(
                WatchJob {
                    rule_id: rule.id.clone(),
                    name: rule.name.clone(),
                    kind: rule.kind,
                    bidirectional: rule.bidirectional,
                    source: ParsedPath::read_with(rule.source_path.as_str(), separator.clone()),
                    target: ParsedPath::read_with(rule.target_path.as_str(), separator),
                },
            );
        }
        i = i + 1;
    }
    proof {
        assert(all.take(all.len() as int) =~= all);
    }
    jobs
}

#[derive(Debug, Clone, Copy, PartialEq, Eq, Structural)]
pub enum RefreshPhase {
    Ready,
    Probe,
    Create,
    Watch,
    Keep,
    Finished,
}

/// What the driver of a refresh reports.
#[derive(Debug)]
pub enum RefreshEvent {
    Begin,
    Exists { source: bool, target: bool },
    Done,
    Failed(String),
}

pub enum RefreshEventView {
    Begin,
    Exists { source: bool, target: bool },
    Done,
    Failed(Seq<char>),
}

impl View for RefreshEvent {
    type V = RefreshEventView;

    open spec fn view(&self) -> RefreshEventView {
        match *self {
            RefreshEvent::Begin => RefreshEventView::Begin,
            RefreshEvent::Exists { source, target } => RefreshEventView::Exists { source, target },
            RefreshEvent::Done => RefreshEventView::Done,
            RefreshEvent::Failed(message) => RefreshEventView::Failed(message@),
        }
    }
}

/// What a refresh asks of its driver.
#[derive(Debug)]
pub enum RefreshAction {
    /// Say which of the paths of the job exist.
    Probe(usize),
    /// Make a watcher for the job.
    CreateWatcher(usize),
    /// Let that watcher watch a path.
    Watch { path: String, recursive: bool },
    /// Keep that watcher for the rule.
    Keep(String),
    /// The refresh is over.
    Finish,
}

pub enum RefreshActionView {
    Probe(int),
    CreateWatcher(int),
    Watch { path: Seq<char>, recursive: bool },
    Keep(Seq<char>),
    Finish,
}

impl View for RefreshAction {
    type V = RefreshActionView;

    open spec fn view(&self) -> RefreshActionView {
        match *self {
            RefreshAction::Probe(i) => RefreshActionView::Probe(i as int),
            RefreshAction::CreateWatcher(i) => RefreshActionView::CreateWatcher(i as int),
            RefreshAction::Watch { path, recursive } => RefreshActionView::Watch {
                path: path@,
                recursive,
            },
            RefreshAction::Keep(rule_id) => RefreshActionView::Keep(rule_id@),
            RefreshAction::Finish => RefreshActionView::Finish,
        }
    }
}

/// A refresh of the watchers of all rules.
#[derive(Debug)]
pub struct WatchRefresh {
    jobs: Vec<WatchJob>,
    position: usize,
    targets: Vec<WatchTarget>,
    next_target: usize,
    failures: KeyedList<String>,
    warnings: Vec<String>,
    phase: RefreshPhase,
}

#[verifier::ext_equal]
pub struct RefreshView {
    pub jobs: Seq<JobView>,
    pub position: int,
    pub targets: Seq<TargetView>,
    pub next_target: int,
    pub failures: Map<Seq<char>, Seq<char>>,
    pub warnings: Seq<Seq<char>>,
    pub phase: RefreshPhase,
}

impl View for WatchRefresh {
    type V = RefreshView;

    closed spec fn view(&self) -> RefreshView {
        RefreshView {
            jobs: job_views(self.jobs@),
            position: self.position as int,
            targets: target_views(self.targets@),
            next_target: self.next_target as int,
            failures: text_table(self.failures@),
            warnings: texts(self.warnings@),
            phase: self.phase,
        }
    }
}

pub open spec fn new_refresh(jobs: Seq<JobView>) -> RefreshView {
    RefreshView {
        jobs,
        position: 0,
        targets: Seq::empty(),
        next_target: 0,
        failures: Map::empty(),
        warnings: Seq::empty(),
        phase: RefreshPhase::Ready,
    }
}

/// The refresh at its next rule.
pub open spec fn refresh_enter(r: RefreshView) -> (RefreshView, RefreshActionView) {
    if r.position >= r.jobs.len() {
        (RefreshView { phase: RefreshPhase::Finished, ..r }, RefreshActionView::Finish)
    } else {
        (
            RefreshView { phase: RefreshPhase::Probe, ..r },
            RefreshActionView::Probe(r.position),
        )
    }
}

/// What the log says of a rule whose files cannot be watched.
pub open spec fn degraded_warning(name: Seq<char>, message: Seq<char>) -> Seq<char> {
    "规则“"@ + name + "”的自动监听已降级，不会阻止应用启动。"@ + message
}

/// The refresh that notes that the files of its rule cannot be watched.
pub open spec fn refresh_failed(r: RefreshView, message: Seq<char>) -> (
    RefreshView,
    RefreshActionView,
) {
    let job = r.jobs[r.position];
    refresh_enter(
        RefreshView {
            failures: r.failures.insert(job.rule_id, message),
            warnings: r.warnings.push(degraded_warning(job.name, message)),
            position: r.position + 1,
            ..r
        },
    )
}

/// The refresh that turns to its next path, or keeps the watcher.
pub open spec fn refresh_targets(r: RefreshView) -> (RefreshView, RefreshActionView) {
    if r.next_target < r.targets.len() {
        let target = r.targets[r.next_target];
        (
            RefreshView { phase: RefreshPhase::Watch, ..r },
            RefreshActionView::Watch { path: target.path, recursive: target.recursive },
        )
    } else {
        (
            RefreshView { phase: RefreshPhase::Keep, ..r },
            RefreshActionView::Keep(r.jobs[r.position].rule_id),
        )
    }
}

/// What a refresh does and asks for next, once `e` was reported to it.
pub open spec fn refresh_next(r: RefreshView, e: RefreshEventView) -> (
    RefreshView,
    RefreshActionView,
) {
    let job = r.jobs[r.position];
    match (r.phase, e) {
        (RefreshPhase::Ready, RefreshEventView::Begin) => refresh_enter(r),
        (RefreshPhase::Probe, RefreshEventView::Exists { source, target }) => match watch_targets(
            job.kind,
            job.bidirectional,
            job.source,
            job.target,
            source,
            target,
        ) {
            Ok(targets) => (
                RefreshView { targets, next_target: 0, phase: RefreshPhase::Create, ..r },
                RefreshActionView::CreateWatcher(r.position),
            ),
            Err(message) => refresh_failed(r, "监听不可用："@ + message),
        },
        (RefreshPhase::Create, RefreshEventView::Done) => refresh_targets(r),
        (RefreshPhase::Create, RefreshEventView::Failed(message)) => refresh_failed(
            r,
            "监听器创建失败："@ + message,
        ),
        (RefreshPhase::Watch, RefreshEventView::Done) => refresh_targets(
            RefreshView { next_target: r.next_target + 1, ..r },
        ),
        (RefreshPhase::Watch, RefreshEventView::Failed(message)) => refresh_failed(
            r,
            "无法监听路径 "@ + r.targets[r.next_target].path + "："@ + message,
        ),
        (RefreshPhase::Keep, RefreshEventView::Done) => refresh_enter(
            RefreshView { position: r.position + 1, ..r },
        ),
        _ => (r, RefreshActionView::Finish),
    }
}

/// Whether `e` is a report on what the refresh has asked for.
pub open spec fn refresh_fits(r: RefreshView, e: RefreshEventView) -> bool {
    match (r.phase, e) {
        (RefreshPhase::Ready, RefreshEventView::Begin) => true,
        (RefreshPhase::Probe, RefreshEventView::Exists { .. }) => true,
        (RefreshPhase::Create, RefreshEventView::Done) => true,
        (RefreshPhase::Create, RefreshEventView::Failed(_)) => true,
        (RefreshPhase::Watch, RefreshEventView::Done) => true,
        (RefreshPhase::Watch, RefreshEventView::Failed(_)) => true,
        (RefreshPhase::Keep, RefreshEventView::Done) => true,
        _ => false,
    }
}

pub open spec fn refresh_ok(r: RefreshView) -> bool {
    &&& 0 <= r.position <= r.jobs.len()
    &&& 0 <= r.next_target <= r.targets.len()
    &&& r.phase == RefreshPhase::Watch ==> r.next_target < r.targets.len()
    &&& (r.phase == RefreshPhase::Probe || r.phase == RefreshPhase::Create || r.phase
        == RefreshPhase::Watch || r.phase == RefreshPhase::Keep) ==> r.position < r.jobs.len()
}

impl WatchRefresh {
    pub closed spec fn wf(self) -> bool {
        refresh_ok(self@) && self.failures.wf()
    }

    /// A refresh for the rules whose files are to be watched.
    pub fn new(jobs: Vec<WatchJob>) -> (r: Self)
        ensures
            r.wf(),
            r@ == new_refresh(job_views(jobs@)),
    {
        let r = WatchRefresh {
            jobs,
            position: 0,
            targets: Vec::new(),
            next_target: 0,
            failures: KeyedList::new(),
            warnings: Vec::new(),
            phase: RefreshPhase::Ready,
        };
        proof {
            assert(r@.failures =~= Map::<Seq<char>, Seq<char>>::empty());
            assert(r@ =~= new_refresh(job_views(jobs@)));
        }
        r
    }

    /// The rule that a request is about.
    pub fn job(&self, index: usize) -> (r: &WatchJob)
        requires
            index < self@.jobs.len(),
        ensures
            r@ == self@.jobs[index as int],
    {
        &self.jobs[index]
    }

    fn enter(&mut self) -> (r: RefreshAction)
        requires
            old(self)@.position <= old(self)@.jobs.len(),
            refresh_ok(RefreshView { phase: RefreshPhase::Ready, ..old(self)@ }),
            old(self).table_ok(),
        ensures
            (final(self)@, r@) == refresh_enter(old(self)@),
            final(self).wf(),
    {
        if self.position >= self.jobs.len() {
            self.phase = RefreshPhase::Finished;
            RefreshAction::Finish
        } else {
            self.phase = RefreshPhase::Probe;
            RefreshAction::Probe(self.position)
        }
    }

    closed spec fn table_ok(self) -> bool {
        self.failures.wf()
    }

    fn fail(&mut self, message: String) -> (r: RefreshAction)
        requires
            old(self).wf(),
            old(self)@.position < old(self)@.jobs.len(),
        ensures
            (final(self)@, r@) == refresh_failed(old(self)@, message@),
            final(self).wf(),
    {
        let ghost here = self@;
        let ghost text = message@;
        let ghost table = self.failures@;
        let at: usize = self.position;
        let mut warning = String::from_str("规则“");
        warning.append(self.jobs[at].name.as_str());
        warning.append("”的自动监听已降级，不会阻止应用启动。");
        warning.append(message.as_str());
        let ghost told = warning@;
        let id = self.jobs[at].rule_id.clone();
        let ghost key = id@;
        self.failures.insert(id, message);
        self.warnings.push(warning);
        proof {
            assert(self.jobs.len() <= usize::MAX);
        }
        self.position = at + 1;
        proof {
            assert(text_table(table.insert(key, message)) =~= text_table(table).insert(key, text));
            assert(self@.warnings =~= here.warnings.push(told));
            assert(self@ =~= (RefreshView {
                failures: here.failures.insert(key, text),
                warnings: here.warnings.push(told),
                position: here.position + 1,
                ..here
            }));
        }
        self.enter()
    }

    fn turn_to_target(&mut self) -> (r: RefreshAction)
        requires
            refresh_ok(RefreshView { phase: RefreshPhase::Ready, ..old(self)@ }),
            old(self).table_ok(),
            old(self)@.position < old(self)@.jobs.len(),
        ensures
            (final(self)@, r@) == refresh_targets(old(self)@),
            final(self).wf(),
    {
        if self.next_target < self.targets.len() {
            self.phase = RefreshPhase::Watch;
            let target = &self.targets[self.next_target];
            RefreshAction::Watch { path: target.path.clone(), recursive: target.recursive }
        } else {
            self.phase = RefreshPhase::Keep;
            RefreshAction::Keep(self.jobs[self.position].rule_id.clone())
        }
    }

    /// Takes the report on what the refresh has asked for, and asks for the next step.
    pub fn refresh_watchers(&mut self, event: RefreshEvent) -> (r: RefreshAction)
        requires
            old(self).wf(),
            refresh_fits(old(self)@, event@),
        ensures
            (final(self)@, r@) == refresh_next(old(self)@, event@),
            final(self).wf(),
    {
        let ghost here = self@;
        match (self.phase, event) {
            (RefreshPhase::Ready, RefreshEvent::Begin) => self.enter(),
            (RefreshPhase::Probe, RefreshEvent::Exists { source, target }) => {
                let at: usize = self.position;
                let found = collect_watch_targets(
                    self.jobs[at].kind,
                    self.jobs[at].bidirectional,
                    &self.jobs[at].source,
                    &self.jobs[at].target,
                    source,
                    target,
                );
                match found {
                    Ok(targets) => {
                        self.targets = targets;
                        self.next_target = 0;
                        self.phase = RefreshPhase::Create;
                        RefreshAction::CreateWatcher(at)
                    },
                    Err(message) => {
                        let mut text = String::from_str("监听不可用：");
                        text.append(message.as_str());
                        self.fail(text)
                    },
                }
            },
            (RefreshPhase::Create, RefreshEvent::Done) => self.turn_to_target(),
            (RefreshPhase::Create, RefreshEvent::Failed(message)) => {
                let mut text = String::from_str("监听器创建失败：");
                text.append(message.as_str());
                self.fail(text)
            },
            (RefreshPhase::Watch, RefreshEvent::Done) => {
                proof {
                    assert(self.targets.len() <= usize::MAX);
                }
                self.next_target = self.next_target + 1;
                self.turn_to_target()
            },
            (RefreshPhase::Watch, RefreshEvent::Failed(message)) => {
                let mut text = String::from_str("无法监听路径 ");
                text.append(self.targets[self.next_target].path.as_str());
                text.append("：");
                text.append(message.as_str());
                self.fail(text)
            },
            (RefreshPhase::Keep, RefreshEvent::Done) => {
                proof {
                    assert(self.jobs.len() <= usize::MAX);
                }
                self.position = self.position + 1;
                self.enter()
            },
            _ => RefreshAction::Finish,
        }
    }

    /// Whether `event` is a report on what the refresh has asked for.
    pub fn accepts(&self, event: &RefreshEvent) -> (r: bool)
        ensures
            r == refresh_fits(self@, event@),
    {
        match (self.phase, event) {
            (RefreshPhase::Ready, RefreshEvent::Begin) => true,
            (RefreshPhase::Probe, RefreshEvent::Exists { .. }) => true,
            (RefreshPhase::Create, RefreshEvent::Done) => true,
            (RefreshPhase::Create, RefreshEvent::Failed(_)) => true,
            (RefreshPhase::Watch, RefreshEvent::Done) => true,
            (RefreshPhase::Watch, RefreshEvent::Failed(_)) => true,
            (RefreshPhase::Keep, RefreshEvent::Done) => true,
            _ => false,
        }
    }

    /// What could not be watched, and what the log is to say of it.
    pub fn into_parts(self) -> (r: (KeyedList<String>, Vec<String>))
        requires
            self.wf(),
        ensures
            r.0.wf(),
            text_table(r.0@) == self@.failures,
            texts(r.1@) == self@.warnings,
    {
        (self.failures, self.warnings)
    }
}

/// A moment of a refresh.
pub struct RefreshMoment {
    pub event: RefreshEventView,
    pub run: RefreshView,
    pub action: RefreshActionView,
}

/// Whether `moments` is a refresh for the jobs.
pub open spec fn is_refresh(jobs: Seq<JobView>, moments: Seq<RefreshMoment>) -> bool {
    &&& moments.len() > 0
    &&& (moments[0].run, moments[0].action) == refresh_next(
        new_refresh(jobs),
        RefreshEventView::Begin,
    )
    &&& forall|i: int|
        0 < i < moments.len() ==> refresh_follows(moments[i - 1], #[trigger] moments[i])
}

/// Whether `b` comes right after `a`.
#[verifier::opaque]
pub open spec fn refresh_follows(a: RefreshMoment, b: RefreshMoment) -> bool {
    refresh_fits(a.run, b.event) && (b.run, b.action) == refresh_next(a.run, b.event)
}

/// Whether a refresh asked, up to a moment, to keep a watcher for a rule.
pub open spec fn kept(moments: Seq<RefreshMoment>, upto: int, id: Seq<char>) -> bool {
    exists|i: int| 0 <= i <= upto && (#[trigger] moments[i]).action == RefreshActionView::Keep(id)
}

proof fn lemma_refresh_moment(jobs: Seq<JobView>, moments: Seq<RefreshMoment>, i: int)
    requires
        is_refresh(jobs, moments),
        0 <= i < moments.len(),
    ensures
        refresh_moment_ok(jobs, moments[i]),
    decreases i,
{
    if i > 0 {
        lemma_refresh_moment(jobs, moments, i - 1);
        lemma_refresh_step(jobs, moments[i - 1], moments[i]);
    }
}

spec fn refresh_moment_ok(jobs: Seq<JobView>, m: RefreshMoment) -> bool {
    &&& refresh_ok(m.run)
    &&& m.run.jobs == jobs
    &&& m.run.phase != RefreshPhase::Ready
    &&& m.run.phase == RefreshPhase::Finished <==> m.action == RefreshActionView::Finish
    &&& m.run.phase == RefreshPhase::Finished ==> m.run.position == jobs.len()
    &&& m.run.phase == RefreshPhase::Keep ==> m.action == RefreshActionView::Keep(
        jobs[m.run.position].rule_id,
    )
}

proof fn lemma_refresh_step(jobs: Seq<JobView>, a: RefreshMoment, b: RefreshMoment)
    requires
        refresh_moment_ok(jobs, a),
        refresh_follows(a, b),
    ensures
        refresh_moment_ok(jobs, b),
        b.run.position == a.run.position || b.run.position == a.run.position + 1,
        forall|id: Seq<char>|
            a.run.failures.dom().contains(id) ==> #[trigger] b.run.failures.dom().contains(id),
        b.run.position == a.run.position + 1 ==> a.run.phase == RefreshPhase::Keep
            || b.run.failures.dom().contains(jobs[a.run.position].rule_id),
        a.run.phase == RefreshPhase::Keep ==> b.run.position == a.run.position + 1
            && b.run.failures == a.run.failures,
        b.run.failures != a.run.failures ==> b.run.position == a.run.position + 1
            && b.run.failures.dom() == a.run.failures.dom().insert(jobs[a.run.position].rule_id),
        forall|id: Seq<char>|
            b.action == RefreshActionView::Keep(id) ==> b.run.phase == RefreshPhase::Keep && id
                == jobs[b.run.position].rule_id,
{
    reveal(refresh_follows);
}

proof fn lemma_refresh_covers(jobs: Seq<JobView>, moments: Seq<RefreshMoment>, i: int, j: int)
    requires
        is_refresh(jobs, moments),
        0 <= i < moments.len(),
        0 <= j < moments[i].run.position,
    ensures
        moments[i].run.failures.dom().contains(jobs[j].rule_id) || kept(
            moments,
            i,
            jobs[j].rule_id,
        ),
    decreases i,
{
    if i > 0 {
        let a = moments[i - 1];
        let b = moments[i];
        lemma_refresh_moment(jobs, moments, i - 1);
        lemma_refresh_step(jobs, a, b);
        if j < a.run.position {
            lemma_refresh_covers(jobs, moments, i - 1, j);
            if kept(moments, i - 1, jobs[j].rule_id) {
                let m = choose|m: int|
                    0 <= m <= i - 1 && (#[trigger] moments[m]).action == RefreshActionView::Keep(
                        jobs[j].rule_id,
                    );
                assert(moments[m].action == RefreshActionView::Keep(jobs[j].rule_id));
            }
        } else if a.run.phase == RefreshPhase::Keep {
            assert(moments[i - 1].action == RefreshActionView::Keep(jobs[j].rule_id));
        }
    }
}

/// A rule that a refresh has reported or asked to keep a watcher for is one of
/// those that it came past, and none is both, as long as their ids differ.
proof fn lemma_refresh_is_exact(
    jobs: Seq<JobView>,
    moments: Seq<RefreshMoment>,
    i: int,
    id: Seq<char>,
)
    requires
        is_refresh(jobs, moments),
        0 <= i < moments.len(),
    ensures
        moments[i].run.failures.dom().contains(id) ==> exists|j: int|
            0 <= j < moments[i].run.position && (#[trigger] jobs[j]).rule_id == id,
        kept(moments, i, id) ==> exists|j: int|
            0 <= j <= moments[i].run.position && j < jobs.len() && (#[trigger] jobs[j]).rule_id
                == id && (j == moments[i].run.position ==> moments[i].run.phase
                == RefreshPhase::Keep),
        ids_differ(jobs) ==> !(moments[i].run.failures.dom().contains(id) && kept(moments, i, id)),
    decreases i,
{
    lemma_refresh_moment(jobs, moments, i);
    let b = moments[i];
    if i == 0 {
        if kept(moments, 0, id) {
            let m = choose|m: int|
                0 <= m <= 0 && (#[trigger] moments[m]).action == RefreshActionView::Keep(id);
            assert(moments[m].action == RefreshActionView::Keep(id));
        }
    } else {
        let a = moments[i - 1];
        lemma_refresh_moment(jobs, moments, i - 1);
        lemma_refresh_is_exact(jobs, moments, i - 1, id);
        lemma_refresh_step(jobs, a, b);
        let p = a.run.position;
        if kept(moments, i, id) && !kept(moments, i - 1, id) {
            let m = choose|m: int|
                0 <= m <= i && (#[trigger] moments[m]).action == RefreshActionView::Keep(id);
            assert(m == i);
            assert(jobs[b.run.position].rule_id == id);
        }
        if b.run.failures.dom().contains(id) && !a.run.failures.dom().contains(id) {
            assert(jobs[p].rule_id == id);
        }
        if kept(moments, i, id) && kept(moments, i - 1, id) {
            let j = choose|j: int|
                0 <= j <= p && j < jobs.len() && (#[trigger] jobs[j]).rule_id == id && (j == p
                    ==> a.run.phase == RefreshPhase::Keep);
            assert(jobs[j].rule_id == id);
        }
        if b.run.failures.dom().contains(id) && a.run.failures.dom().contains(id) {
            let j = choose|j: int| 0 <= j < p && (#[trigger] jobs[j]).rule_id == id;
            assert(jobs[j].rule_id == id);
        }
    }
}

/// Whether no two jobs are those of one rule.
pub open spec fn ids_differ(jobs: Seq<JobView>) -> bool {
    forall|i: int, j: int|
        0 <= i < j < jobs.len() ==> (#[trigger] jobs[i]).rule_id != (#[trigger] jobs[j]).rule_id
}

/// After a refresh every rule whose files are to be watched has a watcher, or
/// it is known why not.
pub proof fn every_rule_is_watched_or_reported(jobs: Seq<JobView>, moments: Seq<RefreshMoment>, j: int)
    requires
        is_refresh(jobs, moments),
        moments.last().action == RefreshActionView::Finish,
        0 <= j < jobs.len(),
    ensures
        moments.last().run.failures.dom().contains(jobs[j].rule_id) || kept(
            moments,
            moments.len() - 1,
            jobs[j].rule_id,
        ),
{
    lemma_refresh_moment(jobs, moments, moments.len() - 1);
    lemma_refresh_covers(jobs, moments, moments.len() - 1, j);
}

/// At every moment of a refresh, a rule that has a watcher or is reported is
/// one of those whose files are to be watched.
pub proof fn only_the_rules_at_hand_are_watched(
    jobs: Seq<JobView>,
    moments: Seq<RefreshMoment>,
    i: int,
    id: Seq<char>,
)
    requires
        is_refresh(jobs, moments),
        0 <= i < moments.len(),
        moments[i].run.failures.dom().contains(id) || kept(moments, i, id),
    ensures
        exists|j: int| 0 <= j < jobs.len() && (#[trigger] jobs[j]).rule_id == id,
{
    lemma_refresh_moment(jobs, moments, i);
    lemma_refresh_is_exact(jobs, moments, i, id);
}

/// At every moment of a refresh, no rule has a watcher and is reported all the
/// same.
pub proof fn no_rule_is_watched_and_reported(
    jobs: Seq<JobView>,
    moments: Seq<RefreshMoment>,
    i: int,
    id: Seq<char>,
)
    requires
        is_refresh(jobs, moments),
        ids_differ(jobs),
        0 <= i < moments.len(),
    ensures
        !(moments[i].run.failures.dom().contains(id) && kept(moments, i, id)),
{
    lemma_refresh_is_exact(jobs, moments, i, id);
}

/// A refresh takes every report on what it has asked for: on what exists, on a
/// watcher that was made or not, on a path that is watched or not, and on a
/// watcher that was kept.
pub proof fn every_refresh_report_is_taken(
    r: RefreshView,
    e: RefreshEventView,
    source: bool,
    target: bool,
    message: Seq<char>,
)
    requires
        refresh_ok(r),
        refresh_fits(r, e),
    ensures
        ({
            let (after, asks) = refresh_next(r, e);
            &&& asks is Probe ==> refresh_fits(after, RefreshEventView::Exists { source, target })
            &&& asks is CreateWatcher || asks is Watch ==> refresh_fits(
                after,
                RefreshEventView::Done,
            ) && refresh_fits(after, RefreshEventView::Failed(message))
            &&& asks is Keep ==> refresh_fits(after, RefreshEventView::Done)
        }),
        refresh_fits(new_refresh(r.jobs), RefreshEventView::Begin),
{
}

} // verus!
