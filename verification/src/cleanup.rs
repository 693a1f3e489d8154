//! Removing the backups of a rule, as a machine that asks for one step at a time.
use crate::clock::{current_time, Timestamp};
use crate::models::{
    candidate_views, CandidateView, CleanupCandidate, CleanupCandidateKind, CleanupPreview,
    RuleView, SyncRule, SyncTrigger,
};
use crate::outcome::{
    build_outcome_at, cleanup_message, cleanup_text, counts_result, outcome_of, OutcomeView,
    RuleRunOutcome,
};
use crate::sync_engine::{no_counts, RunCounts};
use vstd::prelude::*;
use vstd::string::*;

verus! {

broadcast use vstd::string::group_string_axioms;

/// What the driver of a cleanup reports.
#[derive(Debug)]
pub enum CleanupEvent {
    Begin,
    /// Whether there is anything at a path.
    Exists(bool),
    Done,
    Failed(String),
}

pub enum CleanupEventView {
    Begin,
    Exists(bool),
    Done,
    Failed(Seq<char>),
}

impl View for CleanupEvent {
    type V = CleanupEventView;

    open spec fn view(&self) -> CleanupEventView {
        match *self {
            CleanupEvent::Begin => CleanupEventView::Begin,
            CleanupEvent::Exists(there) => CleanupEventView::Exists(there),
            CleanupEvent::Done => CleanupEventView::Done,
            CleanupEvent::Failed(message) => CleanupEventView::Failed(message@),
        }
    }
}

/// What a cleanup asks of its driver.
#[derive(Debug)]
pub enum CleanupAction {
    /// Say whether there is anything at the path.
    Probe(String),
    /// Remove the file.
    RemoveFile(String),
    /// Remove the folder and everything in it.
    RemoveFolder(String),
    /// The cleanup is over.
    Finish(Result<RunCounts, String>),
}

pub enum CleanupActionView {
    Probe(Seq<char>),
    RemoveFile(Seq<char>),
    RemoveFolder(Seq<char>),
    Finish(Result<RunCounts, Seq<char>>),
}

impl View for CleanupAction {
    type V = CleanupActionView;

    open spec fn view(&self) -> CleanupActionView {
        match *self {
            CleanupAction::Probe(path) => CleanupActionView::Probe(path@),
            CleanupAction::RemoveFile(path) => CleanupActionView::RemoveFile(path@),
            CleanupAction::RemoveFolder(path) => CleanupActionView::RemoveFolder(path@),
            CleanupAction::Finish(result) => CleanupActionView::Finish(counts_result(result)),
        }
    }
}

#[derive(Debug, Clone, Copy, PartialEq, Eq, Structural)]
pub enum CleanupPhase {
    Ready,
    Probe,
    Remove,
    Finished,
}

/// A cleanup of the backups of a rule.
#[derive(Debug)]
pub struct CleanupRun {
    candidates: Vec<CleanupCandidate>,
    position: usize,
    deleted: usize,
    phase: CleanupPhase,
}

#[verifier::ext_equal]
pub struct CleanupView {
    pub candidates: Seq<CandidateView>,
    pub position: int,
    pub deleted: usize,
    pub phase: CleanupPhase,
}

impl View for CleanupRun {
    type V = CleanupView;

    closed spec fn view(&self) -> CleanupView {
        CleanupView {
            candidates: candidate_views(self.candidates@),
            position: self.position as int,
            deleted: self.deleted,
            phase: self.phase,
        }
    }
}

pub open spec fn new_cleanup(candidates: Seq<CandidateView>) -> CleanupView {
    CleanupView { candidates, position: 0, deleted: 0, phase: CleanupPhase::Ready }
}

/// The counts of a cleanup that removed so many backups.
pub open spec fn deleted_counts(deleted: usize) -> RunCounts {
    RunCounts { deleted_count: deleted, ..no_counts() }
}

/// The cleanup at its next backup.
pub open spec fn cleanup_enter(c: CleanupView) -> (CleanupView, CleanupActionView) {
    if c.position >= c.candidates.len() {
        (
            CleanupView { phase: CleanupPhase::Finished, ..c },
            CleanupActionView::Finish(Ok(deleted_counts(c.deleted))),
        )
    } else {
        (
            CleanupView { phase: CleanupPhase::Probe, ..c },
            CleanupActionView::Probe(c.candidates[c.position].path),
        )
    }
}

/// What a cleanup does and asks for next, once `e` was reported to it.
pub open spec fn cleanup_next(c: CleanupView, e: CleanupEventView) -> (CleanupView, CleanupActionView) {
    match (c.phase, e) {
        (CleanupPhase::Ready, CleanupEventView::Begin) => cleanup_enter(c),
        (CleanupPhase::Probe, CleanupEventView::Exists(there)) => if there {
            let candidate = c.candidates[c.position];
            (
                CleanupView { phase: CleanupPhase::Remove, ..c },
                match candidate.kind {
                    CleanupCandidateKind::File => CleanupActionView::RemoveFile(candidate.path),
                    CleanupCandidateKind::Folder => CleanupActionView::RemoveFolder(candidate.path),
                },
            )
        } else {
            cleanup_enter(CleanupView { position: c.position + 1, ..c })
        },
        (CleanupPhase::Remove, CleanupEventView::Done) => cleanup_enter(
            CleanupView {
                position: c.position + 1,
                deleted: (c.deleted + 1) as usize,
                ..c
            },
        ),
        (_, CleanupEventView::Failed(message)) => (
            CleanupView { phase: CleanupPhase::Finished, ..c },
            CleanupActionView::Finish(Err(message)),
        ),
        _ => (c, CleanupActionView::Finish(Err(Seq::empty()))),
    }
}

/// Whether `e` is a report on what the cleanup has asked for.
pub open spec fn cleanup_fits(c: CleanupView, e: CleanupEventView) -> bool {
    match (c.phase, e) {
        (CleanupPhase::Ready, CleanupEventView::Begin) => true,
        (CleanupPhase::Probe, CleanupEventView::Exists(_)) => true,
        (CleanupPhase::Remove, CleanupEventView::Done) => true,
        (CleanupPhase::Remove, CleanupEventView::Failed(_)) => true,
        _ => false,
    }
}

pub open spec fn cleanup_ok(c: CleanupView) -> bool {
    &&& 0 <= c.deleted <= c.position <= c.candidates.len() <= usize::MAX
    &&& (c.phase == CleanupPhase::Probe || c.phase == CleanupPhase::Remove) ==> c.position
        < c.candidates.len()
}

impl CleanupRun {
    pub open spec fn wf(self) -> bool {
        cleanup_ok(self@)
    }

    /// The cleanup that a preview shows.
    pub fn new(preview: CleanupPreview) -> (r: Self)
        ensures
            r@ == new_cleanup(preview@.candidates),
            r.wf(),
    {
        let candidates = preview.candidates;
        proof {
            assert(candidates.len() <= usize::MAX);
        }
        CleanupRun { candidates, position: 0, deleted: 0, phase: CleanupPhase::Ready }
    }

    fn enter(&mut self) -> (r: CleanupAction)
        requires
            0 <= old(self)@.deleted <= old(self)@.position <= old(self)@.candidates.len()
                <= usize::MAX,
        ensures
            (final(self)@, r@) == cleanup_enter(old(self)@),
            final(self).wf(),
    {
        if self.position >= self.candidates.len() {
            self.phase = CleanupPhase::Finished;
            let mut counts = RunCounts::default();
            counts.deleted_count = self.deleted;
            CleanupAction::Finish(Ok(counts))
        } else {
            self.phase = CleanupPhase::Probe;
            CleanupAction::Probe(self.candidates[self.position].path.clone())
        }
    }

    /// Takes the report on what the cleanup has asked for, and asks for the next step.
    pub fn step(&mut self, event: CleanupEvent) -> (r: CleanupAction)
        requires
            old(self).wf(),
            cleanup_fits(old(self)@, event@),
        ensures
            (final(self)@, r@) == cleanup_next(old(self)@, event@),
            final(self).wf(),
    {
        let ghost here = self@;
        match (self.phase, event) {
            (CleanupPhase::Ready, CleanupEvent::Begin) => self.enter(),
            (CleanupPhase::Probe, CleanupEvent::Exists(there)) => {
                if there {
                    self.phase = CleanupPhase::Remove;
                    let candidate = &self.candidates[self.position];
                    match candidate.kind {
                        CleanupCandidateKind::File => CleanupAction::RemoveFile(
                            candidate.path.clone(),
                        ),
                        CleanupCandidateKind::Folder => CleanupAction::RemoveFolder(
                            candidate.path.clone(),
                        ),
                    }
                } else {
                    self.position = self.position + 1;
                    self.enter()
                }
            },
            (CleanupPhase::Remove, CleanupEvent::Done) => {
                self.position = self.position + 1;
                self.deleted = self.deleted + 1;
                self.enter()
            },
            (_, CleanupEvent::Failed(message)) => {
                self.phase = CleanupPhase::Finished;
                CleanupAction::Finish(Err(message))
            },
            _ => CleanupAction::Finish(Err(String::new())),
        }
    }

    /// Whether `event` is a report on what the cleanup has asked for.
    pub fn accepts(&self, event: &CleanupEvent) -> (r: bool)
        ensures
            r == cleanup_fits(self@, event@),
    {
        match (self.phase, event) {
            (CleanupPhase::Ready, CleanupEvent::Begin) => true,
            (CleanupPhase::Probe, CleanupEvent::Exists(_)) => true,
            (CleanupPhase::Remove, CleanupEvent::Done) => true,
            (CleanupPhase::Remove, CleanupEvent::Failed(_)) => true,
            _ => false,
        }
    }
}

pub open spec fn outcome_result(r: Result<RuleRunOutcome, String>) -> Result<OutcomeView, Seq<char>> {
    match r {
        Ok(outcome) => Ok(outcome@),
        Err(message) => Err(message@),
    }
}

/// What is reported of a cleanup that ended with `result`.
pub open spec fn cleanup_outcome(
    rule: RuleView,
    started: Timestamp,
    finished: Timestamp,
    result: Result<RunCounts, Seq<char>>,
) -> Result<OutcomeView, Seq<char>> {
    match result {
        Ok(counts) => Ok(
            outcome_of(
                rule,
                SyncTrigger::Cleanup,
                started,
                finished,
                true,
                cleanup_text(counts.deleted_count),
                counts,
            ),
        ),
        Err(message) => Err(message),
    }
}

/// What is reported of a cleanup that ended at a given time with `result`; one
/// that failed leaves no trace but its error.
pub fn execute_rule_cleanup_at(
    rule: &SyncRule,
    started: Timestamp,
    finished: Timestamp,
    result: Result<RunCounts, String>,
) -> (r: Result<RuleRunOutcome, String>)
    requires
        started.in_calendar(),
        finished.in_calendar(),
    ensures
        outcome_result(r) == cleanup_outcome(rule@, started, finished, counts_result(result)),
{
    match result {
        Ok(counts) => {
            let message = cleanup_message(counts.deleted_count);
            Ok(
                build_outcome_at(
                    rule,
                    SyncTrigger::Cleanup,
                    started,
                    finished,
                    true,
                    message,
                    counts,
                ),
            )
        },
        Err(message) => Err(message),
    }
}

/// What is reported of a cleanup that ends now with `result`.
pub fn execute_rule_cleanup(rule: &SyncRule, started: Timestamp, result: Result<RunCounts, String>) -> (r:
    Result<RuleRunOutcome, String>)
    requires
        started.in_calendar(),
    ensures
        exists|finished: Timestamp|
            finished.in_calendar() && outcome_result(r) == #[trigger] cleanup_outcome(
                rule@,
                started,
                finished,
                counts_result(result),
            ),
{
    let finished = current_time();
    execute_rule_cleanup_at(rule, started, finished, result)
}

/// What a backup that is removed takes with it: itself and, for a folder, what
/// lies inside. `inside(q, p)` says that `q` lies inside `p`.
pub open spec fn takes(
    inside: spec_fn(Seq<char>, Seq<char>) -> bool,
    candidate: CandidateView,
    path: Seq<char>,
) -> bool {
    path == candidate.path || (candidate.kind == CleanupCandidateKind::Folder && inside(
        path,
        candidate.path,
    ))
}

/// Whether a driver that is asked for `a` while `w` are the paths that exist
/// may report `e` and leave `w2`.
pub open spec fn cleanup_answers(
    inside: spec_fn(Seq<char>, Seq<char>) -> bool,
    w: Set<Seq<char>>,
    a: CleanupActionView,
    w2: Set<Seq<char>>,
    e: CleanupEventView,
) -> bool {
    match (a, e) {
        (CleanupActionView::Probe(path), CleanupEventView::Exists(there)) => w2 == w && there
            == w.contains(path),
        (CleanupActionView::RemoveFile(path), CleanupEventView::Done) => w2 == w.remove(path),
        (CleanupActionView::RemoveFolder(path), CleanupEventView::Done) => forall|q: Seq<char>| #[trigger]
            w2.contains(q) <==> w.contains(q) && q != path && !inside(q, path),
        (_, CleanupEventView::Failed(_)) => w2.subset_of(w),
        _ => false,
    }
}

/// A moment of a cleanup.
pub struct CleanupMoment {
    pub event: CleanupEventView,
    pub paths: Set<Seq<char>>,
    pub run: CleanupView,
    pub action: CleanupActionView,
}

/// Whether `moments` is a cleanup that begins while `w` are the paths that exist.
pub open spec fn is_cleanup(
    inside: spec_fn(Seq<char>, Seq<char>) -> bool,
    candidates: Seq<CandidateView>,
    w: Set<Seq<char>>,
    moments: Seq<CleanupMoment>,
) -> bool {
    &&& moments.len() > 0
    &&& candidates.len() <= usize::MAX
    &&& moments[0].paths == w
    &&& (moments[0].run, moments[0].action) == cleanup_next(
        new_cleanup(candidates),
        CleanupEventView::Begin,
    )
    &&& forall|i: int|
        0 < i < moments.len() ==> cleanup_follows(inside, moments[i - 1], #[trigger] moments[i])
}

pub open spec fn cleanup_follows(
    inside: spec_fn(Seq<char>, Seq<char>) -> bool,
    a: CleanupMoment,
    b: CleanupMoment,
) -> bool {
    &&& cleanup_fits(a.run, b.event)
    &&& cleanup_answers(inside, a.paths, a.action, b.paths, b.event)
    &&& (b.run, b.action) == cleanup_next(a.run, b.event)
}

spec fn cleanup_inv(
    inside: spec_fn(Seq<char>, Seq<char>) -> bool,
    candidates: Seq<CandidateView>,
    w: Set<Seq<char>>,
    m: CleanupMoment,
) -> bool {
    let c = m.run;
    &&& cleanup_ok(c)
    &&& c.candidates == candidates
    &&& m.paths.subset_of(w)
    &&& match c.phase {
        CleanupPhase::Ready => false,
        CleanupPhase::Probe => m.action == CleanupActionView::Probe(candidates[c.position].path),
        CleanupPhase::Remove => m.action == match candidates[c.position].kind {
            CleanupCandidateKind::File => CleanupActionView::RemoveFile(
                candidates[c.position].path,
            ),
            CleanupCandidateKind::Folder => CleanupActionView::RemoveFolder(
                candidates[c.position].path,
            ),
        },
        CleanupPhase::Finished => m.action matches CleanupActionView::Finish(result) && (
        result matches Ok(counts) ==> c.position == candidates.len() && counts == deleted_counts(
            c.deleted,
        )),
    }
    &&& (m.action matches CleanupActionView::Finish(Err(_))) || {
        &&& forall|i: int|
            0 <= i < c.position ==> !m.paths.contains((#[trigger] candidates[i]).path)
        &&& forall|q: Seq<char>|
            w.contains(q) && !(#[trigger] m.paths.contains(q)) ==> exists|i: int|
                0 <= i < c.position && takes(inside, #[trigger] candidates[i], q)
    }
}

proof fn lemma_cleanup_moment(
    inside: spec_fn(Seq<char>, Seq<char>) -> bool,
    candidates: Seq<CandidateView>,
    w: Set<Seq<char>>,
    moments: Seq<CleanupMoment>,
    i: int,
)
    requires
        is_cleanup(inside, candidates, w, moments),
        0 <= i < moments.len(),
    ensures
        cleanup_inv(inside, candidates, w, moments[i]),
    decreases i,
{
    if i > 0 {
        lemma_cleanup_moment(inside, candidates, w, moments, i - 1);
        let a = moments[i - 1];
        let b = moments[i];
        assert(cleanup_follows(inside, a, b));
        let p = a.run.position;
        if a.run.phase == CleanupPhase::Remove && b.event is Done {
            assert forall|q: Seq<char>|
                w.contains(q) && !(#[trigger] b.paths.contains(q)) implies exists|j: int|
                0 <= j < b.run.position && takes(inside, #[trigger] candidates[j], q) by {
                if a.paths.contains(q) {
                    assert(takes(inside, candidates[p], q));
                } else {
                    let j = choose|j: int|
                        0 <= j < p && takes(inside, #[trigger] candidates[j], q);
                    assert(takes(inside, candidates[j], q));
                }
            }
        }
        if a.run.phase == CleanupPhase::Probe && b.event is Exists {
            assert forall|q: Seq<char>|
                w.contains(q) && !(#[trigger] b.paths.contains(q)) implies exists|j: int|
                0 <= j < b.run.position && takes(inside, #[trigger] candidates[j], q) by {
                let j = choose|j: int| 0 <= j < p && takes(inside, #[trigger] candidates[j], q);
                assert(takes(inside, candidates[j], q));
            }
        }
    }
}

/// A cleanup that succeeds leaves none of the backups that it was to remove,
/// and takes nothing away but those backups and what lies inside them.
pub proof fn finished_cleanup_removed_its_candidates(
    inside: spec_fn(Seq<char>, Seq<char>) -> bool,
    candidates: Seq<CandidateView>,
    w: Set<Seq<char>>,
    moments: Seq<CleanupMoment>,
)
    requires
        is_cleanup(inside, candidates, w, moments),
        moments.last().action matches CleanupActionView::Finish(Ok(_)),
    ensures
        forall|i: int|
            0 <= i < candidates.len() ==> !moments.last().paths.contains(
                (#[trigger] candidates[i]).path,
            ),
        forall|q: Seq<char>|
            w.contains(q) && !(#[trigger] moments.last().paths.contains(q)) ==> exists|i: int|
                0 <= i < candidates.len() && takes(inside, #[trigger] candidates[i], q),
{
    lemma_cleanup_moment(inside, candidates, w, moments, moments.len() - 1);
}

/// The paths of backups, each of them once.
pub open spec fn candidate_paths(candidates: Seq<CandidateView>) -> Set<Seq<char>> {
    candidates.map_values(|c: CandidateView| c.path).to_set()
}

/// Whether every backup is there, and what lies inside a folder comes before
/// the folder.
pub open spec fn ready_for_cleanup(
    inside: spec_fn(Seq<char>, Seq<char>) -> bool,
    candidates: Seq<CandidateView>,
    w: Set<Seq<char>>,
) -> bool {
    &&& forall|i: int| 0 <= i < candidates.len() ==> w.contains((#[trigger] candidates[i]).path)
    &&& forall|i: int, j: int|
        0 <= i < candidates.len() && 0 <= j < candidates.len() && (#[trigger] candidates[i]).kind
            == CleanupCandidateKind::Folder && inside(
            (#[trigger] candidates[j]).path,
            candidates[i].path,
        ) ==> j < i
}

/// The paths of backups are those of the candidates, and there are finitely many.
pub proof fn lemma_candidate_paths(candidates: Seq<CandidateView>, q: Seq<char>)
    ensures
        candidate_paths(candidates).contains(q) <==> exists|i: int|
            0 <= i < candidates.len() && (#[trigger] candidates[i]).path == q,
        candidate_paths(candidates).finite(),
{
    let paths = candidates.map_values(|c: CandidateView| c.path);
    vstd::seq_lib::seq_to_set_is_finite(paths);
    if paths.contains(q) {
        let i = choose|i: int| 0 <= i < paths.len() && paths[i] == q;
        assert(candidates[i].path == q);
    }
    if exists|i: int| 0 <= i < candidates.len() && (#[trigger] candidates[i]).path == q {
        let i = choose|i: int| 0 <= i < candidates.len() && (#[trigger] candidates[i]).path == q;
        assert(paths[i] == q);
    }
}

proof fn lemma_one_more_path(candidates: Seq<CandidateView>, n: int)
    requires
        0 <= n < candidates.len(),
    ensures
        candidate_paths(candidates.take(n + 1)) == candidate_paths(candidates.take(n)).insert(
            candidates[n].path,
        ),
        candidate_paths(candidates.take(n)).finite(),
{
    let before = candidates.take(n).map_values(|c: CandidateView| c.path);
    let after = candidates.take(n + 1).map_values(|c: CandidateView| c.path);
    assert(after =~= before.push(candidates[n].path));
    before.lemma_push_to_set_commute(candidates[n].path);
    vstd::seq_lib::seq_to_set_is_finite(before);
}

proof fn lemma_cleanup_counts(
    inside: spec_fn(Seq<char>, Seq<char>) -> bool,
    candidates: Seq<CandidateView>,
    w: Set<Seq<char>>,
    moments: Seq<CleanupMoment>,
    i: int,
)
    requires
        is_cleanup(inside, candidates, w, moments),
        ready_for_cleanup(inside, candidates, w),
        0 <= i < moments.len(),
        !(moments[i].action matches CleanupActionView::Finish(Err(_))),
    ensures
        moments[i].run.deleted == candidate_paths(
            candidates.take(moments[i].run.position),
        ).len(),
        moments[i].run.phase == CleanupPhase::Remove ==> moments[i].paths.contains(
            candidates[moments[i].run.position].path,
        ),
    decreases i,
{
    lemma_cleanup_moment(inside, candidates, w, moments, i);
    if i == 0 {
        let none = candidates.take(0).map_values(|c: CandidateView| c.path);
        assert(none.to_set() =~= Set::<Seq<char>>::empty());
    } else {
        let a = moments[i - 1];
        let b = moments[i];
        lemma_cleanup_moment(inside, candidates, w, moments, i - 1);
        assert(cleanup_follows(inside, a, b));
        lemma_cleanup_counts(inside, candidates, w, moments, i - 1);
        let p = a.run.position;
        let earlier = candidates.take(p);
        let path = candidates[p].path;
        lemma_one_more_path(candidates, p);
        lemma_candidate_paths(earlier, path);
        if a.run.phase == CleanupPhase::Remove {
            if candidate_paths(earlier).contains(path) {
                let j = choose|j: int|
                    0 <= j < earlier.len() && (#[trigger] earlier[j]).path == path;
                assert(!a.paths.contains(candidates[j].path));
            }
        } else if !b.event->Exists_0 {
            if !candidate_paths(earlier).contains(path) {
                let j = choose|j: int| 0 <= j < p && takes(inside, #[trigger] candidates[j], path);
                assert(takes(inside, candidates[j], path));
                assert(earlier[j] == candidates[j]);
                assert(inside(candidates[p].path, candidates[j].path));
            }
        }
    }
}

/// A cleanup that succeeds tells how many backups it removed: each path once,
/// where all of them were there at the start and what lies inside a folder came
/// before the folder.
pub proof fn finished_cleanup_counts_its_candidates(
    inside: spec_fn(Seq<char>, Seq<char>) -> bool,
    candidates: Seq<CandidateView>,
    w: Set<Seq<char>>,
    moments: Seq<CleanupMoment>,
)
    requires
        is_cleanup(inside, candidates, w, moments),
        ready_for_cleanup(inside, candidates, w),
        moments.last().action matches CleanupActionView::Finish(Ok(_)),
    ensures
        moments.last().action->Finish_0->Ok_0 == (RunCounts {
            deleted_count: candidate_paths(candidates).len() as usize,
            ..no_counts()
        }),
        candidate_paths(candidates).len() <= usize::MAX,
        candidate_paths(candidates).finite(),
{
    lemma_cleanup_moment(inside, candidates, w, moments, moments.len() - 1);
    lemma_cleanup_counts(inside, candidates, w, moments, moments.len() - 1);
    assert(candidates.take(candidates.len() as int) =~= candidates);
    lemma_candidate_paths(candidates, Seq::empty());
}

/// A cleanup takes every report that its driver may give on what it has asked
/// for; a look for a backup always tells whether it is there.
pub proof fn every_cleanup_report_is_taken(
    inside: spec_fn(Seq<char>, Seq<char>) -> bool,
    candidates: Seq<CandidateView>,
    w: Set<Seq<char>>,
    moments: Seq<CleanupMoment>,
    w2: Set<Seq<char>>,
    e: CleanupEventView,
)
    requires
        is_cleanup(inside, candidates, w, moments),
        cleanup_answers(inside, moments.last().paths, moments.last().action, w2, e),
        !(moments.last().action is Finish),
        moments.last().action is Probe ==> e is Exists,
    ensures
        cleanup_fits(moments.last().run, e),
{
    lemma_cleanup_moment(inside, candidates, w, moments, moments.len() - 1);
}

} // verus!
