//! Removing the backups that have outlived their time, and the folders that
//! nothing is left in, as machines that ask for one step at a time.
use crate::clock::{
    cutoff_second, has_outlived, is_expired, retention_cutoff, Timestamp, FIRST_SECOND,
};
use crate::ordering::{
    comes_first, is_order, numbers, order_by_size, placed, size_order, size_order_is_order,
};
use vstd::prelude::*;
use vstd::string::*;

verus! {

broadcast use vstd::string::group_string_axioms;

/// Which backups a purge removes.
#[derive(Debug, Clone, Copy, PartialEq, Eq, Structural)]
pub enum Retention {
    /// All of them are kept.
    KeepAll,
    /// Those written before a point in time go.
    Before(Timestamp),
}

/// Which backups are removed at `now`, when they are kept for `days` days. With
/// no days at all they are kept for good, and so they are where the calendar
/// does not reach that many days back.
pub open spec fn retention_of(now: Timestamp, days: u64) -> Retention {
    if days == 0 || cutoff_second(now, days) < FIRST_SECOND {
        Retention::KeepAll
    } else {
        Retention::Before(
            Timestamp { seconds: cutoff_second(now, days) as i64, nanos: now.nanos },
        )
    }
}

/// Whether a file last written at `modified` is removed.
pub open spec fn removes(retention: Retention, modified: Timestamp) -> bool {
    retention matches Retention::Before(cutoff) && modified.before(cutoff)
}

/// Which backups are removed at `now`, when they are kept for `days` days:
/// those that are older than that, and none where there are no days.
pub fn retention_at(now: Timestamp, days: u64) -> (r: Retention)
    requires
        now.in_calendar(),
    ensures
        r == retention_of(now, days),
        forall|modified: Timestamp|
            modified.in_calendar() ==> (#[trigger] removes(r, modified) <==> days != 0
                && has_outlived(now, days, modified)),
{
    if days == 0 {
        return Retention::KeepAll;
    }
    match retention_cutoff(now, days) {
        Some(cutoff) => Retention::Before(cutoff),
        None => Retention::KeepAll,
    }
}

/// What the driver of a purge reports.
#[derive(Debug)]
pub enum PurgeEvent {
    Begin,
    /// When a file was written last.
    Modified(Timestamp),
    Done,
    Failed(String),
}

pub enum PurgeEventView {
    Begin,
    Modified(Timestamp),
    Done,
    Failed(Seq<char>),
}

impl View for PurgeEvent {
    type V = PurgeEventView;

    open spec fn view(&self) -> PurgeEventView {
        match *self {
            PurgeEvent::Begin => PurgeEventView::Begin,
            PurgeEvent::Modified(at) => PurgeEventView::Modified(at),
            PurgeEvent::Done => PurgeEventView::Done,
            PurgeEvent::Failed(message) => PurgeEventView::Failed(message@),
        }
    }
}

/// What a purge asks of its driver. Entries are called by their numbers.
#[derive(Debug)]
pub enum PurgeAction {
    /// Say when the file was written last.
    Inspect(usize),
    /// Remove the file.
    Remove(usize),
    /// Remove the folders that nothing is left in.
    Sweep,
    /// The purge is over.
    Finish(Result<(), String>),
}

pub enum PurgeActionView {
    Inspect(int),
    Remove(int),
    Sweep,
    Finish(Result<(), Seq<char>>),
}

impl View for PurgeAction {
    type V = PurgeActionView;

    open spec fn view(&self) -> PurgeActionView {
        match *self {
            PurgeAction::Inspect(i) => PurgeActionView::Inspect(i as int),
            PurgeAction::Remove(i) => PurgeActionView::Remove(i as int),
            PurgeAction::Sweep => PurgeActionView::Sweep,
            PurgeAction::Finish(result) => PurgeActionView::Finish(
                match result {
                    Ok(_) => Ok(()),
                    Err(message) => Err(message@),
                },
            ),
        }
    }
}

/// Where a purge stands: what it has asked for last.
#[derive(Debug, Clone, Copy, PartialEq, Eq, Structural)]
pub enum PurgePhase {
    Ready,
    Inspect,
    Remove,
    Sweep,
    Finished,
}

/// A purge of one backup folder.
#[derive(Debug)]
pub struct PurgeRun {
    is_file: Vec<bool>,
    cutoff: Option<Timestamp>,
    position: usize,
    phase: PurgePhase,
}

/// The state of a purge: which of the entries are files, and the point in time
/// before which files expire, if anything is to be removed at all.
#[verifier::ext_equal]
pub struct PurgeView {
    pub is_file: Seq<bool>,
    pub cutoff: Option<Timestamp>,
    pub position: int,
    pub phase: PurgePhase,
}

impl View for PurgeRun {
    type V = PurgeView;

    closed spec fn view(&self) -> PurgeView {
        PurgeView {
            is_file: self.is_file@,
            cutoff: self.cutoff,
            position: self.position as int,
            phase: self.phase,
        }
    }
}

/// The point in time before which the files of a folder expire, if the folder
/// is there and anything expires.
pub open spec fn purge_cutoff(retention: Retention, folder_exists: bool) -> Option<Timestamp> {
    match retention {
        Retention::Before(cutoff) => if folder_exists {
            Some(cutoff)
        } else {
            None
        },
        Retention::KeepAll => None,
    }
}

pub open spec fn new_purge(is_file: Seq<bool>, cutoff: Option<Timestamp>) -> PurgeView {
    PurgeView { is_file, cutoff, position: 0, phase: PurgePhase::Ready }
}

/// The number of the next entry that counts; behind the last one where there
/// is none.
pub open spec fn next_counting(counts: Seq<bool>, from: int) -> int
    decreases counts.len() - from,
{
    if from < 0 || from >= counts.len() {
        counts.len() as int
    } else if counts[from] {
        from
    } else {
        next_counting(counts, from + 1)
    }
}

fn find_counting(counts: &Vec<bool>, from: usize) -> (r: usize)
    requires
        from <= counts@.len(),
    ensures
        r == next_counting(counts@, from as int),
        from <= r <= counts@.len(),
        r < counts@.len() ==> counts@[r as int],
        forall|i: int| from <= i < r ==> !counts@[i],
{
    let mut i: usize = from;
    while i < counts.len() && !counts[i]
        invariant
            from <= i <= counts@.len(),
            next_counting(counts@, i as int) == next_counting(counts@, from as int),
            forall|k: int| from <= k < i ==> !counts@[k],
        decreases counts@.len() - i,
    {
        i = i + 1;
    }
    i
}

/// The purge at its next file.
pub open spec fn purge_enter(p: PurgeView) -> (PurgeView, PurgeActionView) {
    let at = next_counting(p.is_file, p.position);
    if at < p.is_file.len() {
        (
            PurgeView { position: at, phase: PurgePhase::Inspect, ..p },
            PurgeActionView::Inspect(at),
        )
    } else {
        (PurgeView { position: at, phase: PurgePhase::Sweep, ..p }, PurgeActionView::Sweep)
    }
}

pub open spec fn purge_ends(p: PurgeView, result: Result<(), Seq<char>>) -> (
    PurgeView,
    PurgeActionView,
) {
    (PurgeView { phase: PurgePhase::Finished, ..p }, PurgeActionView::Finish(result))
}

/// What a purge does and asks for next, once `e` was reported to it.
pub open spec fn purge_next(p: PurgeView, e: PurgeEventView) -> (PurgeView, PurgeActionView) {
    match (p.phase, e) {
        (PurgePhase::Ready, PurgeEventView::Begin) => if p.cutoff is Some {
            purge_enter(p)
        } else {
            purge_ends(p, Ok(()))
        },
        (PurgePhase::Inspect, PurgeEventView::Modified(at)) => if at.before(p.cutoff->0) {
            (
                PurgeView { phase: PurgePhase::Remove, ..p },
                PurgeActionView::Remove(p.position),
            )
        } else {
            purge_enter(PurgeView { position: p.position + 1, ..p })
        },
        (PurgePhase::Remove, PurgeEventView::Done) => purge_enter(
            PurgeView { position: p.position + 1, ..p },
        ),
        (PurgePhase::Sweep, PurgeEventView::Done) => purge_ends(p, Ok(())),
        (_, PurgeEventView::Failed(message)) => purge_ends(p, Err(message)),
        _ => purge_ends(p, Err(Seq::empty())),
    }
}

/// Whether `e` is a report on what the purge has asked for.
pub open spec fn purge_fits(p: PurgeView, e: PurgeEventView) -> bool {
    match (p.phase, e) {
        (PurgePhase::Ready, PurgeEventView::Begin) => true,
        (PurgePhase::Inspect, PurgeEventView::Modified(_)) => true,
        (PurgePhase::Inspect, PurgeEventView::Failed(_)) => true,
        (PurgePhase::Remove, PurgeEventView::Done) => true,
        (PurgePhase::Remove, PurgeEventView::Failed(_)) => true,
        (PurgePhase::Sweep, PurgeEventView::Done) => true,
        (PurgePhase::Sweep, PurgeEventView::Failed(_)) => true,
        _ => false,
    }
}

/// What holds of a purge between any two steps.
pub open spec fn purge_ok(p: PurgeView) -> bool {
    &&& 0 <= p.position <= p.is_file.len()
    &&& (p.phase == PurgePhase::Inspect || p.phase == PurgePhase::Remove) ==> p.position
        < p.is_file.len() && p.is_file[p.position] && p.cutoff is Some
}

impl PurgeRun {
    pub open spec fn wf(self) -> bool {
        purge_ok(self@)
    }

    /// The purge of a backup folder with these entries.
    pub fn new(retention: Retention, folder_exists: bool, is_file: Vec<bool>) -> (r: Self)
        ensures
            r@ == new_purge(is_file@, purge_cutoff(retention, folder_exists)),
            r.wf(),
    {
        let cutoff = match retention {
            Retention::Before(cutoff) => {
                if folder_exists {
                    Some(cutoff)
                } else {
                    None
                }
            },
            Retention::KeepAll => None,
        };
        PurgeRun { is_file, cutoff, position: 0, phase: PurgePhase::Ready }
    }

    fn enter(&mut self) -> (r: PurgeAction)
        requires
            0 <= old(self)@.position <= old(self)@.is_file.len(),
            old(self)@.cutoff is Some,
        ensures
            (final(self)@, r@) == purge_enter(old(self)@),
            final(self).wf(),
    {
        let at: usize = find_counting(&self.is_file, self.position);
        self.position = at;
        if at < self.is_file.len() {
            self.phase = PurgePhase::Inspect;
            PurgeAction::Inspect(at)
        } else {
            self.phase = PurgePhase::Sweep;
            PurgeAction::Sweep
        }
    }

    fn end(&mut self, result: Result<(), String>) -> (r: PurgeAction)
        requires
            old(self).wf(),
        ensures
            (final(self)@, r@) == purge_ends(
                old(self)@,
                match result {
                    Ok(_) => Ok(()),
                    Err(message) => Err(message@),
                },
            ),
            final(self).wf(),
    {
        self.phase = PurgePhase::Finished;
        PurgeAction::Finish(result)
    }

    /// Takes the report on what the purge has asked for, and asks for the next step.
    pub fn purge_expired_backups(&mut self, event: PurgeEvent) -> (r: PurgeAction)
        requires
            old(self).wf(),
            purge_fits(old(self)@, event@),
        ensures
            (final(self)@, r@) == purge_next(old(self)@, event@),
            final(self).wf(),
    {
        match (self.phase, event) {
            (PurgePhase::Ready, PurgeEvent::Begin) => {
                if self.cutoff.is_some() {
                    self.enter()
                } else {
                    self.end(Ok(()))
                }
            },
            (PurgePhase::Inspect, PurgeEvent::Modified(at)) => {
                let expired = match self.cutoff {
                    Some(cutoff) => is_expired(at, cutoff),
                    None => false,
                };
                if expired {
                    self.phase = PurgePhase::Remove;
                    PurgeAction::Remove(self.position)
                } else {
                    assert(self.is_file.len() <= usize::MAX);
                    self.position = self.position + 1;
                    self.enter()
                }
            },
            (PurgePhase::Remove, PurgeEvent::Done) => {
                assert(self.is_file.len() <= usize::MAX);
                self.position = self.position + 1;
                self.enter()
            },
            (PurgePhase::Sweep, PurgeEvent::Done) => self.end(Ok(())),
            (_, PurgeEvent::Failed(message)) => self.end(Err(message)),
            _ => self.end(Err(String::new())),
        }
    }

    /// Whether `event` is a report on what the purge has asked for.
    pub fn accepts(&self, event: &PurgeEvent) -> (r: bool)
        ensures
            r == purge_fits(self@, event@),
    {
        match (self.phase, event) {
            (PurgePhase::Ready, PurgeEvent::Begin) => true,
            (PurgePhase::Inspect, PurgeEvent::Modified(_)) => true,
            (PurgePhase::Inspect, PurgeEvent::Failed(_)) => true,
            (PurgePhase::Remove, PurgeEvent::Done) => true,
            (PurgePhase::Remove, PurgeEvent::Failed(_)) => true,
            (PurgePhase::Sweep, PurgeEvent::Done) => true,
            (PurgePhase::Sweep, PurgeEvent::Failed(_)) => true,
            _ => false,
        }
    }
}

/// The entries of a backup folder: which of them are there, and when they were
/// written last.
#[verifier::ext_equal]
pub struct BackupWorld {
    pub present: Seq<bool>,
    pub modified: Seq<Timestamp>,
}

/// Whether a driver that is asked for `a` in the world `w` may report `e` and
/// leave the world `w2`. Empty folders do not count as entries here.
pub open spec fn purge_answers(
    w: BackupWorld,
    a: PurgeActionView,
    w2: BackupWorld,
    e: PurgeEventView,
) -> bool {
    match (a, e) {
        (PurgeActionView::Inspect(i), PurgeEventView::Modified(at)) => w2 == w && at
            == w.modified[i],
        (PurgeActionView::Remove(i), PurgeEventView::Done) => w2 == (BackupWorld {
            present: w.present.update(i, false),
            ..w
        }),
        (PurgeActionView::Sweep, PurgeEventView::Done) => w2 == w,
        (_, PurgeEventView::Failed(_)) => w2 == w,
        _ => false,
    }
}

/// A moment of a purge.
pub struct PurgeMoment {
    pub event: PurgeEventView,
    pub world: BackupWorld,
    pub run: PurgeView,
    pub action: PurgeActionView,
}

pub open spec fn purge_follows(a: PurgeMoment, b: PurgeMoment) -> bool {
    &&& purge_fits(a.run, b.event)
    &&& purge_answers(a.world, a.action, b.world, b.event)
    &&& (b.run, b.action) == purge_next(a.run, b.event)
}

/// Whether `moments` is a purge that begins in the world `w`.
pub open spec fn is_purge(
    is_file: Seq<bool>,
    cutoff: Option<Timestamp>,
    w: BackupWorld,
    moments: Seq<PurgeMoment>,
) -> bool {
    &&& moments.len() > 0
    &&& w.present.len() == is_file.len()
    &&& w.modified.len() == is_file.len()
    &&& moments[0].world == w
    &&& (moments[0].run, moments[0].action) == purge_next(
        new_purge(is_file, cutoff),
        PurgeEventView::Begin,
    )
    &&& forall|i: int|
        0 < i < moments.len() ==> purge_follows(moments[i - 1], #[trigger] moments[i])
}

/// Whether the file of a number has outlived the time of keeping.
pub open spec fn has_expired(
    is_file: Seq<bool>,
    cutoff: Option<Timestamp>,
    w: BackupWorld,
    i: int,
) -> bool {
    cutoff is Some && is_file[i] && w.modified[i].before(cutoff->0)
}

proof fn lemma_next_counting(counts: Seq<bool>, from: int)
    requires
        0 <= from <= counts.len(),
    ensures
        from <= next_counting(counts, from) <= counts.len(),
        next_counting(counts, from) < counts.len() ==> counts[next_counting(counts, from)],
        forall|i: int| from <= i < next_counting(counts, from) ==> !counts[i],
    decreases counts.len() - from,
{
    if from < counts.len() && !counts[from] {
        lemma_next_counting(counts, from + 1);
    }
}

spec fn purge_inv(
    is_file: Seq<bool>,
    cutoff: Option<Timestamp>,
    w: BackupWorld,
    m: PurgeMoment,
) -> bool {
    let p = m.run;
    &&& purge_ok(p)
    &&& p.is_file == is_file
    &&& p.cutoff == cutoff
    &&& m.world.modified == w.modified
    &&& m.world.present.len() == w.present.len()
    &&& match p.phase {
        PurgePhase::Ready => false,
        PurgePhase::Inspect => m.action == PurgeActionView::Inspect(p.position),
        PurgePhase::Remove => m.action == PurgeActionView::Remove(p.position) && has_expired(
            is_file,
            cutoff,
            w,
            p.position,
        ),
        PurgePhase::Sweep => m.action == PurgeActionView::Sweep && p.position == is_file.len(),
        PurgePhase::Finished => m.action matches PurgeActionView::Finish(result) && (
        result is Ok && cutoff is Some ==> p.position == is_file.len()),
    }
    &&& forall|i: int|
        0 <= i < is_file.len() ==> (#[trigger] m.world.present[i] <==> w.present[i] && !(i
            < p.position && has_expired(is_file, cutoff, w, i)))
}

proof fn lemma_purge_moment(
    is_file: Seq<bool>,
    cutoff: Option<Timestamp>,
    w: BackupWorld,
    moments: Seq<PurgeMoment>,
    i: int,
)
    requires
        is_purge(is_file, cutoff, w, moments),
        0 <= i < moments.len(),
    ensures
        purge_inv(is_file, cutoff, w, moments[i]),
    decreases i,
{
    if i == 0 {
        lemma_next_counting(is_file, 0);
    } else {
        lemma_purge_moment(is_file, cutoff, w, moments, i - 1);
        assert(purge_follows(moments[i - 1], moments[i]));
        let p = moments[i - 1].run;
        if p.position < is_file.len() {
            lemma_next_counting(is_file, p.position + 1);
        }
    }
}

/// A purge removes files that have outlived their time and nothing else, even
/// where it fails; where it succeeds it removes all of them.
pub proof fn purge_removes_what_has_expired(
    is_file: Seq<bool>,
    cutoff: Option<Timestamp>,
    w: BackupWorld,
    moments: Seq<PurgeMoment>,
    i: int,
)
    requires
        is_purge(is_file, cutoff, w, moments),
        0 <= i < is_file.len(),
    ensures
        w.present[i] && !moments.last().world.present[i] ==> has_expired(is_file, cutoff, w, i),
        !w.present[i] ==> !moments.last().world.present[i],
        moments.last().action == PurgeActionView::Finish(Ok(())) && has_expired(
            is_file,
            cutoff,
            w,
            i,
        ) ==> !moments.last().world.present[i],
{
    lemma_purge_moment(is_file, cutoff, w, moments, moments.len() - 1);
    let m = moments.last();
    assert(m.world.present[i] <==> w.present[i] && !(i < m.run.position && has_expired(
        is_file,
        cutoff,
        w,
        i,
    )));
}

/// A purge goes by the days of keeping alone: where it succeeds, the files that
/// are older than that are gone and no others; without any days all files stay.
pub proof fn purge_goes_by_the_days(
    now: Timestamp,
    days: u64,
    is_file: Seq<bool>,
    w: BackupWorld,
    moments: Seq<PurgeMoment>,
    i: int,
)
    requires
        now.in_calendar(),
        is_purge(is_file, purge_cutoff(retention_of(now, days), true), w, moments),
        moments.last().action == PurgeActionView::Finish(Ok(())),
        0 <= i < is_file.len(),
        w.present[i],
        w.modified[i].in_calendar(),
    ensures
        moments.last().world.present[i] <==> !(days != 0 && is_file[i] && has_outlived(
            now,
            days,
            w.modified[i],
        )),
        moments.last().world.modified == w.modified,
{
    let cutoff = purge_cutoff(retention_of(now, days), true);
    purge_removes_what_has_expired(is_file, cutoff, w, moments, i);
    lemma_purge_moment(is_file, cutoff, w, moments, moments.len() - 1);
}

/// Where a purge succeeds, a file that was there is gone exactly where backups
/// are kept for a number of days and it was last written longer ago than that
/// many times twenty-four hours, to the nanosecond. Whatever is no file stays.
pub proof fn files_older_than_the_days_go(
    now: Timestamp,
    days: u64,
    is_file: Seq<bool>,
    w: BackupWorld,
    moments: Seq<PurgeMoment>,
    i: int,
)
    requires
        now.in_calendar(),
        is_purge(is_file, purge_cutoff(retention_of(now, days), true), w, moments),
        moments.last().action == PurgeActionView::Finish(Ok(())),
        0 <= i < is_file.len(),
        w.present[i],
        w.modified[i].in_calendar(),
    ensures
        !moments.last().world.present[i] <==> days > 0 && is_file[i] && (w.modified[i].seconds + days
            * 24 * 60 * 60 < now.seconds || (w.modified[i].seconds + days * 24 * 60 * 60
            == now.seconds && w.modified[i].nanos < now.nanos)),
{
    purge_goes_by_the_days(now, days, is_file, w, moments, i);
    assert(days * 24 * 60 * 60 == days * 86_400);
}

/// Where backups are kept for good, or there is no backup folder, a purge ends
/// at once; otherwise one that succeeds has the empty folders removed last.
pub proof fn purge_ends_with_a_sweep(
    retention: Retention,
    folder_exists: bool,
    is_file: Seq<bool>,
    w: BackupWorld,
    moments: Seq<PurgeMoment>,
)
    requires
        is_purge(is_file, purge_cutoff(retention, folder_exists), w, moments),
        moments.last().action == PurgeActionView::Finish(Ok(())),
    ensures
        retention == Retention::KeepAll || !folder_exists ==> moments.len() == 1
            && moments.last().world == w,
        retention != Retention::KeepAll && folder_exists ==> moments.len() >= 2
            && moments[moments.len() - 2].action == PurgeActionView::Sweep,
{
    let cutoff = purge_cutoff(retention, folder_exists);
    let n = moments.len();
    if n > 1 {
        lemma_purge_moment(is_file, cutoff, w, moments, 0);
        assert(purge_follows(moments[0], moments[1]));
        lemma_purge_moment(is_file, cutoff, w, moments, n - 2);
        assert(purge_follows(moments[n - 2], moments[n - 1]));
    }
}

/// A purge that is told of a failure ends with what it was told.
pub proof fn failed_purge_says_why(p: PurgeView, message: Seq<char>)
    requires
        purge_fits(p, PurgeEventView::Failed(message)),
    ensures
        purge_next(p, PurgeEventView::Failed(message)).1 == PurgeActionView::Finish(Err(message)),
{
}

/// The folders of a tree in the order in which empty ones are removed: the
/// deepest first. `depths` are the numbers of their components.
pub fn removal_order(depths: &Vec<usize>) -> (r: Vec<usize>)
    ensures
        numbers(r@) == size_order(numbers(depths@)),
        is_order(numbers(depths@), numbers(r@), depths@.len() as int),
{
    order_by_size(depths)
}

/// A folder comes before every folder that is less deep, so what is inside a
/// folder is looked at before the folder itself.
pub proof fn deeper_folders_go_first(depths: Seq<int>, order: Seq<int>, i: int, j: int)
    requires
        is_order(depths, order, depths.len() as int),
        0 <= i < order.len(),
        0 <= j < order.len(),
        depths[order[i]] > depths[order[j]],
    ensures
        i < j,
{
    if j < i {
        assert(comes_first(depths, order[j], order[i]));
    }
}

/// What the driver of a sweep reports.
#[derive(Debug)]
pub enum SweepEvent {
    Begin,
    /// Whether nothing is in a folder.
    Empty(bool),
    Done,
    Failed(String),
}

pub enum SweepEventView {
    Begin,
    Empty(bool),
    Done,
    Failed(Seq<char>),
}

impl View for SweepEvent {
    type V = SweepEventView;

    open spec fn view(&self) -> SweepEventView {
        match *self {
            SweepEvent::Begin => SweepEventView::Begin,
            SweepEvent::Empty(empty) => SweepEventView::Empty(empty),
            SweepEvent::Done => SweepEventView::Done,
            SweepEvent::Failed(message) => SweepEventView::Failed(message@),
        }
    }
}

/// What a sweep asks of its driver. Folders are called by their numbers.
#[derive(Debug)]
pub enum SweepAction {
    /// Say whether nothing is in the folder.
    Look(usize),
    /// Remove the folder.
    Remove(usize),
    /// The sweep is over.
    Finish(Result<(), String>),
}

pub enum SweepActionView {
    Look(int),
    Remove(int),
    Finish(Result<(), Seq<char>>),
}

impl View for SweepAction {
    type V = SweepActionView;

    open spec fn view(&self) -> SweepActionView {
        match *self {
            SweepAction::Look(i) => SweepActionView::Look(i as int),
            SweepAction::Remove(i) => SweepActionView::Remove(i as int),
            SweepAction::Finish(result) => SweepActionView::Finish(
                match result {
                    Ok(_) => Ok(()),
                    Err(message) => Err(message@),
                },
            ),
        }
    }
}

/// Where a sweep stands: what it has asked for last.
#[derive(Debug, Clone, Copy, PartialEq, Eq, Structural)]
pub enum SweepPhase {
    Ready,
    Look,
    Remove,
    Finished,
}

/// A sweep through the folders of a tree.
#[derive(Debug)]
pub struct SweepRun {
    order: Vec<usize>,
    is_root: Vec<bool>,
    position: usize,
    phase: SweepPhase,
}

/// The state of a sweep: the order in which the folders are looked at, and
/// which of them is the root, that stays.
#[verifier::ext_equal]
pub struct SweepView {
    pub order: Seq<int>,
    pub is_root: Seq<bool>,
    pub position: int,
    pub phase: SweepPhase,
}

impl View for SweepRun {
    type V = SweepView;

    closed spec fn view(&self) -> SweepView {
        SweepView {
            order: numbers(self.order@),
            is_root: self.is_root@,
            position: self.position as int,
            phase: self.phase,
        }
    }
}

pub open spec fn new_sweep(depths: Seq<int>, is_root: Seq<bool>) -> SweepView {
    SweepView { order: size_order(depths), is_root, position: 0, phase: SweepPhase::Ready }
}

/// The sweep at its next folder; the root is passed over.
pub open spec fn sweep_enter(s: SweepView) -> (SweepView, SweepActionView)
    decreases s.order.len() - s.position,
{
    if s.position >= s.order.len() {
        (SweepView { phase: SweepPhase::Finished, ..s }, SweepActionView::Finish(Ok(())))
    } else if s.is_root[s.order[s.position]] {
        sweep_enter(SweepView { position: s.position + 1, ..s })
    } else {
        (
            SweepView { phase: SweepPhase::Look, ..s },
            SweepActionView::Look(s.order[s.position]),
        )
    }
}

/// What a sweep does and asks for next, once `e` was reported to it.
pub open spec fn sweep_next(s: SweepView, e: SweepEventView) -> (SweepView, SweepActionView) {
    match (s.phase, e) {
        (SweepPhase::Ready, SweepEventView::Begin) => sweep_enter(s),
        (SweepPhase::Look, SweepEventView::Empty(empty)) => if empty {
            (
                SweepView { phase: SweepPhase::Remove, ..s },
                SweepActionView::Remove(s.order[s.position]),
            )
        } else {
            sweep_enter(SweepView { position: s.position + 1, ..s })
        },
        (SweepPhase::Remove, SweepEventView::Done) => sweep_enter(
            SweepView { position: s.position + 1, ..s },
        ),
        (_, SweepEventView::Failed(message)) => (
            SweepView { phase: SweepPhase::Finished, ..s },
            SweepActionView::Finish(Err(message)),
        ),
        _ => (
            SweepView { phase: SweepPhase::Finished, ..s },
            SweepActionView::Finish(Err(Seq::empty())),
        ),
    }
}

/// Whether `e` is a report on what the sweep has asked for.
pub open spec fn sweep_fits(s: SweepView, e: SweepEventView) -> bool {
    match (s.phase, e) {
        (SweepPhase::Ready, SweepEventView::Begin) => true,
        (SweepPhase::Look, SweepEventView::Empty(_)) => true,
        (SweepPhase::Look, SweepEventView::Failed(_)) => true,
        (SweepPhase::Remove, SweepEventView::Done) => true,
        (SweepPhase::Remove, SweepEventView::Failed(_)) => true,
        _ => false,
    }
}

/// What holds of a sweep between any two steps.
pub open spec fn sweep_ok(s: SweepView) -> bool {
    &&& 0 <= s.position <= s.order.len()
    &&& s.order.len() == s.is_root.len()
    &&& forall|i: int| 0 <= i < s.order.len() ==> 0 <= #[trigger] s.order[i] < s.is_root.len()
    &&& (s.phase == SweepPhase::Look || s.phase == SweepPhase::Remove) ==> s.position
        < s.order.len() && !s.is_root[s.order[s.position]]
}

impl SweepRun {
    pub open spec fn wf(self) -> bool {
        sweep_ok(self@)
    }

    /// The sweep through folders of the given depths.
    pub fn new(depths: &Vec<usize>, is_root: Vec<bool>) -> (r: Self)
        requires
            depths@.len() == is_root@.len(),
        ensures
            r@ == new_sweep(numbers(depths@), is_root@),
            r.wf(),
    {
        let order = removal_order(depths);
        SweepRun { order, is_root, position: 0, phase: SweepPhase::Ready }
    }

    fn enter(&mut self) -> (r: SweepAction)
        requires
            sweep_ok(SweepView { phase: SweepPhase::Ready, ..old(self)@ }),
        ensures
            (final(self)@, r@) == sweep_enter(old(self)@),
            final(self).wf(),
    {
        while self.position < self.order.len()
            invariant
                sweep_ok(SweepView { phase: SweepPhase::Ready, ..self@ }),
                sweep_enter(self@) == sweep_enter(old(self)@),
            decreases self@.order.len() - self@.position,
        {
            let ghost here = self@;
            let folder: usize = self.order[self.position];
            proof {
                assert(self@.order[self@.position] == folder);
            }
            if !self.is_root[folder] {
                self.phase = SweepPhase::Look;
                return SweepAction::Look(folder);
            }
            self.position = self.position + 1;
            proof {
                assert(self@ =~= (SweepView { position: here.position + 1, ..here }));
            }
        }
        self.phase = SweepPhase::Finished;
        SweepAction::Finish(Ok(()))
    }

    /// Takes the report on what the sweep has asked for, and asks for the next step.
    pub fn remove_empty_dirs(&mut self, event: SweepEvent) -> (r: SweepAction)
        requires
            old(self).wf(),
            sweep_fits(old(self)@, event@),
        ensures
            (final(self)@, r@) == sweep_next(old(self)@, event@),
            final(self).wf(),
    {
        match (self.phase, event) {
            (SweepPhase::Ready, SweepEvent::Begin) => self.enter(),
            (SweepPhase::Look, SweepEvent::Empty(empty)) => {
                if empty {
                    self.phase = SweepPhase::Remove;
                    SweepAction::Remove(self.order[self.position])
                } else {
                    assert(self.order.len() <= usize::MAX);
                    self.position = self.position + 1;
                    self.enter()
                }
            },
            (SweepPhase::Remove, SweepEvent::Done) => {
                assert(self.order.len() <= usize::MAX);
                self.position = self.position + 1;
                self.enter()
            },
            (_, SweepEvent::Failed(message)) => {
                self.phase = SweepPhase::Finished;
                SweepAction::Finish(Err(message))
            },
            _ => {
                self.phase = SweepPhase::Finished;
                SweepAction::Finish(Err(String::new()))
            },
        }
    }

    /// Whether `event` is a report on what the sweep has asked for.
    pub fn accepts(&self, event: &SweepEvent) -> (r: bool)
        ensures
            r == sweep_fits(self@, event@),
    {
        match (self.phase, event) {
            (SweepPhase::Ready, SweepEvent::Begin) => true,
            (SweepPhase::Look, SweepEvent::Empty(_)) => true,
            (SweepPhase::Look, SweepEvent::Failed(_)) => true,
            (SweepPhase::Remove, SweepEvent::Done) => true,
            (SweepPhase::Remove, SweepEvent::Failed(_)) => true,
            _ => false,
        }
    }
}

/// A tree of folders: the depth of each, the folder that it is in, whether any
/// file is right in it, and whether it is the root.
pub struct FolderTree {
    pub depths: Seq<int>,
    pub above: Seq<Option<int>>,
    pub has_file: Seq<bool>,
    pub is_root: Seq<bool>,
}

/// Whether the numbers fit together; a folder is deeper than the one it is in.
pub open spec fn tree_ok(t: FolderTree) -> bool {
    &&& t.above.len() == t.depths.len()
    &&& t.has_file.len() == t.depths.len()
    &&& t.is_root.len() == t.depths.len()
    &&& forall|i: int|
        0 <= i < t.depths.len() ==> ((#[trigger] t.above[i]) matches Some(p) ==> 0 <= p
            < t.depths.len() && t.depths[p] < t.depths[i])
}

/// Whether nothing is in a folder while `present` are the folders that are there.
pub open spec fn is_empty_folder(t: FolderTree, present: Seq<bool>, i: int) -> bool {
    !t.has_file[i] && forall|j: int|
        0 <= j < t.depths.len() && present[j] ==> #[trigger] t.above[j] != Some(i)
}

/// Whether a driver that is asked for `a` while `present` are the folders that
/// are there may report `e` and leave `after`.
pub open spec fn sweep_answers(
    t: FolderTree,
    present: Seq<bool>,
    a: SweepActionView,
    after: Seq<bool>,
    e: SweepEventView,
) -> bool {
    match (a, e) {
        (SweepActionView::Look(i), SweepEventView::Empty(empty)) => after == present && empty
            == is_empty_folder(t, present, i),
        (SweepActionView::Remove(i), SweepEventView::Done) => after == present.update(i, false),
        (_, SweepEventView::Failed(_)) => after == present,
        _ => false,
    }
}

/// A moment of a sweep.
pub struct SweepMoment {
    pub event: SweepEventView,
    pub present: Seq<bool>,
    pub run: SweepView,
    pub action: SweepActionView,
}

pub open spec fn sweep_follows(t: FolderTree, a: SweepMoment, b: SweepMoment) -> bool {
    &&& sweep_fits(a.run, b.event)
    &&& sweep_answers(t, a.present, a.action, b.present, b.event)
    &&& (b.run, b.action) == sweep_next(a.run, b.event)
}

/// Whether `moments` is a sweep through a tree all of whose folders are there.
pub open spec fn is_sweep(t: FolderTree, moments: Seq<SweepMoment>) -> bool {
    &&& tree_ok(t)
    &&& moments.len() > 0
    &&& moments[0].present == Seq::new(t.depths.len(), |i: int| true)
    &&& (moments[0].run, moments[0].action) == sweep_next(
        new_sweep(t.depths, t.is_root),
        SweepEventView::Begin,
    )
    &&& forall|i: int|
        0 < i < moments.len() ==> sweep_follows(t, moments[i - 1], #[trigger] moments[i])
}

/// What the folders that are there look like once the first `n` of the order
/// were dealt with.
spec fn swept(t: FolderTree, order: Seq<int>, present: Seq<bool>, n: int) -> bool {
    &&& present.len() == t.depths.len()
    &&& forall|q: int| n <= q < order.len() ==> present[#[trigger] order[q]]
    &&& forall|q: int|
        0 <= q < n && q < order.len() ==> if t.is_root[#[trigger] order[q]] {
            present[order[q]]
        } else {
            present[order[q]] <==> !is_empty_folder(t, present, order[q])
        }
}

proof fn lemma_sweep_enter(t: FolderTree, s: SweepView, present: Seq<bool>)
    requires
        sweep_ok(SweepView { phase: SweepPhase::Ready, ..s }),
        s.is_root == t.is_root,
        swept(t, s.order, present, s.position),
    ensures
        ({
            let (s2, a) = sweep_enter(s);
            &&& sweep_ok(s2)
            &&& s2.order == s.order
            &&& s2.is_root == s.is_root
            &&& swept(t, s.order, present, s2.position)
            &&& (s2.phase == SweepPhase::Look && a == SweepActionView::Look(
                s.order[s2.position],
            )) || (s2.phase == SweepPhase::Finished && s2.position == s.order.len() && a
                == SweepActionView::Finish(Ok(())))
        }),
    decreases s.order.len() - s.position,
{
    if s.position < s.order.len() && s.is_root[s.order[s.position]] {
        lemma_sweep_enter(t, SweepView { position: s.position + 1, ..s }, present);
    }
}

spec fn sweep_inv(t: FolderTree, m: SweepMoment) -> bool {
    let s = m.run;
    &&& sweep_ok(s)
    &&& s.order == size_order(t.depths)
    &&& s.is_root == t.is_root
    &&& swept(t, s.order, m.present, s.position)
    &&& match s.phase {
        SweepPhase::Ready => false,
        SweepPhase::Look => m.action == SweepActionView::Look(s.order[s.position]),
        SweepPhase::Remove => m.action == SweepActionView::Remove(s.order[s.position])
            && is_empty_folder(t, m.present, s.order[s.position]),
        SweepPhase::Finished => m.action matches SweepActionView::Finish(result) && (result is Ok
            ==> s.position == s.order.len()),
    }
}

/// Removing the folder at hand keeps what is known of the folders before it:
/// none of them is the folder that it is in.
proof fn lemma_folder_removed(t: FolderTree, order: Seq<int>, present: Seq<bool>, n: int)
    requires
        tree_ok(t),
        is_order(t.depths, order, t.depths.len() as int),
        0 <= n < order.len(),
        swept(t, order, present, n),
        !t.is_root[order[n]],
        is_empty_folder(t, present, order[n]),
    ensures
        swept(t, order, present.update(order[n], false), n + 1),
{
    let gone = order[n];
    let after = present.update(gone, false);
    assert forall|q: int| 0 <= q < order.len() && q != n implies #[trigger] order[q] != gone by {
        if q < n {
            assert(comes_first(t.depths, order[q], order[n]));
        } else {
            assert(comes_first(t.depths, order[n], order[q]));
        }
    }
    assert(is_empty_folder(t, after, gone));
    assert forall|q: int| 0 <= q < n implies is_empty_folder(t, after, #[trigger] order[q])
        == is_empty_folder(t, present, order[q]) by {
        let i = order[q];
        if t.above[gone] == Some(i) {
            deeper_folders_go_first(t.depths, order, n, q);
        }
        if !is_empty_folder(t, present, i) && !t.has_file[i] {
            let j = choose|j: int|
                0 <= j < t.depths.len() && present[j] && #[trigger] t.above[j] == Some(i);
            assert(after[j] && t.above[j] == Some(i));
        }
    }
}

proof fn lemma_sweep_moment(t: FolderTree, moments: Seq<SweepMoment>, i: int)
    requires
        is_sweep(t, moments),
        0 <= i < moments.len(),
    ensures
        sweep_inv(t, moments[i]),
    decreases i,
{
    let order = size_order(t.depths);
    size_order_is_order(t.depths);
    if i == 0 {
        lemma_sweep_enter(t, new_sweep(t.depths, t.is_root), moments[0].present);
    } else {
        lemma_sweep_moment(t, moments, i - 1);
        let a = moments[i - 1];
        let b = moments[i];
        assert(sweep_follows(t, a, b));
        let n = a.run.position;
        if a.run.phase == SweepPhase::Look {
            if b.event == SweepEventView::Empty(false) {
                lemma_sweep_enter(t, SweepView { position: n + 1, ..a.run }, b.present);
            }
        } else if a.run.phase == SweepPhase::Remove && b.event is Done {
            lemma_folder_removed(t, order, a.present, n);
            lemma_sweep_enter(t, SweepView { position: n + 1, ..a.run }, b.present);
        }
    }
}

/// After a sweep that succeeds no folder but the root is empty, and a folder
/// that anything is in is still there.
pub proof fn sweep_leaves_no_empty_folder(t: FolderTree, moments: Seq<SweepMoment>, i: int)
    requires
        is_sweep(t, moments),
        moments.last().action == SweepActionView::Finish(Ok(())),
        0 <= i < t.depths.len(),
    ensures
        if t.is_root[i] {
            moments.last().present[i]
        } else {
            moments.last().present[i] <==> !is_empty_folder(t, moments.last().present, i)
        },
{
    lemma_sweep_moment(t, moments, moments.len() - 1);
    size_order_is_order(t.depths);
    let order = size_order(t.depths);
    assert(placed(order, i));
    let q = choose|q: int| 0 <= q < order.len() && #[trigger] order[q] == i;
    assert(order[q] == i);
}

/// A folder with a file in it stays, and so does the folder that it is in,
/// whether or not the sweep succeeds.
pub proof fn sweep_keeps_folders_of_files(t: FolderTree, moments: Seq<SweepMoment>, i: int)
    requires
        is_sweep(t, moments),
        0 <= i < t.depths.len(),
        t.has_file[i],
    ensures
        moments.last().present[i],
        t.above[i] matches Some(p) ==> moments.last().present[p],
{
    lemma_sweep_moment(t, moments, moments.len() - 1);
    size_order_is_order(t.depths);
    let order = size_order(t.depths);
    let m = moments.last();
    assert(placed(order, i));
    let q = choose|q: int| 0 <= q < order.len() && #[trigger] order[q] == i;
    assert(order[q] == i);
    if let Some(p) = t.above[i] {
        assert(placed(order, p));
        let k = choose|k: int| 0 <= k < order.len() && #[trigger] order[k] == p;
        assert(order[k] == p);
    }
}

/// A purge takes every report that its driver may give on what it has asked for.
pub proof fn every_purge_report_is_taken(
    is_file: Seq<bool>,
    cutoff: Option<Timestamp>,
    w: BackupWorld,
    moments: Seq<PurgeMoment>,
    w2: BackupWorld,
    e: PurgeEventView,
)
    requires
        is_purge(is_file, cutoff, w, moments),
        purge_answers(moments.last().world, moments.last().action, w2, e),
        !(moments.last().action is Finish),
    ensures
        purge_fits(moments.last().run, e),
{
    lemma_purge_moment(is_file, cutoff, w, moments, moments.len() - 1);
}

/// A sweep takes every report that its driver may give on what it has asked for.
pub proof fn every_sweep_report_is_taken(
    t: FolderTree,
    moments: Seq<SweepMoment>,
    after: Seq<bool>,
    e: SweepEventView,
)
    requires
        is_sweep(t, moments),
        sweep_answers(t, moments.last().present, moments.last().action, after, e),
        !(moments.last().action is Finish),
    ensures
        sweep_fits(moments.last().run, e),
{
    lemma_sweep_moment(t, moments, moments.len() - 1);
}

/// A sweep that is told of a failure ends with what it was told.
pub proof fn failed_sweep_says_why(s: SweepView, message: Seq<char>)
    requires
        sweep_fits(s, SweepEventView::Failed(message)),
    ensures
        sweep_next(s, SweepEventView::Failed(message)).1 == SweepActionView::Finish(Err(message)),
{
}

} // verus!
