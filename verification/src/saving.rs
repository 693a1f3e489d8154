//! Putting a new document in the place of the store, as a machine that asks for
//! one step at a time: it is written beside the old one and then moved over it.
use vstd::prelude::*;
use vstd::string::*;

verus! {

broadcast use vstd::string::group_string_axioms;

/// What the driver of a save reports.
#[derive(Debug)]
pub enum SaveEvent {
    Begin,
    Done,
    /// Whether the store is there.
    Exists(bool),
    Failed(String),
}

pub enum SaveEventView {
    Begin,
    Done,
    Exists(bool),
    Failed(Seq<char>),
}

impl View for SaveEvent {
    type V = SaveEventView;

    open spec fn view(&self) -> SaveEventView {
        match *self {
            SaveEvent::Begin => SaveEventView::Begin,
            SaveEvent::Done => SaveEventView::Done,
            SaveEvent::Exists(there) => SaveEventView::Exists(there),
            SaveEvent::Failed(message) => SaveEventView::Failed(message@),
        }
    }
}

/// What a save asks of its driver.
#[derive(Debug)]
pub enum SaveAction {
    /// Write the document beside the store.
    WriteTemp,
    /// Move what was written over the store.
    RenameTemp,
    /// Say whether the store is there.
    Probe,
    /// Remove the store.
    RemoveStore,
    /// The save is over.
    Finish(Result<(), String>),
}

pub enum SaveActionView {
    WriteTemp,
    RenameTemp,
    Probe,
    RemoveStore,
    Finish(Result<(), Seq<char>>),
}

impl View for SaveAction {
    type V = SaveActionView;

    open spec fn view(&self) -> SaveActionView {
        match *self {
            SaveAction::WriteTemp => SaveActionView::WriteTemp,
            SaveAction::RenameTemp => SaveActionView::RenameTemp,
            SaveAction::Probe => SaveActionView::Probe,
            SaveAction::RemoveStore => SaveActionView::RemoveStore,
            SaveAction::Finish(result) => SaveActionView::Finish(
                match result {
                    Ok(_) => Ok(()),
                    Err(message) => Err(message@),
                },
            ),
        }
    }
}

/// Where a save stands: what it has asked for last.
#[derive(Debug, Clone, Copy, PartialEq, Eq, Structural)]
pub enum SavePhase {
    Ready,
    Write,
    Rename,
    Probe,
    Remove,
    RenameAgain,
    Finished,
}

/// What a save does and asks for next, once `e` was reported to it. Where the
/// document cannot be moved over the store, the store is removed and the move
/// is tried once more.
pub open spec fn save_next(phase: SavePhase, e: SaveEventView) -> (SavePhase, SaveActionView) {
    match (phase, e) {
        (SavePhase::Ready, SaveEventView::Begin) => (SavePhase::Write, SaveActionView::WriteTemp),
        (SavePhase::Write, SaveEventView::Done) => (SavePhase::Rename, SaveActionView::RenameTemp),
        (SavePhase::Rename, SaveEventView::Done) => (
            SavePhase::Finished,
            SaveActionView::Finish(Ok(())),
        ),
        (SavePhase::Rename, SaveEventView::Failed(_)) => (SavePhase::Probe, SaveActionView::Probe),
        (SavePhase::Probe, SaveEventView::Exists(there)) => if there {
            (SavePhase::Remove, SaveActionView::RemoveStore)
        } else {
            (SavePhase::RenameAgain, SaveActionView::RenameTemp)
        },
        (SavePhase::Remove, SaveEventView::Done) => (
            SavePhase::RenameAgain,
            SaveActionView::RenameTemp,
        ),
        (SavePhase::RenameAgain, SaveEventView::Done) => (
            SavePhase::Finished,
            SaveActionView::Finish(Ok(())),
        ),
        (_, SaveEventView::Failed(message)) => (
            SavePhase::Finished,
            SaveActionView::Finish(Err(message)),
        ),
        _ => (SavePhase::Finished, SaveActionView::Finish(Err(Seq::empty()))),
    }
}

/// Whether `e` is a report on what the save has asked for.
pub open spec fn save_fits(phase: SavePhase, e: SaveEventView) -> bool {
    match (phase, e) {
        (SavePhase::Ready, SaveEventView::Begin) => true,
        (SavePhase::Probe, SaveEventView::Exists(_)) => true,
        (SavePhase::Write, SaveEventView::Done) => true,
        (SavePhase::Write, SaveEventView::Failed(_)) => true,
        (SavePhase::Rename, SaveEventView::Done) => true,
        (SavePhase::Rename, SaveEventView::Failed(_)) => true,
        (SavePhase::Remove, SaveEventView::Done) => true,
        (SavePhase::Remove, SaveEventView::Failed(_)) => true,
        (SavePhase::RenameAgain, SaveEventView::Done) => true,
        (SavePhase::RenameAgain, SaveEventView::Failed(_)) => true,
        _ => false,
    }
}

/// A save of the store.
#[derive(Debug)]
pub struct SaveRun {
    phase: SavePhase,
}

impl View for SaveRun {
    type V = SavePhase;

    closed spec fn view(&self) -> SavePhase {
        self.phase
    }
}

impl SaveRun {
    pub fn new() -> (r: Self)
        ensures
            r@ == SavePhase::Ready,
    {
        SaveRun { phase: SavePhase::Ready }
    }

    /// Takes the report on what the save has asked for, and asks for the next step.
    pub fn step(&mut self, event: SaveEvent) -> (r: SaveAction)
        requires
            save_fits(old(self)@, event@),
        ensures
            (final(self)@, r@) == save_next(old(self)@, event@),
    {
        let (phase, action) = match (self.phase, event) {
            (SavePhase::Ready, SaveEvent::Begin) => (SavePhase::Write, SaveAction::WriteTemp),
            (SavePhase::Write, SaveEvent::Done) => (SavePhase::Rename, SaveAction::RenameTemp),
            (SavePhase::Rename, SaveEvent::Done) => (
                SavePhase::Finished,
                SaveAction::Finish(Ok(())),
            ),
            (SavePhase::Rename, SaveEvent::Failed(_)) => (SavePhase::Probe, SaveAction::Probe),
            (SavePhase::Probe, SaveEvent::Exists(there)) => {
                if there {
                    (SavePhase::Remove, SaveAction::RemoveStore)
                } else {
                    (SavePhase::RenameAgain, SaveAction::RenameTemp)
                }
            },
            (SavePhase::Remove, SaveEvent::Done) => (
                SavePhase::RenameAgain,
                SaveAction::RenameTemp,
            ),
            (SavePhase::RenameAgain, SaveEvent::Done) => (
                SavePhase::Finished,
                SaveAction::Finish(Ok(())),
            ),
            (_, SaveEvent::Failed(message)) => (
                SavePhase::Finished,
                SaveAction::Finish(Err(message)),
            ),
            _ => (SavePhase::Finished, SaveAction::Finish(Err(String::new()))),
        };
        self.phase = phase;
        action
    }

    /// Whether `event` is a report on what the save has asked for.
    pub fn accepts(&self, event: &SaveEvent) -> (r: bool)
        ensures
            r == save_fits(self@, event@),
    {
        match (self.phase, event) {
            (SavePhase::Ready, SaveEvent::Begin) => true,
            (SavePhase::Probe, SaveEvent::Exists(_)) => true,
            (SavePhase::Write, SaveEvent::Done) => true,
            (SavePhase::Write, SaveEvent::Failed(_)) => true,
            (SavePhase::Rename, SaveEvent::Done) => true,
            (SavePhase::Rename, SaveEvent::Failed(_)) => true,
            (SavePhase::Remove, SaveEvent::Done) => true,
            (SavePhase::Remove, SaveEvent::Failed(_)) => true,
            (SavePhase::RenameAgain, SaveEvent::Done) => true,
            (SavePhase::RenameAgain, SaveEvent::Failed(_)) => true,
            _ => false,
        }
    }
}

/// The two files that a save is about: what they hold, if they are there.
pub struct SaveWorld {
    pub store: Option<Seq<char>>,
    pub temp: Option<Seq<char>>,
}

/// Whether a driver that is asked for `a` in the world `w` may report `e` and
/// leave the world `w2`. A write that fails may leave anything beside the store.
pub open spec fn save_answers(
    document: Seq<char>,
    w: SaveWorld,
    a: SaveActionView,
    w2: SaveWorld,
    e: SaveEventView,
) -> bool {
    match (a, e) {
        (SaveActionView::WriteTemp, SaveEventView::Done) => w2 == (SaveWorld {
            temp: Some(document),
            ..w
        }),
        (SaveActionView::WriteTemp, SaveEventView::Failed(_)) => w2.store == w.store,
        (SaveActionView::RenameTemp, SaveEventView::Done) => w2 == (SaveWorld {
            store: w.temp,
            temp: None,
        }),
        (SaveActionView::Probe, SaveEventView::Exists(there)) => w2 == w && there == (
        w.store is Some),
        (SaveActionView::RemoveStore, SaveEventView::Done) => w2 == (SaveWorld {
            store: None,
            ..w
        }),
        (_, SaveEventView::Failed(_)) => w2 == w,
        _ => false,
    }
}

/// A moment of a save.
pub struct SaveMoment {
    pub event: SaveEventView,
    pub world: SaveWorld,
    pub phase: SavePhase,
    pub action: SaveActionView,
}

pub open spec fn save_follows(document: Seq<char>, a: SaveMoment, b: SaveMoment) -> bool {
    &&& save_fits(a.phase, b.event)
    &&& save_answers(document, a.world, a.action, b.world, b.event)
    &&& (b.phase, b.action) == save_next(a.phase, b.event)
}

/// Whether `moments` is a save of a document that begins in the world `w`.
pub open spec fn is_save(document: Seq<char>, w: SaveWorld, moments: Seq<SaveMoment>) -> bool {
    &&& moments.len() > 0
    &&& moments[0].world == w
    &&& (moments[0].phase, moments[0].action) == save_next(
        SavePhase::Ready,
        SaveEventView::Begin,
    )
    &&& forall|i: int|
        0 < i < moments.len() ==> save_follows(document, moments[i - 1], #[trigger] moments[i])
}

spec fn save_inv(document: Seq<char>, w: SaveWorld, m: SaveMoment) -> bool {
    match m.phase {
        SavePhase::Ready => false,
        SavePhase::Write => m.action == SaveActionView::WriteTemp && m.world.store == w.store,
        SavePhase::Rename => m.action == SaveActionView::RenameTemp && m.world.store == w.store
            && m.world.temp == Some(document),
        SavePhase::Probe => m.action == SaveActionView::Probe && m.world.store == w.store
            && m.world.temp == Some(document),
        SavePhase::Remove => m.action == SaveActionView::RemoveStore && m.world.store == w.store
            && m.world.temp == Some(document),
        SavePhase::RenameAgain => m.action == SaveActionView::RenameTemp && m.world.store is None
            && m.world.temp == Some(document),
        SavePhase::Finished => match m.action {
            SaveActionView::Finish(Ok(_)) => m.world.store == Some(document) && m.world.temp is None,
            SaveActionView::Finish(Err(_)) => m.world.store == w.store || (m.world.store is None
                && m.world.temp == Some(document)),
            _ => false,
        },
    }
}

proof fn lemma_save_moment(document: Seq<char>, w: SaveWorld, moments: Seq<SaveMoment>, i: int)
    requires
        is_save(document, w, moments),
        0 <= i < moments.len(),
    ensures
        save_inv(document, w, moments[i]),
    decreases i,
{
    if i > 0 {
        lemma_save_moment(document, w, moments, i - 1);
        assert(save_follows(document, moments[i - 1], moments[i]));
    }
}

/// A save that succeeds leaves the new document as the store, and nothing
/// beside it.
pub proof fn finished_save_is_the_store(document: Seq<char>, w: SaveWorld, moments: Seq<SaveMoment>)
    requires
        is_save(document, w, moments),
        moments.last().action == SaveActionView::Finish(Ok(())),
    ensures
        moments.last().world == (SaveWorld { store: Some(document), temp: None }),
{
    lemma_save_moment(document, w, moments, moments.len() - 1);
}

/// At every moment of every save, also of one that fails, the store is as it
/// was, or the new document is there as a whole, as the store or beside it.
pub proof fn store_is_old_or_new_is_whole(
    document: Seq<char>,
    w: SaveWorld,
    moments: Seq<SaveMoment>,
    i: int,
)
    requires
        is_save(document, w, moments),
        0 <= i < moments.len(),
    ensures
        moments[i].world.store == w.store || moments[i].world.store == Some(document) || (
        moments[i].world.store is None && moments[i].world.temp == Some(document)),
{
    lemma_save_moment(document, w, moments, i);
}

/// How many steps a save may still take.
pub open spec fn save_steps_left(phase: SavePhase) -> int {
    match phase {
        SavePhase::Ready => 6,
        SavePhase::Write => 5,
        SavePhase::Rename => 4,
        SavePhase::Probe => 3,
        SavePhase::Remove => 2,
        SavePhase::RenameAgain => 1,
        SavePhase::Finished => 0,
    }
}

/// Every step brings a save nearer to its end, so that every save comes to one.
pub proof fn every_save_step_leads_to_the_end(phase: SavePhase, e: SaveEventView)
    requires
        save_fits(phase, e),
    ensures
        0 <= save_steps_left(save_next(phase, e).0) < save_steps_left(phase),
{
}

/// A save writes the document beside the store first and then moves it over the
/// store, and removes the store only where that move failed. Where nothing else
/// fails it succeeds.
pub proof fn save_survives_a_failed_move(
    document: Seq<char>,
    w: SaveWorld,
    moments: Seq<SaveMoment>,
    i: int,
)
    requires
        is_save(document, w, moments),
        0 <= i < moments.len(),
    ensures
        moments[0].action == SaveActionView::WriteTemp,
        i == 1 && moments[1].event is Done ==> moments[1].action == SaveActionView::RenameTemp,
        moments[i].action is RemoveStore ==> i == 3 && moments[2].event is Failed
            && moments[2].world.store is Some,
        (forall|k: int| 0 < k < moments.len() && k != 2 ==> !((#[trigger] moments[k]).event
            is Failed)) && moments.last().action is Finish ==> moments.last().action
            == SaveActionView::Finish(Ok(())),
{
    let n = moments.len();
    lemma_save_moment(document, w, moments, n - 1);
    if n > 1 {
        assert(save_follows(document, moments[0], moments[1]));
        lemma_save_moment(document, w, moments, n - 2);
        assert(save_follows(document, moments[n - 2], moments[n - 1]));
    }
    if n > 2 {
        assert(save_follows(document, moments[1], moments[2]));
    }
    if n > 3 {
        assert(save_follows(document, moments[2], moments[3]));
    }
    if n > 4 {
        assert(save_follows(document, moments[3], moments[4]));
    }
    if n > 5 {
        assert(save_follows(document, moments[4], moments[5]));
    }
    if n > 6 {
        assert(save_follows(document, moments[5], moments[6]));
    }
}

/// A save takes every report that its driver may give on what it has asked for;
/// a look for the store always tells whether it is there.
pub proof fn every_save_report_is_taken(
    document: Seq<char>,
    w: SaveWorld,
    moments: Seq<SaveMoment>,
    w2: SaveWorld,
    e: SaveEventView,
)
    requires
        is_save(document, w, moments),
        save_answers(document, moments.last().world, moments.last().action, w2, e),
        !(moments.last().action is Finish),
        moments.last().action is Probe ==> e is Exists,
    ensures
        save_fits(moments.last().phase, e),
{
    lemma_save_moment(document, w, moments, moments.len() - 1);
}

} // verus!
