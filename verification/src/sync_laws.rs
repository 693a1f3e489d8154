//! What a run does to the files of the two sides, taken as a whole.
//!
//! The files are modelled as a world, and a run as the sequence of its moments.
//! `answers` says what the driver of a run does to the world when it carries a
//! request out; everything else follows from the decisions of the run.
use crate::clock::Timestamp;
use crate::hashing::blake3_hex;
use crate::listing::{
    is_key_set, keys_without, selection_of_keys, with_keys, with_keys_is_union,
};
use crate::models::{DeletePolicy, RuleKind};
use crate::sync_engine::{
    at_phase, before_entries, begin_change, compared, count_change, count_skip, differing, enter,
    entries_ok, fits, has_entry, keys_ok, likeness, lone_change, mirrored_entries, moves_extras,
    new_run, newer_side, next, no_counts, one_entry, past_entry, run_ok, ActionView, Change, EventView,
    FileMeta, Likeness, RuleSide, RunCounts, RunView, SeenView, SyncPhase, FILE_SYNC_ENTRY,
};
use crate::text::{text_less, text_order_equal};
use vstd::prelude::*;
use vstd::string::*;

verus! {

/// A file: what it holds and when it was written.
pub struct FileState {
    pub bytes: Seq<u8>,
    pub modified: Timestamp,
}

/// The files of both sides by their entries, and the copies that were put into
/// the backup folders so far.
#[verifier::ext_equal]
pub struct World {
    pub source: Map<Seq<char>, FileState>,
    pub target: Map<Seq<char>, FileState>,
    pub saved: Set<(RuleSide, Seq<char>, FileState)>,
}

pub open spec fn files(w: World, side: RuleSide) -> Map<Seq<char>, FileState> {
    match side {
        RuleSide::Source => w.source,
        RuleSide::Target => w.target,
    }
}

pub open spec fn file_at(w: World, side: RuleSide, entry: Seq<char>) -> Option<FileState> {
    if files(w, side).dom().contains(entry) {
        Some(files(w, side)[entry])
    } else {
        None
    }
}

/// What stands at an entry: the file of the source and that of the target.
pub open spec fn pair_at(w: World, entry: Seq<char>) -> (Option<FileState>, Option<FileState>) {
    (file_at(w, RuleSide::Source, entry), file_at(w, RuleSide::Target, entry))
}

pub open spec fn with_file(w: World, side: RuleSide, entry: Seq<char>, file: FileState) -> World {
    match side {
        RuleSide::Source => World { source: w.source.insert(entry, file), ..w },
        RuleSide::Target => World { target: w.target.insert(entry, file), ..w },
    }
}

pub open spec fn without_file(w: World, side: RuleSide, entry: Seq<char>) -> World {
    match side {
        RuleSide::Source => World { source: w.source.remove(entry), ..w },
        RuleSide::Target => World { target: w.target.remove(entry), ..w },
    }
}

pub open spec fn meta_of(file: FileState) -> FileMeta {
    FileMeta { len: file.bytes.len() as u64, modified: file.modified, is_file: true }
}

pub open spec fn meta_at(w: World, side: RuleSide, entry: Seq<char>) -> Option<FileMeta> {
    match file_at(w, side, entry) {
        Some(file) => Some(meta_of(file)),
        None => None,
    }
}

/// Whether two files are taken to be the same: they are equally long, and were
/// written at the same time or have the same digest.
pub open spec fn alike(a: FileState, b: FileState) -> bool {
    match likeness(meta_of(a), meta_of(b)) {
        Likeness::Same => true,
        Likeness::Different => false,
        Likeness::Unknown => blake3_hex(a.bytes) == blake3_hex(b.bytes),
    }
}

/// Whether `keys` are the selected files of a side.
pub open spec fn lists(keys: Seq<Seq<char>>, selected: Set<Seq<char>>, w: World, side: RuleSide) -> bool {
    forall|k: Seq<char>| #[trigger]
        keys.contains(k) <==> selected.contains(k) && file_at(w, side, k) is Some
}

/// Whether nothing but the file of one side at one entry differs.
pub open spec fn same_but(w: World, w2: World, side: RuleSide, entry: Seq<char>) -> bool {
    &&& w2.saved == w.saved
    &&& forall|s: RuleSide, k: Seq<char>|
        s != side || k != entry ==> #[trigger] file_at(w2, s, k) == file_at(w, s, k)
}

/// Whether a driver that is asked for `a` in the world `w` may report `e` and
/// leave the world as `w2`. A copy that fails may have spoilt the file that it
/// was to write; any other request that fails changes nothing.
pub open spec fn answers(
    selected: Set<Seq<char>>,
    w: World,
    a: ActionView,
    w2: World,
    e: EventView,
) -> bool {
    match (a, e) {
        (ActionView::List(side), EventView::Listed(keys)) => w2 == w && is_key_set(keys) && lists(
            keys,
            selected,
            w,
            side,
        ),
        (ActionView::CreateFolder(_), EventView::Done) => w2 == w,
        (ActionView::EnsureParent(_), EventView::Done) => w2 == w,
        (ActionView::RemoveEmptyFolders(_), EventView::Done) => w2 == w,
        (ActionView::PurgeBackups, EventView::Done) => w2 == w,
        (ActionView::Inspect(entry), EventView::Found { source, target }) => w2 == w && source
            == meta_at(w, RuleSide::Source, entry) && target == meta_at(
            w,
            RuleSide::Target,
            entry,
        ),
        (ActionView::Digest(entry), EventView::Digests { source, target }) => w2 == w && (
        pair_at(w, entry) matches (Some(s), Some(t)) && source == blake3_hex(s.bytes) && target
            == blake3_hex(t.bytes)),
        (ActionView::Probe { entry, side }, EventView::Exists(there)) => w2 == w && there == (
        file_at(w, side, entry) is Some),
        (ActionView::Backup { entry, side }, EventView::Done) => match file_at(w, side, entry) {
            Some(file) => w2 == (World { saved: w.saved.insert((side, entry, file)), ..w }),
            None => w2 == w,
        },
        (ActionView::Copy { entry, from }, EventView::Done) => file_at(
            w,
            from,
            entry,
        ) matches Some(file) && w2 == with_file(w, from.other(), entry, file),
        (ActionView::Remove { entry, side }, EventView::Done) => w2 == without_file(w, side, entry),
        (ActionView::Finish(_), _) => false,
        (ActionView::Copy { entry, from }, EventView::Failed(_)) => same_but(
            w,
            w2,
            from.other(),
            entry,
        ),
        (_, EventView::Failed(_)) => w2 == w,
        _ => false,
    }
}

/// A moment of a run: what was reported last, what the world and the run are
/// now, and what the run asks for.
pub struct Moment {
    pub event: EventView,
    pub world: World,
    pub run: RunView,
    pub action: ActionView,
}

/// Whether `b` comes right after `a`. The entries of a run are held in memory,
/// so there are no more than a `usize` can count.
pub open spec fn follows(selected: Set<Seq<char>>, a: Moment, b: Moment) -> bool {
    &&& fits(a.run, b.event)
    &&& b.run.entries.len() <= usize::MAX
    &&& answers(selected, a.world, a.action, b.world, b.event)
    &&& (b.run, b.action) == next(a.run, b.event)
}

/// Whether `moments` is a run of the rule that begins in the world `w`.
pub open spec fn is_run(
    kind: RuleKind,
    bidirectional: bool,
    delete_policy: DeletePolicy,
    mirrored: Seq<Seq<char>>,
    selected: Set<Seq<char>>,
    w: World,
    moments: Seq<Moment>,
) -> bool {
    &&& moments.len() > 0
    &&& moments[0].world == w
    &&& moments[0].event == EventView::Begin
    &&& (moments[0].run, moments[0].action) == next(
        new_run(kind, bidirectional, delete_policy, mirrored),
        EventView::Begin,
    )
    &&& forall|i: int| 0 < i < moments.len() ==> follows(selected, moments[i - 1], #[trigger] moments[i])
}

/// What the files of an entry call for.
pub open spec fn entry_change(
    r: RunView,
    s: Option<FileState>,
    t: Option<FileState>,
    was_mirrored: bool,
) -> Option<Change> {
    match (s, t) {
        (Some(sf), Some(tf)) => if alike(sf, tf) {
            None
        } else if r.bidirectional {
            Some(Change::Replace { from: newer_side(sf.modified.before(tf.modified)) })
        } else {
            Some(Change::Replace { from: RuleSide::Source })
        },
        (Some(_), None) => if r.bidirectional {
            Some(lone_change(was_mirrored, RuleSide::Source))
        } else {
            Some(Change::Create { from: RuleSide::Source })
        },
        (None, Some(_)) => if r.bidirectional {
            Some(lone_change(was_mirrored, RuleSide::Target))
        } else if moves_extras(r) {
            Some(Change::Delete { side: RuleSide::Target })
        } else {
            None
        },
        (None, None) => None,
    }
}

/// Whether the rule is about the entry at all.
pub open spec fn concerns(r: RunView, selected: Set<Seq<char>>, k: Seq<char>) -> bool {
    if r.kind == RuleKind::File {
        k == FILE_SYNC_ENTRY@
    } else {
        selected.contains(k)
    }
}

/// What a run that begins in the world `w` is to do to the entry `k`.
pub open spec fn change_at(r: RunView, selected: Set<Seq<char>>, w: World, k: Seq<char>) -> Option<
    Change,
> {
    if concerns(r, selected, k) {
        entry_change(
            r,
            file_at(w, RuleSide::Source, k),
            file_at(w, RuleSide::Target, k),
            r.mirrored.contains(k),
        )
    } else {
        None
    }
}

/// The files of an entry after a change.
pub open spec fn changed(
    change: Change,
    pair: (Option<FileState>, Option<FileState>),
) -> (Option<FileState>, Option<FileState>) {
    match change {
        Change::Create { from: RuleSide::Source } => (pair.0, pair.0),
        Change::Create { from: RuleSide::Target } => (pair.1, pair.1),
        Change::Replace { from: RuleSide::Source } => (pair.0, pair.0),
        Change::Replace { from: RuleSide::Target } => (pair.1, pair.1),
        Change::Delete { side: RuleSide::Source } => (None, pair.1),
        Change::Delete { side: RuleSide::Target } => (pair.0, None),
    }
}

/// The files of the entry `k` after a run that began in the world `w`.
pub open spec fn outcome(r: RunView, selected: Set<Seq<char>>, w: World, k: Seq<char>) -> (
    Option<FileState>,
    Option<FileState>,
) {
    match change_at(r, selected, w, k) {
        Some(change) => changed(change, pair_at(w, k)),
        None => pair_at(w, k),
    }
}

/// The side whose file a change takes away.
pub open spec fn loses(change: Change) -> Option<RuleSide> {
    match change {
        Change::Create { from } => None,
        Change::Replace { from } => Some(from.other()),
        Change::Delete { side } => Some(side),
    }
}

/// The counts of a run over the entries `keys`.
pub open spec fn tally(r: RunView, selected: Set<Seq<char>>, w: World, keys: Seq<Seq<char>>) -> RunCounts
    decreases keys.len(),
{
    if keys.len() == 0 {
        no_counts()
    } else {
        let before = tally(r, selected, w, keys.drop_last());
        match change_at(r, selected, w, keys.last()) {
            Some(change) => count_change(before, change),
            None => count_skip(before),
        }
    }
}

/// The entries that a run has dealt with, in order.
pub open spec fn done_keys(r: RunView) -> Seq<Seq<char>> {
    if r.extras {
        r.source_keys + r.entries.take(r.position)
    } else {
        r.entries.take(r.position)
    }
}

/// Whether every file that was there and is no longer, or is another, was
/// backed up.
pub open spec fn nothing_lost(w0: World, w: World) -> bool {
    forall|side: RuleSide, k: Seq<char>|
        file_at(w0, side, k) is Some && #[trigger] file_at(w, side, k) != file_at(w0, side, k)
            ==> w.saved.contains((side, k, file_at(w0, side, k)->0))
}

/// Whether every backup was made for the sake of a change that takes the file away.
pub open spec fn saved_for_cause(r: RunView, selected: Set<Seq<char>>, w0: World, w: World) -> bool {
    forall|side: RuleSide, k: Seq<char>, f: FileState| #[trigger]
        w.saved.contains((side, k, f)) ==> w0.saved.contains((side, k, f)) || (change_at(
            r,
            selected,
            w0,
            k,
        ) matches Some(change) && loses(change) == Some(side))
}

/// The parts of a run that never change.
pub open spec fn same_rule(a: RunView, b: RunView) -> bool {
    &&& a.kind == b.kind
    &&& a.bidirectional == b.bidirectional
    &&& a.delete_policy == b.delete_policy
    &&& a.mirrored == b.mirrored
}

spec fn keys_listed(r: RunView, selected: Set<Seq<char>>, w0: World) -> bool {
    &&& is_key_set(r.entries)
    &&& r.kind == RuleKind::File ==> r.entries == seq![FILE_SYNC_ENTRY@]
    &&& r.kind == RuleKind::Folder ==> lists(r.source_keys, selected, w0, RuleSide::Source)
    &&& r.kind == RuleKind::Folder && r.bidirectional ==> {
        &&& lists(r.target_keys, selected, w0, RuleSide::Target)
        &&& forall|k: Seq<char>| #[trigger]
            r.entries.contains(k) <==> r.source_keys.contains(k) || r.target_keys.contains(k)
                || r.mirrored.contains(k)
    }
    &&& r.extras ==> {
        &&& moves_extras(r)
        &&& forall|k: Seq<char>| #[trigger]
            r.entries.contains(k) <==> selected.contains(k) && file_at(w0, RuleSide::Target, k) is Some
                && file_at(w0, RuleSide::Source, k) is None
    }
}

spec fn world_inv(r: RunView, selected: Set<Seq<char>>, w0: World, w: World) -> bool {
    &&& forall|k: Seq<char>| #[trigger]
        pair_at(w, k) == if done_keys(r).contains(k) {
            outcome(r, selected, w0, k)
        } else {
            pair_at(w0, k)
        }
    &&& forall|k: Seq<char>| #[trigger]
        done_keys(r).contains(k) && (change_at(r, selected, w0, k) matches Some(change) && loses(
            change,
        ) is Some) ==> w.saved.contains(
            (
                loses(change_at(r, selected, w0, k)->0)->0,
                k,
                file_at(w0, loses(change_at(r, selected, w0, k)->0)->0, k)->0,
            ),
        )
    &&& saved_for_cause(r, selected, w0, w)
    &&& r.counts == tally(r, selected, w0, done_keys(r))
}

spec fn between_inv(r: RunView, selected: Set<Seq<char>>, w0: World, w: World) -> bool {
    &&& keys_ok(r)
    &&& entries_ok(r)
    &&& keys_listed(r, selected, w0)
    &&& world_inv(r, selected, w0, w)
}

/// What a run that stands at a phase has asked for.
spec fn request(r: RunView) -> ActionView {
    let entry = r.entries[r.position];
    match r.phase {
        SyncPhase::ListSource => ActionView::List(RuleSide::Source),
        SyncPhase::ListTarget => ActionView::List(RuleSide::Target),
        SyncPhase::CreateTarget => ActionView::CreateFolder(RuleSide::Target),
        SyncPhase::Parent => ActionView::EnsureParent(entry),
        SyncPhase::Inspect => ActionView::Inspect(entry),
        SyncPhase::Digest { .. } => ActionView::Digest(entry),
        SyncPhase::Probe { winner } => ActionView::Probe { entry, side: winner.other() },
        SyncPhase::Saving { change } => ActionView::Backup { entry, side: loses(change)->0 },
        SyncPhase::Writing { change } => match change {
            Change::Create { from } => ActionView::Copy { entry, from },
            Change::Replace { from } => ActionView::Copy { entry, from },
            Change::Delete { side } => ActionView::Remove { entry, side },
        },
        SyncPhase::ListExtra => ActionView::List(RuleSide::Target),
        SyncPhase::EmptySource => ActionView::RemoveEmptyFolders(RuleSide::Source),
        SyncPhase::EmptyTarget => ActionView::RemoveEmptyFolders(RuleSide::Target),
        _ => ActionView::PurgeBackups,
    }
}

/// What a run knows of its entry at each phase.
spec fn phase_inv(r: RunView, selected: Set<Seq<char>>, w0: World, w: World) -> bool {
    let k = r.entries[r.position];
    let change = change_at(r, selected, w0, k);
    &&& has_entry(r.phase) <==> r.position < r.entries.len()
    &&& has_entry(r.phase) ==> concerns(r, selected, k)
    &&& match r.phase {
        SyncPhase::Parent => !r.bidirectional && !r.extras,
        SyncPhase::Inspect => {
            &&& !r.extras
            &&& r.kind == RuleKind::Folder && r.bidirectional ==> pair_at(w0, k) matches (
                Some(_),
                Some(_),
            )
        },
        SyncPhase::Digest { target_newer } => {
            &&& !r.extras
            &&& pair_at(w0, k) matches (Some(s), Some(t)) && likeness(meta_of(s), meta_of(t))
                == Likeness::Unknown && target_newer == s.modified.before(t.modified)
        },
        SyncPhase::Probe { winner } => {
            &&& r.bidirectional
            &&& pair_at(w0, k) matches (Some(s), Some(t)) && !alike(s, t) && winner == newer_side(
                s.modified.before(t.modified),
            )
        },
        SyncPhase::Saving { change: c } => change == Some(c) && loses(c) is Some,
        SyncPhase::Writing { change: c } => {
            ||| change == Some(c) && (loses(c) matches Some(side) ==> w.saved.contains(
                (side, k, file_at(w0, side, k)->0),
            ))
            ||| c == (Change::Create { from: RuleSide::Source }) && pair_at(w0, k) == (
                None::<FileState>,
                None::<FileState>,
            )
        },
        SyncPhase::ListExtra => moves_extras(r) && !r.extras,
        SyncPhase::EmptySource => r.kind == RuleKind::Folder && r.bidirectional,
        SyncPhase::EmptyTarget => r.kind == RuleKind::Folder && (r.bidirectional || r.extras),
        SyncPhase::Purge => moves_extras(r) ==> r.extras,
        _ => false,
    }
}

/// The world as the run was to leave it.
pub open spec fn settled(r: RunView, selected: Set<Seq<char>>, w0: World, w: World) -> bool {
    forall|k: Seq<char>| #[trigger] pair_at(w, k) == outcome(r, selected, w0, k)
}

spec fn moment_inv(selected: Set<Seq<char>>, w0: World, m: Moment) -> bool {
    let r = m.run;
    &&& nothing_lost(w0, m.world)
    &&& saved_for_cause(r, selected, w0, m.world)
    &&& if r.phase == SyncPhase::Finished {
        match m.action {
            ActionView::Finish(Ok(counts)) => {
                &&& settled(r, selected, w0, m.world)
                &&& counts == tally(r, selected, w0, done_keys(r))
                &&& entries_ok(r)
                &&& counts == r.counts
                &&& keys_ok(r)
                &&& keys_listed(r, selected, w0)
                &&& r.position == r.entries.len()
                &&& moves_extras(r) ==> r.extras
            },
            ActionView::Finish(Err(_)) => true,
            _ => false,
        }
    } else if before_entries(r.phase) {
        &&& r.kind == RuleKind::Folder
        &&& m.world == w0
        &&& keys_ok(r)
        &&& r.position == 0
        &&& !r.extras
        &&& r.counts == no_counts()
        &&& m.action == request(r)
        &&& r.phase != SyncPhase::Ready
        &&& r.phase == SyncPhase::ListTarget ==> r.bidirectional
        &&& r.phase == SyncPhase::CreateTarget ==> !r.bidirectional
        &&& r.phase != SyncPhase::ListSource ==> lists(
            r.source_keys,
            selected,
            w0,
            RuleSide::Source,
        )
    } else {
        &&& between_inv(r, selected, w0, m.world)
        &&& phase_inv(r, selected, w0, m.world)
        &&& m.action == request(r)
    }
}

/// A key does not occur before its own place.
proof fn lemma_key_not_before(s: Seq<Seq<char>>, i: int)
    requires
        is_key_set(s),
        0 <= i < s.len(),
    ensures
        !s.take(i).contains(s[i]),
{
    if s.take(i).contains(s[i]) {
        let j = choose|j: int| 0 <= j < s.take(i).len() && s.take(i)[j] == s[i];
        assert(text_less(s[j], s[i]));
        text_order_equal(s[j], s[i]);
    }
}

proof fn lemma_entry_not_done(r: RunView, selected: Set<Seq<char>>, w0: World)
    requires
        keys_listed(r, selected, w0),
        0 <= r.position < r.entries.len(),
        entries_ok(r),
    ensures
        !done_keys(r).contains(r.entries[r.position]),
{
    let k = r.entries[r.position];
    lemma_key_not_before(r.entries, r.position);
    assert(r.entries.contains(k));
    if r.extras && done_keys(r).contains(k) {
        let j = choose|j: int| 0 <= j < done_keys(r).len() && done_keys(r)[j] == k;
        if j < r.source_keys.len() {
            assert(r.source_keys.contains(k));
        } else {
            assert(r.entries.take(r.position)[j - r.source_keys.len()] == k);
            assert(r.entries.take(r.position).contains(k));
        }
    }
}

/// One more entry done: the entries done before, and that one.
proof fn lemma_done_grows(r: RunView, counts: RunCounts)
    requires
        0 <= r.position < r.entries.len(),
    ensures
        done_keys(past_entry(r, counts)) == done_keys(r).push(r.entries[r.position]),
        done_keys(past_entry(r, counts)).drop_last() == done_keys(r),
        done_keys(past_entry(r, counts)).last() == r.entries[r.position],
        forall|k: Seq<char>| #[trigger]
            done_keys(past_entry(r, counts)).contains(k) <==> done_keys(r).contains(k) || k
                == r.entries[r.position],
{
    let d = done_keys(r);
    let e = r.entries[r.position];
    let d2 = done_keys(past_entry(r, counts));
    assert(r.entries.take(r.position + 1) =~= r.entries.take(r.position).push(e));
    assert(d2 =~= d.push(e));
    assert(d2.drop_last() =~= d);
    assert forall|k: Seq<char>| #[trigger] d2.contains(k) <==> d.contains(k) || k == e by {
        if d.contains(k) {
            let i = choose|i: int| 0 <= i < d.len() && d[i] == k;
            assert(d2[i] == k);
        }
        if k == e {
            assert(d2[d.len() as int] == k);
        }
        if d2.contains(k) {
            let i = choose|i: int| 0 <= i < d2.len() && d2[i] == k;
            if i < d.len() {
                assert(d[i] == k);
            }
        }
    }
}

/// `change_at`, `outcome` and `tally` depend on the rule alone.
proof fn lemma_same_tally(a: RunView, b: RunView, selected: Set<Seq<char>>, w: World, keys: Seq<Seq<char>>)
    requires
        same_rule(a, b),
    ensures
        tally(a, selected, w, keys) == tally(b, selected, w, keys),
        forall|k: Seq<char>| #[trigger] change_at(a, selected, w, k) == change_at(b, selected, w, k),
        forall|k: Seq<char>| #[trigger] outcome(a, selected, w, k) == outcome(b, selected, w, k),
    decreases keys.len(),
{
    assert forall|k: Seq<char>| #[trigger] change_at(a, selected, w, k) == change_at(
        b,
        selected,
        w,
        k,
    ) by {}
    assert forall|k: Seq<char>| #[trigger] outcome(a, selected, w, k) == outcome(b, selected, w, k) by {
        assert(change_at(a, selected, w, k) == change_at(b, selected, w, k));
    }
    if keys.len() > 0 {
        lemma_same_tally(a, b, selected, w, keys.drop_last());
        assert(change_at(a, selected, w, keys.last()) == change_at(b, selected, w, keys.last()));
    }
}

/// The change of an entry takes nothing away from a side that it does not lose.
proof fn lemma_change_keeps(r: RunView, selected: Set<Seq<char>>, w0: World, k: Seq<char>, side: RuleSide)
    requires
        change_at(r, selected, w0, k) matches Some(c) ==> loses(c) != Some(side),
        file_at(w0, side, k) is Some,
    ensures
        match side {
            RuleSide::Source => outcome(r, selected, w0, k).0 == file_at(w0, side, k),
            RuleSide::Target => outcome(r, selected, w0, k).1 == file_at(w0, side, k),
        },
{
}

proof fn lemma_world_inv_loses_nothing(r: RunView, selected: Set<Seq<char>>, w0: World, w: World)
    requires
        world_inv(r, selected, w0, w),
    ensures
        nothing_lost(w0, w),
{
    assert forall|side: RuleSide, k: Seq<char>|
        file_at(w0, side, k) is Some && #[trigger] file_at(w, side, k) != file_at(
            w0,
            side,
            k,
        ) implies w.saved.contains((side, k, file_at(w0, side, k)->0)) by {
        let p = pair_at(w, k);
        assert(p == if done_keys(r).contains(k) {
            outcome(r, selected, w0, k)
        } else {
            pair_at(w0, k)
        });
        if !(change_at(r, selected, w0, k) matches Some(c) && loses(c) == Some(side)) {
            lemma_change_keeps(r, selected, w0, k, side);
        }
    }
}

proof fn lemma_phase_free(r: RunView, phase: SyncPhase, selected: Set<Seq<char>>, w0: World, w: World)
    requires
        between_inv(r, selected, w0, w),
    ensures
        between_inv(at_phase(r, phase), selected, w0, w),
        forall|k: Seq<char>| #[trigger]
            change_at(at_phase(r, phase), selected, w0, k) == change_at(r, selected, w0, k),
{
    let r2 = at_phase(r, phase);
    lemma_same_tally(r, r2, selected, w0, done_keys(r));
    assert(done_keys(r2) == done_keys(r));
    assert forall|k: Seq<char>| #[trigger]
        pair_at(w, k) == if done_keys(r2).contains(k) {
            outcome(r2, selected, w0, k)
        } else {
            pair_at(w0, k)
        } by {
        assert(outcome(r, selected, w0, k) == outcome(r2, selected, w0, k));
    }
    assert forall|side: RuleSide, k: Seq<char>, f: FileState| #[trigger]
        w.saved.contains((side, k, f)) implies w0.saved.contains((side, k, f)) || (change_at(
        r2,
        selected,
        w0,
        k,
    ) matches Some(change) && loses(change) == Some(side)) by {
        assert(change_at(r, selected, w0, k) == change_at(r2, selected, w0, k));
    }
}

/// The entry at hand is done with.
proof fn lemma_past(
    r: RunView,
    counts: RunCounts,
    selected: Set<Seq<char>>,
    w0: World,
    w: World,
    w2: World,
)
    requires
        between_inv(r, selected, w0, w),
        r.position < r.entries.len(),
        counts == match change_at(r, selected, w0, r.entries[r.position]) {
            Some(change) => count_change(r.counts, change),
            None => count_skip(r.counts),
        },
        pair_at(w2, r.entries[r.position]) == outcome(r, selected, w0, r.entries[r.position]),
        forall|k: Seq<char>|
            k != r.entries[r.position] ==> #[trigger] pair_at(w2, k) == pair_at(w, k),
        w2.saved == w.saved,
        change_at(r, selected, w0, r.entries[r.position]) matches Some(change) && loses(
            change,
        ) is Some ==> w.saved.contains(
            (
                loses(change_at(r, selected, w0, r.entries[r.position])->0)->0,
                r.entries[r.position],
                file_at(
                    w0,
                    loses(change_at(r, selected, w0, r.entries[r.position])->0)->0,
                    r.entries[r.position],
                )->0,
            ),
        ),
    ensures
        between_inv(past_entry(r, counts), selected, w0, w2),
{
    let r2 = past_entry(r, counts);
    let e = r.entries[r.position];
    lemma_done_grows(r, counts);
    lemma_same_tally(r, r2, selected, w0, done_keys(r));
    assert(change_at(r, selected, w0, e) == change_at(r2, selected, w0, e));
    assert(tally(r2, selected, w0, done_keys(r2)) == counts);
    assert forall|k: Seq<char>| #[trigger]
        pair_at(w2, k) == if done_keys(r2).contains(k) {
            outcome(r2, selected, w0, k)
        } else {
            pair_at(w0, k)
        } by {
        assert(outcome(r, selected, w0, k) == outcome(r2, selected, w0, k));
        assert(done_keys(r2).contains(k) <==> done_keys(r).contains(k) || k == e);
        if k != e {
            assert(pair_at(w2, k) == pair_at(w, k));
        }
    }
    assert forall|k: Seq<char>| #[trigger]
        done_keys(r2).contains(k) && (change_at(r2, selected, w0, k) matches Some(change) && loses(
            change,
        ) is Some) implies w2.saved.contains(
        (
            loses(change_at(r2, selected, w0, k)->0)->0,
            k,
            file_at(w0, loses(change_at(r2, selected, w0, k)->0)->0, k)->0,
        ),
    ) by {
        assert(change_at(r, selected, w0, k) == change_at(r2, selected, w0, k));
        if k != e {
            assert(done_keys(r).contains(k));
        }
    }
    assert forall|side: RuleSide, k: Seq<char>, f: FileState| #[trigger]
        w2.saved.contains((side, k, f)) implies w0.saved.contains((side, k, f)) || (change_at(
        r2,
        selected,
        w0,
        k,
    ) matches Some(change) && loses(change) == Some(side)) by {
        assert(change_at(r, selected, w0, k) == change_at(r2, selected, w0, k));
        assert(w.saved.contains((side, k, f)));
    }
}

/// The moment at which a run stands with the request of its phase.
spec fn standing(r: RunView, w: World) -> Moment {
    Moment { event: EventView::Done, world: w, run: r, action: request(r) }
}

/// A run that sets out on the change that its entry calls for.
proof fn lemma_begin_change(r: RunView, change: Change, selected: Set<Seq<char>>, w0: World, w: World)
    requires
        between_inv(r, selected, w0, w),
        r.position < r.entries.len(),
        concerns(r, selected, r.entries[r.position]),
        change_at(r, selected, w0, r.entries[r.position]) == Some(change),
    ensures
        begin_change(r, change).1 == request(begin_change(r, change).0),
        moment_inv(selected, w0, standing(begin_change(r, change).0, w)),
{
    let r2 = begin_change(r, change).0;
    lemma_phase_free(r, r2.phase, selected, w0, w);
    lemma_world_inv_loses_nothing(r2, selected, w0, w);
    assert(change_at(r2, selected, w0, r.entries[r.position]) == Some(change));
}

/// A run that turns to its next entry.
proof fn lemma_enter(r: RunView, selected: Set<Seq<char>>, w0: World, w: World)
    requires
        between_inv(r, selected, w0, w),
    ensures
        enter(r).1 == request(enter(r).0),
        moment_inv(selected, w0, standing(enter(r).0, w)),
    decreases r.entries.len() - r.position,
{
    lemma_world_inv_loses_nothing(r, selected, w0, w);
    let r2 = enter(r).0;
    if r.position >= r.entries.len() {
        lemma_phase_free(r, r2.phase, selected, w0, w);
    } else {
        let e = r.entries[r.position];
        assert(r.entries.contains(e));
        lemma_entry_not_done(r, selected, w0);
        assert(pair_at(w, e) == pair_at(w0, e));
        if r.extras {
            lemma_begin_change(r, Change::Delete { side: RuleSide::Target }, selected, w0, w);
        } else if !r.bidirectional || r.kind == RuleKind::File {
            lemma_phase_free(r, r2.phase, selected, w0, w);
        } else if r.source_keys.contains(e) && r.target_keys.contains(e) {
            lemma_phase_free(r, r2.phase, selected, w0, w);
        } else if r.source_keys.contains(e) {
            lemma_begin_change(
                r,
                lone_change(r.mirrored.contains(e), RuleSide::Source),
                selected,
                w0,
                w,
            );
        } else if r.target_keys.contains(e) {
            lemma_begin_change(
                r,
                lone_change(r.mirrored.contains(e), RuleSide::Target),
                selected,
                w0,
                w,
            );
        } else {
            assert(change_at(r, selected, w0, e) is None);
            lemma_past(r, count_skip(r.counts), selected, w0, w, w);
            lemma_enter(past_entry(r, count_skip(r.counts)), selected, w0, w);
        }
    }
}

/// A run that found its entry to be in step.
proof fn lemma_skip(r: RunView, selected: Set<Seq<char>>, w0: World, w: World)
    requires
        between_inv(r, selected, w0, w),
        r.position < r.entries.len(),
        change_at(r, selected, w0, r.entries[r.position]) is None,
    ensures
        enter(past_entry(r, count_skip(r.counts))).1 == request(
            enter(past_entry(r, count_skip(r.counts))).0,
        ),
        moment_inv(selected, w0, standing(enter(past_entry(r, count_skip(r.counts))).0, w)),
{
    lemma_entry_not_done(r, selected, w0);
    assert(pair_at(w, r.entries[r.position]) == pair_at(w0, r.entries[r.position]));
    lemma_past(r, count_skip(r.counts), selected, w0, w, w);
    lemma_enter(past_entry(r, count_skip(r.counts)), selected, w0, w);
}

/// A run whose two files differ.
proof fn lemma_differing(r: RunView, selected: Set<Seq<char>>, w0: World, w: World)
    requires
        between_inv(r, selected, w0, w),
        !r.extras,
        r.position < r.entries.len(),
        concerns(r, selected, r.entries[r.position]),
        pair_at(w0, r.entries[r.position]) matches (Some(s), Some(t)) && !alike(s, t),
    ensures
        ({
            let p = pair_at(w0, r.entries[r.position]);
            let n = differing(r, p.0->0.modified.before(p.1->0.modified));
            n.1 == request(n.0) && moment_inv(selected, w0, standing(n.0, w))
        }),
{
    let p = pair_at(w0, r.entries[r.position]);
    let tn = p.0->0.modified.before(p.1->0.modified);
    if r.bidirectional {
        lemma_phase_free(r, SyncPhase::Probe { winner: newer_side(tn) }, selected, w0, w);
        lemma_world_inv_loses_nothing(r, selected, w0, w);
    } else {
        lemma_begin_change(r, Change::Replace { from: RuleSide::Source }, selected, w0, w);
    }
}

/// A run that knows both files of its entry.
proof fn lemma_compared(r: RunView, selected: Set<Seq<char>>, w0: World, w: World)
    requires
        between_inv(r, selected, w0, w),
        !r.extras,
        r.position < r.entries.len(),
        concerns(r, selected, r.entries[r.position]),
        pair_at(w0, r.entries[r.position]) matches (Some(s), Some(t)),
    ensures
        ({
            let p = pair_at(w0, r.entries[r.position]);
            let n = compared(r, meta_of(p.0->0), meta_of(p.1->0));
            n.1 == request(n.0) && moment_inv(selected, w0, standing(n.0, w))
        }),
{
    let p = pair_at(w0, r.entries[r.position]);
    let s = p.0->0;
    let t = p.1->0;
    let tn = s.modified.before(t.modified);
    lemma_world_inv_loses_nothing(r, selected, w0, w);
    match likeness(meta_of(s), meta_of(t)) {
        Likeness::Same => lemma_skip(r, selected, w0, w),
        Likeness::Different => lemma_differing(r, selected, w0, w),
        Likeness::Unknown => {
            lemma_phase_free(r, SyncPhase::Digest { target_newer: tn }, selected, w0, w);
        },
    }
}

/// A run that has looked at its entry.
proof fn lemma_found(selected: Set<Seq<char>>, w0: World, a: Moment, b: Moment)
    requires
        moment_inv(selected, w0, a),
        a.run.phase == SyncPhase::Inspect,
        follows(selected, a, b),
        b.event is Found,
    ensures
        moment_inv(selected, w0, b),
{
    let r = a.run;
    let w = a.world;
    let e = r.entries[r.position];
    lemma_entry_not_done(r, selected, w0);
    assert(pair_at(w, e) == pair_at(w0, e));
    lemma_phase_free(r, SyncPhase::Finished, selected, w0, w);
    match pair_at(w0, e) {
        (Some(s), Some(t)) => {
            lemma_compared(r, selected, w0, w);
        },
        (Some(s), None) => {
            if r.bidirectional {
                lemma_begin_change(
                    r,
                    lone_change(r.mirrored.contains(e), RuleSide::Source),
                    selected,
                    w0,
                    w,
                );
            } else {
                lemma_begin_change(r, Change::Create { from: RuleSide::Source }, selected, w0, w);
            }
        },
        (None, Some(t)) => {
            lemma_begin_change(
                r,
                lone_change(r.mirrored.contains(e), RuleSide::Target),
                selected,
                w0,
                w,
            );
        },
        (None, None) => {
            if r.bidirectional {
                if r.mirrored.contains(FILE_SYNC_ENTRY@) {
                    lemma_skip(r, selected, w0, w);
                }
            } else {
                let c = Change::Create { from: RuleSide::Source };
                lemma_phase_free(r, SyncPhase::Writing { change: c }, selected, w0, w);
            }
        },
    }
}

/// A run whose backup was made.
proof fn lemma_saved(selected: Set<Seq<char>>, w0: World, a: Moment, b: Moment)
    requires
        moment_inv(selected, w0, a),
        a.run.phase is Saving,
        follows(selected, a, b),
        b.event is Done,
    ensures
        moment_inv(selected, w0, b),
{
    let r = a.run;
    let w = a.world;
    let w2 = b.world;
    let e = r.entries[r.position];
    let c = r.phase->Saving_change;
    let side = loses(c)->0;
    lemma_entry_not_done(r, selected, w0);
    assert(pair_at(w, e) == pair_at(w0, e));
    assert(file_at(w, side, e) == file_at(w0, side, e));
    assert(file_at(w0, side, e) is Some);
    let f = file_at(w0, side, e)->0;
    assert forall|k: Seq<char>| #[trigger] pair_at(w2, k) == pair_at(w, k) by {}
    assert(between_inv(r, selected, w0, w2)) by {
        assert forall|k: Seq<char>| #[trigger]
            pair_at(w2, k) == if done_keys(r).contains(k) {
                outcome(r, selected, w0, k)
            } else {
                pair_at(w0, k)
            } by {
            assert(pair_at(w2, k) == pair_at(w, k));
        }
        assert forall|s2: RuleSide, k: Seq<char>, g: FileState| #[trigger]
            w2.saved.contains((s2, k, g)) implies w0.saved.contains((s2, k, g)) || (change_at(
            r,
            selected,
            w0,
            k,
        ) matches Some(change) && loses(change) == Some(s2)) by {
            if !w.saved.contains((s2, k, g)) {
                assert((s2, k, g) == (side, e, f));
            }
        }
    }
    lemma_phase_free(r, SyncPhase::Writing { change: c }, selected, w0, w2);
    lemma_world_inv_loses_nothing(b.run, selected, w0, w2);
}

/// A run whose change was carried out.
proof fn lemma_written(selected: Set<Seq<char>>, w0: World, a: Moment, b: Moment)
    requires
        moment_inv(selected, w0, a),
        a.run.phase is Writing,
        follows(selected, a, b),
        b.event is Done,
    ensures
        moment_inv(selected, w0, b),
{
    let r = a.run;
    let w = a.world;
    let w2 = b.world;
    let e = r.entries[r.position];
    let c = r.phase->Writing_change;
    let counts = count_change(r.counts, c);
    lemma_entry_not_done(r, selected, w0);
    assert(pair_at(w, e) == pair_at(w0, e));
    assert(change_at(r, selected, w0, e) == Some(c));
    assert forall|k: Seq<char>| k != e implies #[trigger] pair_at(w2, k) == pair_at(w, k) by {}
    assert(pair_at(w2, e) == changed(c, pair_at(w0, e)));
    lemma_past(r, counts, selected, w0, w, w2);
    lemma_enter(past_entry(r, counts), selected, w0, w2);
}

/// A run that was told of a failure.
proof fn lemma_failed(selected: Set<Seq<char>>, w0: World, a: Moment, b: Moment)
    requires
        moment_inv(selected, w0, a),
        a.run.phase != SyncPhase::Finished,
        follows(selected, a, b),
        b.event is Failed,
    ensures
        moment_inv(selected, w0, b),
{
    let r = a.run;
    let w = a.world;
    let w2 = b.world;
    let r2 = b.run;
    lemma_same_tally(r, r2, selected, w0, Seq::empty());
    assert(w2.saved == w.saved);
    assert forall|side: RuleSide, k: Seq<char>, f: FileState| #[trigger]
        w2.saved.contains((side, k, f)) implies w0.saved.contains((side, k, f)) || (change_at(
        r2,
        selected,
        w0,
        k,
    ) matches Some(change) && loses(change) == Some(side)) by {
        assert(w.saved.contains((side, k, f)));
        assert(change_at(r, selected, w0, k) == change_at(r2, selected, w0, k));
    }
    if r.phase is Writing {
        let e = r.entries[r.position];
        let c = r.phase->Writing_change;
        lemma_entry_not_done(r, selected, w0);
        assert(pair_at(w, e) == pair_at(w0, e));
        assert forall|side: RuleSide, k: Seq<char>|
            file_at(w0, side, k) is Some && #[trigger] file_at(w2, side, k) != file_at(
                w0,
                side,
                k,
            ) implies w2.saved.contains((side, k, file_at(w0, side, k)->0)) by {
            if file_at(w2, side, k) == file_at(w, side, k) {
                assert(file_at(w, side, k) != file_at(w0, side, k));
            } else {
                assert(k == e);
            }
        }
    }
}

/// Turning to the next entry leaves the list of entries as it is.
proof fn lemma_enter_keeps_entries(r: RunView)
    ensures
        enter(r).0.entries == r.entries,
    decreases r.entries.len() - r.position,
{
    if r.position < r.entries.len() {
        lemma_enter_keeps_entries(past_entry(r, count_skip(r.counts)));
    }
}

/// A run that has its entries and has done nothing yet.
proof fn lemma_first_entry(r: RunView, selected: Set<Seq<char>>, w0: World)
    requires
        keys_ok(r),
        keys_listed(r, selected, w0),
        r.position == 0,
        !r.extras,
        r.counts == no_counts(),
        r.entries.len() <= usize::MAX,
        r.kind == RuleKind::Folder && !r.bidirectional ==> r.entries == r.source_keys,
    ensures
        between_inv(r, selected, w0, w0),
{
    assert(done_keys(r) =~= Seq::<Seq<char>>::empty());
}

/// A run that turns to the files that only the target has.
proof fn lemma_extras(selected: Set<Seq<char>>, w0: World, a: Moment, b: Moment)
    requires
        moment_inv(selected, w0, a),
        a.run.phase == SyncPhase::ListExtra,
        follows(selected, a, b),
        b.event is Listed,
    ensures
        moment_inv(selected, w0, b),
{
    let r = a.run;
    let w = a.world;
    let keys = b.event->Listed_0;
    let rest = keys_without(keys, r.source_keys);
    let r2 = RunView { target_keys: keys, entries: rest, position: 0, extras: true, ..r };
    let known = r.source_keys;
    selection_of_keys(keys, |k: Seq<char>| !known.contains(k));
    assert(r.entries.take(r.position) =~= r.source_keys);
    assert(done_keys(r2) =~= done_keys(r));
    assert forall|k: Seq<char>| #[trigger]
        rest.contains(k) <==> selected.contains(k) && file_at(w0, RuleSide::Target, k) is Some
            && file_at(w0, RuleSide::Source, k) is None by {
        assert(keys.contains(k) <==> selected.contains(k) && file_at(w, RuleSide::Target, k) is Some);
        assert(rest.contains(k) <==> keys.contains(k) && !known.contains(k));
        assert(known.contains(k) <==> selected.contains(k) && file_at(
            w0,
            RuleSide::Source,
            k,
        ) is Some);
        if !known.contains(k) {
            assert(pair_at(w, k) == pair_at(w0, k));
        }
    }
    lemma_same_tally(r, r2, selected, w0, done_keys(r));
    assert(between_inv(r2, selected, w0, w)) by {
        assert forall|k: Seq<char>| #[trigger]
            pair_at(w, k) == if done_keys(r2).contains(k) {
                outcome(r2, selected, w0, k)
            } else {
                pair_at(w0, k)
            } by {
            assert(outcome(r, selected, w0, k) == outcome(r2, selected, w0, k));
        }
        assert forall|k: Seq<char>| #[trigger]
            done_keys(r2).contains(k) && (change_at(r2, selected, w0, k) matches Some(change)
                && loses(change) is Some) implies w.saved.contains(
            (
                loses(change_at(r2, selected, w0, k)->0)->0,
                k,
                file_at(w0, loses(change_at(r2, selected, w0, k)->0)->0, k)->0,
            ),
        ) by {
            assert(change_at(r, selected, w0, k) == change_at(r2, selected, w0, k));
        }
        assert forall|side: RuleSide, k: Seq<char>, f: FileState| #[trigger]
            w.saved.contains((side, k, f)) implies w0.saved.contains((side, k, f)) || (change_at(
            r2,
            selected,
            w0,
            k,
        ) matches Some(change) && loses(change) == Some(side)) by {
            assert(change_at(r, selected, w0, k) == change_at(r2, selected, w0, k));
        }
    }
    lemma_enter(r2, selected, w0, w);
}

/// A run that is over.
proof fn lemma_purged(selected: Set<Seq<char>>, w0: World, a: Moment, b: Moment)
    requires
        moment_inv(selected, w0, a),
        a.run.phase == SyncPhase::Purge,
        follows(selected, a, b),
        b.event is Done,
    ensures
        moment_inv(selected, w0, b),
{
    let r = a.run;
    let w = a.world;
    let r2 = b.run;
    lemma_phase_free(r, SyncPhase::Finished, selected, w0, w);
    assert(r.entries.take(r.position) =~= r.entries);
    assert forall|k: Seq<char>| #[trigger] pair_at(w, k) == outcome(r2, selected, w0, k) by {
        assert(change_at(r2, selected, w0, k) == change_at(r, selected, w0, k));
        if !done_keys(r).contains(k) {
            if r.kind == RuleKind::File {
                assert(r.entries[0] == FILE_SYNC_ENTRY@);
                assert(r.entries.contains(r.entries[0]));
            } else if r.extras {
                assert(!r.source_keys.contains(k) && !r.entries.contains(k)) by {
                    if r.source_keys.contains(k) {
                        let i = choose|i: int| 0 <= i < r.source_keys.len() && r.source_keys[i] == k;
                        assert(done_keys(r)[i] == k);
                    }
                    if r.entries.contains(k) {
                        let i = choose|i: int| 0 <= i < r.entries.len() && r.entries[i] == k;
                        assert(done_keys(r)[r.source_keys.len() + i] == k);
                    }
                }
            } else {
                assert(!r.entries.contains(k));
            }
            assert(change_at(r, selected, w0, k) is None);
        }
    }
}

/// One step keeps what holds of every moment.
proof fn lemma_step(selected: Set<Seq<char>>, w0: World, a: Moment, b: Moment)
    requires
        moment_inv(selected, w0, a),
        follows(selected, a, b),
    ensures
        moment_inv(selected, w0, b),
{
    let r = a.run;
    let w = a.world;
    if r.phase == SyncPhase::Finished {
    } else if b.event is Failed {
        lemma_failed(selected, w0, a, b);
    } else {
        match r.phase {
            SyncPhase::ListSource => {
                lemma_same_tally(r, b.run, selected, w0, Seq::empty());
            },
            SyncPhase::ListTarget => {
                let keys = b.event->Listed_0;
                let all = with_keys(with_keys(r.source_keys, keys), r.mirrored);
                let r2 = RunView { target_keys: keys, entries: all, position: 0, ..r };
                with_keys_is_union(r.source_keys, keys);
                with_keys_is_union(with_keys(r.source_keys, keys), r.mirrored);
                lemma_enter_keeps_entries(r2);
                lemma_first_entry(r2, selected, w0);
                lemma_enter(r2, selected, w0, w);
            },
            SyncPhase::CreateTarget => {
                let r2 = RunView { entries: r.source_keys, position: 0, ..r };
                lemma_enter_keeps_entries(r2);
                lemma_first_entry(r2, selected, w0);
                lemma_enter(r2, selected, w0, w);
            },
            SyncPhase::Parent => {
                lemma_phase_free(r, SyncPhase::Inspect, selected, w0, w);
            },
            SyncPhase::Inspect => lemma_found(selected, w0, a, b),
            SyncPhase::Digest { target_newer } => {
                let e = r.entries[r.position];
                lemma_entry_not_done(r, selected, w0);
                assert(pair_at(w, e) == pair_at(w0, e));
                if b.event->Digests_source == b.event->Digests_target {
                    lemma_skip(r, selected, w0, w);
                } else {
                    lemma_differing(r, selected, w0, w);
                }
            },
            SyncPhase::Probe { winner } => {
                let e = r.entries[r.position];
                lemma_entry_not_done(r, selected, w0);
                assert(pair_at(w, e) == pair_at(w0, e));
                lemma_begin_change(r, Change::Replace { from: winner }, selected, w0, w);
            },
            SyncPhase::Saving { .. } => lemma_saved(selected, w0, a, b),
            SyncPhase::Writing { .. } => lemma_written(selected, w0, a, b),
            SyncPhase::ListExtra => lemma_extras(selected, w0, a, b),
            SyncPhase::EmptySource => lemma_phase_free(
                r,
                SyncPhase::EmptyTarget,
                selected,
                w0,
                w,
            ),
            SyncPhase::EmptyTarget => lemma_phase_free(r, SyncPhase::Purge, selected, w0, w),
            SyncPhase::Purge => lemma_purged(selected, w0, a, b),
            _ => {},
        }
    }
}

/// The first moment of a run.
proof fn lemma_first_moment(
    kind: RuleKind,
    bidirectional: bool,
    delete_policy: DeletePolicy,
    mirrored: Seq<Seq<char>>,
    selected: Set<Seq<char>>,
    w: World,
    m: Moment,
)
    requires
        m.world == w,
        (m.run, m.action) == next(
            new_run(kind, bidirectional, delete_policy, mirrored),
            EventView::Begin,
        ),
    ensures
        moment_inv(selected, w, m),
{
    let r = new_run(kind, bidirectional, delete_policy, mirrored);
    with_keys_is_union(Seq::empty(), mirrored);
    if kind == RuleKind::File {
        let r2 = one_entry(r);
        lemma_first_entry(r2, selected, w);
        lemma_enter(r2, selected, w, w);
    }
}

/// The rule of a run stays what it is.
proof fn lemma_rule_stays(r: RunView, e: EventView)
    ensures
        same_rule(next(r, e).0, r),
{
    lemma_enter_keeps_rule(one_entry(r));
    lemma_enter_keeps_rule(past_entry(r, count_skip(r.counts)));
    if r.phase is Writing {
        lemma_enter_keeps_rule(past_entry(r, count_change(r.counts, r.phase->Writing_change)));
    }
    lemma_enter_keeps_rule(RunView { entries: r.source_keys, position: 0, ..r });
    if e is Listed {
        let keys = e->Listed_0;
        lemma_enter_keeps_rule(
            RunView {
                target_keys: keys,
                entries: keys_without(keys, r.source_keys),
                position: 0,
                extras: true,
                ..r
            },
        );
        lemma_enter_keeps_rule(
            RunView {
                target_keys: keys,
                entries: with_keys(with_keys(r.source_keys, keys), r.mirrored),
                position: 0,
                ..r
            },
        );
    }
}

proof fn lemma_enter_keeps_rule(r: RunView)
    ensures
        same_rule(enter(r).0, r),
    decreases r.entries.len() - r.position,
{
    if r.position < r.entries.len() {
        lemma_enter_keeps_rule(past_entry(r, count_skip(r.counts)));
    }
}

/// What holds of every moment of a run.
proof fn lemma_every_moment(
    kind: RuleKind,
    bidirectional: bool,
    delete_policy: DeletePolicy,
    mirrored: Seq<Seq<char>>,
    selected: Set<Seq<char>>,
    w: World,
    moments: Seq<Moment>,
    i: int,
)
    requires
        is_run(kind, bidirectional, delete_policy, mirrored, selected, w, moments),
        0 <= i < moments.len(),
    ensures
        moment_inv(selected, w, moments[i]),
        same_rule(moments[i].run, new_run(kind, bidirectional, delete_policy, mirrored)),
    decreases i,
{
    let r = new_run(kind, bidirectional, delete_policy, mirrored);
    if i == 0 {
        lemma_first_moment(kind, bidirectional, delete_policy, mirrored, selected, w, moments[0]);
        lemma_rule_stays(r, EventView::Begin);
    } else {
        lemma_every_moment(
            kind,
            bidirectional,
            delete_policy,
            mirrored,
            selected,
            w,
            moments,
            i - 1,
        );
        assert(follows(selected, moments[i - 1], moments[i]));
        lemma_step(selected, w, moments[i - 1], moments[i]);
        lemma_rule_stays(moments[i - 1].run, moments[i].event);
    }
}

/// Whether a run that begins in the world `w` has to deal with the entry `k`: a
/// file rule with its file, a two-way folder rule with everything that is
/// listed on a side or remembered as mirrored, and a one-way one with the files
/// of the source and, where it moves them away, those that only the target has.
pub open spec fn dealt_with(r: RunView, selected: Set<Seq<char>>, w: World, k: Seq<char>) -> bool {
    let in_source = selected.contains(k) && file_at(w, RuleSide::Source, k) is Some;
    let in_target = selected.contains(k) && file_at(w, RuleSide::Target, k) is Some;
    if r.kind == RuleKind::File {
        k == FILE_SYNC_ENTRY@
    } else if r.bidirectional {
        in_source || in_target || r.mirrored.contains(k)
    } else {
        in_source || (in_target && moves_extras(r))
    }
}

/// The entries that a finished run has dealt with, each of them once.
proof fn lemma_done_keys(r: RunView, selected: Set<Seq<char>>, w0: World)
    requires
        keys_ok(r),
        entries_ok(r),
        keys_listed(r, selected, w0),
        r.position == r.entries.len(),
        moves_extras(r) ==> r.extras,
    ensures
        done_keys(r).no_duplicates(),
        forall|k: Seq<char>| #[trigger]
            done_keys(r).contains(k) <==> dealt_with(r, selected, w0, k),
{
    let d = done_keys(r);
    assert(r.entries.take(r.position) =~= r.entries);
    lemma_key_set_is_distinct(r.entries);
    lemma_key_set_is_distinct(r.source_keys);
    if r.extras {
        assert forall|i: int, j: int| 0 <= i < d.len() && 0 <= j < d.len() && i != j implies d[i]
            != d[j] by {
            let n = r.source_keys.len();
            if i < n && j >= n {
                assert(r.source_keys.contains(d[i]));
                assert(r.entries.contains(d[j]));
            }
            if j < n && i >= n {
                assert(r.source_keys.contains(d[j]));
                assert(r.entries.contains(d[i]));
            }
        }
    }
    assert forall|k: Seq<char>| #[trigger] d.contains(k) <==> dealt_with(r, selected, w0, k) by {
        if r.kind == RuleKind::File {
            assert(d[0] == FILE_SYNC_ENTRY@);
        } else if r.extras {
            lemma_joined_contains(r.source_keys, r.entries, k);
            assert(r.entries.contains(k) <==> selected.contains(k) && file_at(
                w0,
                RuleSide::Target,
                k,
            ) is Some && file_at(w0, RuleSide::Source, k) is None);
            assert(r.source_keys.contains(k) <==> selected.contains(k) && file_at(
                w0,
                RuleSide::Source,
                k,
            ) is Some);
        } else {
            assert(r.source_keys.contains(k) <==> selected.contains(k) && file_at(
                w0,
                RuleSide::Source,
                k,
            ) is Some);
            if r.bidirectional {
                assert(r.target_keys.contains(k) <==> selected.contains(k) && file_at(
                    w0,
                    RuleSide::Target,
                    k,
                ) is Some);
                assert(r.entries.contains(k) <==> r.source_keys.contains(k)
                    || r.target_keys.contains(k) || r.mirrored.contains(k));
            }
        }
    }
}

proof fn lemma_key_set_is_distinct(s: Seq<Seq<char>>)
    requires
        is_key_set(s),
    ensures
        s.no_duplicates(),
{
    assert forall|i: int, j: int| 0 <= i < s.len() && 0 <= j < s.len() && i != j implies s[i]
        != s[j] by {
        if i < j {
            assert(text_less(s[i], s[j]));
            text_order_equal(s[i], s[j]);
        } else {
            assert(text_less(s[j], s[i]));
            text_order_equal(s[j], s[i]);
        }
    }
}

proof fn lemma_joined_contains(a: Seq<Seq<char>>, b: Seq<Seq<char>>, k: Seq<char>)
    ensures
        (a + b).contains(k) <==> a.contains(k) || b.contains(k),
{
    if a.contains(k) {
        let i = choose|i: int| 0 <= i < a.len() && a[i] == k;
        assert((a + b)[i] == k);
    }
    if b.contains(k) {
        let i = choose|i: int| 0 <= i < b.len() && b[i] == k;
        assert((a + b)[a.len() + i] == k);
    }
    if (a + b).contains(k) {
        let i = choose|i: int| 0 <= i < (a + b).len() && (a + b)[i] == k;
        if i < a.len() {
            assert(a[i] == k);
        } else {
            assert(b[i - a.len()] == k);
        }
    }
}

/// A run that succeeds leaves every entry as its two files at the start called
/// for. Its counts are those of the entries that it had to deal with, each of
/// them once, and add up to their number; every backup is that of a file which
/// was replaced or removed.
pub proof fn finished_run_has_its_outcome(
    kind: RuleKind,
    bidirectional: bool,
    delete_policy: DeletePolicy,
    mirrored: Seq<Seq<char>>,
    selected: Set<Seq<char>>,
    w: World,
    moments: Seq<Moment>,
)
    requires
        is_run(kind, bidirectional, delete_policy, mirrored, selected, w, moments),
        moments.last().action matches ActionView::Finish(Ok(_)),
    ensures
        ({
            let r = new_run(kind, bidirectional, delete_policy, mirrored);
            let last = moments.last();
            let counts = last.action->Finish_0->Ok_0;
            &&& settled(r, selected, w, last.world)
            &&& done_keys(last.run).no_duplicates()
            &&& done_keys(last.run).len() <= usize::MAX
            &&& forall|k: Seq<char>| #[trigger]
                done_keys(last.run).contains(k) <==> dealt_with(r, selected, w, k)
            &&& counts == tally(r, selected, w, done_keys(last.run))
            &&& counts.copied_count + counts.updated_count + counts.skipped_count
                + counts.deleted_count == done_keys(last.run).len()
            &&& counts.backup_count == counts.updated_count + counts.deleted_count
            &&& counts.error_count == 0
        }),
{
    let r = new_run(kind, bidirectional, delete_policy, mirrored);
    let last = moments.last();
    lemma_every_moment(
        kind,
        bidirectional,
        delete_policy,
        mirrored,
        selected,
        w,
        moments,
        moments.len() - 1,
    );
    lemma_same_tally(last.run, r, selected, w, done_keys(last.run));
    assert(last.run.phase == SyncPhase::Finished);
    lemma_done_keys(last.run, selected, w);
    assert forall|k: Seq<char>| #[trigger] done_keys(last.run).contains(k) <==> dealt_with(
        r,
        selected,
        w,
        k,
    ) by {
        assert(done_keys(last.run).contains(k) <==> dealt_with(last.run, selected, w, k));
    }
    assert forall|k: Seq<char>| #[trigger] pair_at(last.world, k) == outcome(r, selected, w, k) by {
        assert(outcome(last.run, selected, w, k) == outcome(r, selected, w, k));
    }
}

/// At every moment of every run, also of one that fails, a file that was there
/// at the start and is gone or another by now has been backed up.
pub proof fn no_file_is_ever_lost(
    kind: RuleKind,
    bidirectional: bool,
    delete_policy: DeletePolicy,
    mirrored: Seq<Seq<char>>,
    selected: Set<Seq<char>>,
    w: World,
    moments: Seq<Moment>,
    i: int,
)
    requires
        is_run(kind, bidirectional, delete_policy, mirrored, selected, w, moments),
        0 <= i < moments.len(),
    ensures
        nothing_lost(w, moments[i].world),
{
    lemma_every_moment(kind, bidirectional, delete_policy, mirrored, selected, w, moments, i);
}

/// A backup is made of a file that is about to be replaced or removed, and of
/// no other.
pub proof fn backups_are_made_for_a_reason(
    kind: RuleKind,
    bidirectional: bool,
    delete_policy: DeletePolicy,
    mirrored: Seq<Seq<char>>,
    selected: Set<Seq<char>>,
    w: World,
    moments: Seq<Moment>,
    i: int,
)
    requires
        is_run(kind, bidirectional, delete_policy, mirrored, selected, w, moments),
        0 <= i < moments.len(),
    ensures
        saved_for_cause(
            new_run(kind, bidirectional, delete_policy, mirrored),
            selected,
            w,
            moments[i].world,
        ),
{
    let r = new_run(kind, bidirectional, delete_policy, mirrored);
    lemma_every_moment(kind, bidirectional, delete_policy, mirrored, selected, w, moments, i);
    lemma_same_tally(moments[i].run, r, selected, w, Seq::empty());
    assert forall|side: RuleSide, k: Seq<char>, f: FileState| #[trigger]
        moments[i].world.saved.contains((side, k, f)) implies w.saved.contains((side, k, f)) || (
    change_at(r, selected, w, k) matches Some(change) && loses(change) == Some(side)) by {
        assert(change_at(moments[i].run, selected, w, k) == change_at(r, selected, w, k));
    }
}

/// Whether a two-way file rule has nothing to go by: neither side has the file,
/// and it is not known that both had it.
pub open spec fn is_hopeless(
    kind: RuleKind,
    bidirectional: bool,
    mirrored: Seq<Seq<char>>,
    w: World,
) -> bool {
    &&& kind == RuleKind::File
    &&& bidirectional
    &&& !mirrored.contains(FILE_SYNC_ENTRY@)
    &&& pair_at(w, FILE_SYNC_ENTRY@) == (None::<FileState>, None::<FileState>)
}

/// Whether no report of a run was that of a failure.
pub open spec fn nothing_fails(moments: Seq<Moment>) -> bool {
    forall|i: int| 0 <= i < moments.len() ==> !((#[trigger] moments[i]).event is Failed)
}

proof fn lemma_enter_goes_on(r: RunView)
    ensures
        !(enter(r).1 is Finish),
    decreases r.entries.len() - r.position,
{
    if r.position < r.entries.len() {
        lemma_enter_goes_on(past_entry(r, count_skip(r.counts)));
    }
}

/// A run gives up only where it is told of a failure or has nothing to go by.
proof fn lemma_no_giving_up(
    kind: RuleKind,
    bidirectional: bool,
    delete_policy: DeletePolicy,
    mirrored: Seq<Seq<char>>,
    selected: Set<Seq<char>>,
    w: World,
    moments: Seq<Moment>,
    i: int,
)
    requires
        is_run(kind, bidirectional, delete_policy, mirrored, selected, w, moments),
        nothing_fails(moments),
        !is_hopeless(kind, bidirectional, mirrored, w),
        0 <= i < moments.len(),
    ensures
        !(moments[i].action matches ActionView::Finish(Err(_))),
{
    let fresh = new_run(kind, bidirectional, delete_policy, mirrored);
    if i == 0 {
        lemma_enter_goes_on(one_entry(fresh));
    } else {
        let a = moments[i - 1];
        let b = moments[i];
        let r = a.run;
        lemma_every_moment(kind, bidirectional, delete_policy, mirrored, selected, w, moments, i - 1);
        assert(follows(selected, a, b));
        assert(!(b.event is Failed));
        with_keys_is_union(Seq::empty(), mirrored);
        lemma_enter_goes_on(past_entry(r, count_skip(r.counts)));
        if r.phase is Writing {
            lemma_enter_goes_on(past_entry(r, count_change(r.counts, r.phase->Writing_change)));
        }
        lemma_enter_goes_on(RunView { entries: r.source_keys, position: 0, ..r });
        if b.event is Listed {
            let keys = b.event->Listed_0;
            lemma_enter_goes_on(
                RunView {
                    target_keys: keys,
                    entries: keys_without(keys, r.source_keys),
                    position: 0,
                    extras: true,
                    ..r
                },
            );
            lemma_enter_goes_on(
                RunView {
                    target_keys: keys,
                    entries: with_keys(with_keys(r.source_keys, keys), r.mirrored),
                    position: 0,
                    ..r
                },
            );
        }
        if r.phase == SyncPhase::Inspect {
            let e = r.entries[r.position];
            lemma_entry_not_done(r, selected, w);
            assert(pair_at(a.world, e) == pair_at(w, e));
        }
    }
}

/// A run that is told of no failure succeeds, unless it is that of a two-way
/// file rule which has nothing to go by.
pub proof fn run_without_failure_succeeds(
    kind: RuleKind,
    bidirectional: bool,
    delete_policy: DeletePolicy,
    mirrored: Seq<Seq<char>>,
    selected: Set<Seq<char>>,
    w: World,
    moments: Seq<Moment>,
)
    requires
        is_run(kind, bidirectional, delete_policy, mirrored, selected, w, moments),
        nothing_fails(moments),
        !is_hopeless(kind, bidirectional, mirrored, w),
        moments.last().action is Finish,
    ensures
        moments.last().action matches ActionView::Finish(Ok(_)),
{
    lemma_no_giving_up(
        kind,
        bidirectional,
        delete_policy,
        mirrored,
        selected,
        w,
        moments,
        moments.len() - 1,
    );
}

/// A run in a world that is in step changes no file, makes no backup, and
/// counts nothing but entries left alone.
pub proof fn run_in_step_changes_nothing(
    kind: RuleKind,
    bidirectional: bool,
    delete_policy: DeletePolicy,
    mirrored: Seq<Seq<char>>,
    selected: Set<Seq<char>>,
    w: World,
    moments: Seq<Moment>,
)
    requires
        is_run(kind, bidirectional, delete_policy, mirrored, selected, w, moments),
        moments.last().action matches ActionView::Finish(Ok(_)),
        forall|k: Seq<char>| #[trigger]
            change_at(new_run(kind, bidirectional, delete_policy, mirrored), selected, w, k) is None,
    ensures
        forall|k: Seq<char>| #[trigger] pair_at(moments.last().world, k) == pair_at(w, k),
        forall|side: RuleSide, k: Seq<char>, f: FileState| #[trigger]
            moments.last().world.saved.contains((side, k, f)) ==> w.saved.contains((side, k, f)),
        ({
            let counts = moments.last().action->Finish_0->Ok_0;
            counts == RunCounts {
                skipped_count: done_keys(moments.last().run).len() as usize,
                ..no_counts()
            }
        }),
{
    let r = new_run(kind, bidirectional, delete_policy, mirrored);
    let last = moments.last();
    finished_run_has_its_outcome(
        kind,
        bidirectional,
        delete_policy,
        mirrored,
        selected,
        w,
        moments,
    );
    backups_are_made_for_a_reason(
        kind,
        bidirectional,
        delete_policy,
        mirrored,
        selected,
        w,
        moments,
        moments.len() - 1,
    );
    assert forall|k: Seq<char>| #[trigger] pair_at(last.world, k) == pair_at(w, k) by {
        assert(change_at(r, selected, w, k) is None);
        assert(pair_at(last.world, k) == outcome(r, selected, w, k));
    }
    assert forall|side: RuleSide, k: Seq<char>, f: FileState| #[trigger]
        last.world.saved.contains((side, k, f)) implies w.saved.contains((side, k, f)) by {
        assert(change_at(r, selected, w, k) is None);
    }
    lemma_tally_of_nothing(r, selected, w, done_keys(last.run));
}

proof fn lemma_tally_of_nothing(r: RunView, selected: Set<Seq<char>>, w: World, keys: Seq<Seq<char>>)
    requires
        forall|k: Seq<char>| #[trigger] change_at(r, selected, w, k) is None,
    ensures
        ({
            let c = tally(r, selected, w, keys);
            &&& c.copied_count == 0
            &&& c.updated_count == 0
            &&& c.deleted_count == 0
            &&& c.backup_count == 0
            &&& c.error_count == 0
        }),
    decreases keys.len(),
{
    if keys.len() > 0 {
        lemma_tally_of_nothing(r, selected, w, keys.drop_last());
        assert(change_at(r, selected, w, keys.last()) is None);
    }
}

/// Two files with the same content are left alone, whenever they were written.
pub proof fn identical_files_are_left_alone(
    r: RunView,
    selected: Set<Seq<char>>,
    w: World,
    k: Seq<char>,
    s: FileState,
    t: FileState,
)
    requires
        pair_at(w, k) == (Some(s), Some(t)),
        s.bytes == t.bytes,
    ensures
        change_at(r, selected, w, k) is None,
        outcome(r, selected, w, k) == pair_at(w, k),
{
}

/// At every moment of every run, also of one that fails, the files of a one-way
/// rule's source are as they were.
pub proof fn one_way_leaves_the_source(
    kind: RuleKind,
    delete_policy: DeletePolicy,
    mirrored: Seq<Seq<char>>,
    selected: Set<Seq<char>>,
    w: World,
    moments: Seq<Moment>,
    i: int,
    k: Seq<char>,
)
    requires
        is_run(kind, false, delete_policy, mirrored, selected, w, moments),
        0 <= i < moments.len(),
    ensures
        file_at(moments[i].world, RuleSide::Source, k) == file_at(w, RuleSide::Source, k),
    decreases i,
{
    if i > 0 {
        one_way_leaves_the_source(
            kind,
            delete_policy,
            mirrored,
            selected,
            w,
            moments,
            i - 1,
            k,
        );
        lemma_every_moment(kind, false, delete_policy, mirrored, selected, w, moments, i - 1);
        assert(follows(selected, moments[i - 1], moments[i]));
    }
}

/// A one-way rule brings every file of the source to the target, and a folder
/// rule that moves extra files away leaves no other selected file there.
pub proof fn one_way_mirrors_the_source(r: RunView, selected: Set<Seq<char>>, w: World, k: Seq<char>)
    requires
        !r.bidirectional,
        concerns(r, selected, k),
    ensures
        file_at(w, RuleSide::Source, k) matches Some(s) ==> (outcome(
            r,
            selected,
            w,
            k,
        ).1 matches Some(t) && alike(s, t)),
        file_at(w, RuleSide::Source, k) is None && moves_extras(r) ==> outcome(
            r,
            selected,
            w,
            k,
        ).1 is None,
{
}

/// A two-way rule leaves both sides with the same file, or both without one.
pub proof fn two_way_sides_agree(r: RunView, selected: Set<Seq<char>>, w: World, k: Seq<char>)
    requires
        r.bidirectional,
        concerns(r, selected, k),
    ensures
        match outcome(r, selected, w, k) {
            (Some(s), Some(t)) => alike(s, t),
            (None, None) => true,
            _ => false,
        },
{
}

/// Where both sides of a two-way rule have a file and they differ, the one
/// that was written last stands on both sides afterwards; the source's where
/// neither is later.
pub proof fn two_way_newer_file_wins(
    r: RunView,
    selected: Set<Seq<char>>,
    w: World,
    k: Seq<char>,
    s: FileState,
    t: FileState,
)
    requires
        r.bidirectional,
        concerns(r, selected, k),
        pair_at(w, k) == (Some(s), Some(t)),
        !alike(s, t),
    ensures
        outcome(r, selected, w, k) == if s.modified.before(t.modified) {
            (Some(t), Some(t))
        } else {
            (Some(s), Some(s))
        },
{
}

/// A file that only one side of a two-way rule has is removed if both sides
/// had it after the last run, and is brought to the other side otherwise.
pub proof fn two_way_lone_file(
    r: RunView,
    selected: Set<Seq<char>>,
    w: World,
    k: Seq<char>,
    f: FileState,
)
    requires
        r.bidirectional,
        concerns(r, selected, k),
        pair_at(w, k) == (Some(f), None::<FileState>) || pair_at(w, k) == (None::<FileState>, Some(f)),
    ensures
        outcome(r, selected, w, k) == if r.mirrored.contains(k) {
            (None::<FileState>, None::<FileState>)
        } else {
            (Some(f), Some(f))
        },
{
}

/// Files that the patterns of a rule do not select are left alone.
pub proof fn other_files_are_left_alone(r: RunView, selected: Set<Seq<char>>, w: World, k: Seq<char>)
    requires
        !concerns(r, selected, k),
    ensures
        outcome(r, selected, w, k) == pair_at(w, k),
{
}

/// After a run the same rule finds nothing to do, whatever it remembers of
/// mirrored entries.
pub proof fn second_run_finds_nothing(
    r: RunView,
    again: RunView,
    selected: Set<Seq<char>>,
    w: World,
    after: World,
    k: Seq<char>,
)
    requires
        settled(r, selected, w, after),
        again.kind == r.kind,
        again.bidirectional == r.bidirectional,
        again.delete_policy == r.delete_policy,
    ensures
        change_at(again, selected, after, k) is None,
{
    assert(pair_at(after, k) == outcome(r, selected, w, k));
}

/// A run right after one that succeeded succeeds too, as long as it is told of
/// no failure: it changes no file, makes no backup, and counts nothing but
/// entries left alone. It may remember the same mirrored entries as the first
/// or others, unless that leaves a two-way file rule with nothing to go by.
pub proof fn second_run_changes_nothing(
    kind: RuleKind,
    bidirectional: bool,
    delete_policy: DeletePolicy,
    mirrored: Seq<Seq<char>>,
    remembered: Seq<Seq<char>>,
    selected: Set<Seq<char>>,
    w: World,
    first: Seq<Moment>,
    second: Seq<Moment>,
)
    requires
        is_run(kind, bidirectional, delete_policy, mirrored, selected, w, first),
        first.last().action matches ActionView::Finish(Ok(_)),
        remembered == mirrored || !is_hopeless(
            kind,
            bidirectional,
            remembered,
            first.last().world,
        ),
        is_run(
            kind,
            bidirectional,
            delete_policy,
            remembered,
            selected,
            first.last().world,
            second,
        ),
        nothing_fails(second),
        second.last().action is Finish,
    ensures
        second.last().action == ActionView::Finish(
            Ok(
                RunCounts {
                    skipped_count: done_keys(second.last().run).len() as usize,
                    ..no_counts()
                },
            ),
        ),
        forall|k: Seq<char>| #[trigger]
            pair_at(second.last().world, k) == pair_at(first.last().world, k),
        forall|side: RuleSide, k: Seq<char>, f: FileState| #[trigger]
            second.last().world.saved.contains((side, k, f))
                ==> first.last().world.saved.contains((side, k, f)),
{
    let after = first.last().world;
    if remembered == mirrored {
        lemma_still_something_to_go_by(
            kind,
            bidirectional,
            delete_policy,
            mirrored,
            selected,
            w,
            first,
        );
    }
    run_without_failure_succeeds(
        kind,
        bidirectional,
        delete_policy,
        remembered,
        selected,
        after,
        second,
    );
    lemma_nothing_left_to_do(
        kind,
        bidirectional,
        delete_policy,
        mirrored,
        remembered,
        selected,
        w,
        first,
    );
    run_in_step_changes_nothing(
        kind,
        bidirectional,
        delete_policy,
        remembered,
        selected,
        after,
        second,
    );
}

proof fn lemma_nothing_left_to_do(
    kind: RuleKind,
    bidirectional: bool,
    delete_policy: DeletePolicy,
    mirrored: Seq<Seq<char>>,
    remembered: Seq<Seq<char>>,
    selected: Set<Seq<char>>,
    w: World,
    first: Seq<Moment>,
)
    requires
        is_run(kind, bidirectional, delete_policy, mirrored, selected, w, first),
        first.last().action matches ActionView::Finish(Ok(_)),
    ensures
        forall|k: Seq<char>| #[trigger]
            change_at(
                new_run(kind, bidirectional, delete_policy, remembered),
                selected,
                first.last().world,
                k,
            ) is None,
{
    let r = new_run(kind, bidirectional, delete_policy, mirrored);
    let again = new_run(kind, bidirectional, delete_policy, remembered);
    let after = first.last().world;
    finished_run_has_its_outcome(
        kind,
        bidirectional,
        delete_policy,
        mirrored,
        selected,
        w,
        first,
    );
    assert forall|k: Seq<char>| #[trigger] change_at(again, selected, after, k) is None by {
        second_run_finds_nothing(r, again, selected, w, after, k);
    }
}

/// A run that succeeded does not leave its rule with nothing to go by.
proof fn lemma_still_something_to_go_by(
    kind: RuleKind,
    bidirectional: bool,
    delete_policy: DeletePolicy,
    mirrored: Seq<Seq<char>>,
    selected: Set<Seq<char>>,
    w: World,
    first: Seq<Moment>,
)
    requires
        is_run(kind, bidirectional, delete_policy, mirrored, selected, w, first),
        first.last().action matches ActionView::Finish(Ok(_)),
    ensures
        !is_hopeless(kind, bidirectional, mirrored, first.last().world),
{
    finished_run_has_its_outcome(
        kind,
        bidirectional,
        delete_policy,
        mirrored,
        selected,
        w,
        first,
    );
    lemma_was_hopeless_before(
        kind,
        bidirectional,
        delete_policy,
        mirrored,
        selected,
        w,
        first.last().world,
    );
    if is_hopeless(kind, bidirectional, mirrored, w) {
        lemma_hopeless_run_fails(
            kind,
            bidirectional,
            delete_policy,
            mirrored,
            selected,
            w,
            first,
            first.len() - 1,
        );
    }
}

proof fn lemma_was_hopeless_before(
    kind: RuleKind,
    bidirectional: bool,
    delete_policy: DeletePolicy,
    mirrored: Seq<Seq<char>>,
    selected: Set<Seq<char>>,
    w: World,
    after: World,
)
    requires
        settled(new_run(kind, bidirectional, delete_policy, mirrored), selected, w, after),
    ensures
        is_hopeless(kind, bidirectional, mirrored, after) ==> is_hopeless(
            kind,
            bidirectional,
            mirrored,
            w,
        ),
{
    let r = new_run(kind, bidirectional, delete_policy, mirrored);
    let k = FILE_SYNC_ENTRY@;
    if is_hopeless(kind, bidirectional, mirrored, after) {
        with_keys_is_union(Seq::empty(), mirrored);
        assert(!Seq::<Seq<char>>::empty().contains(k));
        assert(!r.mirrored.contains(k));
        assert(pair_at(after, k) == outcome(r, selected, w, k));
        lemma_nothing_came_of_nothing(r, selected, w, k);
    }
}

/// Where nothing is remembered, a two-way rule leaves no entry empty that had a file.
proof fn lemma_nothing_came_of_nothing(r: RunView, selected: Set<Seq<char>>, w: World, k: Seq<char>)
    requires
        r.bidirectional,
        !r.mirrored.contains(k),
        outcome(r, selected, w, k) == (None::<FileState>, None::<FileState>),
    ensures
        pair_at(w, k) == (None::<FileState>, None::<FileState>),
{
}

/// A run that has nothing to go by never gets past its one entry.
proof fn lemma_hopeless_run_fails(
    kind: RuleKind,
    bidirectional: bool,
    delete_policy: DeletePolicy,
    mirrored: Seq<Seq<char>>,
    selected: Set<Seq<char>>,
    w: World,
    moments: Seq<Moment>,
    i: int,
)
    requires
        is_run(kind, bidirectional, delete_policy, mirrored, selected, w, moments),
        is_hopeless(kind, bidirectional, mirrored, w),
        0 <= i < moments.len(),
    ensures
        moments[i].run.phase == SyncPhase::Inspect || moments[i].run.phase == SyncPhase::Finished,
        !(moments[i].action matches ActionView::Finish(Ok(_))),
    decreases i,
{
    with_keys_is_union(Seq::empty(), mirrored);
    if i > 0 {
        lemma_hopeless_run_fails(kind, bidirectional, delete_policy, mirrored, selected, w, moments, i - 1);
        lemma_every_moment(kind, bidirectional, delete_policy, mirrored, selected, w, moments, i - 1);
        let a = moments[i - 1];
        assert(follows(selected, a, moments[i]));
        if a.run.phase == SyncPhase::Inspect {
            let e = a.run.entries[a.run.position];
            lemma_entry_not_done(a.run, selected, w);
            assert(pair_at(a.world, e) == pair_at(w, e));
        }
    }
}

/// After a two-way run of a folder rule both sides have the same selected
/// files, and those are what the rule remembers.
pub proof fn all_files_are_remembered_as_mirrored(
    r: RunView,
    selected: Set<Seq<char>>,
    w: World,
    after: World,
    source_keys: Seq<Seq<char>>,
    target_keys: Seq<Seq<char>>,
    k: Seq<char>,
)
    requires
        r.kind == RuleKind::Folder,
        r.bidirectional,
        settled(r, selected, w, after),
        is_key_set(source_keys),
        is_key_set(target_keys),
        lists(source_keys, selected, after, RuleSide::Source),
        lists(target_keys, selected, after, RuleSide::Target),
    ensures
        ({
            let seen = SeenView::Folders { source: source_keys, target: target_keys };
            &&& mirrored_entries(true, seen).contains(k) <==> selected.contains(k) && file_at(
                after,
                RuleSide::Source,
                k,
            ) is Some
            &&& mirrored_entries(true, seen).contains(k) <==> selected.contains(k) && file_at(
                after,
                RuleSide::Target,
                k,
            ) is Some
        }),
{
    selection_of_keys(source_keys, |x: Seq<char>| target_keys.contains(x));
    assert(source_keys.contains(k) <==> selected.contains(k) && file_at(
        after,
        RuleSide::Source,
        k,
    ) is Some);
    assert(target_keys.contains(k) <==> selected.contains(k) && file_at(
        after,
        RuleSide::Target,
        k,
    ) is Some);
    assert(pair_at(after, k) == outcome(r, selected, w, k));
    if selected.contains(k) {
        two_way_sides_agree(r, selected, w, k);
    }
}

/// A file that a two-way rule remembers and that is removed from one side is
/// removed from the other by the next run, and a copy of it is saved first.
pub proof fn removal_spreads(
    mirrored: Seq<Seq<char>>,
    delete_policy: DeletePolicy,
    kind: RuleKind,
    selected: Set<Seq<char>>,
    w: World,
    moments: Seq<Moment>,
    k: Seq<char>,
    side: RuleSide,
    f: FileState,
)
    requires
        is_run(kind, true, delete_policy, mirrored, selected, w, moments),
        moments.last().action matches ActionView::Finish(Ok(_)),
        mirrored.contains(k),
        concerns(new_run(kind, true, delete_policy, mirrored), selected, k),
        file_at(w, side, k) == Some(f),
        file_at(w, side.other(), k) is None,
    ensures
        file_at(moments.last().world, RuleSide::Source, k) is None,
        file_at(moments.last().world, RuleSide::Target, k) is None,
        moments.last().world.saved.contains((side, k, f)),
{
    let r = new_run(kind, true, delete_policy, mirrored);
    let last = moments.last();
    with_keys_is_union(Seq::empty(), mirrored);
    assert(r.mirrored.contains(k));
    finished_run_has_its_outcome(kind, true, delete_policy, mirrored, selected, w, moments);
    no_file_is_ever_lost(
        kind,
        true,
        delete_policy,
        mirrored,
        selected,
        w,
        moments,
        moments.len() - 1,
    );
    assert(pair_at(last.world, k) == outcome(r, selected, w, k));
    two_way_lone_file(r, selected, w, k, f);
    assert(file_at(last.world, side, k) != file_at(w, side, k));
}

/// How many parts of a run are still to come.
pub open spec fn parts_left(r: RunView) -> nat {
    match r.phase {
        SyncPhase::Ready => 6,
        SyncPhase::ListSource => 5,
        SyncPhase::ListTarget => 4,
        SyncPhase::CreateTarget => 4,
        SyncPhase::ListExtra => 2,
        _ => if !has_entry(r.phase) {
            0
        } else if r.extras {
            1
        } else {
            3
        },
    }
}

/// How many steps the part of a run that it is in may still take.
pub open spec fn steps_left(r: RunView) -> int {
    let entries = 8 * (r.entries.len() - r.position);
    match r.phase {
        SyncPhase::Parent => entries + 6,
        SyncPhase::Inspect => entries + 5,
        SyncPhase::Digest { .. } => entries + 4,
        SyncPhase::Probe { .. } => entries + 3,
        SyncPhase::Saving { .. } => entries + 2,
        SyncPhase::Writing { .. } => entries + 1,
        SyncPhase::EmptySource => 3,
        SyncPhase::EmptyTarget => 2,
        SyncPhase::Purge => 1,
        _ => 0,
    }
}

/// Whether the run `b` is nearer to its end than the run `a`.
pub open spec fn is_nearer(b: RunView, a: RunView) -> bool {
    parts_left(b) < parts_left(a) || (parts_left(b) == parts_left(a) && 0 <= steps_left(b)
        < steps_left(a))
}

proof fn lemma_enter_is_near(r: RunView)
    requires
        0 <= r.position <= r.entries.len(),
        r.extras ==> r.kind == RuleKind::Folder && !r.bidirectional,
    ensures
        ({
            let r2 = enter(r).0;
            let most: nat = if r.extras {
                1
            } else {
                3
            };
            &&& parts_left(r2) <= most
            &&& parts_left(r2) == most ==> 0 <= steps_left(r2) <= 8 * (r.entries.len()
                - r.position) + 6
        }),
    decreases r.entries.len() - r.position,
{
    if r.position < r.entries.len() {
        lemma_enter_is_near(past_entry(r, count_skip(r.counts)));
    }
}

/// Every step brings a run nearer to its end, so that every run comes to one.
pub proof fn every_step_leads_to_the_end(r: RunView, e: EventView)
    requires
        run_ok(r),
        fits(r, e),
    ensures
        is_nearer(next(r, e).0, r),
{
    if has_entry(r.phase) {
        lemma_enter_is_near(past_entry(r, count_skip(r.counts)));
        if r.phase is Writing {
            lemma_enter_is_near(past_entry(r, count_change(r.counts, r.phase->Writing_change)));
        }
    } else {
        lemma_enter_is_near(one_entry(r));
        lemma_enter_is_near(RunView { entries: r.source_keys, position: 0, ..r });
        if e is Listed {
            let keys = e->Listed_0;
            lemma_enter_is_near(
                RunView {
                    target_keys: keys,
                    entries: with_keys(with_keys(r.source_keys, keys), r.mirrored),
                    position: 0,
                    ..r
                },
            );
            if r.phase == SyncPhase::ListExtra {
                lemma_enter_is_near(
                    RunView {
                        target_keys: keys,
                        entries: keys_without(keys, r.source_keys),
                        position: 0,
                        extras: true,
                        ..r
                    },
                );
            }
        }
    }
}

proof fn lemma_enter_tidies_up(r: RunView)
    requires
        r.kind == RuleKind::Folder,
    ensures
        ({
            let phase = enter(r).0.phase;
            &&& phase == SyncPhase::Purge ==> !r.bidirectional && r.delete_policy
                != DeletePolicy::MoveToBackup && !r.extras
            &&& phase == SyncPhase::EmptyTarget ==> !r.bidirectional && r.extras
            &&& phase != SyncPhase::CreateTarget
        }),
    decreases r.entries.len() - r.position,
{
    if r.position < r.entries.len() {
        lemma_enter_tidies_up(past_entry(r, count_skip(r.counts)));
    }
}

proof fn lemma_step_tidies_up(r: RunView, e: EventView)
    requires
        r.kind == RuleKind::Folder,
    ensures
        ({
            let phase = next(r, e).0.phase;
            &&& phase == SyncPhase::Purge && r.bidirectional ==> r.phase == SyncPhase::EmptyTarget
            &&& phase == SyncPhase::Purge && r.delete_policy == DeletePolicy::MoveToBackup
                ==> r.phase == SyncPhase::EmptyTarget
            &&& phase == SyncPhase::EmptyTarget && r.bidirectional ==> r.phase
                == SyncPhase::EmptySource
        }),
{
    lemma_enter_tidies_up(past_entry(r, count_skip(r.counts)));
    if r.phase is Writing {
        lemma_enter_tidies_up(past_entry(r, count_change(r.counts, r.phase->Writing_change)));
    }
    lemma_enter_tidies_up(RunView { entries: r.source_keys, position: 0, ..r });
    if e is Listed {
        let keys = e->Listed_0;
        lemma_enter_tidies_up(
            RunView {
                target_keys: keys,
                entries: keys_without(keys, r.source_keys),
                position: 0,
                extras: true,
                ..r
            },
        );
        lemma_enter_tidies_up(
            RunView {
                target_keys: keys,
                entries: with_keys(with_keys(r.source_keys, keys), r.mirrored),
                position: 0,
                ..r
            },
        );
    }
}

/// Only a run that has asked to purge the backups ends well.
proof fn lemma_purge_comes_last(r: RunView, e: EventView)
    requires
        next(r, e).1 matches ActionView::Finish(Ok(_)),
    ensures
        r.phase == SyncPhase::Purge,
{
    lemma_enter_goes_on(one_entry(r));
    lemma_enter_goes_on(past_entry(r, count_skip(r.counts)));
    if r.phase is Writing {
        lemma_enter_goes_on(past_entry(r, count_change(r.counts, r.phase->Writing_change)));
    }
    lemma_enter_goes_on(RunView { entries: r.source_keys, position: 0, ..r });
    if e is Listed {
        let keys = e->Listed_0;
        lemma_enter_goes_on(
            RunView {
                target_keys: keys,
                entries: keys_without(keys, r.source_keys),
                position: 0,
                extras: true,
                ..r
            },
        );
        lemma_enter_goes_on(
            RunView {
                target_keys: keys,
                entries: with_keys(with_keys(r.source_keys, keys), r.mirrored),
                position: 0,
                ..r
            },
        );
    }
}

/// A run that succeeds has the backups purged last. Before that a folder rule
/// that works both ways has the empty folders of both sides removed, and one
/// that moves files of the target alone to the backup those of the target. A
/// one-way folder rule lists the source and has the target folder made first.
pub proof fn successful_run_tidies_up(
    kind: RuleKind,
    bidirectional: bool,
    delete_policy: DeletePolicy,
    mirrored: Seq<Seq<char>>,
    selected: Set<Seq<char>>,
    w: World,
    moments: Seq<Moment>,
)
    requires
        is_run(kind, bidirectional, delete_policy, mirrored, selected, w, moments),
        moments.last().action matches ActionView::Finish(Ok(_)),
    ensures
        ({
            let n = moments.len();
            &&& n >= 2 && moments[n - 2].action == ActionView::PurgeBackups
            &&& kind == RuleKind::Folder && bidirectional ==> n >= 4 && moments[n - 3].action
                == ActionView::RemoveEmptyFolders(RuleSide::Target) && moments[n - 4].action
                == ActionView::RemoveEmptyFolders(RuleSide::Source)
            &&& kind == RuleKind::Folder && !bidirectional && delete_policy
                == DeletePolicy::MoveToBackup ==> n >= 3 && moments[n - 3].action
                == ActionView::RemoveEmptyFolders(RuleSide::Target)
            &&& kind == RuleKind::Folder ==> moments[0].action == ActionView::List(RuleSide::Source)
            &&& kind == RuleKind::Folder && !bidirectional ==> n >= 2 && moments[1].action
                == ActionView::CreateFolder(RuleSide::Target)
            &&& kind == RuleKind::Folder && bidirectional ==> n >= 2 && moments[1].action
                == ActionView::List(RuleSide::Target)
        }),
{
    let n = moments.len();
    let fresh = new_run(kind, bidirectional, delete_policy, mirrored);
    lemma_enter_goes_on(one_entry(fresh));
    assert(n >= 2);
    assert(follows(selected, moments[n - 2], moments[n - 1]));
    lemma_every_moment(kind, bidirectional, delete_policy, mirrored, selected, w, moments, n - 2);
    lemma_purge_comes_last(moments[n - 2].run, moments[n - 1].event);
    if kind == RuleKind::Folder {
        assert(moments[0].run.phase == SyncPhase::ListSource);
        assert(follows(selected, moments[0], moments[1]));
        if moments[1].event is Failed {
            if n == 2 {
                assert(false);
            }
            assert(moments[1].run.phase == SyncPhase::Finished);
            assert(follows(selected, moments[1], moments[2]));
            assert(false);
        }
        if bidirectional || delete_policy == DeletePolicy::MoveToBackup {
            assert(n >= 3);
            assert(follows(selected, moments[n - 3], moments[n - 2]));
            lemma_every_moment(
                kind,
                bidirectional,
                delete_policy,
                mirrored,
                selected,
                w,
                moments,
                n - 3,
            );
            lemma_step_tidies_up(moments[n - 3].run, moments[n - 2].event);
            assert(moments[n - 3].run.phase == SyncPhase::EmptyTarget);
        }
        if bidirectional {
            assert(n >= 4);
            assert(follows(selected, moments[n - 4], moments[n - 3]));
            lemma_every_moment(
                kind,
                bidirectional,
                delete_policy,
                mirrored,
                selected,
                w,
                moments,
                n - 4,
            );
            lemma_step_tidies_up(moments[n - 4].run, moments[n - 3].event);
        }
    }
}

/// Whether the folder of an entry was asked for by the moment `i`.
spec fn folder_asked(moments: Seq<Moment>, i: int, k: Seq<char>) -> bool {
    exists|j: int| 0 <= j <= i && (#[trigger] moments[j]).action == ActionView::EnsureParent(k)
}

proof fn lemma_folder_asked(
    kind: RuleKind,
    delete_policy: DeletePolicy,
    mirrored: Seq<Seq<char>>,
    selected: Set<Seq<char>>,
    w: World,
    moments: Seq<Moment>,
    i: int,
)
    requires
        is_run(kind, false, delete_policy, mirrored, selected, w, moments),
        0 <= i < moments.len(),
        has_entry(moments[i].run.phase),
        !moments[i].run.extras,
    ensures
        folder_asked(moments, i, moments[i].run.entries[moments[i].run.position]),
    decreases i,
{
    let b = moments[i];
    let k = b.run.entries[b.run.position];
    lemma_every_moment(kind, false, delete_policy, mirrored, selected, w, moments, i);
    if b.run.phase == SyncPhase::Parent {
        assert(moments[i].action == ActionView::EnsureParent(k));
    } else {
        assert(i > 0);
        let a = moments[i - 1];
        assert(follows(selected, a, b));
        lemma_every_moment(kind, false, delete_policy, mirrored, selected, w, moments, i - 1);
        assert(has_entry(a.run.phase) && a.run.position == b.run.position && a.run.entries
            == b.run.entries && !a.run.extras);
        lemma_folder_asked(kind, delete_policy, mirrored, selected, w, moments, i - 1);
        let j = choose|j: int|
            0 <= j <= i - 1 && (#[trigger] moments[j]).action == ActionView::EnsureParent(k);
        assert(moments[j].action == ActionView::EnsureParent(k));
    }
}

/// A one-way run has the folder of a file made before it has the file copied.
pub proof fn folder_is_made_before_its_files(
    kind: RuleKind,
    delete_policy: DeletePolicy,
    mirrored: Seq<Seq<char>>,
    selected: Set<Seq<char>>,
    w: World,
    moments: Seq<Moment>,
    i: int,
    k: Seq<char>,
)
    requires
        is_run(kind, false, delete_policy, mirrored, selected, w, moments),
        0 <= i < moments.len(),
        moments[i].action matches ActionView::Copy { entry, .. } && entry == k,
    ensures
        exists|j: int| 0 <= j < i && (#[trigger] moments[j]).action == ActionView::EnsureParent(k),
{
    lemma_every_moment(kind, false, delete_policy, mirrored, selected, w, moments, i);
    let r = moments[i].run;
    assert(r.phase is Writing);
    assert(!r.extras) by {
        if r.extras {
            assert(r.entries.contains(r.entries[r.position]));
        }
    }
    lemma_folder_asked(kind, delete_policy, mirrored, selected, w, moments, i);
    let j = choose|j: int|
        0 <= j <= i && (#[trigger] moments[j]).action == ActionView::EnsureParent(k);
    assert(j != i);
}

/// A run takes every report that its driver may give on what it has asked for,
/// as long as a one-way rule is told of a source that is missing as of a
/// failure, and the files that are listed can be counted.
pub proof fn every_report_is_taken(
    kind: RuleKind,
    bidirectional: bool,
    delete_policy: DeletePolicy,
    mirrored: Seq<Seq<char>>,
    selected: Set<Seq<char>>,
    w: World,
    moments: Seq<Moment>,
    w2: World,
    e: EventView,
)
    requires
        is_run(kind, bidirectional, delete_policy, mirrored, selected, w, moments),
        answers(selected, moments.last().world, moments.last().action, w2, e),
        !bidirectional ==> !(e matches EventView::Found { source: None, target: Some(_) }),
        e matches EventView::Listed(keys) ==> moments.last().run.source_keys.len() + keys.len()
            <= usize::MAX,
    ensures
        fits(moments.last().run, e),
{
    let n = moments.len();
    let m = moments.last();
    let r = m.run;
    lemma_every_moment(kind, bidirectional, delete_policy, mirrored, selected, w, moments, n - 1);
    if r.phase == SyncPhase::Inspect {
        let k = r.entries[r.position];
        lemma_entry_not_done(r, selected, w);
        assert(pair_at(m.world, k) == pair_at(w, k));
    }
}

} // verus!
