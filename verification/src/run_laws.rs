//! What a run leaves behind, said of the bytes and the times of the files.
use crate::hashing::blake3_hex;
use crate::listing::{is_key_set, selection_of_keys, with_keys_is_union};
use crate::models::{DeletePolicy, RuleKind};
use crate::sync_engine::{
    count_skip, digest_decides, enter, fits, likeness, looked_at, mirrored_entries, new_run, next,
    past_entry, removal_failure, ActionView, EventView, FileMeta, Likeness, RuleSide, RunCounts,
    RunView, SeenView, SyncPhase, FILE_SYNC_ENTRY,
};
use crate::sync_laws::{
    change_at, done_keys, finished_run_has_its_outcome, is_run, no_file_is_ever_lost, outcome,
    pair_at, tally, FileState, Moment, World,
};
use vstd::prelude::*;
use vstd::string::*;

verus! {

/// Two files of an entry are left alone by a run that succeeds exactly where
/// they are equally long and were written at the same time or have the same
/// digest. Otherwise both sides have one and the same file afterwards: that of
/// the source, or of the target where the rule works both ways and the target's
/// was written later. A copy of the file that had to go is saved.
pub proof fn differing_files_become_one(
    kind: RuleKind,
    bidirectional: bool,
    delete_policy: DeletePolicy,
    mirrored: Seq<Seq<char>>,
    selected: Set<Seq<char>>,
    w: World,
    moments: Seq<Moment>,
    k: Seq<char>,
    s: FileState,
    t: FileState,
)
    requires
        is_run(kind, bidirectional, delete_policy, mirrored, selected, w, moments),
        moments.last().action matches ActionView::Finish(Ok(_)),
        kind == RuleKind::File ==> k == FILE_SYNC_ENTRY@,
        kind == RuleKind::Folder ==> selected.contains(k),
        w.source.dom().contains(k) && w.source[k] == s,
        w.target.dom().contains(k) && w.target[k] == t,
        s.bytes.len() <= u64::MAX,
        t.bytes.len() <= u64::MAX,
    ensures
        ({
            let after = moments.last().world;
            let same = s.bytes.len() == t.bytes.len() && (s.modified == t.modified || blake3_hex(
                s.bytes,
            ) == blake3_hex(t.bytes));
            let target_later = s.modified.seconds < t.modified.seconds || (s.modified.seconds
                == t.modified.seconds && s.modified.nanos < t.modified.nanos);
            &&& after.source.dom().contains(k) && after.target.dom().contains(k)
            &&& same ==> after.source[k] == s && after.target[k] == t
            &&& !same && bidirectional && target_later ==> after.source[k] == t && after.target[k]
                == t && after.saved.contains((RuleSide::Source, k, s))
            &&& !same && !(bidirectional && target_later) ==> after.source[k] == s
                && after.target[k] == s && after.saved.contains((RuleSide::Target, k, t))
        }),
{
    let r = new_run(kind, bidirectional, delete_policy, mirrored);
    let after = moments.last().world;
    finished_run_has_its_outcome(
        kind,
        bidirectional,
        delete_policy,
        mirrored,
        selected,
        w,
        moments,
    );
    no_file_is_ever_lost(
        kind,
        bidirectional,
        delete_policy,
        mirrored,
        selected,
        w,
        moments,
        moments.len() - 1,
    );
    assert(pair_at(w, k) == (Some(s), Some(t)));
    assert(pair_at(after, k) == outcome(r, selected, w, k));
    assert(crate::sync_laws::file_at(w, RuleSide::Source, k) == Some(s));
    assert(crate::sync_laws::file_at(w, RuleSide::Target, k) == Some(t));
    assert(crate::sync_laws::file_at(after, RuleSide::Source, k) is Some);
    assert(crate::sync_laws::file_at(after, RuleSide::Target, k) is Some);
}

/// A file that only one side has, after a run that succeeds. A one-way rule
/// brings that of the source to the target; that of the target it leaves alone,
/// unless the rule is a folder rule that moves such files to the backup. A rule
/// that works both ways removes it where both sides had it after the last run,
/// and brings it to the other side otherwise. What is removed is saved.
pub proof fn lone_file_is_spread_or_removed(
    kind: RuleKind,
    bidirectional: bool,
    delete_policy: DeletePolicy,
    mirrored: Seq<Seq<char>>,
    selected: Set<Seq<char>>,
    w: World,
    moments: Seq<Moment>,
    k: Seq<char>,
    in_source: bool,
    f: FileState,
)
    requires
        is_run(kind, bidirectional, delete_policy, mirrored, selected, w, moments),
        moments.last().action matches ActionView::Finish(Ok(_)),
        kind == RuleKind::File ==> k == FILE_SYNC_ENTRY@,
        kind == RuleKind::Folder ==> selected.contains(k),
        in_source ==> w.source.dom().contains(k) && w.source[k] == f && !w.target.dom().contains(k),
        !in_source ==> w.target.dom().contains(k) && w.target[k] == f && !w.source.dom().contains(
            k,
        ),
    ensures
        ({
            let after = moments.last().world;
            let spread = after.source.dom().contains(k) && after.source[k] == f
                && after.target.dom().contains(k) && after.target[k] == f;
            let gone = !after.source.dom().contains(k) && !after.target.dom().contains(k);
            let saved_target = after.saved.contains((RuleSide::Target, k, f));
            &&& !bidirectional && in_source ==> spread
            &&& !bidirectional && !in_source && kind == RuleKind::Folder && delete_policy
                == DeletePolicy::MoveToBackup ==> gone && saved_target
            &&& !bidirectional && !in_source && !(kind == RuleKind::Folder && delete_policy
                == DeletePolicy::MoveToBackup) ==> !after.source.dom().contains(k)
                && after.target.dom().contains(k) && after.target[k] == f
            &&& bidirectional && mirrored.contains(k) ==> gone
            &&& bidirectional && mirrored.contains(k) && in_source ==> after.saved.contains(
                (RuleSide::Source, k, f),
            )
            &&& bidirectional && mirrored.contains(k) && !in_source ==> saved_target
            &&& bidirectional && !mirrored.contains(k) ==> spread
        }),
{
    let r = new_run(kind, bidirectional, delete_policy, mirrored);
    let after = moments.last().world;
    with_keys_is_union(Seq::empty(), mirrored);
    assert(r.mirrored.contains(k) <==> mirrored.contains(k));
    finished_run_has_its_outcome(
        kind,
        bidirectional,
        delete_policy,
        mirrored,
        selected,
        w,
        moments,
    );
    no_file_is_ever_lost(
        kind,
        bidirectional,
        delete_policy,
        mirrored,
        selected,
        w,
        moments,
        moments.len() - 1,
    );
    assert(pair_at(after, k) == outcome(r, selected, w, k));
    assert(pair_at(w, k).0 is Some <==> in_source);
    assert(pair_at(w, k).1 is Some <==> !in_source);
    assert(crate::sync_laws::file_at(after, RuleSide::Source, k) == pair_at(after, k).0);
    assert(crate::sync_laws::file_at(after, RuleSide::Target, k) == pair_at(after, k).1);
}

/// A file rule touches its one file, and a folder rule the files that its
/// patterns select; every other file is as it was.
pub proof fn unselected_files_stay(
    kind: RuleKind,
    bidirectional: bool,
    delete_policy: DeletePolicy,
    mirrored: Seq<Seq<char>>,
    selected: Set<Seq<char>>,
    w: World,
    moments: Seq<Moment>,
    k: Seq<char>,
)
    requires
        is_run(kind, bidirectional, delete_policy, mirrored, selected, w, moments),
        moments.last().action matches ActionView::Finish(Ok(_)),
        kind == RuleKind::File ==> k != FILE_SYNC_ENTRY@,
        kind == RuleKind::Folder ==> !selected.contains(k),
    ensures
        ({
            let after = moments.last().world;
            &&& after.source.dom().contains(k) <==> w.source.dom().contains(k)
            &&& after.target.dom().contains(k) <==> w.target.dom().contains(k)
            &&& w.source.dom().contains(k) ==> after.source[k] == w.source[k]
            &&& w.target.dom().contains(k) ==> after.target[k] == w.target[k]
        }),
{
    let r = new_run(kind, bidirectional, delete_policy, mirrored);
    let after = moments.last().world;
    finished_run_has_its_outcome(
        kind,
        bidirectional,
        delete_policy,
        mirrored,
        selected,
        w,
        moments,
    );
    assert(pair_at(after, k) == outcome(r, selected, w, k));
    assert(crate::sync_laws::file_at(after, RuleSide::Source, k) == pair_at(w, k).0);
    assert(crate::sync_laws::file_at(after, RuleSide::Target, k) == pair_at(w, k).1);
}

/// Whether an entry at which one side had a file has one on both sides now.
pub open spec fn was_copied(w: World, after: World, k: Seq<char>) -> bool {
    &&& w.source.dom().contains(k) != w.target.dom().contains(k)
    &&& after.source.dom().contains(k)
    &&& after.target.dom().contains(k)
}

/// Whether an entry at which both sides had a file has another one on a side now.
pub open spec fn was_updated(w: World, after: World, k: Seq<char>) -> bool {
    &&& w.source.dom().contains(k)
    &&& w.target.dom().contains(k)
    &&& after.source.dom().contains(k)
    &&& after.target.dom().contains(k)
    &&& after.source[k] != w.source[k] || after.target[k] != w.target[k]
}

/// Whether an entry at which a side had a file has none now.
pub open spec fn was_deleted(w: World, after: World, k: Seq<char>) -> bool {
    &&& w.source.dom().contains(k) || w.target.dom().contains(k)
    &&& !after.source.dom().contains(k)
    &&& !after.target.dom().contains(k)
}

/// Whether an entry is as it was.
pub open spec fn was_left_alone(w: World, after: World, k: Seq<char>) -> bool {
    &&& after.source.dom().contains(k) == w.source.dom().contains(k)
    &&& after.target.dom().contains(k) == w.target.dom().contains(k)
    &&& w.source.dom().contains(k) ==> after.source[k] == w.source[k]
    &&& w.target.dom().contains(k) ==> after.target[k] == w.target[k]
}

proof fn lemma_one_outcome(r: RunView, selected: Set<Seq<char>>, w: World, after: World, k: Seq<char>)
    requires
        pair_at(after, k) == outcome(r, selected, w, k),
    ensures
        ({
            let change = change_at(r, selected, w, k);
            &&& was_copied(w, after, k) <==> (change matches Some(c) && c is Create)
            &&& was_updated(w, after, k) <==> (change matches Some(c) && c is Replace)
            &&& was_deleted(w, after, k) <==> (change matches Some(c) && c is Delete)
            &&& was_left_alone(w, after, k) <==> change is None
        }),
{
    assert(pair_at(after, k).0 is Some <==> after.source.dom().contains(k));
    assert(pair_at(after, k).1 is Some <==> after.target.dom().contains(k));
    assert(pair_at(w, k).0 is Some <==> w.source.dom().contains(k));
    assert(pair_at(w, k).1 is Some <==> w.target.dom().contains(k));
}

proof fn lemma_tally_is_counted(
    r: RunView,
    selected: Set<Seq<char>>,
    w: World,
    after: World,
    keys: Seq<Seq<char>>,
)
    requires
        keys.len() <= usize::MAX,
        forall|k: Seq<char>| #[trigger] pair_at(after, k) == outcome(r, selected, w, k),
    ensures
        ({
            let counts = tally(r, selected, w, keys);
            let copied = keys.filter(|k: Seq<char>| was_copied(w, after, k)).len();
            let updated = keys.filter(|k: Seq<char>| was_updated(w, after, k)).len();
            let deleted = keys.filter(|k: Seq<char>| was_deleted(w, after, k)).len();
            let skipped = keys.filter(|k: Seq<char>| was_left_alone(w, after, k)).len();
            &&& counts.copied_count == copied
            &&& counts.updated_count == updated
            &&& counts.deleted_count == deleted
            &&& counts.skipped_count == skipped
            &&& counts.backup_count == updated + deleted
            &&& copied + updated + deleted + skipped == keys.len()
        }),
    decreases keys.len(),
{
    reveal(Seq::filter);
    if keys.len() > 0 {
        let k = keys.last();
        lemma_tally_is_counted(r, selected, w, after, keys.drop_last());
        assert(pair_at(after, k) == outcome(r, selected, w, k));
        lemma_one_outcome(r, selected, w, after, k);
    }
}

/// A run that succeeds counts every entry that it dealt with once: as copied
/// where one side had a file and both have it now, as updated where both had
/// one and a side has another now, as deleted where there is none any more, and
/// as skipped where nothing changed. It makes a backup for each that it updates
/// or deletes. The entries are the one of a file rule; of a folder rule the
/// selected files of the source, of a rule that works both ways also those of
/// the target and the ones that it remembers, and of one that moves files of
/// the target alone to the backup also those.
pub proof fn run_counts_what_it_did(
    kind: RuleKind,
    bidirectional: bool,
    delete_policy: DeletePolicy,
    mirrored: Seq<Seq<char>>,
    selected: Set<Seq<char>>,
    w: World,
    moments: Seq<Moment>,
)
    requires
        is_run(kind, bidirectional, delete_policy, mirrored, selected, w, moments),
        moments.last().action matches ActionView::Finish(Ok(_)),
    ensures
        ({
            let after = moments.last().world;
            let counts = moments.last().action->Finish_0->Ok_0;
            let keys = done_keys(moments.last().run);
            &&& counts.copied_count == keys.filter(|k: Seq<char>| was_copied(w, after, k)).len()
            &&& counts.updated_count == keys.filter(|k: Seq<char>| was_updated(w, after, k)).len()
            &&& counts.deleted_count == keys.filter(|k: Seq<char>| was_deleted(w, after, k)).len()
            &&& counts.skipped_count == keys.filter(
                |k: Seq<char>| was_left_alone(w, after, k),
            ).len()
            &&& counts.backup_count == counts.updated_count + counts.deleted_count
            &&& counts.error_count == 0
            &&& keys.no_duplicates()
            &&& forall|k: Seq<char>| #[trigger]
                keys.contains(k) <==> if kind == RuleKind::File {
                    k == FILE_SYNC_ENTRY@
                } else if bidirectional {
                    (selected.contains(k) && (w.source.dom().contains(k) || w.target.dom().contains(
                        k,
                    ))) || mirrored.contains(k)
                } else {
                    selected.contains(k) && (w.source.dom().contains(k) || (delete_policy
                        == DeletePolicy::MoveToBackup && w.target.dom().contains(k)))
                }
        }),
{
    let r = new_run(kind, bidirectional, delete_policy, mirrored);
    let after = moments.last().world;
    let keys = done_keys(moments.last().run);
    finished_run_has_its_outcome(
        kind,
        bidirectional,
        delete_policy,
        mirrored,
        selected,
        w,
        moments,
    );
    assert forall|k: Seq<char>| #[trigger] pair_at(after, k) == outcome(r, selected, w, k) by {}
    lemma_tally_is_counted(r, selected, w, after, keys);
    with_keys_is_union(Seq::empty(), mirrored);
    assert forall|k: Seq<char>| #[trigger]
        keys.contains(k) <==> if kind == RuleKind::File {
            k == FILE_SYNC_ENTRY@
        } else if bidirectional {
            (selected.contains(k) && (w.source.dom().contains(k) || w.target.dom().contains(k)))
                || mirrored.contains(k)
        } else {
            selected.contains(k) && (w.source.dom().contains(k) || (delete_policy
                == DeletePolicy::MoveToBackup && w.target.dom().contains(k)))
        } by {
        assert(keys.contains(k) <==> crate::sync_laws::dealt_with(r, selected, w, k));
        assert(r.mirrored.contains(k) <==> mirrored.contains(k));
    }
}

proof fn lemma_enter_reads_nothing(r: RunView)
    ensures
        !(enter(r).1 is Digest),
        !(enter(r).1 is Finish),
        !(enter(r).1 is Probe),
    decreases r.entries.len() - r.position,
{
    if r.position < r.entries.len() {
        lemma_enter_reads_nothing(past_entry(r, count_skip(r.counts)));
    }
}

/// What is told of two files without reading them: that they differ where
/// they are not equally long, that they are the same where they are and were
/// written at the same time, and nothing otherwise.
pub proof fn length_and_time_tell_files_apart(s: FileMeta, t: FileMeta)
    ensures
        likeness(s, t) == Likeness::Different <==> s.len != t.len,
        likeness(s, t) == Likeness::Same <==> s.len == t.len && s.modified.seconds
            == t.modified.seconds && s.modified.nanos == t.modified.nanos,
        likeness(s, t) == Likeness::Unknown <==> s.len == t.len && (s.modified.seconds
            != t.modified.seconds || s.modified.nanos != t.modified.nanos),
        likeness(t, s) == likeness(s, t),
{
}

/// A run that has looked at two files of its entry has them read exactly where
/// they are equally long and were written at different times.
pub proof fn files_are_read_where_only_times_differ(r: RunView, s: FileMeta, t: FileMeta)
    requires
        r.phase == SyncPhase::Inspect,
        s.is_file && t.is_file,
    ensures
        ({
            let asks = next(r, EventView::Found { source: Some(s), target: Some(t) }).1;
            &&& asks is Digest <==> s.len == t.len && s.modified != t.modified
            &&& asks is Digest ==> asks == ActionView::Digest(r.entries[r.position])
        }),
{
    lemma_enter_reads_nothing(past_entry(r, count_skip(r.counts)));
}

/// A two-way rule for a file gives up where neither side has the file and it is
/// not known that both had it, and where something else than a file stands on
/// a side; what it says tells the two apart.
pub proof fn two_way_file_rule_needs_a_file(
    r: RunView,
    source: Option<FileMeta>,
    target: Option<FileMeta>,
)
    requires
        r.phase == SyncPhase::Inspect,
        r.kind == RuleKind::File,
        r.bidirectional,
    ensures
        ({
            let asks = next(r, EventView::Found { source, target }).1;
            let none = source is None && target is None;
            let strange = source matches Some(s) && target matches Some(t) && !(s.is_file
                && t.is_file);
            &&& none && !r.mirrored.contains(FILE_SYNC_ENTRY@) ==> asks == ActionView::Finish(
                Err("双向同步失败：源路径和目标路径都不存在。"@),
            )
            &&& strange ==> asks == ActionView::Finish(
                Err("双向文件规则要求两侧都必须是文件。"@),
            )
            &&& !strange && (!none || r.mirrored.contains(FILE_SYNC_ENTRY@)) ==> !(asks is Finish)
        }),
{
    lemma_enter_reads_nothing(past_entry(r, count_skip(r.counts)));
}

/// A run that is told of a failure ends with what it was told.
pub proof fn failure_ends_the_run(r: RunView, message: Seq<char>)
    requires
        fits(r, EventView::Failed(message)),
    ensures
        next(r, EventView::Failed(message)).1 == ActionView::Finish(Err(message)),
        next(r, EventView::Failed(message)).0.phase == SyncPhase::Finished,
{
}

/// Files have to be read to tell whether they are the same exactly where both
/// are files, equally long and written at different times.
pub proof fn digests_count_where_only_times_differ(source: Option<FileMeta>, target: Option<FileMeta>)
    ensures
        digest_decides(source, target) <==> match (source, target) {
            (Some(s), Some(t)) => s.is_file && t.is_file && s.len == t.len && s.modified
                != t.modified,
            _ => false,
        },
{
}

/// A one-way rule remembers nothing. A two-way file rule remembers its file
/// where both sides have one, equally long and written at the same time or with
/// the same digest. A two-way folder rule remembers what both sides have, in
/// order.
pub proof fn rule_remembers_what_both_sides_have(
    bidirectional: bool,
    source: Option<FileMeta>,
    target: Option<FileMeta>,
    same_digest: bool,
    source_keys: Seq<Seq<char>>,
    target_keys: Seq<Seq<char>>,
    k: Seq<char>,
)
    requires
        is_key_set(source_keys),
    ensures
        ({
            let file = mirrored_entries(
                bidirectional,
                SeenView::Files { source, target, same_digest },
            );
            let same = match (source, target) {
                (Some(s), Some(t)) => s.is_file && t.is_file && s.len == t.len && (s.modified
                    == t.modified || same_digest),
                _ => false,
            };
            &&& bidirectional && same ==> file == seq![FILE_SYNC_ENTRY@]
            &&& !(bidirectional && same) ==> file.len() == 0
        }),
        ({
            let folder = mirrored_entries(
                bidirectional,
                SeenView::Folders { source: source_keys, target: target_keys },
            );
            &&& folder.contains(k) <==> bidirectional && source_keys.contains(k)
                && target_keys.contains(k)
            &&& is_key_set(folder)
        }),
{
    selection_of_keys(source_keys, |x: Seq<char>| target_keys.contains(x));
}

/// What is reported of a look at the two files of an entry. Where both could be
/// looked at, both are reported. A one-way rule does without the target's, a
/// two-way file rule without either; any other failure is reported, that of the
/// source first.
pub proof fn look_is_reported(
    kind: RuleKind,
    bidirectional: bool,
    source: Result<FileMeta, Seq<char>>,
    target: Result<FileMeta, Seq<char>>,
)
    ensures
        ({
            let told = looked_at(kind, bidirectional, source, target);
            &&& source is Ok && target is Ok ==> told == EventView::Found {
                source: Some(source->Ok_0),
                target: Some(target->Ok_0),
            }
            &&& !bidirectional && source is Ok && target is Err ==> told == EventView::Found {
                source: Some(source->Ok_0),
                target: None,
            }
            &&& !bidirectional && source is Err && target is Err ==> told == EventView::Found {
                source: None,
                target: None,
            }
            &&& !bidirectional && source is Err && target is Ok ==> told == EventView::Failed(
                source->Err_0,
            )
            &&& bidirectional && kind == RuleKind::File && source is Err && target is Ok ==> told
                == EventView::Found { source: None, target: Some(target->Ok_0) }
            &&& bidirectional && kind == RuleKind::File && source is Ok && target is Err ==> told
                == EventView::Found { source: Some(source->Ok_0), target: None }
            &&& bidirectional && kind == RuleKind::File && source is Err && target is Err ==> told
                == EventView::Found { source: None, target: None }
            &&& bidirectional && kind == RuleKind::Folder && source is Err ==> told
                == EventView::Failed(source->Err_0)
            &&& bidirectional && kind == RuleKind::Folder && source is Ok && target is Err ==> told
                == EventView::Failed(target->Err_0)
        }),
{
}

/// A removal that fails is said to be that of a file of the target which the
/// source does not have, or of a file that both sides had.
pub proof fn failed_removal_is_named(bidirectional: bool)
    ensures
        bidirectional ==> removal_failure(bidirectional) == "删除同步文件失败"@,
        !bidirectional ==> removal_failure(bidirectional) == "删除目标侧多余文件失败"@,
{
}

/// How a run that works both ways goes about two files that differ in length.
/// It asks whether the file is there that was not written last, the target's
/// where neither was. Where it is, it is backed up first; then the other side's
/// file is copied over.
pub proof fn loser_is_backed_up_if_it_is_there(r: RunView, s: FileMeta, t: FileMeta)
    requires
        r.phase == SyncPhase::Inspect,
        r.bidirectional,
        s.is_file && t.is_file,
        s.len != t.len,
    ensures
        ({
            let entry = r.entries[r.position];
            let target_later = s.modified.seconds < t.modified.seconds || (s.modified.seconds
                == t.modified.seconds && s.modified.nanos < t.modified.nanos);
            let winner = if target_later {
                RuleSide::Target
            } else {
                RuleSide::Source
            };
            let loser = if target_later {
                RuleSide::Source
            } else {
                RuleSide::Target
            };
            let (looking, asks) = next(r, EventView::Found { source: Some(s), target: Some(t) });
            let (saving, then) = next(looking, EventView::Exists(true));
            &&& asks == ActionView::Probe { entry, side: loser }
            &&& then == ActionView::Backup { entry, side: loser }
            &&& next(saving, EventView::Done).1 == ActionView::Copy { entry, from: winner }
            &&& next(looking, EventView::Exists(false)).1 == ActionView::Copy {
                entry,
                from: winner,
            }
        }),
{
}

/// How a one-way run goes about its entry: where the target has no file the
/// source's is copied; where it has one that differs in length, that is backed
/// up first.
pub proof fn target_is_backed_up_before_it_is_replaced(r: RunView, s: FileMeta, t: FileMeta)
    requires
        r.phase == SyncPhase::Inspect,
        !r.bidirectional,
        s.len != t.len,
    ensures
        ({
            let entry = r.entries[r.position];
            let (saving, asks) = next(r, EventView::Found { source: Some(s), target: Some(t) });
            &&& asks == ActionView::Backup { entry, side: RuleSide::Target }
            &&& next(saving, EventView::Done).1 == ActionView::Copy {
                entry,
                from: RuleSide::Source,
            }
            &&& next(r, EventView::Found { source: Some(s), target: None }).1 == ActionView::Copy {
                entry,
                from: RuleSide::Source,
            }
        }),
{
}

/// What a run makes of the digests that it asked for: two files with the same
/// digest are passed over and count as skipped, two with different ones are
/// treated as files that differ in length are.
pub proof fn digests_decide(
    r: RunView,
    s: FileMeta,
    t: FileMeta,
    first: Seq<char>,
    second: Seq<char>,
    shorter: FileMeta,
)
    requires
        r.phase == SyncPhase::Inspect,
        s.is_file && t.is_file,
        s.len == t.len && s.modified != t.modified,
        shorter == (FileMeta { len: shorter.len, ..s }),
        shorter.len != t.len,
        first != second,
    ensures
        ({
            let reading = next(r, EventView::Found { source: Some(s), target: Some(t) }).0;
            let other = next(r, EventView::Found { source: Some(shorter), target: Some(t) });
            &&& next(reading, EventView::Digests { source: first, target: second }).1 == other.1
            &&& next(reading, EventView::Digests { source: first, target: second }).0.phase
                == other.0.phase
            &&& next(reading, EventView::Digests { source: first, target: first }) == enter(
                RunView {
                    position: r.position + 1,
                    counts: RunCounts {
                        skipped_count: (r.counts.skipped_count + 1) as usize,
                        ..r.counts
                    },
                    ..reading
                },
            )
        }),
{
}

/// The one entry of a file rule, and the side that each side is kept in step with.
pub proof fn sides_face_each_other()
    ensures
        FILE_SYNC_ENTRY@ == "__file__"@,
        RuleSide::Source.other() == RuleSide::Target,
        RuleSide::Target.other() == RuleSide::Source,
{
}

} // verus!
