//! What becomes of a backup: from the run that makes it to the preview that
//! shows it, and from there to the cleanup that removes it.
use crate::backups::{
    backup_names_are_recognised, backup_plan, cleanup_preview, count_kind, file_backups,
    inside_goes_before_outside, is_backup_name, longest_first, longest_first_keeps_all,
    preview_counts_every_candidate, shown_relative, side_candidates, tree_backups,
    BackupEntryView, BackupPlanView, ListingView,
};
use crate::cleanup::{
    candidate_paths, cleanup_outcome, finished_cleanup_counts_its_candidates,
    finished_cleanup_removed_its_candidates, is_cleanup, lemma_candidate_paths, ready_for_cleanup,
    takes, CleanupActionView, CleanupMoment,
};
use crate::clock::Timestamp;
use crate::models::{CandidateView, CleanupCandidateKind, PreviewView, RuleKind, RuleView};
use crate::paths::{file_name_of, key_names, relative_key, ComponentView, PathView};
use crate::sync_engine::{
    new_run, no_counts, ActionView, RuleSide, RunCounts, RunView, FILE_SYNC_ENTRY,
};
use crate::sync_laws::{
    backups_are_made_for_a_reason, change_at, dealt_with, done_keys, file_at,
    finished_run_has_its_outcome, is_run, loses, no_file_is_ever_lost, outcome, pair_at, tally,
    FileState, Moment, World,
};
use vstd::prelude::*;
use vstd::string::*;

verus! {

broadcast use vstd::string::group_string_axioms;

/// Of two things, one for each side, that of a side.
pub open spec fn of_side<T>(source: T, target: T, side: RuleSide) -> T {
    match side {
        RuleSide::Source => source,
        RuleSide::Target => target,
    }
}

/// By what name an entry is backed up: the one file of a file rule has none of
/// its own.
pub open spec fn entry_key(kind: RuleKind, entry: Seq<char>) -> Option<Seq<char>> {
    match kind {
        RuleKind::File => None,
        RuleKind::Folder => Some(entry),
    }
}

/// Whether something in a backup folder is the file that was planned. The
/// entries of a folder rule are listed from the folder of the side's own name.
pub open spec fn stands_as_planned(
    kind: RuleKind,
    entry: BackupEntryView,
    plan: BackupPlanView,
) -> bool {
    &&& entry.is_file
    &&& !entry.is_dir
    &&& match kind {
        RuleKind::File => entry.name == plan.file.names.last(),
        RuleKind::Folder => entry.components == plan.file.names.skip(2).map_values(
            |name: Seq<char>| ComponentView::Normal(name),
        ),
    }
}

/// Whether something in the backup folder of a path is the backup of an entry
/// that was made with a stamp.
pub open spec fn is_copy(
    kind: RuleKind,
    path: PathView,
    entry: Seq<char>,
    stamp: Seq<char>,
    found: BackupEntryView,
) -> bool {
    backup_plan(kind, path, entry_key(kind, entry), stamp) matches Ok(plan) && stands_as_planned(
        kind,
        found,
        plan,
    )
}

/// Whether a copy of an entry is kept in a backup folder with these entries;
/// `contents` says what the files of a path hold.
pub open spec fn keeps_copy(
    kind: RuleKind,
    path: PathView,
    entries: Seq<BackupEntryView>,
    contents: Map<Seq<char>, Seq<u8>>,
    entry: Seq<char>,
    bytes: Seq<u8>,
) -> bool {
    exists|stamp: Seq<char>, i: int|
        0 <= i < entries.len() && #[trigger] is_copy(kind, path, entry, stamp, entries[i])
            && contents.dom().contains(entries[i].path) && contents[entries[i].path] == bytes
}

/// Whether the backups of a path have a place and a name.
pub open spec fn has_place(path: PathView) -> bool {
    path.parent is Some && file_name_of(path.components) is Some
}

/// Whether a preview shows a file among these entries that holds `bytes`; for a
/// file rule, under the name of a backup.
pub open spec fn shows_copy(
    kind: RuleKind,
    preview: PreviewView,
    path: PathView,
    entries: Seq<BackupEntryView>,
    contents: Map<Seq<char>, Seq<u8>>,
    bytes: Seq<u8>,
) -> bool {
    exists|c: int, i: int|
        0 <= c < preview.candidates.len() && 0 <= i < entries.len() && (
        #[trigger] preview.candidates[c]).path == (#[trigger] entries[i]).path
            && preview.candidates[c].kind == CleanupCandidateKind::File && contents.dom().contains(
            entries[i].path,
        ) && contents[entries[i].path] == bytes && (kind == RuleKind::File ==> is_backup_name(
            file_name_of(path.components)->0,
            entries[i].name,
        ))
}

/// Every entry that counts is shown, and all of them are files.
proof fn lemma_file_backups(
    bidirectional: bool,
    side: RuleSide,
    original: Seq<char>,
    entries: Seq<BackupEntryView>,
)
    ensures
        ({
            let list = file_backups(bidirectional, side, original, entries);
            &&& forall|c: int|
                0 <= c < list.len() ==> (#[trigger] list[c]).kind == CleanupCandidateKind::File
            &&& forall|i: int|
                0 <= i < entries.len() && (#[trigger] entries[i]).is_file && is_backup_name(
                    original,
                    entries[i].name,
                ) ==> list.contains(
                    CandidateView {
                        path: entries[i].path,
                        relative_path: shown_relative(bidirectional, side, original),
                        kind: CleanupCandidateKind::File,
                    },
                )
            &&& (forall|i: int|
                0 <= i < entries.len() ==> !((#[trigger] entries[i]).is_file && is_backup_name(
                    original,
                    entries[i].name,
                ))) ==> list.len() == 0
        }),
    decreases entries.len(),
{
    if entries.len() > 0 {
        let front = entries.drop_last();
        let n = entries.len() - 1;
        let before = file_backups(bidirectional, side, original, front);
        let list = file_backups(bidirectional, side, original, entries);
        lemma_file_backups(bidirectional, side, original, front);
        assert forall|i: int|
            0 <= i < entries.len() && (#[trigger] entries[i]).is_file && is_backup_name(
                original,
                entries[i].name,
            ) implies list.contains(
            CandidateView {
                path: entries[i].path,
                relative_path: shown_relative(bidirectional, side, original),
                kind: CleanupCandidateKind::File,
            },
        ) by {
            let candidate = CandidateView {
                path: entries[i].path,
                relative_path: shown_relative(bidirectional, side, original),
                kind: CleanupCandidateKind::File,
            };
            if i < n {
                assert(front[i] == entries[i]);
                let c = choose|c: int| 0 <= c < before.len() && before[c] == candidate;
                assert(list[c] == candidate);
            } else {
                assert(list[before.len() as int] == candidate);
            }
        }
        if forall|i: int|
            0 <= i < entries.len() ==> !((#[trigger] entries[i]).is_file && is_backup_name(
                original,
                entries[i].name,
            )) {
            assert(!(entries[n].is_file && is_backup_name(original, entries[n].name)));
            assert forall|i: int| 0 <= i < front.len() implies !((#[trigger] front[i]).is_file
                && is_backup_name(original, front[i].name)) by {
                assert(front[i] == entries[i]);
            }
        }
    }
}

/// How something below the backup folder of a folder rule is shown.
spec fn tree_candidate(bidirectional: bool, side: RuleSide, entry: BackupEntryView) -> CandidateView {
    CandidateView {
        path: entry.path,
        relative_path: shown_relative(bidirectional, side, relative_key(entry.components)),
        kind: if entry.is_dir {
            CleanupCandidateKind::Folder
        } else {
            CleanupCandidateKind::File
        },
    }
}

proof fn lemma_tree_backups(bidirectional: bool, side: RuleSide, entries: Seq<BackupEntryView>)
    ensures
        ({
            let list = tree_backups(bidirectional, side, entries);
            &&& forall|i: int|
                0 <= i < entries.len() && (#[trigger] entries[i]).components.len() > 0
                    ==> list.contains(tree_candidate(bidirectional, side, entries[i]))
            &&& (forall|i: int|
                0 <= i < entries.len() ==> (#[trigger] entries[i]).components.len() == 0)
                ==> list.len() == 0
        }),
    decreases entries.len(),
{
    if entries.len() > 0 {
        let front = entries.drop_last();
        let n = entries.len() - 1;
        let before = tree_backups(bidirectional, side, front);
        let list = tree_backups(bidirectional, side, entries);
        lemma_tree_backups(bidirectional, side, front);
        assert forall|i: int|
            0 <= i < entries.len() && (#[trigger] entries[i]).components.len()
                > 0 implies list.contains(tree_candidate(bidirectional, side, entries[i])) by {
            let candidate = tree_candidate(bidirectional, side, entries[i]);
            if i < n {
                assert(front[i] == entries[i]);
                let c = choose|c: int| 0 <= c < before.len() && before[c] == candidate;
                assert(list[c] == candidate);
            } else {
                assert(list[before.len() as int] == candidate);
            }
        }
        if forall|i: int| 0 <= i < entries.len() ==> (#[trigger] entries[i]).components.len() == 0 {
            assert(entries[n].components.len() == 0);
            assert forall|i: int| 0 <= i < front.len() implies (
            #[trigger] front[i]).components.len() == 0 by {
                assert(front[i] == entries[i]);
            }
        }
    }
}

/// A copy that is kept is among the backups of its side.
proof fn lemma_copy_is_candidate(
    kind: RuleKind,
    bidirectional: bool,
    side: RuleSide,
    path: PathView,
    entries: Seq<BackupEntryView>,
    contents: Map<Seq<char>, Seq<u8>>,
    entry: Seq<char>,
    bytes: Seq<u8>,
) -> (i: int)
    requires
        has_place(path),
        kind == RuleKind::Folder ==> key_names(entry).len() > 0,
        keeps_copy(kind, path, entries, contents, entry, bytes),
    ensures
        0 <= i < entries.len(),
        contents.dom().contains(entries[i].path),
        contents[entries[i].path] == bytes,
        kind == RuleKind::File ==> is_backup_name(
            file_name_of(path.components)->0,
            entries[i].name,
        ),
        side_candidates(
            kind,
            bidirectional,
            side,
            path,
            ListingView::Entries(entries),
        ) matches Ok(list) && exists|c: int|
            0 <= c < list.len() && (#[trigger] list[c]).path == entries[i].path && list[c].kind
                == CleanupCandidateKind::File,
{
    let (stamp, i) = choose|stamp: Seq<char>, i: int|
        0 <= i < entries.len() && #[trigger] is_copy(kind, path, entry, stamp, entries[i])
            && contents.dom().contains(entries[i].path) && contents[entries[i].path] == bytes;
    let name = file_name_of(path.components)->0;
    let plan = backup_plan(kind, path, entry_key(kind, entry), stamp)->Ok_0;
    let list = side_candidates(kind, bidirectional, side, path, ListingView::Entries(entries))->Ok_0;
    let root = seq![".back"@];
    match kind {
        RuleKind::File => {
            backup_names_are_recognised(name, stamp);
            assert(root.push(name).last() == name);
            lemma_file_backups(bidirectional, side, name, entries);
            let candidate = CandidateView {
                path: entries[i].path,
                relative_path: shown_relative(bidirectional, side, name),
                kind: CleanupCandidateKind::File,
            };
            assert(list.contains(candidate));
            let c = choose|c: int| 0 <= c < list.len() && list[c] == candidate;
            assert(list[c].path == entries[i].path);
        },
        RuleKind::Folder => {
            let names = root.push(name) + key_names(entry);
            assert(plan.file.names.len() == names.len());
            assert(entries[i].components.len() == key_names(entry).len());
            lemma_tree_backups(bidirectional, side, entries);
            let candidate = tree_candidate(bidirectional, side, entries[i]);
            assert(list.contains(candidate));
            let c = choose|c: int| 0 <= c < list.len() && list[c] == candidate;
            assert(list[c].path == entries[i].path);
        },
    }
    i
}

/// All that is shown of a file rule are files.
proof fn lemma_only_files(list: Seq<CandidateView>)
    requires
        forall|c: int|
            0 <= c < list.len() ==> (#[trigger] list[c]).kind == CleanupCandidateKind::File,
    ensures
        count_kind(list, CleanupCandidateKind::Folder) == 0,
        count_kind(list, CleanupCandidateKind::File) == list.len(),
    decreases list.len(),
{
    if list.len() > 0 {
        assert(list[list.len() - 1].kind == CleanupCandidateKind::File);
        lemma_only_files(list.drop_last());
    }
}

/// A copy that a run has saved is shown by the preview, as a file that still
/// holds what the run replaced or removed; the preview of a file rule counts no
/// folders. The listings are those of the backup folders afterwards, which keep
/// what was saved.
pub proof fn saved_copy_is_previewed(
    rule: RuleView,
    source: PathView,
    target: PathView,
    source_entries: Seq<BackupEntryView>,
    target_entries: Seq<BackupEntryView>,
    contents: Map<Seq<char>, Seq<u8>>,
    selected: Set<Seq<char>>,
    w: World,
    moments: Seq<Moment>,
    i: int,
    side: RuleSide,
    entry: Seq<char>,
    file: FileState,
)
    requires
        is_run(
            rule.kind,
            rule.bidirectional,
            rule.delete_policy,
            rule.sync_state,
            selected,
            w,
            moments,
        ),
        w.saved == Set::<(RuleSide, Seq<char>, FileState)>::empty(),
        0 <= i < moments.len(),
        moments[i].world.saved.contains((side, entry, file)),
        rule.bidirectional ==> has_place(source),
        has_place(target),
        rule.kind == RuleKind::Folder ==> key_names(entry).len() > 0,
        keeps_copy(
            rule.kind,
            of_side(source, target, side),
            of_side(source_entries, target_entries, side),
            contents,
            entry,
            file.bytes,
        ),
    ensures
        cleanup_preview(
            rule,
            source,
            target,
            ListingView::Entries(source_entries),
            ListingView::Entries(target_entries),
        ) matches Ok(preview) && shows_copy(
            rule.kind,
            preview,
            of_side(source, target, side),
            of_side(source_entries, target_entries, side),
            contents,
            file.bytes,
        ) && preview.file_count >= 1 && (rule.kind == RuleKind::File ==> preview.folder_count == 0),
{
    let r = new_run(rule.kind, rule.bidirectional, rule.delete_policy, rule.sync_state);
    backups_are_made_for_a_reason(
        rule.kind,
        rule.bidirectional,
        rule.delete_policy,
        rule.sync_state,
        selected,
        w,
        moments,
        i,
    );
    assert(change_at(r, selected, w, entry) matches Some(change) && loses(change) == Some(side));
    assert(!rule.bidirectional ==> side == RuleSide::Target);
    lemma_kept_copy_is_shown(
        rule,
        source,
        target,
        source_entries,
        target_entries,
        contents,
        side,
        entry,
        file.bytes,
    );
}

proof fn lemma_kept_copy_is_shown(
    rule: RuleView,
    source: PathView,
    target: PathView,
    source_entries: Seq<BackupEntryView>,
    target_entries: Seq<BackupEntryView>,
    contents: Map<Seq<char>, Seq<u8>>,
    side: RuleSide,
    entry: Seq<char>,
    bytes: Seq<u8>,
)
    requires
        !rule.bidirectional ==> side == RuleSide::Target,
        rule.bidirectional ==> has_place(source),
        has_place(target),
        rule.kind == RuleKind::Folder ==> key_names(entry).len() > 0,
        keeps_copy(
            rule.kind,
            of_side(source, target, side),
            of_side(source_entries, target_entries, side),
            contents,
            entry,
            bytes,
        ),
    ensures
        cleanup_preview(
            rule,
            source,
            target,
            ListingView::Entries(source_entries),
            ListingView::Entries(target_entries),
        ) matches Ok(preview) && shows_copy(
            rule.kind,
            preview,
            of_side(source, target, side),
            of_side(source_entries, target_entries, side),
            contents,
            bytes,
        ) && preview.file_count >= 1 && (rule.kind == RuleKind::File ==> preview.folder_count == 0),
{
    let kind = rule.kind;
    let both = rule.bidirectional;
    let path = of_side(source, target, side);
    let entries = of_side(source_entries, target_entries, side);
    let source_listing = ListingView::Entries(source_entries);
    let target_listing = ListingView::Entries(target_entries);
    let i = lemma_copy_is_candidate(kind, both, side, path, entries, contents, entry, bytes);
    let first = if both {
        side_candidates(kind, both, RuleSide::Source, source, source_listing)->Ok_0
    } else {
        Seq::empty()
    };
    let second = side_candidates(kind, both, RuleSide::Target, target, target_listing)->Ok_0;
    let list = first + second;
    let shown = longest_first(list);
    let preview = cleanup_preview(rule, source, target, source_listing, target_listing)->Ok_0;
    assert(preview.candidates == shown);
    let mine = of_side(first, second, side);
    let c = choose|c: int|
        0 <= c < mine.len() && (#[trigger] mine[c]).path == entries[i].path && mine[c].kind
            == CleanupCandidateKind::File;
    let candidate = mine[c];
    assert(list.contains(candidate)) by {
        match side {
            RuleSide::Source => {
                assert(list[c] == candidate);
            },
            RuleSide::Target => {
                assert(list[first.len() + c] == candidate);
            },
        }
    }
    longest_first_keeps_all(list, candidate);
    let d = choose|d: int| 0 <= d < shown.len() && shown[d] == candidate;
    assert(preview.candidates[d].path == entries[i].path);
    lemma_file_is_counted(shown, d);
    if kind == RuleKind::File {
        if both {
            lemma_file_backups(both, RuleSide::Source, file_name_of(source.components)->0, source_entries);
        }
        lemma_file_backups(both, RuleSide::Target, file_name_of(target.components)->0, target_entries);
        assert forall|x: int| 0 <= x < shown.len() implies (#[trigger] shown[x]).kind
            == CleanupCandidateKind::File by {
            longest_first_keeps_all(list, shown[x]);
            assert(shown.contains(shown[x]));
            let y = choose|y: int| 0 <= y < list.len() && list[y] == shown[x];
            if y < first.len() {
                assert(first[y].kind == CleanupCandidateKind::File);
            } else {
                assert(second[y - first.len()].kind == CleanupCandidateKind::File);
            }
        }
        lemma_only_files(shown);
    }
}

/// A file among those that are shown is counted.
proof fn lemma_file_is_counted(list: Seq<CandidateView>, d: int)
    requires
        0 <= d < list.len(),
        list[d].kind == CleanupCandidateKind::File,
    ensures
        count_kind(list, CleanupCandidateKind::File) >= 1,
    decreases list.len(),
{
    if d < list.len() - 1 {
        lemma_file_is_counted(list.drop_last(), d);
    }
}

/// A run of a file rule that tells of a backup has saved the file that one side
/// had at the start; that of a one-way rule is the target's.
pub proof fn counted_backup_was_saved(
    rule: RuleView,
    selected: Set<Seq<char>>,
    w: World,
    moments: Seq<Moment>,
) -> (r: (RuleSide, FileState))
    requires
        rule.kind == RuleKind::File,
        is_run(
            rule.kind,
            rule.bidirectional,
            rule.delete_policy,
            rule.sync_state,
            selected,
            w,
            moments,
        ),
        moments.last().action matches ActionView::Finish(Ok(counts)) && counts.backup_count >= 1,
    ensures
        file_at(w, r.0, FILE_SYNC_ENTRY@) == Some(r.1),
        moments.last().world.saved.contains((r.0, FILE_SYNC_ENTRY@, r.1)),
        !rule.bidirectional ==> r.0 == RuleSide::Target,
{
    let run = new_run(rule.kind, rule.bidirectional, rule.delete_policy, rule.sync_state);
    let last = moments.last();
    let k = FILE_SYNC_ENTRY@;
    let change = change_at(run, selected, w, k);
    finished_run_has_its_outcome(
        rule.kind,
        rule.bidirectional,
        rule.delete_policy,
        rule.sync_state,
        selected,
        w,
        moments,
    );
    no_file_is_ever_lost(
        rule.kind,
        rule.bidirectional,
        rule.delete_policy,
        rule.sync_state,
        selected,
        w,
        moments,
        moments.len() - 1,
    );
    assert(change matches Some(c) && loses(c) is Some) by {
        lemma_tally_of_one(run, selected, w, done_keys(last.run));
    }
    let side = loses(change->0)->0;
    let file = file_at(w, side, k)->0;
    assert(file_at(w, side, k) is Some);
    assert(pair_at(last.world, k) == outcome(run, selected, w, k));
    assert(file_at(last.world, side, k) != file_at(w, side, k));
    (side, file)
}

/// Where a run dealt with the one file of a rule alone, a backup is that of its change.
proof fn lemma_tally_of_one(
    r: RunView,
    selected: Set<Seq<char>>,
    w: World,
    keys: Seq<Seq<char>>,
)
    requires
        r.kind == RuleKind::File,
        forall|k: Seq<char>| #[trigger] keys.contains(k) <==> dealt_with(r, selected, w, k),
        tally(r, selected, w, keys).backup_count >= 1,
    ensures
        change_at(r, selected, w, FILE_SYNC_ENTRY@) matches Some(c) && loses(c) is Some,
{
    assert forall|i: int| 0 <= i < keys.len() implies #[trigger] keys[i] == FILE_SYNC_ENTRY@ by {
        assert(keys.contains(keys[i]));
    }
    lemma_tally_counts_changes(r, selected, w, keys);
}

proof fn lemma_tally_counts_changes(
    r: RunView,
    selected: Set<Seq<char>>,
    w: World,
    keys: Seq<Seq<char>>,
)
    requires
        forall|i: int| 0 <= i < keys.len() ==> #[trigger] keys[i] == FILE_SYNC_ENTRY@,
    ensures
        tally(r, selected, w, keys).backup_count >= 1 ==> (change_at(
            r,
            selected,
            w,
            FILE_SYNC_ENTRY@,
        ) matches Some(c) && loses(c) is Some),
    decreases keys.len(),
{
    if keys.len() > 0 {
        assert(keys[keys.len() - 1] == FILE_SYNC_ENTRY@);
        lemma_tally_counts_changes(r, selected, w, keys.drop_last());
    }
}

/// A run of a file rule that tells of a backup leaves one that the preview
/// shows: a file under the name of a backup, beside the file that it is the
/// backup of, which holds what that file held before the run.
pub proof fn counted_backup_is_previewed(
    rule: RuleView,
    source: PathView,
    target: PathView,
    source_entries: Seq<BackupEntryView>,
    target_entries: Seq<BackupEntryView>,
    contents: Map<Seq<char>, Seq<u8>>,
    selected: Set<Seq<char>>,
    w: World,
    moments: Seq<Moment>,
) -> (r: (RuleSide, FileState))
    requires
        rule.kind == RuleKind::File,
        is_run(
            rule.kind,
            rule.bidirectional,
            rule.delete_policy,
            rule.sync_state,
            selected,
            w,
            moments,
        ),
        w.saved == Set::<(RuleSide, Seq<char>, FileState)>::empty(),
        moments.last().action matches ActionView::Finish(Ok(counts)) && counts.backup_count >= 1,
        rule.bidirectional ==> has_place(source),
        has_place(target),
        forall|side: RuleSide, file: FileState| #[trigger]
            moments.last().world.saved.contains((side, FILE_SYNC_ENTRY@, file)) ==> keeps_copy(
                rule.kind,
                of_side(source, target, side),
                of_side(source_entries, target_entries, side),
                contents,
                FILE_SYNC_ENTRY@,
                file.bytes,
            ),
    ensures
        file_at(w, r.0, FILE_SYNC_ENTRY@) == Some(r.1),
        !rule.bidirectional ==> r.0 == RuleSide::Target,
        cleanup_preview(
            rule,
            source,
            target,
            ListingView::Entries(source_entries),
            ListingView::Entries(target_entries),
        ) matches Ok(preview) && shows_copy(
            rule.kind,
            preview,
            of_side(source, target, r.0),
            of_side(source_entries, target_entries, r.0),
            contents,
            r.1.bytes,
        ) && preview.file_count >= 1 && preview.folder_count == 0,
{
    let (side, file) = counted_backup_was_saved(rule, selected, w, moments);
    saved_copy_is_previewed(
        rule,
        source,
        target,
        source_entries,
        target_entries,
        contents,
        selected,
        w,
        moments,
        moments.len() - 1,
        side,
        FILE_SYNC_ENTRY@,
        file,
    );
    (side, file)
}

/// Whether `now` lists what is left of `was`, while `paths` are what exists.
pub open spec fn lists_what_is_left(was: ListingView, now: ListingView, paths: Set<Seq<char>>) -> bool {
    match now {
        ListingView::Missing => true,
        ListingView::Unreadable(_) => false,
        ListingView::Entries(left) => was matches ListingView::Entries(entries) && forall|i: int|
            0 <= i < left.len() ==> entries.contains(#[trigger] left[i]) && paths.contains(
                left[i].path,
            ),
    }
}

/// Nothing counts that is left of a side whose backups are all gone.
proof fn lemma_nothing_left_of_side(
    kind: RuleKind,
    bidirectional: bool,
    side: RuleSide,
    path: PathView,
    was: ListingView,
    now: ListingView,
    paths: Set<Seq<char>>,
)
    requires
        side_candidates(kind, bidirectional, side, path, was) is Ok,
        lists_what_is_left(was, now, paths),
        forall|c: int|
            0 <= c < side_candidates(kind, bidirectional, side, path, was)->Ok_0.len()
                ==> !paths.contains(
                (#[trigger] side_candidates(kind, bidirectional, side, path, was)->Ok_0[c]).path,
            ),
    ensures
        side_candidates(kind, bidirectional, side, path, now) == Ok::<
            Seq<CandidateView>,
            Seq<char>,
        >(Seq::empty()),
{
    if let ListingView::Entries(left) = now {
        let entries = was->Entries_0;
        let list = side_candidates(kind, bidirectional, side, path, was)->Ok_0;
        let name = file_name_of(path.components)->0;
        match kind {
            RuleKind::File => {
                lemma_file_backups(bidirectional, side, name, entries);
                lemma_file_backups(bidirectional, side, name, left);
                assert forall|i: int| 0 <= i < left.len() implies !((#[trigger] left[i]).is_file
                    && is_backup_name(name, left[i].name)) by {
                    let j = choose|j: int| 0 <= j < entries.len() && entries[j] == left[i];
                    if entries[j].is_file && is_backup_name(name, entries[j].name) {
                        let candidate = CandidateView {
                            path: entries[j].path,
                            relative_path: shown_relative(bidirectional, side, name),
                            kind: CleanupCandidateKind::File,
                        };
                        assert(list.contains(candidate));
                        let c = choose|c: int| 0 <= c < list.len() && list[c] == candidate;
                        assert(!paths.contains(list[c].path));
                    }
                }
                assert(file_backups(bidirectional, side, name, left) =~= Seq::empty());
            },
            RuleKind::Folder => {
                lemma_tree_backups(bidirectional, side, entries);
                lemma_tree_backups(bidirectional, side, left);
                assert forall|i: int| 0 <= i < left.len() implies (
                #[trigger] left[i]).components.len() == 0 by {
                    let j = choose|j: int| 0 <= j < entries.len() && entries[j] == left[i];
                    if entries[j].components.len() > 0 {
                        let candidate = tree_candidate(bidirectional, side, entries[j]);
                        assert(list.contains(candidate));
                        let c = choose|c: int| 0 <= c < list.len() && list[c] == candidate;
                        assert(!paths.contains(list[c].path));
                    }
                }
                assert(tree_backups(bidirectional, side, left) =~= Seq::empty());
            },
        }
    }
}

/// Whether what lies inside a folder has a path that goes on where the path of
/// the folder ends.
pub open spec fn paths_nest(inside: spec_fn(Seq<char>, Seq<char>) -> bool) -> bool {
    forall|q: Seq<char>, p: Seq<char>| #[trigger]
        inside(q, p) ==> q.len() > p.len() && q.take(p.len() as int) == p
}

/// A cleanup of what a preview shows tells how many paths there were, each of
/// them once, whenever it started and finished, and leaves a preview that shows
/// nothing. All that was shown is
/// gone, and everything else is still there, where the listings were those of
/// the same files and showed all that lies inside the folders.
pub proof fn cleanup_removes_what_was_previewed(
    inside: spec_fn(Seq<char>, Seq<char>) -> bool,
    rule: RuleView,
    source: PathView,
    target: PathView,
    source_listing: ListingView,
    target_listing: ListingView,
    source_left: ListingView,
    target_left: ListingView,
    w: Set<Seq<char>>,
    moments: Seq<CleanupMoment>,
    started: Timestamp,
    finished: Timestamp,
)
    requires
        paths_nest(inside),
        cleanup_preview(rule, source, target, source_listing, target_listing) matches Ok(preview) && {
            &&& is_cleanup(inside, preview.candidates, w, moments)
            &&& forall|c: int|
                0 <= c < preview.candidates.len() ==> w.contains(
                    (#[trigger] preview.candidates[c]).path,
                )
            &&& forall|c: int, q: Seq<char>|
                0 <= c < preview.candidates.len() && w.contains(q) && #[trigger] takes(
                    inside,
                    preview.candidates[c],
                    q,
                ) ==> candidate_paths(preview.candidates).contains(q)
        },
        moments.last().action matches CleanupActionView::Finish(Ok(_)),
        lists_what_is_left(source_listing, source_left, moments.last().paths),
        lists_what_is_left(target_listing, target_left, moments.last().paths),
    ensures
        ({
            let shown = cleanup_preview(
                rule,
                source,
                target,
                source_listing,
                target_listing,
            )->Ok_0.candidates;
            &&& moments.last().action->Finish_0->Ok_0 == (RunCounts {
                deleted_count: candidate_paths(shown).len() as usize,
                ..no_counts()
            })
            &&& candidate_paths(shown).finite()
            &&& cleanup_outcome(
                rule,
                started,
                finished,
                moments.last().action->Finish_0,
            ) matches Ok(told) && told.last_result.deleted_count == candidate_paths(shown).len()
                && told.last_result.success
            &&& forall|q: Seq<char>|
                w.contains(q) ==> (#[trigger] moments.last().paths.contains(q)
                    <==> !candidate_paths(shown).contains(q))
            &&& cleanup_preview(rule, source, target, source_left, target_left) matches Ok(again)
                && again.candidates.len() == 0 && again.file_count == 0 && again.folder_count == 0
        }),
{
    let kind = rule.kind;
    let both = rule.bidirectional;
    let shown = cleanup_preview(rule, source, target, source_listing, target_listing)->Ok_0.candidates;
    let last = moments.last();
    lemma_preview_is_ready(inside, rule, source, target, source_listing, target_listing, w);
    finished_cleanup_counts_its_candidates(inside, shown, w, moments);
    finished_cleanup_removed_its_candidates(inside, shown, w, moments);
    assert forall|q: Seq<char>| w.contains(q) implies (#[trigger] last.paths.contains(q)
        <==> !candidate_paths(shown).contains(q)) by {
        lemma_candidate_paths(shown, q);
        if candidate_paths(shown).contains(q) {
            let c = choose|c: int| 0 <= c < shown.len() && (#[trigger] shown[c]).path == q;
            assert(!last.paths.contains(shown[c].path));
        } else if !last.paths.contains(q) {
            let c = choose|c: int| 0 <= c < shown.len() && takes(inside, #[trigger] shown[c], q);
            assert(takes(inside, shown[c], q));
        }
    }
    lemma_nothing_left(
        rule,
        source,
        target,
        source_listing,
        target_listing,
        source_left,
        target_left,
        last.paths,
    );
    let none = cleanup_preview(rule, source, target, source_left, target_left)->Ok_0.candidates;
    preview_counts_every_candidate(none);
}

/// What a preview shows is in the order in which it can be removed.
proof fn lemma_preview_is_ready(
    inside: spec_fn(Seq<char>, Seq<char>) -> bool,
    rule: RuleView,
    source: PathView,
    target: PathView,
    source_listing: ListingView,
    target_listing: ListingView,
    w: Set<Seq<char>>,
)
    requires
        paths_nest(inside),
        cleanup_preview(rule, source, target, source_listing, target_listing) matches Ok(preview)
            && forall|c: int|
            0 <= c < preview.candidates.len() ==> w.contains(
                (#[trigger] preview.candidates[c]).path,
            ),
    ensures
        ready_for_cleanup(
            inside,
            cleanup_preview(rule, source, target, source_listing, target_listing)->Ok_0.candidates,
            w,
        ),
{
    let kind = rule.kind;
    let both = rule.bidirectional;
    let shown = cleanup_preview(rule, source, target, source_listing, target_listing)->Ok_0.candidates;
    let first = if both {
        side_candidates(kind, both, RuleSide::Source, source, source_listing)->Ok_0
    } else {
        Seq::empty()
    };
    let second = side_candidates(kind, both, RuleSide::Target, target, target_listing)->Ok_0;
    let list = first + second;
    assert(shown == longest_first(list));
    assert forall|i: int, j: int|
        0 <= i < shown.len() && 0 <= j < shown.len() && (#[trigger] shown[i]).kind
            == CleanupCandidateKind::Folder && inside(
            (#[trigger] shown[j]).path,
            shown[i].path,
        ) implies j < i by {
        let p = shown[i].path;
        let q = shown[j].path;
        let more = q.skip(p.len() as int);
        assert(q =~= p + more) by {
            assert(q =~= q.take(p.len() as int) + more);
        }
        inside_goes_before_outside(list, j, i, more);
    }
}

/// The preview of what is left, once everything that was shown is gone.
proof fn lemma_nothing_left(
    rule: RuleView,
    source: PathView,
    target: PathView,
    source_listing: ListingView,
    target_listing: ListingView,
    source_left: ListingView,
    target_left: ListingView,
    paths: Set<Seq<char>>,
)
    requires
        cleanup_preview(rule, source, target, source_listing, target_listing) matches Ok(preview)
            && forall|c: int|
            0 <= c < preview.candidates.len() ==> !paths.contains(
                (#[trigger] preview.candidates[c]).path,
            ),
        lists_what_is_left(source_listing, source_left, paths),
        lists_what_is_left(target_listing, target_left, paths),
    ensures
        cleanup_preview(rule, source, target, source_left, target_left) matches Ok(again)
            && again.candidates.len() == 0,
{
    let kind = rule.kind;
    let both = rule.bidirectional;
    let shown = cleanup_preview(rule, source, target, source_listing, target_listing)->Ok_0.candidates;
    let first = if both {
        side_candidates(kind, both, RuleSide::Source, source, source_listing)->Ok_0
    } else {
        Seq::empty()
    };
    let second = side_candidates(kind, both, RuleSide::Target, target, target_listing)->Ok_0;
    let list = first + second;
    assert(shown == longest_first(list));
    assert forall|x: int| 0 <= x < list.len() implies !paths.contains((#[trigger] list[x]).path) by {
        longest_first_keeps_all(list, list[x]);
        assert(list.contains(list[x]));
        let c = choose|c: int| 0 <= c < shown.len() && shown[c] == list[x];
        assert(!paths.contains(shown[c].path));
    }
    assert forall|c: int| 0 <= c < second.len() implies !paths.contains(
        (#[trigger] second[c]).path,
    ) by {
        assert(list[first.len() + c] == second[c]);
    }
    lemma_nothing_left_of_side(
        kind,
        both,
        RuleSide::Target,
        target,
        target_listing,
        target_left,
        paths,
    );
    if both {
        assert forall|c: int| 0 <= c < first.len() implies !paths.contains(
            (#[trigger] first[c]).path,
        ) by {
            assert(list[c] == first[c]);
        }
        lemma_nothing_left_of_side(
            kind,
            both,
            RuleSide::Source,
            source,
            source_listing,
            source_left,
            paths,
        );
    }
    let none = Seq::<CandidateView>::empty();
    assert(none + none =~= none);
    longest_first_keeps_all(none, arbitrary());
}

} // verus!
