//! Where backups go, and which files count as backups, said of their names.
use crate::backups::{
    backup_name, backup_plan, backup_scope, cleanup_preview, count_kind, file_backups,
    file_rule_candidates, folder_rule_candidates, is_backup_name, longest_first_keeps_all,
    path_sizes, purge_roots, root_components, shown_relative, side_candidates, sides_with_backups,
    tree_backups, BackupEntryView, ListingView, LocationView,
};
use crate::models::{CandidateView, CleanupCandidateKind, RuleKind, RuleView};
use crate::ordering::{comes_first, size_order, size_order_is_order};
use crate::paths::{
    file_name_of, key_names, path_order, relative_key, same_path, split_name, ComponentView,
    PathView,
};
use crate::sync_engine::RuleSide;
use crate::text::{has_prefix, has_suffix, Order};
use vstd::prelude::*;
use vstd::string::*;
use vstd::utf8::encode_utf8;

verus! {

/// A name counts as that of a backup of a file exactly where it goes on behind
/// the stem of the file's name with two dashes and, for a file with an
/// extension, ends with a dot and the extension.
pub proof fn backup_name_goes_on_with_dashes(original: Seq<char>, name: Seq<char>)
    ensures
        ({
            let stem = split_name(original).0;
            let n = stem.len() as int;
            let dashes = name.len() >= n + 2 && name.take(n) == stem && name[n] == '-' && name[n + 1]
                == '-';
            is_backup_name(original, name) <==> match split_name(original).1 {
                Some(extension) if extension.len() > 0 => {
                    let m = name.len() - extension.len();
                    dashes && m >= 1 && name[m - 1] == '.' && name.skip(m) == extension
                },
                _ => dashes,
            }
        }),
{
    let stem = split_name(original).0;
    let n = stem.len() as int;
    reveal_strlit("--");
    reveal_strlit(".");
    let head = stem + "--"@;
    if has_prefix(name, head) {
        assert(name.take(n) =~= stem) by {
            assert forall|k: int| 0 <= k < n implies name[k] == stem[k] by {
                assert(name.take(head.len() as int)[k] == head[k]);
            }
        }
        assert(name.take(head.len() as int)[n] == head[n]);
        assert(name.take(head.len() as int)[n + 1] == head[n + 1]);
    }
    if name.len() >= n + 2 && name.take(n) == stem && name[n] == '-' && name[n + 1] == '-' {
        assert(name.take(head.len() as int) =~= head) by {
            assert forall|k: int| 0 <= k < head.len() implies name.take(head.len() as int)[k]
                == head[k] by {
                if k < n {
                    assert(name.take(n)[k] == stem[k]);
                }
            }
        }
    }
    if let Some(extension) = split_name(original).1 {
        if extension.len() > 0 {
            let tail = "."@ + extension;
            let m = name.len() - extension.len();
            if has_suffix(name, tail) {
                assert(name.skip(m - 1) == tail);
                assert(name.skip(m - 1)[0] == '.');
                assert(name.skip(m) =~= extension) by {
                    assert forall|k: int| 0 <= k < extension.len() implies name.skip(m)[k]
                        == extension[k] by {
                        assert(name.skip(m - 1)[k + 1] == tail[k + 1]);
                    }
                }
            }
            if m >= 1 && name[m - 1] == '.' && name.skip(m) == extension {
                assert(name.skip(m - 1) =~= tail) by {
                    assert forall|k: int| 0 <= k < tail.len() implies name.skip(m - 1)[k]
                        == tail[k] by {
                        if k > 0 {
                            assert(name.skip(m)[k - 1] == extension[k - 1]);
                        }
                    }
                }
            }
        }
    }
}

/// The name of a backup is the stem of the file's name, two dashes and the
/// stamp, and for a file with an extension a dot and the extension.
pub proof fn backup_is_named_after_its_file(name: Seq<char>, stamp: Seq<char>)
    ensures
        backup_name(name, stamp) == match split_name(name).1 {
            Some(extension) if extension.len() > 0 => split_name(name).0 + seq!['-', '-'] + stamp
                + seq!['.'] + extension,
            _ => split_name(name).0 + seq!['-', '-'] + stamp,
        },
{
    reveal_strlit("--");
    reveal_strlit(".");
    assert("--"@ =~= seq!['-', '-']);
    assert("."@ =~= seq!['.']);
}

/// A backup of a file is not taken for that of a file with another stem, as
/// long as the stem that it is named after has no two dashes in it, none at its
/// end, and the other stem does not go on behind it with a dash.
pub proof fn backup_is_not_mistaken(original: Seq<char>, other: Seq<char>, stamp: Seq<char>)
    requires
        ({
            let stem = split_name(original).0;
            let named = split_name(other).0;
            &&& stem != named
            &&& forall|k: int| 0 <= k < named.len() - 1 ==> !(#[trigger] named[k] == '-' && named[k
                + 1] == '-')
            &&& named.len() > 0 ==> named.last() != '-'
            &&& !(stem.len() > named.len() && stem.take(named.len() as int) == named
                && stem[named.len() as int] == '-')
        }),
    ensures
        !is_backup_name(original, backup_name(other, stamp)),
{
    let stem = split_name(original).0;
    let named = split_name(other).0;
    let name = backup_name(other, stamp);
    let n = stem.len() as int;
    let m = named.len() as int;
    backup_is_named_after_its_file(other, stamp);
    backup_name_goes_on_with_dashes(original, name);
    assert forall|k: int| 0 <= k < m implies name[k] == named[k] by {}
    assert(name[m] == '-' && name[m + 1] == '-');
    if is_backup_name(original, name) {
        assert forall|k: int| 0 <= k < n implies stem[k] == name[k] by {
            assert(name.take(n)[k] == stem[k]);
        }
        if n < m - 1 {
            assert(named[n] == '-' && named[n + 1] == '-');
        } else if n == m - 1 {
            assert(named.last() == name[n]);
        } else if n == m {
            assert(stem =~= named);
        } else {
            assert(stem.take(m) =~= named);
            assert(stem[m] == name[m]);
        }
        assert(false);
    }
}

/// The backups of a file are the files in the backup folder whose names go on
/// behind the stem of the file's name with two dashes and end with the file's
/// extension, in the order in which they stand. Each is shown by the name of
/// the file that it is a backup of.
pub proof fn files_named_after_a_file_are_its_backups(
    bidirectional: bool,
    side: RuleSide,
    original: Seq<char>,
    entries: Seq<BackupEntryView>,
)
    ensures
        ({
            let stem = split_name(original).0;
            let n = stem.len() as int;
            let extension = match split_name(original).1 {
                Some(extension) => extension,
                None => Seq::empty(),
            };
            let counts = |e: BackupEntryView|
                e.is_file && e.name.len() >= n + 2 && e.name.take(n) == stem && e.name[n] == '-'
                    && e.name[n + 1] == '-' && (extension.len() > 0 ==> e.name.len()
                    > extension.len() && e.name[e.name.len() - extension.len() - 1] == '.'
                    && e.name.skip(e.name.len() - extension.len()) == extension);
            file_backups(bidirectional, side, original, entries) == entries.filter(
                counts,
            ).map_values(
                |e: BackupEntryView|
                    CandidateView {
                        path: e.path,
                        relative_path: shown_relative(bidirectional, side, original),
                        kind: CleanupCandidateKind::File,
                    },
            )
        }),
    decreases entries.len(),
{
    let stem = split_name(original).0;
    let n = stem.len() as int;
    let extension = match split_name(original).1 {
        Some(extension) => extension,
        None => Seq::empty(),
    };
    let counts = |e: BackupEntryView|
        e.is_file && e.name.len() >= n + 2 && e.name.take(n) == stem && e.name[n] == '-' && e.name[n
            + 1] == '-' && (extension.len() > 0 ==> e.name.len() > extension.len()
            && e.name[e.name.len() - extension.len() - 1] == '.' && e.name.skip(
            e.name.len() - extension.len(),
        ) == extension);
    let shown = |e: BackupEntryView|
        CandidateView {
            path: e.path,
            relative_path: shown_relative(bidirectional, side, original),
            kind: CleanupCandidateKind::File,
        };
    reveal(Seq::filter);
    if entries.len() > 0 {
        let last = entries.last();
        let before = entries.drop_last().filter(counts);
        files_named_after_a_file_are_its_backups(
            bidirectional,
            side,
            original,
            entries.drop_last(),
        );
        backup_name_goes_on_with_dashes(original, last.name);
        assert(counts(last) <==> last.is_file && is_backup_name(original, last.name));
        if counts(last) {
            assert(before.push(last).map_values(shown) =~= before.map_values(shown).push(
                shown(last),
            ));
        }
    }
    assert(file_backups(bidirectional, side, original, entries) =~= entries.filter(
        counts,
    ).map_values(shown));
}

/// The backups of a folder are all that stands below its own folder in the
/// backup folder, in the order in which it stands: folders as folders, and all
/// else as files, each shown by its way from there.
pub proof fn all_below_a_folder_are_its_backups(
    bidirectional: bool,
    side: RuleSide,
    entries: Seq<BackupEntryView>,
)
    ensures
        tree_backups(bidirectional, side, entries) == entries.filter(
            |e: BackupEntryView| e.components.len() > 0,
        ).map_values(
            |e: BackupEntryView|
                CandidateView {
                    path: e.path,
                    relative_path: shown_relative(bidirectional, side, relative_key(e.components)),
                    kind: if e.is_dir {
                        CleanupCandidateKind::Folder
                    } else {
                        CleanupCandidateKind::File
                    },
                },
        ),
    decreases entries.len(),
{
    let counts = |e: BackupEntryView| e.components.len() > 0;
    let shown = |e: BackupEntryView|
        CandidateView {
            path: e.path,
            relative_path: shown_relative(bidirectional, side, relative_key(e.components)),
            kind: if e.is_dir {
                CleanupCandidateKind::Folder
            } else {
                CleanupCandidateKind::File
            },
        };
    reveal(Seq::filter);
    if entries.len() > 0 {
        let last = entries.last();
        let before = entries.drop_last().filter(counts);
        all_below_a_folder_are_its_backups(bidirectional, side, entries.drop_last());
        if counts(last) {
            assert(before.push(last).map_values(shown) =~= before.map_values(shown).push(
                shown(last),
            ));
        }
    }
    assert(tree_backups(bidirectional, side, entries) =~= entries.filter(counts).map_values(shown));
}

/// A backup of a rule that works both ways is shown with its side.
pub proof fn side_is_shown_where_there_are_two(relative: Seq<char>)
    ensures
        shown_relative(true, RuleSide::Source, relative) == "源侧"@ + " / "@ + relative,
        shown_relative(true, RuleSide::Target, relative) == "目标侧"@ + " / "@ + relative,
        shown_relative(false, RuleSide::Source, relative) == relative,
        shown_relative(false, RuleSide::Target, relative) == relative,
{
}

/// A rule makes backups on its target, and on its source where it works both ways.
pub proof fn backups_are_made_where_files_change(bidirectional: bool, side: RuleSide)
    ensures
        sides_with_backups(bidirectional).contains(side) <==> side == RuleSide::Target
            || bidirectional,
        sides_with_backups(bidirectional).no_duplicates(),
{
    let sides = sides_with_backups(bidirectional);
    if bidirectional {
        assert(sides[0] == RuleSide::Source && sides[1] == RuleSide::Target);
    } else {
        assert(sides[0] == RuleSide::Target);
    }
}

/// Where backups go. Without a folder above the side there is no place for
/// them. That of a file rule goes right into `.back` in that folder; that of a
/// folder rule into a folder of the side's name there, and below that the same
/// way as the file goes below the side's own folder. Only the last name gets
/// the stamp.
pub proof fn backup_goes_beside_its_side(
    side: PathView,
    relative: Option<Seq<char>>,
    stamp: Seq<char>,
)
    ensures
        side.parent is None ==> backup_plan(RuleKind::File, side, relative, stamp) is Err
            && backup_plan(RuleKind::Folder, side, relative, stamp) is Err,
        side.parent matches Some(parent) ==> (file_name_of(side.components) matches Some(name)
            ==> (backup_plan(RuleKind::File, side, relative, stamp) matches Ok(plan) && plan.folder
            == (LocationView { parent, names: seq![".back"@] }) && plan.file == (LocationView {
            parent,
            names: seq![".back"@, backup_name(name, stamp)],
        }))),
        side.parent matches Some(parent) ==> (file_name_of(side.components) matches Some(base)
            ==> (relative matches Some(key) ==> (key_names(key).len() > 0 ==> (backup_plan(
            RuleKind::Folder,
            side,
            relative,
            stamp,
        ) matches Ok(plan) && plan.folder == (LocationView {
            parent,
            names: seq![".back"@, base] + key_names(key).drop_last(),
        }) && plan.file == (LocationView {
            parent,
            names: seq![".back"@, base] + key_names(key).drop_last() + seq![
                backup_name(key_names(key).last(), stamp),
            ],
        }))))),
        backup_plan(RuleKind::Folder, side, None, stamp) is Err,
        file_name_of(side.components) is None ==> backup_plan(
            RuleKind::Folder,
            side,
            relative,
            stamp,
        ) is Err,
        side.parent is None ==> backup_plan(RuleKind::File, side, relative, stamp)->Err_0
            == "目标路径缺少父目录，无法生成备份目录。"@ && backup_plan(
            RuleKind::Folder,
            side,
            relative,
            stamp,
        )->Err_0 == "目标路径缺少父目录，无法生成备份目录。"@,
        side.parent is Some ==> backup_plan(RuleKind::Folder, side, None, stamp)->Err_0
            == "缺少目录规则的相对路径。"@,
        side.parent is Some && relative is Some && file_name_of(side.components) is None
            ==> backup_plan(RuleKind::Folder, side, relative, stamp)->Err_0
            == "目标目录无效，无法生成备份。"@,
{
    let root = seq![".back"@];
    if let Some(parent) = side.parent {
        if let Some(name) = file_name_of(side.components) {
            assert(root.push(name).drop_last() =~= root);
            assert(root.push(backup_name(name, stamp)) =~= seq![".back"@, backup_name(name, stamp)]);
            if let Some(key) = relative {
                let below = key_names(key);
                if below.len() > 0 {
                    let names = root.push(name) + below;
                    assert(names.drop_last() =~= seq![".back"@, name] + below.drop_last());
                    assert(names.last() == below.last());
                    assert(names.drop_last().push(backup_name(below.last(), stamp)) =~= seq![
                        ".back"@,
                        name,
                    ] + below.drop_last() + seq![backup_name(below.last(), stamp)]);
                }
            }
        }
    }
}

/// The backups of a side are looked for in `.back` beside it or, for a folder
/// rule, in the folder of its name there.
pub proof fn backups_are_looked_for_where_they_go(side: PathView)
    ensures
        side.parent is None ==> backup_scope(RuleKind::File, side) is None && backup_scope(
            RuleKind::Folder,
            side,
        ) is None,
        side.parent matches Some(parent) ==> backup_scope(RuleKind::File, side) == Some(
            LocationView { parent, names: seq![".back"@] },
        ),
        side.parent matches Some(parent) ==> (file_name_of(side.components) matches Some(name)
            ==> (backup_scope(RuleKind::Folder, side) matches Some(scope) && scope.parent == parent
            && scope.names == seq![".back"@, name])),
        file_name_of(side.components) is None ==> backup_scope(RuleKind::Folder, side) is None,
{
    if let Some(name) = file_name_of(side.components) {
        assert(seq![".back"@].push(name) =~= seq![".back"@, name]);
    }
}

/// The backup folders that a rule purges are those beside its target and, where
/// it works both ways, beside its source; none of them twice.
pub proof fn rule_purges_its_own_backups(
    bidirectional: bool,
    source: PathView,
    target: PathView,
    l: LocationView,
)
    ensures
        ({
            let of_source = source.parent matches Some(parent) && l == (LocationView {
                parent,
                names: seq![".back"@],
            });
            let of_target = target.parent matches Some(parent) && l == (LocationView {
                parent,
                names: seq![".back"@],
            });
            let one = bidirectional && source.parent is Some && target.parent is Some && same_path(
                root_components(source),
                root_components(target),
            );
            let roots = purge_roots(bidirectional, source, target);
            &&& roots.contains(l) ==> of_target || (bidirectional && of_source)
            &&& of_target && !one ==> roots.contains(l)
            &&& of_source && bidirectional ==> roots.contains(l)
            &&& roots.len() <= 2
            &&& one ==> roots.len() == 1
            &&& roots.len() == 2 && path_order(root_components(source), root_components(target))
                == Order::Greater ==> roots[0].parent == target.parent->0
            &&& roots.len() == 2 && path_order(root_components(source), root_components(target))
                != Order::Greater ==> roots[0].parent == source.parent->0
        }),
        root_components(source).last() == ComponentView::Normal(".back"@),
        source.components.len() > 0 ==> root_components(source).drop_last()
            == source.components.drop_last(),
{
    let roots = purge_roots(bidirectional, source, target);
    if source.components.len() > 0 {
        assert(root_components(source).drop_last() =~= source.components.drop_last());
    }
    if roots.len() > 0 {
        assert(roots.contains(roots[0]));
    }
    if roots.len() > 1 {
        assert(roots.contains(roots[1]));
    }
}

/// The number of a kind of backups is that of those that a filter keeps.
proof fn lemma_count_kind(list: Seq<CandidateView>, kind: CleanupCandidateKind)
    ensures
        count_kind(list, kind) == list.filter(|c: CandidateView| c.kind == kind).len(),
    decreases list.len(),
{
    reveal(Seq::filter);
    if list.len() > 0 {
        lemma_count_kind(list.drop_last(), kind);
    }
}

/// A preview is that of its rule. It shows the backups of the target and, where
/// the rule works both ways, those of the source, all of them and nothing else,
/// and counts the files and the folders among them. A longer path never comes
/// behind a shorter one.
pub proof fn preview_shows_the_backups_of_both_sides(
    rule: RuleView,
    source: PathView,
    target: PathView,
    source_listing: ListingView,
    target_listing: ListingView,
    c: CandidateView,
    i: int,
    j: int,
)
    requires
        cleanup_preview(rule, source, target, source_listing, target_listing) is Ok,
    ensures
        ({
            let shown = cleanup_preview(rule, source, target, source_listing, target_listing)->Ok_0;
            let of_source = side_candidates(
                rule.kind,
                rule.bidirectional,
                RuleSide::Source,
                source,
                source_listing,
            );
            let of_target = side_candidates(
                rule.kind,
                rule.bidirectional,
                RuleSide::Target,
                target,
                target_listing,
            );
            &&& shown.rule_id == rule.id
            &&& shown.rule_name == rule.name
            &&& of_target is Ok
            &&& rule.bidirectional ==> of_source is Ok
            &&& shown.candidates.contains(c) <==> of_target->Ok_0.contains(c) || (rule.bidirectional
                && of_source->Ok_0.contains(c))
            &&& shown.candidates.len() == of_target->Ok_0.len() + if rule.bidirectional {
                of_source->Ok_0.len()
            } else {
                0
            }
            &&& shown.file_count == shown.candidates.filter(
                |x: CandidateView| x.kind == CleanupCandidateKind::File,
            ).len()
            &&& shown.folder_count == shown.candidates.filter(
                |x: CandidateView| x.kind == CleanupCandidateKind::Folder,
            ).len()
            &&& 0 <= i <= j < shown.candidates.len() ==> encode_utf8(
                shown.candidates[i].path,
            ).len() >= encode_utf8(shown.candidates[j].path).len()
        }),
{
    let shown = cleanup_preview(rule, source, target, source_listing, target_listing)->Ok_0;
    let of_source = if rule.bidirectional {
        side_candidates(
            rule.kind,
            rule.bidirectional,
            RuleSide::Source,
            source,
            source_listing,
        )->Ok_0
    } else {
        Seq::empty()
    };
    let of_target = side_candidates(
        rule.kind,
        rule.bidirectional,
        RuleSide::Target,
        target,
        target_listing,
    )->Ok_0;
    let all = of_source + of_target;
    let sizes = path_sizes(all);
    let order = size_order(sizes);
    longest_first_keeps_all(all, c);
    lemma_count_kind(shown.candidates, CleanupCandidateKind::File);
    lemma_count_kind(shown.candidates, CleanupCandidateKind::Folder);
    if of_source.contains(c) {
        let n = choose|n: int| 0 <= n < of_source.len() && of_source[n] == c;
        assert(all[n] == c);
    }
    if of_target.contains(c) {
        let n = choose|n: int| 0 <= n < of_target.len() && of_target[n] == c;
        assert(all[of_source.len() + n] == c);
    }
    if all.contains(c) {
        let n = choose|n: int| 0 <= n < all.len() && all[n] == c;
        if n < of_source.len() {
            assert(of_source[n] == c);
        } else {
            assert(of_target[n - of_source.len()] == c);
        }
    }
    size_order_is_order(sizes);
    if 0 <= i < j < shown.candidates.len() {
        assert(comes_first(sizes, order[i], order[j]));
        assert(sizes[order[i]] >= sizes[order[j]]);
    }
}

/// What is shown of one side. Where there is no backup folder there is nothing
/// to show; where it cannot be read, that is said; otherwise what stands in it
/// is looked through. Without a name of its own, or a folder above it, a side
/// has no backups that could be shown.
pub proof fn backup_folder_is_looked_through(
    bidirectional: bool,
    side: RuleSide,
    path: PathView,
    name: Seq<char>,
    entries: Seq<BackupEntryView>,
    message: Seq<char>,
)
    requires
        path.parent is Some,
        file_name_of(path.components) == Some(name),
    ensures
        file_rule_candidates(bidirectional, side, path, ListingView::Missing) == Ok::<
            Seq<CandidateView>,
            Seq<char>,
        >(Seq::empty()),
        folder_rule_candidates(bidirectional, side, path, ListingView::Missing) == Ok::<
            Seq<CandidateView>,
            Seq<char>,
        >(Seq::empty()),
        file_rule_candidates(bidirectional, side, path, ListingView::Unreadable(message)) == Err::<
            Seq<CandidateView>,
            Seq<char>,
        >(message),
        folder_rule_candidates(bidirectional, side, path, ListingView::Unreadable(message))
            == Err::<Seq<CandidateView>, Seq<char>>(message),
        side_candidates(
            RuleKind::File,
            bidirectional,
            side,
            path,
            ListingView::Entries(entries),
        ) == Ok::<Seq<CandidateView>, Seq<char>>(
            file_backups(bidirectional, side, name, entries),
        ),
        side_candidates(
            RuleKind::Folder,
            bidirectional,
            side,
            path,
            ListingView::Entries(entries),
        ) == Ok::<Seq<CandidateView>, Seq<char>>(tree_backups(bidirectional, side, entries)),
{
}

/// Every backup that a preview of a file rule shows is a file of a backup
/// folder whose name goes on behind the stem of the name of the file that it is
/// a backup of with two dashes. A name that goes on with anything else is never
/// shown, so a cleanup, which removes what is shown, leaves its file alone.
pub proof fn previewed_files_are_named_after_the_rules_file(
    rule: RuleView,
    source: PathView,
    target: PathView,
    source_entries: Seq<BackupEntryView>,
    target_entries: Seq<BackupEntryView>,
    source_name: Seq<char>,
    target_name: Seq<char>,
    i: int,
)
    requires
        rule.kind == RuleKind::File,
        file_name_of(source.components) == Some(source_name),
        file_name_of(target.components) == Some(target_name),
        cleanup_preview(
            rule,
            source,
            target,
            ListingView::Entries(source_entries),
            ListingView::Entries(target_entries),
        ) is Ok,
        0 <= i < cleanup_preview(
            rule,
            source,
            target,
            ListingView::Entries(source_entries),
            ListingView::Entries(target_entries),
        )->Ok_0.candidates.len(),
    ensures
        ({
            let c = cleanup_preview(
                rule,
                source,
                target,
                ListingView::Entries(source_entries),
                ListingView::Entries(target_entries),
            )->Ok_0.candidates[i];
            ||| exists|k: int|
                0 <= k < target_entries.len() && (#[trigger] target_entries[k]).path == c.path
                    && target_entries[k].is_file && goes_on_with_dashes(
                    split_name(target_name).0,
                    target_entries[k].name,
                )
            ||| rule.bidirectional && exists|k: int|
                0 <= k < source_entries.len() && (#[trigger] source_entries[k]).path == c.path
                    && source_entries[k].is_file && goes_on_with_dashes(
                    split_name(source_name).0,
                    source_entries[k].name,
                )
        }),
{
    let source_listing = ListingView::Entries(source_entries);
    let target_listing = ListingView::Entries(target_entries);
    let shown = cleanup_preview(rule, source, target, source_listing, target_listing)->Ok_0;
    let c = shown.candidates[i];
    preview_shows_the_backups_of_both_sides(
        rule,
        source,
        target,
        source_listing,
        target_listing,
        c,
        0,
        0,
    );
    assert(shown.candidates.contains(c));
    let of_target = file_backups(rule.bidirectional, RuleSide::Target, target_name, target_entries);
    let of_source = file_backups(rule.bidirectional, RuleSide::Source, source_name, source_entries);
    if of_target.contains(c) {
        let a = choose|a: int| 0 <= a < of_target.len() && of_target[a] == c;
        lemma_file_backup_comes_from(
            rule.bidirectional,
            RuleSide::Target,
            target_name,
            target_entries,
            a,
        );
    } else {
        let a = choose|a: int| 0 <= a < of_source.len() && of_source[a] == c;
        lemma_file_backup_comes_from(
            rule.bidirectional,
            RuleSide::Source,
            source_name,
            source_entries,
            a,
        );
    }
}

/// Whether `name` goes on behind `stem` with two dashes.
pub open spec fn goes_on_with_dashes(stem: Seq<char>, name: Seq<char>) -> bool {
    &&& name.len() >= stem.len() + 2
    &&& name.take(stem.len() as int) == stem
    &&& name[stem.len() as int] == '-'
    &&& name[stem.len() as int + 1] == '-'
}

proof fn lemma_file_backup_comes_from(
    bidirectional: bool,
    side: RuleSide,
    original: Seq<char>,
    entries: Seq<BackupEntryView>,
    a: int,
)
    requires
        0 <= a < file_backups(bidirectional, side, original, entries).len(),
    ensures
        exists|k: int|
            0 <= k < entries.len() && (#[trigger] entries[k]).path == file_backups(
                bidirectional,
                side,
                original,
                entries,
            )[a].path && entries[k].is_file && goes_on_with_dashes(
                split_name(original).0,
                entries[k].name,
            ),
    decreases entries.len(),
{
    let front = entries.drop_last();
    let before = file_backups(bidirectional, side, original, front);
    let list = file_backups(bidirectional, side, original, entries);
    let stem = split_name(original).0;
    if a < before.len() {
        lemma_file_backup_comes_from(bidirectional, side, original, front, a);
        let k = choose|k: int|
            0 <= k < front.len() && (#[trigger] front[k]).path == before[a].path
                && front[k].is_file && goes_on_with_dashes(stem, front[k].name);
        assert(entries[k] == front[k]);
    } else {
        let k = entries.len() - 1;
        let name = entries[k].name;
        backup_name_goes_on_with_dashes(original, name);
        assert(goes_on_with_dashes(stem, name));
        assert(entries[k].path == list[a].path);
    }
}

/// Without a folder above it a side has no place for backups, and that is said
/// first. Without a name a folder rule has none either, and a file rule has
/// none where there is a backup folder; where there is none, a file rule has
/// nothing to show.
pub proof fn nameless_side_has_no_backups(
    bidirectional: bool,
    side: RuleSide,
    path: PathView,
    listing: ListingView,
)
    ensures
        path.parent is None ==> file_rule_candidates(bidirectional, side, path, listing) == Err::<
            Seq<CandidateView>,
            Seq<char>,
        >("目标路径缺少父目录，无法生成备份目录。"@) && folder_rule_candidates(
            bidirectional,
            side,
            path,
            listing,
        ) == Err::<Seq<CandidateView>, Seq<char>>("目标路径缺少父目录，无法生成备份目录。"@),
        path.parent is Some && file_name_of(path.components) is None ==> folder_rule_candidates(
            bidirectional,
            side,
            path,
            listing,
        ) == Err::<Seq<CandidateView>, Seq<char>>("目标目录无效，无法预览备份。"@),
        path.parent is Some && file_name_of(path.components) is None && !(listing is Missing)
            ==> file_rule_candidates(bidirectional, side, path, listing) == Err::<
            Seq<CandidateView>,
            Seq<char>,
        >("目标文件名无效，无法预览备份。"@),
        path.parent is Some && listing is Missing ==> side_candidates(
            RuleKind::File,
            bidirectional,
            side,
            path,
            listing,
        ) == Ok::<Seq<CandidateView>, Seq<char>>(Seq::empty()),
{
}

} // verus!
