//! Which rules are watched, where, and which changes concern them; and which
//! files of a folder the patterns of a rule select.
use crate::matcher::{
    first_glob_error, folder_map, glob_error, glob_matches, include_patterns, judged,
    patterns_fault, selects, EntryView, FolderFiles, MatcherView,
};
use crate::models::{RuleHealth, RuleKind, RuleView};
use crate::ordering::{comes_first, size_order, size_order_is_order};
use crate::paths::{relative_key, same_component, same_path, ComponentView, PathView};
use crate::text::{text_less, text_order, texts, Order};
use crate::watching::{
    concerns_rule, is_job_of, refresh_next, wants_watch, watch_targets, watched_rules, JobView,
    RefreshActionView, RefreshEventView, RefreshPhase, RefreshView, TargetView,
};
use vstd::prelude::*;
use vstd::string::*;

verus! {

/// The rules that are watched are those that are switched on, run by
/// themselves, are to be watched and are healthy, in the order in which they
/// stand. A rule that lacks any of the four is not among them.
pub proof fn watched_are_the_willing_and_able(rules: Seq<RuleView>)
    ensures
        watched_rules(rules) == rules.filter(
            |r: RuleView|
                r.enabled && r.auto_sync && r.watch_enabled && r.health == RuleHealth::Healthy,
        ),
{
    let test = |r: RuleView|
        r.enabled && r.auto_sync && r.watch_enabled && r.health == RuleHealth::Healthy;
    assert((|r: RuleView| wants_watch(r)) =~= test);
}

/// A rule is watched where what it goes by exists: its source and, where it
/// works both ways, its target. A file is watched through the folder that it is
/// in, a folder as a whole; nothing is watched twice, and nothing else is
/// watched. A file without a folder above it, and a rule of which nothing
/// exists, cannot be watched.
pub proof fn existing_sides_are_watched(
    kind: RuleKind,
    bidirectional: bool,
    source: PathView,
    target: PathView,
    source_exists: bool,
    target_exists: bool,
    t: TargetView,
)
    ensures
        ({
            let told = watch_targets(
                kind,
                bidirectional,
                source,
                target,
                source_exists,
                target_exists,
            );
            let by_target = bidirectional && target_exists;
            let hangs = kind == RuleKind::File && ((source_exists && source.parent is None) || (
            by_target && target.parent is None));
            let through = |p: PathView|
                if kind == RuleKind::File {
                    TargetView { path: p.parent->0, recursive: false }
                } else {
                    TargetView { path: p.text, recursive: true }
                };
            &&& told is Ok <==> (source_exists || by_target) && !hangs
            &&& hangs ==> told == Err::<Seq<TargetView>, Seq<char>>(
                "文件路径缺少父目录，无法监听。"@,
            )
            &&& !source_exists && !by_target ==> told == Err::<Seq<TargetView>, Seq<char>>(
                "当前没有可监听的已存在路径，请先创建任一侧目录或开启轮询兜底。"@,
            )
            &&& told is Ok ==> (told->Ok_0.contains(t) <==> (source_exists && t == through(source))
                || (by_target && t == through(target)))
            &&& told is Ok ==> told->Ok_0.no_duplicates()
            &&& told is Ok && source_exists ==> told->Ok_0[0] == through(source)
        }),
{
    let told = watch_targets(kind, bidirectional, source, target, source_exists, target_exists);
    if let Ok(list) = told {
        if list.len() > 0 {
            assert(list.contains(list[0]));
        }
        if list.len() > 1 {
            assert(list.contains(list[1]));
            let first = Seq::<TargetView>::empty().push(list[0]);
            assert(first[0] == list[0]);
            if list[0] == list[1] {
                assert(first.contains(list[1]));
            }
        }
    }
}

/// A change concerns a file rule where it is a change of the file, and a folder
/// rule where it lies on the way that begins with the folder; on the target only
/// where the rule works both ways.
pub proof fn change_concerns_the_rule_it_lies_in(
    bidirectional: bool,
    source: Seq<ComponentView>,
    target: Seq<ComponentView>,
    path: Seq<ComponentView>,
)
    ensures
        concerns_rule(RuleKind::File, bidirectional, source, target, path) <==> same_path(
            path,
            source,
        ) || (bidirectional && same_path(path, target)),
        concerns_rule(RuleKind::Folder, bidirectional, source, target, path) <==> ({
            ||| source.len() <= path.len() && forall|i: int|
                0 <= i < source.len() ==> same_component(#[trigger] path[i], source[i])
            ||| bidirectional && target.len() <= path.len() && forall|i: int|
                0 <= i < target.len() ==> same_component(#[trigger] path[i], target[i])
        }),
{
}

/// A refresh that was told to watch for a rule has a watcher made, has it watch
/// one path after the other, and keeps it for the rule once it watches all.
pub proof fn watcher_is_kept_once_it_watches_all(r: RefreshView)
    requires
        0 <= r.position < r.jobs.len(),
        0 <= r.next_target <= r.targets.len(),
    ensures
        ({
            let made = RefreshView { phase: RefreshPhase::Create, next_target: 0, ..r };
            let asks = refresh_next(made, RefreshEventView::Done).1;
            &&& r.targets.len() > 0 ==> asks == RefreshActionView::Watch {
                path: r.targets[0].path,
                recursive: r.targets[0].recursive,
            }
            &&& r.targets.len() == 0 ==> asks == RefreshActionView::Keep(r.jobs[r.position].rule_id)
        }),
        ({
            let watching = RefreshView { phase: RefreshPhase::Watch, ..r };
            let n = r.next_target + 1;
            let asks = refresh_next(watching, RefreshEventView::Done).1;
            &&& n < r.targets.len() ==> asks == RefreshActionView::Watch {
                path: r.targets[n].path,
                recursive: r.targets[n].recursive,
            }
            &&& n >= r.targets.len() ==> asks == RefreshActionView::Keep(r.jobs[r.position].rule_id)
            &&& refresh_next(watching, RefreshEventView::Done).0.next_target == n
        }),
{
}

/// A rule that cannot be watched is reported under its id, with what is the
/// matter and where, and the log is told of it by its name.
pub proof fn failure_to_watch_is_reported(r: RefreshView, message: Seq<char>)
    requires
        0 <= r.position < r.jobs.len(),
        0 <= r.next_target < r.targets.len(),
    ensures
        ({
            let job = r.jobs[r.position];
            let after = refresh_next(
                RefreshView { phase: RefreshPhase::Create, ..r },
                RefreshEventView::Failed(message),
            ).0;
            &&& after.failures == r.failures.insert(job.rule_id, "监听器创建失败："@ + message)
            &&& after.warnings == r.warnings.push(
                "规则“"@ + job.name + "”的自动监听已降级，不会阻止应用启动。"@ + (
                "监听器创建失败："@ + message),
            )
            &&& after.position == r.position + 1
        }),
        ({
            let job = r.jobs[r.position];
            let why = "无法监听路径 "@ + r.targets[r.next_target].path + "："@ + message;
            let after = refresh_next(
                RefreshView { phase: RefreshPhase::Watch, ..r },
                RefreshEventView::Failed(message),
            ).0;
            &&& after.failures == r.failures.insert(job.rule_id, why)
            &&& after.warnings == r.warnings.push(
                "规则“"@ + job.name + "”的自动监听已降级，不会阻止应用启动。"@ + why,
            )
            &&& after.position == r.position + 1
        }),
{
}

/// A refresh that knows what exists of a rule has a watcher made for it where
/// the rule can be watched, and otherwise reports why not.
pub proof fn refresh_goes_by_what_exists(r: RefreshView, source: bool, target: bool)
    requires
        r.phase == RefreshPhase::Probe,
        0 <= r.position < r.jobs.len(),
    ensures
        ({
            let job = r.jobs[r.position];
            let told = watch_targets(
                job.kind,
                job.bidirectional,
                job.source,
                job.target,
                source,
                target,
            );
            let (after, asks) = refresh_next(r, RefreshEventView::Exists { source, target });
            &&& told matches Ok(targets) ==> asks == RefreshActionView::CreateWatcher(r.position)
                && after.targets == targets && after.next_target == 0 && after.failures
                == r.failures
            &&& told matches Err(message) ==> after.failures == r.failures.insert(
                job.rule_id,
                "监听不可用："@ + message,
            ) && after.position == r.position + 1
        }),
{
}

/// A file is selected where a pattern that asks for files matches its way from
/// the folder, and no pattern that leaves files out does. Without patterns that
/// ask for files every file is asked for.
pub proof fn patterns_ask_for_files_and_leave_them_out(
    included: Seq<Seq<char>>,
    excluded: Seq<Seq<char>>,
    path: Seq<char>,
)
    ensures
        selects(MatcherView { included, excluded }, path) <==> (exists|i: int|
            0 <= i < included.len() && glob_matches(#[trigger] included[i], path)) && (forall|i:
            int|
            0 <= i < excluded.len() ==> !glob_matches(#[trigger] excluded[i], path)),
        included.len() == 0 ==> include_patterns(included) == seq!["**/*"@],
        included.len() > 0 ==> include_patterns(included) == included,
{
    if exists|i: int| 0 <= i < included.len() && glob_matches(#[trigger] included[i], path) {
        let i = choose|i: int| 0 <= i < included.len() && glob_matches(#[trigger] included[i], path);
        assert(glob_matches(included[i], path));
    }
    if exists|i: int| 0 <= i < excluded.len() && glob_matches(#[trigger] excluded[i], path) {
        let i = choose|i: int| 0 <= i < excluded.len() && glob_matches(#[trigger] excluded[i], path);
        assert(glob_matches(excluded[i], path));
    }
}

proof fn lemma_first_glob_error(patterns: Seq<Seq<char>>)
    ensures
        match first_glob_error(patterns) {
            Some(message) => exists|i: int|
                0 <= i < patterns.len() && glob_error(#[trigger] patterns[i]) == Some(message)
                    && forall|k: int| 0 <= k < i ==> glob_error(#[trigger] patterns[k]) is None,
            None => forall|i: int|
                0 <= i < patterns.len() ==> glob_error(#[trigger] patterns[i]) is None,
        },
    decreases patterns.len(),
{
    if patterns.len() > 0 {
        let front = patterns.drop_last();
        let n = patterns.len() - 1;
        lemma_first_glob_error(front);
        assert forall|i: int| 0 <= i < n implies front[i] == #[trigger] patterns[i] by {}
        match first_glob_error(front) {
            Some(message) => {
                let i = choose|i: int|
                    0 <= i < front.len() && glob_error(#[trigger] front[i]) == Some(message)
                        && forall|k: int| 0 <= k < i ==> glob_error(#[trigger] front[k]) is None;
                assert(glob_error(patterns[i]) == Some(message));
                assert forall|k: int| 0 <= k < i implies glob_error(#[trigger] patterns[k]) is None by {
                    assert(front[k] == patterns[k]);
                }
            },
            None => {
                assert forall|k: int| 0 <= k < n implies glob_error(#[trigger] patterns[k]) is None by {
                    assert(front[k] == patterns[k]);
                }
                assert(patterns[n] == patterns.last());
            },
        }
    }
}

/// What is said to be wrong with the patterns of a rule is what is wrong with
/// the first of them that is not good, those that ask for files before those
/// that leave them out; nothing is said where all are good.
pub proof fn first_bad_pattern_is_reported(included: Seq<Seq<char>>, excluded: Seq<Seq<char>>)
    ensures
        ({
            let all = included + excluded;
            match patterns_fault(included, excluded) {
                Some(message) => exists|i: int|
                    0 <= i < all.len() && glob_error(#[trigger] all[i]) == Some(message)
                        && forall|k: int| 0 <= k < i ==> glob_error(#[trigger] all[k]) is None,
                None => forall|i: int| 0 <= i < all.len() ==> glob_error(#[trigger] all[i]) is None,
            }
        }),
{
    let all = included + excluded;
    let n = included.len();
    lemma_first_glob_error(included);
    lemma_first_glob_error(excluded);
    match first_glob_error(included) {
        Some(message) => {
            let i = choose|i: int|
                0 <= i < included.len() && glob_error(#[trigger] included[i]) == Some(message)
                    && forall|k: int| 0 <= k < i ==> glob_error(#[trigger] included[k]) is None;
            assert(all[i] == included[i]);
            assert forall|k: int| 0 <= k < i implies glob_error(#[trigger] all[k]) is None by {
                assert(all[k] == included[k]);
            }
        },
        None => {
            match first_glob_error(excluded) {
                Some(message) => {
                    let i = choose|i: int|
                        0 <= i < excluded.len() && glob_error(#[trigger] excluded[i]) == Some(
                            message,
                        ) && forall|k: int|
                            0 <= k < i ==> glob_error(#[trigger] excluded[k]) is None;
                    assert(all[n + i] == excluded[i]);
                    assert forall|k: int| 0 <= k < n + i implies glob_error(
                        #[trigger] all[k],
                    ) is None by {
                        if k < n {
                            assert(all[k] == included[k]);
                        } else {
                            assert(all[k] == excluded[k - n]);
                        }
                    }
                },
                None => {
                    assert forall|k: int| 0 <= k < all.len() implies glob_error(
                        #[trigger] all[k],
                    ) is None by {
                        if k < n {
                            assert(all[k] == included[k]);
                        } else {
                            assert(all[k] == excluded[k - n]);
                        }
                    }
                },
            }
        },
    }
}

/// The files of a folder are what was met in it, is no folder and is selected,
/// each under its way from the folder; of two that are met under one the last
/// one counts.
pub proof fn selected_files_are_found(entries: Seq<EntryView>, selected: Seq<bool>, k: Seq<char>)
    requires
        entries.len() <= selected.len(),
    ensures
        ({
            let files = folder_map(entries, selected);
            &&& files.dom().contains(k) <==> exists|i: int|
                0 <= i < entries.len() && !(#[trigger] entries[i]).is_dir && selected[i]
                    && relative_key(entries[i].components) == k
            &&& files.dom().contains(k) ==> {
                let at = files[k];
                &&& 0 <= at < entries.len()
                &&& !entries[at].is_dir && selected[at] && relative_key(entries[at].components) == k
                &&& forall|i: int|
                    at < i < entries.len() && !(#[trigger] entries[i]).is_dir && selected[i]
                        ==> relative_key(entries[i].components) != k
            }
        }),
    decreases entries.len(),
{
    if entries.len() > 0 {
        let front = entries.drop_last();
        let n = entries.len() - 1;
        let before = folder_map(front, selected);
        let files = folder_map(entries, selected);
        selected_files_are_found(front, selected, k);
        assert forall|i: int| 0 <= i < n implies front[i] == #[trigger] entries[i] by {}
        assert(entries[n] == entries.last());
        if before.dom().contains(k) {
            let at = before[k];
            assert(entries[at] == front[at]);
            assert forall|i: int|
                at < i < n && !(#[trigger] entries[i]).is_dir && selected[i] implies relative_key(
                entries[i].components,
            ) != k by {
                assert(front[i] == entries[i]);
            }
        } else {
            assert forall|i: int|
                0 <= i < n && !(#[trigger] entries[i]).is_dir && selected[i] implies relative_key(
                entries[i].components,
            ) != k by {
                assert(front[i] == entries[i]);
            }
        }
    }
}

/// Things are put in order the largest first, and equally large ones stay as
/// they were.
pub proof fn largest_comes_first(sizes: Seq<int>, i: int, j: int)
    requires
        0 <= i < j < sizes.len(),
    ensures
        ({
            let order = size_order(sizes);
            &&& order.len() == sizes.len()
            &&& 0 <= order[i] < sizes.len() && 0 <= order[j] < sizes.len()
            &&& sizes[order[i]] >= sizes[order[j]]
            &&& sizes[order[i]] == sizes[order[j]] ==> order[i] < order[j]
        }),
{
    size_order_is_order(sizes);
    let order = size_order(sizes);
    assert(comes_first(sizes, order[i], order[j]));
}

/// What is watched for a rule goes by the rule's own id, name, kind and paths.
pub proof fn job_is_about_its_rule(rule: RuleView, job: JobView)
    requires
        is_job_of(rule, job),
    ensures
        job.rule_id == rule.id,
        job.name == rule.name,
        job.kind == rule.kind,
        job.bidirectional == rule.bidirectional,
        job.source.text == rule.source_path,
        job.target.text == rule.target_path,
{
}

/// Which of the things that were met in a folder are selected is what the
/// patterns say of their ways from the folder, one by one.
pub proof fn everything_met_is_judged(
    matcher: MatcherView,
    entries: Seq<EntryView>,
    selected: Seq<bool>,
    i: int,
)
    requires
        judged(matcher, entries, selected),
        0 <= i < entries.len(),
        forall|k: int|
            0 <= k < matcher.included.len() ==> !(#[trigger] matcher.included[k]).contains('\\'),
        forall|k: int|
            0 <= k < matcher.excluded.len() ==> !(#[trigger] matcher.excluded[k]).contains('\\'),
        !relative_key(entries[i].components).contains('\\'),
    ensures
        selected.len() == entries.len(),
        selected[i] <==> (exists|k: int|
            0 <= k < matcher.included.len() && glob_matches(
                #[trigger] matcher.included[k],
                relative_key(entries[i].components),
            )) && (forall|k: int|
            0 <= k < matcher.excluded.len() ==> !glob_matches(
                #[trigger] matcher.excluded[k],
                relative_key(entries[i].components),
            )),
{
    patterns_ask_for_files_and_leave_them_out(
        matcher.included,
        matcher.excluded,
        relative_key(entries[i].components),
    );
}

/// The files of a folder are listed by their ways from it in ascending order,
/// each once, and beside each stands the number under which it was met.
pub proof fn files_are_listed_in_order(
    files: FolderFiles,
    map: Map<Seq<char>, int>,
    i: int,
    j: int,
)
    requires
        files.holds(map),
    ensures
        files.indices@.len() == files.keys@.len(),
        0 <= i < j < files.keys@.len() ==> text_order(files.keys@[i]@, files.keys@[j]@)
            == Order::Less,
        0 <= i < files.keys@.len() ==> map.dom().contains(files.keys@[i]@)
            && map[files.keys@[i]@] == files.indices@[i],
        forall|k: Seq<char>|
            map.dom().contains(k) ==> exists|n: int|
                0 <= n < files.keys@.len() && (#[trigger] files.keys@[n])@ == k,
{
    let keys = texts(files.keys@);
    if 0 <= i < j < files.keys@.len() {
        assert(text_less(keys[i], keys[j]));
    }
    if 0 <= i < files.keys@.len() {
        assert(keys.contains(keys[i]));
        assert(map[keys[i]] == files.indices@[i]);
    }
    assert forall|k: Seq<char>| map.dom().contains(k) implies exists|n: int|
        0 <= n < files.keys@.len() && (#[trigger] files.keys@[n])@ == k by {
        assert(keys.contains(k));
        let n = choose|n: int| 0 <= n < keys.len() && keys[n] == k;
        assert(files.keys@[n]@ == k);
    }
}

} // verus!
