//! Which files of a folder a rule is about: those that one of its patterns
//! asks for and none of its patterns leaves out.
use crate::listing::{find_key, insertion_keeps_order, is_key_set};
use crate::models::SyncRule;
use crate::paths::{component_views, normalize_relative, relative_key, ComponentView, PathComponent};
use crate::text::{text_less, texts};
use vstd::prelude::*;
use vstd::string::*;

verus! {

broadcast use vstd::string::group_string_axioms;

/// `globset::Glob`, opaque: its pattern is named by `glob_pattern`.
#[verifier::external_type_specification]
#[verifier::external_body]
pub struct ExGlob(globset::Glob);

/// `globset::GlobSetBuilder`, opaque: its patterns are named by `builder_patterns`.
#[verifier::external_type_specification]
#[verifier::external_body]
pub struct ExGlobSetBuilder(globset::GlobSetBuilder);

/// `globset::GlobSet`, opaque: its patterns are named by `set_patterns`.
#[verifier::external_type_specification]
#[verifier::external_body]
pub struct ExGlobSet(globset::GlobSet);

/// The pattern that a glob was made of.
pub uninterp spec fn glob_pattern(glob: globset::Glob) -> Seq<char>;

/// The patterns that were added to a builder, in order.
pub uninterp spec fn builder_patterns(builder: globset::GlobSetBuilder) -> Seq<Seq<char>>;

/// The patterns that a set was built of, in order.
pub uninterp spec fn set_patterns(set: globset::GlobSet) -> Seq<Seq<char>>;

/// What `globset::Glob::new` finds wrong with a pattern, if anything.
pub uninterp spec fn glob_error(pattern: Seq<char>) -> Option<Seq<char>>;

/// Whether the glob `pattern` matches `path`, by `globset::GlobSet::is_match`.
pub uninterp spec fn glob_matches(pattern: Seq<char>, path: Seq<char>) -> bool;

/// A text without a backslash: whether that is a separator or an escape
/// depends on the system.
pub open spec fn is_plain(text: Seq<char>) -> bool {
    !text.contains('\\')
}

pub open spec fn all_plain(list: Seq<Seq<char>>) -> bool {
    forall|i: int| 0 <= i < list.len() ==> is_plain(#[trigger] list[i])
}

/// Calls `globset::Glob::new`. On a pattern without a backslash the outcome is
/// a function of the pattern; what a backslash means depends on the system. The
/// pattern `**/*` is a good one.
#[verifier::external_body]
fn glob_new(pattern: &str) -> (r: Result<globset::Glob, String>)
    ensures
        r matches Ok(glob) ==> glob_pattern(glob) == pattern@,
        is_plain(pattern@) ==> glob_error(pattern@) == (match r {
            Ok(_) => None,
            Err(message) => Some(message@),
        }),
        pattern@ == "**/*"@ ==> r is Ok,
{
    globset::Glob::new(pattern).map_err(|error| error.to_string())
}

/// Calls `globset::GlobSetBuilder::new`: a builder without patterns.
#[verifier::external_body]
fn builder_new() -> (r: globset::GlobSetBuilder)
    ensures
        builder_patterns(r) == Seq::<Seq<char>>::empty(),
{
    globset::GlobSetBuilder::new()
}

/// Calls `globset::GlobSetBuilder::add`: the glob is added behind the others.
#[verifier::external_body]
fn builder_add(builder: &mut globset::GlobSetBuilder, glob: globset::Glob)
    ensures
        builder_patterns(*final(builder)) == builder_patterns(*old(builder)).push(
            glob_pattern(glob),
        ),
{
    builder.add(glob);
}

/// Calls `globset::GlobSetBuilder::build`: a set of the patterns of the
/// builder. Without patterns it succeeds, and so it does with `**/*` alone,
/// which is one short regular expression; other patterns may run into the
/// limits of the regular expressions that it makes of them.
#[verifier::external_body]
fn builder_build(builder: &globset::GlobSetBuilder) -> (r: Result<globset::GlobSet, String>)
    ensures
        r matches Ok(set) ==> set_patterns(set) == builder_patterns(*builder),
        builder_patterns(*builder).len() == 0 ==> r is Ok,
        builder_patterns(*builder) == seq!["**/*"@] ==> r is Ok,
{
    builder.build().map_err(|error| error.to_string())
}

/// Whether one of the patterns matches.
pub open spec fn some_match(patterns: Seq<Seq<char>>, path: Seq<char>) -> bool {
    exists|i: int| 0 <= i < patterns.len() && #[trigger] glob_matches(patterns[i], path)
}

/// Calls `globset::GlobSet::is_match`: whether any glob of the set matches the
/// path. That is a function of the patterns and of the path where none of them
/// has a backslash, which is a separator on some systems only. The pattern
/// `**/*` matches every path.
#[verifier::external_body]
fn set_is_match(set: &globset::GlobSet, path: &str) -> (r: bool)
    ensures
        set_patterns(*set).len() == 0 ==> !r,
        set_patterns(*set).contains("**/*"@) ==> r,
        all_plain(set_patterns(*set)) && is_plain(path@) ==> r == (exists|i: int|
            0 <= i < set_patterns(*set).len() && #[trigger] glob_matches(
                set_patterns(*set)[i],
                path@,
            )),
{
    set.is_match(path)
}

/// The patterns of a rule, ready to be matched.
pub struct Matcher {
    included: globset::GlobSet,
    excluded: globset::GlobSet,
}

pub struct MatcherView {
    pub included: Seq<Seq<char>>,
    pub excluded: Seq<Seq<char>>,
}

impl View for Matcher {
    type V = MatcherView;

    closed spec fn view(&self) -> MatcherView {
        MatcherView { included: set_patterns(self.included), excluded: set_patterns(self.excluded) }
    }
}

/// Whether a file is selected by patterns.
pub open spec fn selects(matcher: MatcherView, path: Seq<char>) -> bool {
    some_match(matcher.included, path) && !some_match(matcher.excluded, path)
}

impl Matcher {
    /// Whether a file is selected: one of the patterns asks for it, and none
    /// leaves it out.
    pub fn matches(&self, path: &str) -> (r: bool)
        ensures
            self@.included.len() == 0 ==> !r,
            self@.included.contains("**/*"@) && self@.excluded.len() == 0 ==> r,
            all_plain(self@.included) && all_plain(self@.excluded) && is_plain(path@) ==> r
                == selects(self@, path@),
    {
        set_is_match(&self.included, path) && !set_is_match(&self.excluded, path)
    }
}

/// The patterns by which a rule asks for files: where it has none, the one that matches
/// every file.
pub open spec fn include_patterns(include_globs: Seq<Seq<char>>) -> Seq<Seq<char>> {
    if include_globs.len() == 0 {
        seq!["**/*"@]
    } else {
        include_globs
    }
}

/// What is wrong with the first pattern that something is wrong with.
pub open spec fn first_glob_error(patterns: Seq<Seq<char>>) -> Option<Seq<char>>
    decreases patterns.len(),
{
    if patterns.len() == 0 {
        None
    } else {
        match first_glob_error(patterns.drop_last()) {
            Some(message) => Some(message),
            None => glob_error(patterns.last()),
        }
    }
}

fn add_patterns(builder: &mut globset::GlobSetBuilder, patterns: &Vec<String>) -> (r: Result<
    (),
    String,
>)
    requires
        builder_patterns(*old(builder)).len() == 0,
    ensures
        r is Ok ==> builder_patterns(*final(builder)) == texts(patterns@),
        texts(patterns@) == seq!["**/*"@] || patterns@.len() == 0 ==> r is Ok,
        all_plain(texts(patterns@)) ==> first_glob_error(texts(patterns@)) == (match r {
            Ok(_) => None,
            Err(message) => Some(message@),
        }),
{
    let ghost all = texts(patterns@);
    let mut i: usize = 0;
    proof {
        assert(builder_patterns(*builder) =~= all.take(0));
    }
    while i < patterns.len()
        invariant
            i <= patterns@.len(),
            all == texts(patterns@),
            builder_patterns(*builder) == all.take(i as int),
            all_plain(all) ==> first_glob_error(all.take(i as int)) is None,
        decreases patterns@.len() - i,
    {
        proof {
            assert(all.take(i + 1).drop_last() =~= all.take(i as int));
            assert(all.take(i + 1).last() == patterns@[i as int]@);
            assert(all[i as int] == patterns@[i as int]@);
        }
        match glob_new(patterns[i].as_str()) {
            Ok(glob) => {
                builder_add(builder, glob);
                proof {
                    assert(all.take(i as int).push(all[i as int]) =~= all.take(i + 1));
                }
            },
            Err(message) => {
                proof {
                    if all_plain(all) {
                        lemma_first_error_stays(all, i + 1);
                    }
                }
                return Err(message);
            },
        }
        i = i + 1;
    }
    proof {
        assert(all.take(all.len() as int) =~= all);
    }
    Ok(())
}

proof fn lemma_first_error_stays(patterns: Seq<Seq<char>>, n: int)
    requires
        0 <= n <= patterns.len(),
        first_glob_error(patterns.take(n)) is Some,
    ensures
        first_glob_error(patterns) == first_glob_error(patterns.take(n)),
    decreases patterns.len(),
{
    if n < patterns.len() {
        assert(patterns.drop_last().take(n) =~= patterns.take(n));
        lemma_first_error_stays(patterns.drop_last(), n);
    } else {
        assert(patterns.take(n) =~= patterns);
    }
}

/// What is wrong with the patterns of a rule: those that ask for files are
/// looked at first.
pub open spec fn patterns_fault(included: Seq<Seq<char>>, excluded: Seq<Seq<char>>) -> Option<Seq<char>> {
    match first_glob_error(included) {
        Some(message) => Some(message),
        None => first_glob_error(excluded),
    }
}

/// Puts the two sets of a matcher together, where both could be built.
pub fn assemble(
    included: Result<globset::GlobSet, String>,
    excluded: Result<globset::GlobSet, String>,
) -> (r: Result<Matcher, String>)
    ensures
        match (included, excluded) {
            (Ok(i), Ok(e)) => r matches Ok(m) && m@ == (MatcherView {
                included: set_patterns(i),
                excluded: set_patterns(e),
            }),
            (Err(message), _) => r matches Err(m) && m@ == message@,
            (_, Err(message)) => r matches Err(m) && m@ == message@,
        },
{
    match (included, excluded) {
        (Ok(included), Ok(excluded)) => Ok(Matcher { included, excluded }),
        (Err(message), _) => Err(message),
        (_, Err(message)) => Err(message),
    }
}

/// Makes the patterns of a rule ready. A pattern with which something is wrong
/// is reported, the first one of them; beyond that, the patterns may be too
/// much for the regular expressions that stand behind them. A rule without
/// patterns always has its matcher.
pub fn build_matcher(rule: &SyncRule) -> (r: Result<Matcher, String>)
    ensures
        r matches Ok(m) ==> m@ == (MatcherView {
            included: include_patterns(texts(rule.include_globs@)),
            excluded: texts(rule.exclude_globs@),
        }),
        all_plain(texts(rule.include_globs@)) && all_plain(texts(rule.exclude_globs@)) ==> (
        patterns_fault(
            include_patterns(texts(rule.include_globs@)),
            texts(rule.exclude_globs@),
        ) matches Some(fault) ==> (r matches Err(message) && message@ == fault)),
        rule.include_globs@.len() == 0 && rule.exclude_globs@.len() == 0 ==> r is Ok,
{
    let mut include_builder = builder_new();
    proof {
        reveal_strlit("**/*");
    }
    if rule.include_globs.len() == 0 {
        let mut every: Vec<String> = Vec::new();
        every.push(String::from_str("**/*"));
        proof {
            assert(texts(every@) =~= seq!["**/*"@]);
            assert(is_plain("**/*"@));
        }
        if let Err(message) = add_patterns(&mut include_builder, &every) {
            return Err(message);
        }
    } else {
        if let Err(message) = add_patterns(&mut include_builder, &rule.include_globs) {
            return Err(message);
        }
    }
    let mut exclude_builder = builder_new();
    if let Err(message) = add_patterns(&mut exclude_builder, &rule.exclude_globs) {
        return Err(message);
    }
    let included = builder_build(&include_builder);
    let excluded = builder_build(&exclude_builder);
    assemble(included, excluded)
}

/// A file that a pattern leaves out is never selected, and more patterns that
/// leave files out never select more.
pub proof fn excluded_files_are_not_selected(
    included: Seq<Seq<char>>,
    excluded: Seq<Seq<char>>,
    more: Seq<Seq<char>>,
    path: Seq<char>,
)
    ensures
        some_match(excluded, path) ==> !selects(MatcherView { included, excluded }, path),
        selects(MatcherView { included, excluded: excluded + more }, path) ==> selects(
            MatcherView { included, excluded },
            path,
        ),
{
    if some_match(excluded, path) {
        let i = choose|i: int| 0 <= i < excluded.len() && #[trigger] glob_matches(excluded[i], path);
        assert((excluded + more)[i] == excluded[i]);
        assert(glob_matches((excluded + more)[i], path));
    }
}

/// Something that was met on the way through a folder: its way from the folder.
#[derive(Debug)]
pub struct WalkEntry {
    pub components: Vec<PathComponent>,
    pub is_dir: bool,
}

pub struct EntryView {
    pub components: Seq<ComponentView>,
    pub is_dir: bool,
}

impl View for WalkEntry {
    type V = EntryView;

    open spec fn view(&self) -> EntryView {
        EntryView { components: component_views(self.components@), is_dir: self.is_dir }
    }
}

pub open spec fn entry_views(entries: Seq<WalkEntry>) -> Seq<EntryView> {
    entries.map_values(|e: WalkEntry| e@)
}

/// The files of a folder: their names relative to it, in ascending order, and
/// for each the number of the entry that it was met as.
#[derive(Debug)]
pub struct FolderFiles {
    pub keys: Vec<String>,
    pub indices: Vec<usize>,
}

/// The selected files among the first `entries`, each with the number of the
/// last entry of its name.
pub open spec fn folder_map(entries: Seq<EntryView>, selected: Seq<bool>) -> Map<Seq<char>, int>
    decreases entries.len(),
{
    if entries.len() == 0 {
        Map::empty()
    } else {
        let before = folder_map(entries.drop_last(), selected);
        let at = entries.len() - 1;
        if entries.last().is_dir || !selected[at] {
            before
        } else {
            before.insert(relative_key(entries.last().components), at)
        }
    }
}

impl FolderFiles {
    /// Whether the files are exactly those of the map, in order.
    pub open spec fn holds(self, files: Map<Seq<char>, int>) -> bool {
        &&& is_key_set(texts(self.keys@))
        &&& self.keys@.len() == self.indices@.len()
        &&& forall|k: Seq<char>| #[trigger]
            texts(self.keys@).contains(k) <==> files.dom().contains(k)
        &&& forall|i: int|
            0 <= i < self.keys@.len() ==> files[texts(self.keys@)[i]] == #[trigger] self.indices@[i]
    }
}

fn put_file(files: &mut FolderFiles, key: String, index: usize, Ghost(map): Ghost<Map<Seq<char>, int>>)
    requires
        old(files).holds(map),
    ensures
        final(files).holds(map.insert(key@, index as int)),
{
    let ghost before = texts(files.keys@);
    let ghost numbers = files.indices@;
    let place = find_key(&files.keys, key.as_str());
    let at: usize = place.at;
    if place.found {
        files.indices.set(at, index);
        proof {
            let after = map.insert(key@, index as int);
            assert forall|i: int| 0 <= i < files.keys@.len() implies after[texts(files.keys@)[i]]
                == #[trigger] files.indices@[i] by {
                if i != at {
                    if i < at {
                        assert(text_less(before[i], before[at as int]));
                    } else {
                        assert(text_less(before[at as int], before[i]));
                    }
                    crate::text::text_order_equal(before[i], before[at as int]);
                    crate::text::text_order_equal(before[at as int], before[i]);
                    assert(map[before[i]] == numbers[i]);
                }
            }
        }
    } else {
        proof {
            assert forall|i: int| 0 <= i < at implies text_less(#[trigger] before[i], key@) by {
                assert(before[i] == files.keys@[i]@);
            }
            assert forall|i: int| at <= i < before.len() implies text_less(
                key@,
                #[trigger] before[i],
            ) by {
                assert(before[i] == files.keys@[i]@);
            }
            insertion_keeps_order(before, key@, at as int);
        }
        let ghost text = key@;
        files.keys.insert(at, key);
        files.indices.insert(at, index);
        proof {
            let after = map.insert(text, index as int);
            assert(texts(files.keys@) =~= before.insert(at as int, text));
            assert forall|i: int| 0 <= i < files.keys@.len() implies after[texts(files.keys@)[i]]
                == #[trigger] files.indices@[i] by {
                if i < at {
                    assert(before.contains(before[i]));
                    assert(map[before[i]] == numbers[i]);
                } else if i > at {
                    assert(before.contains(before[i - 1]));
                    assert(map[before[i - 1]] == numbers[i - 1]);
                }
            }
        }
    }
}

/// The selected files of a folder; `selected` says of each entry whether the
/// patterns select it. Of two entries of the same name the later one counts.
pub fn select_files(entries: &Vec<WalkEntry>, selected: &Vec<bool>) -> (r: FolderFiles)
    requires
        entries@.len() == selected@.len(),
    ensures
        r.holds(folder_map(entry_views(entries@), selected@)),
{
    let ghost all = entry_views(entries@);
    let mut files = FolderFiles { keys: Vec::new(), indices: Vec::new() };
    let mut i: usize = 0;
    proof {
        assert(all.take(0).len() == 0);
        assert(texts(files.keys@) =~= Seq::<Seq<char>>::empty());
    }
    while i < entries.len()
        invariant
            i <= entries@.len(),
            entries@.len() == selected@.len(),
            all == entry_views(entries@),
            files.holds(folder_map(all.take(i as int), selected@)),
        decreases entries@.len() - i,
    {
        proof {
            assert(all.take(i + 1).drop_last() =~= all.take(i as int));
            assert(all.take(i + 1).last() == entries@[i as int]@);
        }
        if !entries[i].is_dir && selected[i] {
            let key = normalize_relative(&entries[i].components);
            put_file(&mut files, key, i, Ghost(folder_map(all.take(i as int), selected@)));
        }
        i = i + 1;
    }
    proof {
        assert(all.take(all.len() as int) =~= all);
    }
    files
}

/// Whether `selected` is what the patterns say of the entries.
pub open spec fn judged(matcher: MatcherView, entries: Seq<EntryView>, selected: Seq<bool>) -> bool {
    &&& selected.len() == entries.len()
    &&& all_plain(matcher.included) && all_plain(matcher.excluded) ==> forall|i: int|
        0 <= i < entries.len() && is_plain(relative_key((#[trigger] entries[i]).components))
            ==> selected[i] == selects(matcher, relative_key(entries[i].components))
}

/// The files of a folder that the patterns select, out of everything that was
/// met on the way through it.
pub fn collect_folder_files(entries: &Vec<WalkEntry>, matcher: &Matcher) -> (r: FolderFiles)
    ensures
        exists|selected: Seq<bool>| #[trigger]
            judged(matcher@, entry_views(entries@), selected) && r.holds(
                folder_map(entry_views(entries@), selected),
            ),
{
    let ghost all = entry_views(entries@);
    let mut selected: Vec<bool> = Vec::new();
    let mut i: usize = 0;
    while i < entries.len()
        invariant
            i <= entries@.len(),
            all == entry_views(entries@),
            selected@.len() == i,
            all_plain(matcher@.included) && all_plain(matcher@.excluded) ==> forall|k: int|
                0 <= k < i && is_plain(relative_key((#[trigger] all[k]).components))
                    ==> selected@[k] == selects(matcher@, relative_key(all[k].components)),
        decreases entries@.len() - i,
    {
        let key = normalize_relative(&entries[i].components);
        selected.push(matcher.matches(key.as_str()));
        i = i + 1;
    }
    proof {
        assert(judged(matcher@, all, selected@));
    }
    select_files(entries, &selected)
}

} // verus!
