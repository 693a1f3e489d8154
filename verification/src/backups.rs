//! Backups: where they go, how long they are kept, and which of them belong to
//! a rule.
use crate::clock::{compact_text, current_time, format_backup_stamp, Timestamp};
use crate::models::{
    candidate_views, CandidateView, CleanupCandidate, CleanupCandidateKind, CleanupPreview,
    PreviewView, RuleKind, RuleView, SyncRule,
};
use crate::ordering::{
    comes_first, is_order, numbers, order_by_size, placed, size_order, size_order_is_order,
};
use crate::paths::{
    clone_component, component_views, file_name, file_name_of, is_reading, is_same_path,
    key_names,
    normalize_relative, order_of_paths, path_order, relative_key, same_path, split_file_name,
    split_key, split_name, ComponentView, ParsedPath, PathComponent, PathView,
};
use crate::sync_engine::RuleSide;
use crate::text::{
    clone_strings, ends_with, has_prefix, has_suffix, starts_with, texts, Order,
};
use vstd::prelude::*;
use vstd::string::*;
use vstd::utf8::encode_utf8;

verus! {

broadcast use vstd::string::group_string_axioms;

/// A place on disk: a folder, and the names that lead from it to the place.
#[derive(Debug)]
pub struct Location {
    pub parent: String,
    pub names: Vec<String>,
}

pub struct LocationView {
    pub parent: Seq<char>,
    pub names: Seq<Seq<char>>,
}

impl View for Location {
    type V = LocationView;

    open spec fn view(&self) -> LocationView {
        LocationView { parent: self.parent@, names: texts(self.names@) }
    }
}

pub open spec fn location_result(r: Result<Location, String>) -> Result<LocationView, Seq<char>> {
    match r {
        Ok(location) => Ok(location@),
        Err(message) => Err(message@),
    }
}

/// The folder that the backups of a side are kept in: `.back`, beside the
/// side's path.
pub open spec fn backup_root(side: PathView) -> Result<LocationView, Seq<char>> {
    match side.parent {
        Some(parent) => Ok(LocationView { parent, names: seq![".back"@] }),
        None => Err("目标路径缺少父目录，无法生成备份目录。"@),
    }
}

/// The folder that the backups of a side are kept in.
pub fn backup_root_for_side(side: &ParsedPath) -> (r: Result<Location, String>)
    ensures
        location_result(r) == backup_root(side@),
{
    match &side.parent {
        Some(parent) => {
            let mut names: Vec<String> = Vec::new();
            names.push(String::from_str(".back"));
            proof {
                assert(texts(names@) =~= seq![".back"@]);
            }
            Ok(Location { parent: parent.clone(), names })
        },
        None => Err(
            String::from_str("目标路径缺少父目录，无法生成备份目录。"),
        ),
    }
}

/// The path of a side of a rule.
pub fn path_for_side(rule: &SyncRule, side: RuleSide) -> (r: String)
    ensures
        r@ == match side {
            RuleSide::Source => rule@.source_path,
            RuleSide::Target => rule@.target_path,
        },
{
    match side {
        RuleSide::Source => rule.source_path.clone(),
        RuleSide::Target => rule.target_path.clone(),
    }
}

/// The sides on which a rule makes backups.
pub open spec fn sides_with_backups(bidirectional: bool) -> Seq<RuleSide> {
    if bidirectional {
        seq![RuleSide::Source, RuleSide::Target]
    } else {
        seq![RuleSide::Target]
    }
}

/// The sides on which a rule makes backups: a one-way rule only changes its target.
pub fn backup_sides(bidirectional: bool) -> (r: Vec<RuleSide>)
    ensures
        r@ == sides_with_backups(bidirectional),
{
    let mut sides: Vec<RuleSide> = Vec::new();
    if bidirectional {
        sides.push(RuleSide::Source);
    }
    sides.push(RuleSide::Target);
    proof {
        assert(sides@ =~= sides_with_backups(bidirectional));
    }
    sides
}

/// The extension of a name, empty where it has none.
pub open spec fn extension_text(name: Seq<char>) -> Seq<char> {
    match split_name(name).1 {
        Some(extension) => extension,
        None => Seq::empty(),
    }
}

/// A name with a stamp behind its stem.
pub open spec fn stamped_name(stem: Seq<char>, extension: Seq<char>, stamp: Seq<char>) -> Seq<char> {
    if extension.len() == 0 {
        stem + "--"@ + stamp
    } else {
        stem + "--"@ + stamp + "."@ + extension
    }
}

/// The name of the backup of a file that is called `name`.
pub open spec fn backup_name(name: Seq<char>, stamp: Seq<char>) -> Seq<char> {
    stamped_name(split_name(name).0, extension_text(name), stamp)
}

/// The name of a backup: the stem of the name, the stamp and the extension.
pub fn timestamped_file_name(name: &str, stamp: &str) -> (r: String)
    ensures
        r@ == backup_name(name@, stamp@),
{
    let parts = split_file_name(name);
    let mut r = parts.0;
    r.append("--");
    r.append(stamp);
    if let Some(extension) = parts.1 {
        if extension.unicode_len() != 0 {
            r.append(".");
            r.append(extension.as_str());
        }
    }
    r
}

/// A place whose last name gets a stamp.
pub open spec fn stamped(location: LocationView, stamp: Seq<char>) -> LocationView {
    LocationView {
        names: location.names.drop_last().push(backup_name(location.names.last(), stamp)),
        ..location
    }
}

/// The place with a stamp in its last name.
pub fn timestamped_path(location: &Location, stamp: &str) -> (r: Location)
    requires
        location@.names.len() > 0,
    ensures
        r@ == stamped(location@, stamp@),
{
    let last: usize = location.names.len() - 1;
    let name = timestamped_file_name(location.names[last].as_str(), stamp);
    let mut names = clone_strings(&location.names);
    proof {
        assert(names@.len() == texts(names@).len());
        assert(location.names@.len() == texts(location.names@).len());
        assert(location.names@[last as int]@ == texts(location.names@).last());
    }
    let ghost all = texts(names@);
    names.pop();
    names.push(name);
    proof {
        assert(texts(names@) =~= all.drop_last().push(name@));
    }
    Location { parent: location.parent.clone(), names }
}

/// Where a backup goes: a folder that has to be there, and the file in it.
#[derive(Debug)]
pub struct BackupPlan {
    pub folder: Location,
    pub file: Location,
}

pub struct BackupPlanView {
    pub folder: LocationView,
    pub file: LocationView,
}

impl View for BackupPlan {
    type V = BackupPlanView;

    open spec fn view(&self) -> BackupPlanView {
        BackupPlanView { folder: self.folder@, file: self.file@ }
    }
}

pub open spec fn plan_result(r: Result<BackupPlan, String>) -> Result<BackupPlanView, Seq<char>> {
    match r {
        Ok(plan) => Ok(plan@),
        Err(message) => Err(message@),
    }
}

pub open spec fn opt_str(text: Option<&str>) -> Option<Seq<char>> {
    match text {
        Some(inner) => Some(inner@),
        None => None,
    }
}

/// Where the backup of a file goes. That of a file rule goes right into the
/// backup folder; that of a folder rule goes the same way below it as the file
/// goes below the side's folder, whose name comes first.
pub open spec fn backup_plan(
    kind: RuleKind,
    side: PathView,
    relative: Option<Seq<char>>,
    stamp: Seq<char>,
) -> Result<BackupPlanView, Seq<char>> {
    match backup_root(side) {
        Err(message) => Err(message),
        Ok(root) => match kind {
            RuleKind::File => {
                let place = match file_name_of(side.components) {
                    Some(name) => LocationView { names: root.names.push(name), ..root },
                    None => root,
                };
                Ok(BackupPlanView { folder: root, file: stamped(place, stamp) })
            },
            RuleKind::Folder => match (relative, file_name_of(side.components)) {
                (None, _) => Err("缺少目录规则的相对路径。"@),
                (_, None) => Err("目标目录无效，无法生成备份。"@),
                (Some(key), Some(base)) => {
                    let names = root.names.push(base) + key_names(key);
                    Ok(
                        BackupPlanView {
                            folder: LocationView { names: names.drop_last(), ..root },
                            file: stamped(LocationView { names, ..root }, stamp),
                        },
                    )
                },
            },
        },
    }
}

fn clone_location(location: &Location) -> (r: Location)
    ensures
        r@ == location@,
{
    Location { parent: location.parent.clone(), names: clone_strings(&location.names) }
}

/// Where the backup of a file of a side goes, with `stamp` in its name.
pub fn plan_backup(kind: RuleKind, side: &ParsedPath, relative: Option<&str>, stamp: &str) -> (r:
    Result<BackupPlan, String>)
    ensures
        plan_result(r) == backup_plan(kind, side@, opt_str(relative), stamp@),
{
    let root = match backup_root_for_side(side) {
        Ok(root) => root,
        Err(message) => {
            return Err(message);
        },
    };
    let name = file_name(&side.components);
    match kind {
        RuleKind::File => {
            let folder = clone_location(&root);
            let mut place = root;
            let ghost above = texts(place.names@);
            if let Some(name) = name {
                place.names.push(name);
                proof {
                    assert(texts(place.names@) =~= above.push(name@));
                }
            }
            let file = timestamped_path(&place, stamp);
            Ok(BackupPlan { folder, file })
        },
        RuleKind::Folder => {
            let key = match relative {
                Some(key) => key,
                None => {
                    return Err(String::from_str("缺少目录规则的相对路径。"));
                },
            };
            let base = match name {
                Some(base) => base,
                None => {
                    return Err(String::from_str("目标目录无效，无法生成备份。"));
                },
            };
            let mut place = root;
            let ghost above = texts(place.names@);
            place.names.push(base);
            let mut inner = split_key(key);
            let ghost below = texts(inner@);
            place.names.append(&mut inner);
            proof {
                assert(texts(place.names@) =~= above.push(base@) + below);
            }
            let file = timestamped_path(&place, stamp);
            let mut folder = place;
            let ghost all = texts(folder.names@);
            folder.names.pop();
            proof {
                assert(texts(folder.names@) =~= all.drop_last());
            }
            Ok(BackupPlan { folder, file })
        },
    }
}

/// The path of a side of a rule, as the system reads it.
pub open spec fn reads_side(rule: RuleView, side: RuleSide, path: PathView) -> bool {
    match side {
        RuleSide::Source => is_reading(path, rule.source_path),
        RuleSide::Target => is_reading(path, rule.target_path),
    }
}

pub open spec fn opt_plan_result(r: Result<Option<BackupPlan>, String>) -> Result<
    Option<BackupPlanView>,
    Seq<char>,
> {
    match r {
        Ok(Some(plan)) => Ok(Some(plan@)),
        Ok(None) => Ok(None),
        Err(message) => Err(message@),
    }
}

/// A backup that is to be made.
pub open spec fn wanted(plan: Result<BackupPlanView, Seq<char>>) -> Result<
    Option<BackupPlanView>,
    Seq<char>,
> {
    match plan {
        Ok(plan) => Ok(Some(plan)),
        Err(message) => Err(message),
    }
}

/// Where the backup of a file goes that a rule is about to replace or remove
/// now; where the file is not there, there is nothing to back up. The time now
/// is stamped into the name of the backup.
pub fn backup_rule_file(
    rule: &SyncRule,
    side: RuleSide,
    relative: Option<&str>,
    file_exists: bool,
) -> (r: Result<Option<BackupPlan>, String>)
    ensures
        !file_exists ==> opt_plan_result(r) == Ok::<Option<BackupPlanView>, Seq<char>>(None),
        file_exists ==> exists|path: PathView, now: Timestamp|
            reads_side(rule@, side, path) && now.in_calendar() && opt_plan_result(r) == wanted(
                #[trigger] backup_plan(
                    rule.kind,
                    path,
                    opt_str(relative),
                    compact_text(now.seconds),
                ),
            ),
{
    if !file_exists {
        return Ok(None);
    }
    let path = ParsedPath::read(path_for_side(rule, side).as_str());
    let now = current_time();
    let stamp = format_backup_stamp(now);
    let plan = plan_backup(rule.kind, &path, relative, stamp.as_str());
    proof {
        assert(plan_result(plan) == backup_plan(
            rule.kind,
            path@,
            opt_str(relative),
            compact_text(now.seconds),
        ));
    }
    match plan {
        Ok(plan) => Ok(Some(plan)),
        Err(message) => Err(message),
    }
}

/// The components of the backup folder beside a path.
pub open spec fn root_components(side: PathView) -> Seq<ComponentView> {
    let above = if side.components.len() == 0 {
        side.components
    } else {
        side.components.drop_last()
    };
    above.push(ComponentView::Normal(".back"@))
}

/// The backup folders that a rule purges, each once, in order.
pub open spec fn purge_roots(bidirectional: bool, source: PathView, target: PathView) -> Seq<
    LocationView,
> {
    match (backup_root(source), backup_root(target)) {
        (Ok(of_source), Ok(of_target)) => if !bidirectional {
            seq![of_target]
        } else if same_path(root_components(source), root_components(target)) {
            seq![of_source]
        } else if path_order(root_components(source), root_components(target)) == Order::Greater {
            seq![of_target, of_source]
        } else {
            seq![of_source, of_target]
        },
        (Err(_), Ok(of_target)) => seq![of_target],
        (Ok(of_source), Err(_)) => if bidirectional {
            seq![of_source]
        } else {
            Seq::empty()
        },
        (Err(_), Err(_)) => Seq::empty(),
    }
}

pub open spec fn location_views(v: Seq<Location>) -> Seq<LocationView> {
    v.map_values(|l: Location| l@)
}

fn root_path(side: &ParsedPath) -> (r: Vec<PathComponent>)
    ensures
        component_views(r@) == root_components(side@),
{
    let n: usize = if side.components.len() == 0 {
        0
    } else {
        side.components.len() - 1
    };
    let mut r: Vec<PathComponent> = Vec::new();
    let mut i: usize = 0;
    while i < n
        invariant
            i <= n <= side.components@.len(),
            r@.len() == i,
            forall|k: int| 0 <= k < i ==> (#[trigger] r@[k])@ == side.components@[k]@,
        decreases n - i,
    {
        r.push(clone_component(&side.components[i]));
        i = i + 1;
    }
    r.push(PathComponent::Normal(String::from_str(".back")));
    proof {
        assert(component_views(r@) =~= root_components(side@));
    }
    r
}

/// The backup folders that a rule purges: those of the sides on which it makes
/// backups, each once, in the order of their paths.
pub fn purge_expired_backups_for_rule(
    bidirectional: bool,
    source: &ParsedPath,
    target: &ParsedPath,
) -> (r: Vec<Location>)
    ensures
        location_views(r@) == purge_roots(bidirectional, source@, target@),
{
    let mut roots: Vec<Location> = Vec::new();
    let of_source = backup_root_for_side(source);
    let of_target = backup_root_for_side(target);
    match (of_source, of_target) {
        (Ok(of_source), Ok(of_target)) => {
            if !bidirectional {
                roots.push(of_target);
            } else {
                let a = root_path(source);
                let b = root_path(target);
                if is_same_path(&a, &b) {
                    roots.push(of_source);
                } else if order_of_paths(&a, &b) == Order::Greater {
                    roots.push(of_target);
                    roots.push(of_source);
                } else {
                    roots.push(of_source);
                    roots.push(of_target);
                }
            }
        },
        (Err(_), Ok(of_target)) => {
            roots.push(of_target);
        },
        (Ok(of_source), Err(_)) => {
            if bidirectional {
                roots.push(of_source);
            }
        },
        (Err(_), Err(_)) => {},
    }
    proof {
        assert(location_views(roots@) =~= purge_roots(bidirectional, source@, target@));
    }
    roots
}

/// How many bytes a text takes.
pub open spec fn byte_len(text: Seq<char>) -> int {
    encode_utf8(text).len() as int
}

/// Something that stands in a backup folder: its path, its name, and its way
/// from the folder.
#[derive(Debug)]
pub struct BackupEntry {
    pub path: String,
    pub name: String,
    pub components: Vec<PathComponent>,
    pub is_file: bool,
    pub is_dir: bool,
}

pub struct BackupEntryView {
    pub path: Seq<char>,
    pub name: Seq<char>,
    pub components: Seq<ComponentView>,
    pub is_file: bool,
    pub is_dir: bool,
}

impl View for BackupEntry {
    type V = BackupEntryView;

    open spec fn view(&self) -> BackupEntryView {
        BackupEntryView {
            path: self.path@,
            name: self.name@,
            components: component_views(self.components@),
            is_file: self.is_file,
            is_dir: self.is_dir,
        }
    }
}

/// What was found of a backup folder.
#[derive(Debug)]
pub enum BackupListing {
    /// There is none.
    Missing,
    /// It could not be read; the text says why.
    Unreadable(String),
    /// It holds these.
    Entries(Vec<BackupEntry>),
}

pub enum ListingView {
    Missing,
    Unreadable(Seq<char>),
    Entries(Seq<BackupEntryView>),
}

pub open spec fn backup_entry_views(entries: Seq<BackupEntry>) -> Seq<BackupEntryView> {
    entries.map_values(|e: BackupEntry| e@)
}

impl View for BackupListing {
    type V = ListingView;

    open spec fn view(&self) -> ListingView {
        match *self {
            BackupListing::Missing => ListingView::Missing,
            BackupListing::Unreadable(message) => ListingView::Unreadable(message@),
            BackupListing::Entries(entries) => ListingView::Entries(backup_entry_views(entries@)),
        }
    }
}

/// How a side is called.
pub open spec fn side_name(side: RuleSide) -> Seq<char> {
    match side {
        RuleSide::Source => "源侧"@,
        RuleSide::Target => "目标侧"@,
    }
}

/// How a side is called.
pub fn side_label(side: RuleSide) -> (r: &'static str)
    ensures
        r@ == side_name(side),
{
    match side {
        RuleSide::Source => "源侧",
        RuleSide::Target => "目标侧",
    }
}

/// How a backup is shown: with its side, where the rule makes backups on both.
pub open spec fn shown_relative(bidirectional: bool, side: RuleSide, relative: Seq<char>) -> Seq<char> {
    if bidirectional {
        side_name(side) + " / "@ + relative
    } else {
        relative
    }
}

/// How a backup is shown.
pub fn format_candidate_relative(bidirectional: bool, side: RuleSide, relative: &str) -> (r: String)
    ensures
        r@ == shown_relative(bidirectional, side, relative@),
{
    if bidirectional {
        let mut r = String::from_str(side_label(side));
        r.append(" / ");
        r.append(relative);
        r
    } else {
        String::from_str(relative)
    }
}

/// Whether a name is that of a backup of the file called `original`.
pub open spec fn is_backup_name(original: Seq<char>, name: Seq<char>) -> bool {
    &&& has_prefix(name, split_name(original).0 + "--"@)
    &&& extension_text(original).len() > 0 ==> has_suffix(name, "."@ + extension_text(original))
}

/// The backups of a file among the first of the entries.
pub open spec fn file_backups(
    bidirectional: bool,
    side: RuleSide,
    original: Seq<char>,
    entries: Seq<BackupEntryView>,
) -> Seq<CandidateView>
    decreases entries.len(),
{
    if entries.len() == 0 {
        Seq::empty()
    } else {
        let before = file_backups(bidirectional, side, original, entries.drop_last());
        let entry = entries.last();
        if entry.is_file && is_backup_name(original, entry.name) {
            before.push(
                CandidateView {
                    path: entry.path,
                    relative_path: shown_relative(bidirectional, side, original),
                    kind: CleanupCandidateKind::File,
                },
            )
        } else {
            before
        }
    }
}

/// Everything in the backup folder of a folder rule, but not that folder itself.
pub open spec fn tree_backups(
    bidirectional: bool,
    side: RuleSide,
    entries: Seq<BackupEntryView>,
) -> Seq<CandidateView>
    decreases entries.len(),
{
    if entries.len() == 0 {
        Seq::empty()
    } else {
        let before = tree_backups(bidirectional, side, entries.drop_last());
        let entry = entries.last();
        if entry.components.len() == 0 {
            before
        } else {
            before.push(
                CandidateView {
                    path: entry.path,
                    relative_path: shown_relative(
                        bidirectional,
                        side,
                        relative_key(entry.components),
                    ),
                    kind: if entry.is_dir {
                        CleanupCandidateKind::Folder
                    } else {
                        CleanupCandidateKind::File
                    },
                },
            )
        }
    }
}

pub open spec fn candidates_result(r: Result<Vec<CleanupCandidate>, String>) -> Result<
    Seq<CandidateView>,
    Seq<char>,
> {
    match r {
        Ok(list) => Ok(candidate_views(list@)),
        Err(message) => Err(message@),
    }
}

/// The backups of a side of a file rule.
pub open spec fn file_rule_candidates(
    bidirectional: bool,
    side: RuleSide,
    path: PathView,
    listing: ListingView,
) -> Result<Seq<CandidateView>, Seq<char>> {
    match (backup_root(path), listing, file_name_of(path.components)) {
        (Err(message), _, _) => Err(message),
        (_, ListingView::Missing, _) => Ok(Seq::empty()),
        (_, _, None) => Err("目标文件名无效，无法预览备份。"@),
        (_, ListingView::Unreadable(message), _) => Err(message),
        (_, ListingView::Entries(entries), Some(original)) => Ok(
            file_backups(bidirectional, side, original, entries),
        ),
    }
}

/// The backups of a side of a folder rule.
pub open spec fn folder_rule_candidates(
    bidirectional: bool,
    side: RuleSide,
    path: PathView,
    listing: ListingView,
) -> Result<Seq<CandidateView>, Seq<char>> {
    match (backup_root(path), file_name_of(path.components), listing) {
        (Err(message), _, _) => Err(message),
        (_, None, _) => Err("目标目录无效，无法预览备份。"@),
        (_, _, ListingView::Missing) => Ok(Seq::empty()),
        (_, _, ListingView::Unreadable(message)) => Err(message),
        (_, _, ListingView::Entries(entries)) => Ok(tree_backups(bidirectional, side, entries)),
    }
}

fn push_candidate(
    list: &mut Vec<CleanupCandidate>,
    path: &String,
    relative_path: String,
    kind: CleanupCandidateKind,
)
    ensures
        candidate_views(final(list)@) == candidate_views(old(list)@).push(
            CandidateView { path: path@, relative_path: relative_path@, kind },
        ),
{
    let ghost before = candidate_views(list@);
    let ghost added = CandidateView { path: path@, relative_path: relative_path@, kind };
    list.push(CleanupCandidate { path: path.clone(), relative_path, kind });
    proof {
        assert(candidate_views(list@) =~= before.push(added));
    }
}

fn names_backup_of(original: &str, name: &str) -> (r: bool)
    ensures
        r == is_backup_name(original@, name@),
{
    let parts = split_file_name(original);
    let mut head = parts.0;
    head.append("--");
    if !starts_with(name, head.as_str()) {
        return false;
    }
    match parts.1 {
        Some(extension) => {
            if extension.unicode_len() == 0 {
                true
            } else {
                let mut tail = String::from_str(".");
                tail.append(extension.as_str());
                ends_with(name, tail.as_str())
            }
        },
        None => true,
    }
}

/// The folder that is looked through for the backups of a side: the backup
/// folder, or for a folder rule that of the side's name in it.
pub open spec fn backup_scope(kind: RuleKind, path: PathView) -> Option<LocationView> {
    match (backup_root(path), kind, file_name_of(path.components)) {
        (Err(_), _, _) => None,
        (Ok(root), RuleKind::File, _) => Some(root),
        (Ok(_), RuleKind::Folder, None) => None,
        (Ok(root), RuleKind::Folder, Some(name)) => Some(
            LocationView { names: root.names.push(name), ..root },
        ),
    }
}

pub open spec fn opt_location(location: Option<Location>) -> Option<LocationView> {
    match location {
        Some(inner) => Some(inner@),
        None => None,
    }
}

/// The folder that is looked through for the backups of a side, if there is a
/// place for them.
pub fn backup_scope_for_side(kind: RuleKind, path: &ParsedPath) -> (r: Option<Location>)
    ensures
        opt_location(r) == backup_scope(kind, path@),
{
    let mut scope = match backup_root_for_side(path) {
        Ok(root) => root,
        Err(_) => {
            return None;
        },
    };
    match kind {
        RuleKind::File => Some(scope),
        RuleKind::Folder => {
            let ghost above = texts(scope.names@);
            match file_name(&path.components) {
                Some(name) => {
                    scope.names.push(name);
                    proof {
                        assert(texts(scope.names@) =~= above.push(name@));
                    }
                    Some(scope)
                },
                None => None,
            }
        },
    }
}

/// The backups of a side of a file rule: the files in the backup folder whose
/// names are those of backups of the side's file.
pub fn backup_candidates_for_file_rule(
    bidirectional: bool,
    side: RuleSide,
    path: &ParsedPath,
    listing: &BackupListing,
) -> (r: Result<Vec<CleanupCandidate>, String>)
    ensures
        candidates_result(r) == file_rule_candidates(bidirectional, side, path@, listing@),
{
    let mut list: Vec<CleanupCandidate> = Vec::new();
    proof {
        assert(candidate_views(list@) =~= Seq::<CandidateView>::empty());
    }
    if let Err(message) = backup_root_for_side(path) {
        return Err(message);
    }
    if let BackupListing::Missing = listing {
        return Ok(list);
    }
    let original = match file_name(&path.components) {
        Some(name) => name,
        None => {
            return Err(String::from_str("目标文件名无效，无法预览备份。"));
        },
    };
    match listing {
        BackupListing::Missing => Ok(list),
        BackupListing::Unreadable(message) => Err(message.clone()),
        BackupListing::Entries(entries) => {
            let ghost all = backup_entry_views(entries@);
            let mut i: usize = 0;
            while i < entries.len()
                invariant
                    i <= entries@.len(),
                    all == backup_entry_views(entries@),
                    candidate_views(list@) == file_backups(
                        bidirectional,
                        side,
                        original@,
                        all.take(i as int),
                    ),
                decreases entries@.len() - i,
            {
                proof {
                    assert(all.take(i + 1).drop_last() =~= all.take(i as int));
                    assert(all.take(i + 1).last() == entries@[i as int]@);
                }
                let entry = &entries[i];
                if entry.is_file && names_backup_of(original.as_str(), entry.name.as_str()) {
                    let shown = format_candidate_relative(bidirectional, side, original.as_str());
                    push_candidate(&mut list, &entry.path, shown, CleanupCandidateKind::File);
                }
                i = i + 1;
            }
            proof {
                assert(all.take(all.len() as int) =~= all);
            }
            Ok(list)
        },
    }
}

/// The backups of a side of a folder rule: everything below its own folder in
/// the backup folder.
pub fn backup_candidates_for_folder_rule(
    bidirectional: bool,
    side: RuleSide,
    path: &ParsedPath,
    listing: &BackupListing,
) -> (r: Result<Vec<CleanupCandidate>, String>)
    ensures
        candidates_result(r) == folder_rule_candidates(bidirectional, side, path@, listing@),
{
    let mut list: Vec<CleanupCandidate> = Vec::new();
    proof {
        assert(candidate_views(list@) =~= Seq::<CandidateView>::empty());
    }
    if let Err(message) = backup_root_for_side(path) {
        return Err(message);
    }
    if file_name(&path.components).is_none() {
        return Err(String::from_str("目标目录无效，无法预览备份。"));
    }
    match listing {
        BackupListing::Missing => Ok(list),
        BackupListing::Unreadable(message) => Err(message.clone()),
        BackupListing::Entries(entries) => {
            let ghost all = backup_entry_views(entries@);
            let mut i: usize = 0;
            while i < entries.len()
                invariant
                    i <= entries@.len(),
                    all == backup_entry_views(entries@),
                    candidate_views(list@) == tree_backups(
                        bidirectional,
                        side,
                        all.take(i as int),
                    ),
                decreases entries@.len() - i,
            {
                proof {
                    assert(all.take(i + 1).drop_last() =~= all.take(i as int));
                    assert(all.take(i + 1).last() == entries@[i as int]@);
                }
                let entry = &entries[i];
                if entry.components.len() != 0 {
                    let relative = normalize_relative(&entry.components);
                    let shown = format_candidate_relative(bidirectional, side, relative.as_str());
                    let kind = if entry.is_dir {
                        CleanupCandidateKind::Folder
                    } else {
                        CleanupCandidateKind::File
                    };
                    push_candidate(&mut list, &entry.path, shown, kind);
                }
                i = i + 1;
            }
            proof {
                assert(all.take(all.len() as int) =~= all);
            }
            Ok(list)
        },
    }
}

/// The backups of a side of a rule.
pub open spec fn side_candidates(
    kind: RuleKind,
    bidirectional: bool,
    side: RuleSide,
    path: PathView,
    listing: ListingView,
) -> Result<Seq<CandidateView>, Seq<char>> {
    match kind {
        RuleKind::File => file_rule_candidates(bidirectional, side, path, listing),
        RuleKind::Folder => folder_rule_candidates(bidirectional, side, path, listing),
    }
}

pub open spec fn path_sizes(list: Seq<CandidateView>) -> Seq<int> {
    list.map_values(|c: CandidateView| byte_len(c.path))
}

/// The backups, those with the longest paths first.
pub open spec fn longest_first(list: Seq<CandidateView>) -> Seq<CandidateView> {
    let order = size_order(path_sizes(list));
    Seq::new(order.len(), |i: int| list[order[i]])
}

/// The backups of a rule, in the order in which they are removed.
pub open spec fn rule_candidates(
    kind: RuleKind,
    bidirectional: bool,
    source: PathView,
    target: PathView,
    source_listing: ListingView,
    target_listing: ListingView,
) -> Result<Seq<CandidateView>, Seq<char>> {
    let of_source = if bidirectional {
        side_candidates(kind, bidirectional, RuleSide::Source, source, source_listing)
    } else {
        Ok(Seq::empty())
    };
    match (
        of_source,
        side_candidates(kind, bidirectional, RuleSide::Target, target, target_listing),
    ) {
        (Err(message), _) => Err(message),
        (_, Err(message)) => Err(message),
        (Ok(first), Ok(second)) => Ok(longest_first(first + second)),
    }
}

fn side_backups(
    kind: RuleKind,
    bidirectional: bool,
    side: RuleSide,
    path: &ParsedPath,
    listing: &BackupListing,
) -> (r: Result<Vec<CleanupCandidate>, String>)
    ensures
        candidates_result(r) == side_candidates(kind, bidirectional, side, path@, listing@),
{
    match kind {
        RuleKind::File => backup_candidates_for_file_rule(bidirectional, side, path, listing),
        RuleKind::Folder => backup_candidates_for_folder_rule(bidirectional, side, path, listing),
    }
}

/// Puts backups in the order in which they are removed: the longest path first,
/// so that what is in a folder goes before the folder.
fn sort_candidates(list: &Vec<CleanupCandidate>) -> (r: Vec<CleanupCandidate>)
    ensures
        candidate_views(r@) == longest_first(candidate_views(list@)),
{
    let ghost views = candidate_views(list@);
    let mut sizes: Vec<usize> = Vec::new();
    let mut i: usize = 0;
    while i < list.len()
        invariant
            i <= list@.len(),
            views == candidate_views(list@),
            numbers(sizes@) == path_sizes(views).take(i as int),
        decreases list@.len() - i,
    {
        let ghost before = numbers(sizes@);
        let bytes = list[i].path.as_str().as_bytes();
        let size: usize = bytes.len();
        sizes.push(size);
        proof {
            assert(size == byte_len(views[i as int].path));
            assert(numbers(sizes@) =~= before.push(size as int));
            assert(path_sizes(views).take(i + 1) =~= before.push(size as int));
        }
        i = i + 1;
    }
    proof {
        assert(path_sizes(views).take(views.len() as int) =~= path_sizes(views));
    }
    let order = order_by_size(&sizes);
    let mut sorted: Vec<CleanupCandidate> = Vec::new();
    let mut k: usize = 0;
    while k < order.len()
        invariant
            k <= order@.len(),
            order@.len() == list@.len(),
            is_order(numbers(sizes@), numbers(order@), list@.len() as int),
            sorted@.len() == k,
            forall|j: int| 0 <= j < k ==> (#[trigger] sorted@[j])@ == list@[order@[j] as int]@,
        decreases order@.len() - k,
    {
        proof {
            assert(numbers(order@)[k as int] == order@[k as int]);
        }
        sorted.push(list[order[k]].clone());
        k = k + 1;
    }
    proof {
        assert(candidate_views(sorted@) =~= longest_first(views));
    }
    sorted
}

/// The backups of a rule, in the order in which they are removed.
pub fn backup_cleanup_candidates(
    rule: &SyncRule,
    source: &ParsedPath,
    target: &ParsedPath,
    source_listing: &BackupListing,
    target_listing: &BackupListing,
) -> (r: Result<Vec<CleanupCandidate>, String>)
    ensures
        candidates_result(r) == rule_candidates(
            rule.kind,
            rule.bidirectional,
            source@,
            target@,
            source_listing@,
            target_listing@,
        ),
{
    let mut list: Vec<CleanupCandidate> = Vec::new();
    proof {
        assert(candidate_views(list@) =~= Seq::<CandidateView>::empty());
    }
    if rule.bidirectional {
        match side_backups(
            rule.kind,
            rule.bidirectional,
            RuleSide::Source,
            source,
            source_listing,
        ) {
            Ok(found) => {
                list = found;
            },
            Err(message) => {
                return Err(message);
            },
        }
    }
    match side_backups(rule.kind, rule.bidirectional, RuleSide::Target, target, target_listing) {
        Ok(found) => {
            let ghost first = candidate_views(list@);
            let ghost second = candidate_views(found@);
            let mut found = found;
            list.append(&mut found);
            proof {
                assert(candidate_views(list@) =~= first + second);
            }
            Ok(sort_candidates(&list))
        },
        Err(message) => Err(message),
    }
}

pub open spec fn count_kind(list: Seq<CandidateView>, kind: CleanupCandidateKind) -> nat
    decreases list.len(),
{
    if list.len() == 0 {
        0
    } else if list.last().kind == kind {
        count_kind(list.drop_last(), kind) + 1
    } else {
        count_kind(list.drop_last(), kind)
    }
}

fn count_candidates(list: &Vec<CleanupCandidate>, kind: CleanupCandidateKind) -> (r: usize)
    ensures
        r == count_kind(candidate_views(list@), kind),
{
    let ghost all = candidate_views(list@);
    let mut n: usize = 0;
    let mut i: usize = 0;
    while i < list.len()
        invariant
            i <= list@.len(),
            all == candidate_views(list@),
            n == count_kind(all.take(i as int), kind),
            n <= i,
        decreases list@.len() - i,
    {
        proof {
            assert(all.take(i + 1).drop_last() =~= all.take(i as int));
            assert(all.take(i + 1).last() == list@[i as int]@);
        }
        if list[i].kind == kind {
            n = n + 1;
        }
        i = i + 1;
    }
    proof {
        assert(all.take(all.len() as int) =~= all);
    }
    n
}

pub open spec fn preview_result(r: Result<CleanupPreview, String>) -> Result<PreviewView, Seq<char>> {
    match r {
        Ok(preview) => Ok(preview@),
        Err(message) => Err(message@),
    }
}

/// What a cleanup of a rule's backups would remove.
pub open spec fn cleanup_preview(
    rule: RuleView,
    source: PathView,
    target: PathView,
    source_listing: ListingView,
    target_listing: ListingView,
) -> Result<PreviewView, Seq<char>> {
    match rule_candidates(
        rule.kind,
        rule.bidirectional,
        source,
        target,
        source_listing,
        target_listing,
    ) {
        Err(message) => Err(message),
        Ok(candidates) => Ok(
            PreviewView {
                rule_id: rule.id,
                rule_name: rule.name,
                candidates,
                file_count: count_kind(candidates, CleanupCandidateKind::File),
                folder_count: count_kind(candidates, CleanupCandidateKind::Folder),
            },
        ),
    }
}

/// What a cleanup would remove, where the paths of the rule were read already.
pub fn preview_from_paths(
    rule: &SyncRule,
    source: &ParsedPath,
    target: &ParsedPath,
    source_listing: &BackupListing,
    target_listing: &BackupListing,
) -> (r: Result<CleanupPreview, String>)
    ensures
        preview_result(r) == cleanup_preview(
            rule@,
            source@,
            target@,
            source_listing@,
            target_listing@,
        ),
{
    match backup_cleanup_candidates(rule, source, target, source_listing, target_listing) {
        Err(message) => Err(message),
        Ok(candidates) => {
            let file_count: usize = count_candidates(&candidates, CleanupCandidateKind::File);
            let folder_count: usize = count_candidates(&candidates, CleanupCandidateKind::Folder);
            Ok(
                CleanupPreview {
                    rule_id: rule.id.clone(),
                    rule_name: rule.name.clone(),
                    candidates,
                    file_count,
                    folder_count,
                },
            )
        },
    }
}

/// What a cleanup of a rule's backups would remove. The listings say what
/// stands in the backup folders of the two sides.
pub fn preview_rule_cleanup(
    rule: &SyncRule,
    source_listing: &BackupListing,
    target_listing: &BackupListing,
) -> (r: Result<CleanupPreview, String>)
    ensures
        exists|source: PathView, target: PathView|
            reads_side(rule@, RuleSide::Source, source) && reads_side(
                rule@,
                RuleSide::Target,
                target,
            ) && preview_result(r) == #[trigger] cleanup_preview(
                rule@,
                source,
                target,
                source_listing@,
                target_listing@,
            ),
{
    let source = ParsedPath::read(rule.source_path.as_str());
    let target = ParsedPath::read(rule.target_path.as_str());
    let r = preview_from_paths(rule, &source, &target, source_listing, target_listing);
    proof {
        assert(preview_result(r) == cleanup_preview(
            rule@,
            source@,
            target@,
            source_listing@,
            target_listing@,
        ));
    }
    r
}

/// A backup is known as one: its name is recognised, whatever the stamp.
pub proof fn backup_names_are_recognised(name: Seq<char>, stamp: Seq<char>)
    ensures
        is_backup_name(name, backup_name(name, stamp)),
{
    let stem = split_name(name).0;
    let extension = extension_text(name);
    let r = backup_name(name, stamp);
    let head = stem + "--"@;
    assert(r.take(head.len() as int) =~= head);
    if extension.len() > 0 {
        let tail = "."@ + extension;
        assert(r.skip(r.len() - tail.len()) =~= tail);
    }
}

/// The backups of a file rule go right into the backup folder beside the file,
/// under a name that is known as that of a backup.
pub proof fn file_backups_are_found_again(side: PathView, name: Seq<char>, stamp: Seq<char>)
    requires
        side.parent is Some,
        file_name_of(side.components) == Some(name),
    ensures
        backup_plan(RuleKind::File, side, None, stamp) matches Ok(plan) && plan.file.parent
            == side.parent->0 && plan.file.names == seq![".back"@, backup_name(name, stamp)]
            && is_backup_name(name, plan.file.names[1]),
{
    backup_names_are_recognised(name, stamp);
    let root = seq![".back"@];
    assert(root.push(name).drop_last() =~= root);
    assert(root.push(backup_name(name, stamp)) =~= seq![".back"@, backup_name(name, stamp)]);
}

/// Every backup that a cleanup would remove is counted once.
pub proof fn preview_counts_every_candidate(list: Seq<CandidateView>)
    ensures
        count_kind(list, CleanupCandidateKind::File) + count_kind(list, CleanupCandidateKind::Folder)
            == list.len(),
    decreases list.len(),
{
    if list.len() > 0 {
        preview_counts_every_candidate(list.drop_last());
    }
}

proof fn lemma_encode_len(a: Seq<char>, b: Seq<char>)
    ensures
        encode_utf8(a + b).len() == encode_utf8(a).len() + encode_utf8(b).len(),
        b.len() > 0 ==> encode_utf8(b).len() > 0,
    decreases a.len(),
{
    if b.len() > 0 {
        vstd::utf8::encode_utf8_first_scalar(b);
    }
    if a.len() == 0 {
        assert(a + b =~= b);
    } else {
        lemma_encode_len(a.drop_first(), b);
        assert((a + b).drop_first() =~= a.drop_first() + b);
    }
}

/// What lies inside a folder is removed before the folder: its path goes on
/// where the folder's path ends.
pub proof fn inside_goes_before_outside(list: Seq<CandidateView>, i: int, j: int, more: Seq<char>)
    requires
        0 <= i < longest_first(list).len(),
        0 <= j < longest_first(list).len(),
        longest_first(list)[i].path == longest_first(list)[j].path + more,
        more.len() > 0,
    ensures
        i < j,
{
    let sizes = path_sizes(list);
    let order = size_order(sizes);
    size_order_is_order(sizes);
    lemma_encode_len(list[order[j]].path, more);
    assert(sizes[order[i]] > sizes[order[j]]);
    if j < i {
        assert(comes_first(sizes, order[j], order[i]));
    }
}

/// Putting backups in the order in which they are removed leaves none out and
/// adds none.
pub proof fn longest_first_keeps_all(list: Seq<CandidateView>, c: CandidateView)
    ensures
        longest_first(list).len() == list.len(),
        longest_first(list).contains(c) <==> list.contains(c),
{
    let sizes = path_sizes(list);
    let order = size_order(sizes);
    size_order_is_order(sizes);
    if list.contains(c) {
        let k = choose|k: int| 0 <= k < list.len() && list[k] == c;
        assert(placed(order, k));
        let i = choose|i: int| 0 <= i < order.len() && #[trigger] order[i] == k;
        assert(longest_first(list)[i] == c);
    }
    if longest_first(list).contains(c) {
        let i = choose|i: int| 0 <= i < longest_first(list).len() && longest_first(list)[i] == c;
        assert(0 <= order[i] < list.len());
        assert(list[order[i]] == c);
    }
}

/// The backups of a folder rule lie in the folder that is looked through for
/// them: the one of the side's name in the backup folder.
pub proof fn folder_backups_are_found_again(
    side: PathView,
    base: Seq<char>,
    key: Seq<char>,
    stamp: Seq<char>,
)
    requires
        side.parent is Some,
        file_name_of(side.components) == Some(base),
        key_names(key).len() > 0,
    ensures
        backup_plan(RuleKind::Folder, side, Some(key), stamp) matches Ok(plan) && plan.file.parent
            == side.parent->0 && plan.file.names.len() == 2 + key_names(key).len()
            && plan.file.names[0] == ".back"@ && plan.file.names[1] == base && (backup_scope(
            RuleKind::Folder,
            side,
        ) matches Some(scope) && scope.parent == plan.file.parent && scope.names
            == plan.file.names.take(2))
            && plan.file.names.drop_last() == plan.folder.names && is_backup_name(
            key_names(key).last(),
            plan.file.names.last(),
        ),
{
    backup_names_are_recognised(key_names(key).last(), stamp);
    let names = seq![".back"@].push(base) + key_names(key);
    assert(names.last() == key_names(key).last());
    let stamped_names = names.drop_last().push(backup_name(names.last(), stamp));
    assert(stamped_names.drop_last() =~= names.drop_last());
    assert(stamped_names.take(2) =~= seq![".back"@].push(base));
}

} // verus!
