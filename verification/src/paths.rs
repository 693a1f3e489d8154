//! Paths: what they are made of, when two are the same and when one lies
//! inside the other.
//!
//! How a text splits into components depends on the system, so what is said of
//! a path is said of its components.
use crate::text::{has_prefix, joined, order_of, same_text, text_order, texts, Order};
use vstd::prelude::*;
use vstd::string::*;

verus! {

broadcast use vstd::string::group_string_axioms;

/// What a prefix of a path means.
#[derive(Debug)]
pub enum PrefixKind {
    Verbatim(String),
    VerbatimUNC(String, String),
    VerbatimDisk(u8),
    DeviceNS(String),
    UNC(String, String),
    Disk(u8),
}

pub enum PrefixView {
    Verbatim(Seq<char>),
    VerbatimUNC(Seq<char>, Seq<char>),
    VerbatimDisk(u8),
    DeviceNS(Seq<char>),
    UNC(Seq<char>, Seq<char>),
    Disk(u8),
}

impl View for PrefixKind {
    type V = PrefixView;

    open spec fn view(&self) -> PrefixView {
        match *self {
            PrefixKind::Verbatim(name) => PrefixView::Verbatim(name@),
            PrefixKind::VerbatimUNC(server, share) => PrefixView::VerbatimUNC(server@, share@),
            PrefixKind::VerbatimDisk(letter) => PrefixView::VerbatimDisk(letter),
            PrefixKind::DeviceNS(name) => PrefixView::DeviceNS(name@),
            PrefixKind::UNC(server, share) => PrefixView::UNC(server@, share@),
            PrefixKind::Disk(letter) => PrefixView::Disk(letter),
        }
    }
}

fn clone_prefix(kind: &PrefixKind) -> (r: PrefixKind)
    ensures
        r@ == kind@,
{
    match kind {
        PrefixKind::Verbatim(name) => PrefixKind::Verbatim(name.clone()),
        PrefixKind::VerbatimUNC(server, share) => PrefixKind::VerbatimUNC(
            server.clone(),
            share.clone(),
        ),
        PrefixKind::VerbatimDisk(letter) => PrefixKind::VerbatimDisk(*letter),
        PrefixKind::DeviceNS(name) => PrefixKind::DeviceNS(name.clone()),
        PrefixKind::UNC(server, share) => PrefixKind::UNC(server.clone(), share.clone()),
        PrefixKind::Disk(letter) => PrefixKind::Disk(*letter),
    }
}

/// A component of a path. Of a prefix such as a drive it is kept how it is
/// written, and in `kind` what it means: two prefixes may be written
/// differently and mean the same.
#[derive(Debug)]
pub enum PathComponent {
    Prefix { text: String, kind: PrefixKind },
    RootDir,
    CurDir,
    ParentDir,
    Normal(String),
}

pub enum ComponentView {
    Prefix { text: Seq<char>, kind: PrefixView },
    RootDir,
    CurDir,
    ParentDir,
    Normal(Seq<char>),
}

impl View for PathComponent {
    type V = ComponentView;

    open spec fn view(&self) -> ComponentView {
        match *self {
            PathComponent::Prefix { text, kind } => ComponentView::Prefix { text: text@, kind: kind@ },
            PathComponent::RootDir => ComponentView::RootDir,
            PathComponent::CurDir => ComponentView::CurDir,
            PathComponent::ParentDir => ComponentView::ParentDir,
            PathComponent::Normal(name) => ComponentView::Normal(name@),
        }
    }
}

pub open spec fn component_views(components: Seq<PathComponent>) -> Seq<ComponentView> {
    components.map_values(|c: PathComponent| c@)
}

/// A copy of a component.
pub fn clone_component(c: &PathComponent) -> (r: PathComponent)
    ensures
        r@ == c@,
{
    match c {
        PathComponent::Prefix { text, kind } => PathComponent::Prefix {
            text: text.clone(),
            kind: clone_prefix(kind),
        },
        PathComponent::RootDir => PathComponent::RootDir,
        PathComponent::CurDir => PathComponent::CurDir,
        PathComponent::ParentDir => PathComponent::ParentDir,
        PathComponent::Normal(name) => PathComponent::Normal(name.clone()),
    }
}

/// The text `text` in lower case.
pub uninterp spec fn lowercase(text: Seq<char>) -> Seq<char>;

/// Calls `str::to_lowercase`. The result is a function of the text.
#[verifier::external_body]
fn std_lowercase(text: &str) -> (r: String)
    ensures
        r@ == lowercase(text@),
{
    text.to_lowercase()
}

/// A path that every system reads alike: what a backslash, a colon or two
/// leading slashes mean depends on the system.
pub open spec fn is_plain_path(text: Seq<char>) -> bool {
    &&& !text.contains('\\')
    &&& !text.contains(':')
    &&& !(text.len() >= 2 && text[0] == '/' && text[1] == '/')
}

/// Whether a plain path begins at the root.
pub open spec fn has_root(text: Seq<char>) -> bool {
    text.len() > 0 && text[0] == '/'
}

/// The components that the names between slashes stand for: `..` is the folder
/// above, and `.` is nothing.
pub open spec fn named_components(names: Seq<Seq<char>>) -> Seq<ComponentView>
    decreases names.len(),
{
    if names.len() == 0 {
        Seq::empty()
    } else {
        let before = named_components(names.drop_last());
        if names.last() == "."@ {
            before
        } else if names.last() == ".."@ {
            before.push(ComponentView::ParentDir)
        } else {
            before.push(ComponentView::Normal(names.last()))
        }
    }
}

/// The components of a plain path: the root, or a `.` at the very beginning,
/// and then the names.
pub open spec fn plain_components(text: Seq<char>) -> Seq<ComponentView> {
    let names = key_names(text);
    if has_root(text) {
        seq![ComponentView::RootDir] + named_components(names)
    } else if names.len() > 0 && names[0] == "."@ {
        seq![ComponentView::CurDir] + named_components(names)
    } else {
        named_components(names)
    }
}

/// Whether `parent` is a plain path without its last component; the root and
/// the empty path have no parent.
pub open spec fn is_plain_parent(text: Seq<char>, parent: Option<Seq<char>>) -> bool {
    let whole = plain_components(text);
    match parent {
        None => whole.len() == 0 || whole.last() == ComponentView::RootDir,
        Some(above) => {
            &&& whole.len() > 0 && whole.last() != ComponentView::RootDir
            &&& has_prefix(text, above)
            &&& plain_components(above) == whole.drop_last()
        },
    }
}

/// `std::path::Prefix`, opaque: what it means is named by `prefix_kind`.
#[verifier::external_type_specification]
#[verifier::external_body]
pub struct ExPrefix<'a>(std::path::Prefix<'a>);

/// What a `std::path::Prefix` means.
pub uninterp spec fn prefix_kind(prefix: std::path::Prefix) -> PrefixView;

/// Tells the variants of a `std::path::Prefix` apart and writes down what is inside.
#[verifier::external_body]
fn open_prefix(prefix: &std::path::Prefix) -> (r: PrefixKind)
    ensures
        r@ == prefix_kind(*prefix),
{
    match prefix {
        std::path::Prefix::Verbatim(a) => PrefixKind::Verbatim(a.to_string_lossy().into_owned()),
        std::path::Prefix::VerbatimUNC(a, b) => PrefixKind::VerbatimUNC(
            a.to_string_lossy().into_owned(),
            b.to_string_lossy().into_owned(),
        ),
        std::path::Prefix::VerbatimDisk(a) => PrefixKind::VerbatimDisk(*a),
        std::path::Prefix::DeviceNS(a) => PrefixKind::DeviceNS(a.to_string_lossy().into_owned()),
        std::path::Prefix::UNC(a, b) => PrefixKind::UNC(
            a.to_string_lossy().into_owned(),
            b.to_string_lossy().into_owned(),
        ),
        std::path::Prefix::Disk(a) => PrefixKind::Disk(*a),
    }
}

/// A component as `std::path` gives it.
enum RawComponent<'a> {
    Prefix { text: String, prefix: std::path::Prefix<'a> },
    RootDir,
    CurDir,
    ParentDir,
    Normal(String),
}

spec fn raw_view(raw: RawComponent) -> ComponentView {
    match raw {
        RawComponent::Prefix { text, prefix } => ComponentView::Prefix {
            text: text@,
            kind: prefix_kind(prefix),
        },
        RawComponent::RootDir => ComponentView::RootDir,
        RawComponent::CurDir => ComponentView::CurDir,
        RawComponent::ParentDir => ComponentView::ParentDir,
        RawComponent::Normal(name) => ComponentView::Normal(name@),
    }
}

/// Calls `std::path::Path::components` and writes each component down. Repeated
/// slashes, a slash at the end and every `.` but one at the beginning are
/// passed over. Of a path that systems read differently nothing is said.
#[verifier::external_body]
fn std_components<'a>(path: &'a str) -> (r: Vec<RawComponent<'a>>)
    ensures
        is_plain_path(path@) ==> r@.map_values(|raw: RawComponent| raw_view(raw))
            == plain_components(path@),
{
    let name = |part: &std::path::Component| part.as_os_str().to_string_lossy().into_owned();
    std::path::Path::new(path).components().map(|part| match part {
        std::path::Component::Prefix(prefix) => RawComponent::Prefix {
            text: name(&part),
            prefix: prefix.kind(),
        },
        std::path::Component::RootDir => RawComponent::RootDir,
        std::path::Component::CurDir => RawComponent::CurDir,
        std::path::Component::ParentDir => RawComponent::ParentDir,
        std::path::Component::Normal(_) => RawComponent::Normal(name(&part)),
    }).collect()
}

/// The components of a path, as the system reads them.
fn read_components(path: &str) -> (r: Vec<PathComponent>)
    ensures
        is_plain_path(path@) ==> component_views(r@) == plain_components(path@),
{
    let raws = std_components(path);
    let ghost all = raws@.map_values(|raw: RawComponent| raw_view(raw));
    let mut r: Vec<PathComponent> = Vec::new();
    let mut i: usize = 0;
    while i < raws.len()
        invariant
            i <= raws@.len(),
            all == raws@.map_values(|raw: RawComponent| raw_view(raw)),
            component_views(r@) == all.take(i as int),
        decreases raws@.len() - i,
    {
        let ghost before = component_views(r@);
        let component = match &raws[i] {
            RawComponent::Prefix { text, prefix } => PathComponent::Prefix {
                text: text.clone(),
                kind: open_prefix(prefix),
            },
            RawComponent::RootDir => PathComponent::RootDir,
            RawComponent::CurDir => PathComponent::CurDir,
            RawComponent::ParentDir => PathComponent::ParentDir,
            RawComponent::Normal(name) => PathComponent::Normal(name.clone()),
        };
        let ghost added = component@;
        r.push(component);
        proof {
            assert(added == all[i as int]);
            assert(component_views(r@) =~= before.push(added));
            assert(all.take(i + 1) =~= all.take(i as int).push(all[i as int]));
        }
        i = i + 1;
    }
    proof {
        assert(all.take(all.len() as int) =~= all);
    }
    r
}

/// Writes `std::path::MAIN_SEPARATOR` as a text of that one character. Which
/// character it is depends on the system.
#[verifier::external_body]
pub(crate) fn main_separator() -> (r: String)
    ensures
        r@.len() == 1,
{
    std::path::MAIN_SEPARATOR.to_string()
}

/// Calls `std::path::Path::is_absolute`. A plain path that does not begin at the
/// root is not absolute on any system; one that does is absolute on some only,
/// as others ask for a drive too.
#[verifier::external_body]
fn std_is_absolute(path: &str) -> (r: bool)
    ensures
        is_plain_path(path@) && !has_root(path@) ==> !r,
{
    std::path::Path::new(path).is_absolute()
}

/// Calls `std::path::Path::parent` and writes the result down: the path without
/// its last component, if it has one other than the root. Of a path that
/// systems read differently nothing is said.
#[verifier::external_body]
fn std_parent(path: &str) -> (r: Option<String>)
    ensures
        is_plain_path(path@) ==> is_plain_parent(path@, crate::text::opt_text(r)),
{
    std::path::Path::new(path).parent().map(|parent| parent.to_string_lossy().into_owned())
}

/// A path, and what the system makes of its text. `separator` is what the
/// system writes between the components of a path.
#[derive(Debug)]
pub struct ParsedPath {
    pub text: String,
    pub absolute: bool,
    pub components: Vec<PathComponent>,
    pub parent: Option<String>,
    pub separator: String,
}

pub struct PathView {
    pub text: Seq<char>,
    pub absolute: bool,
    pub components: Seq<ComponentView>,
    pub parent: Option<Seq<char>>,
    pub separator: Seq<char>,
}

impl View for ParsedPath {
    type V = PathView;

    open spec fn view(&self) -> PathView {
        PathView {
            text: self.text@,
            absolute: self.absolute,
            components: component_views(self.components@),
            parent: crate::text::opt_text(self.parent),
            separator: self.separator@,
        }
    }
}

/// Whether `path` is what a system may make of a text. What it makes of a plain
/// path is known, but for whether one that begins at the root is absolute.
pub open spec fn is_reading(path: PathView, text: Seq<char>) -> bool {
    &&& path.text == text
    &&& path.separator.len() == 1
    &&& is_plain_path(text) ==> {
        &&& path.components == plain_components(text)
        &&& is_plain_parent(text, path.parent)
        &&& path.absolute ==> has_root(text)
    }
}

impl ParsedPath {
    /// Asks the system what it makes of a text.
    pub fn read(text: &str) -> (r: Self)
        ensures
            is_reading(r@, text@),
    {
        ParsedPath::read_with(text, main_separator())
    }

    /// Asks the system what it makes of a text, where its separator is known.
    pub(crate) fn read_with(text: &str, separator: String) -> (r: Self)
        requires
            separator@.len() == 1,
        ensures
            is_reading(r@, text@),
            r@.separator == separator@,
    {
        ParsedPath {
            text: String::from_str(text),
            absolute: std_is_absolute(text),
            components: read_components(text),
            parent: std_parent(text),
            separator,
        }
    }
}

/// Whether two components mean the same.
pub open spec fn same_component(a: ComponentView, b: ComponentView) -> bool {
    match (a, b) {
        (ComponentView::Prefix { kind: x, .. }, ComponentView::Prefix { kind: y, .. }) => x == y,
        _ => a == b,
    }
}

/// Whether two paths mean the same.
pub open spec fn same_path(a: Seq<ComponentView>, b: Seq<ComponentView>) -> bool {
    a.len() == b.len() && begins_with(a, b)
}

/// Whether `b` is a leading part of `a`, component by component.
pub open spec fn begins_with(a: Seq<ComponentView>, b: Seq<ComponentView>) -> bool {
    &&& b.len() <= a.len()
    &&& forall|i: int| 0 <= i < b.len() ==> same_component(#[trigger] a[i], b[i])
}

fn is_same_prefix(a: &PrefixKind, b: &PrefixKind) -> (r: bool)
    ensures
        r == (a@ == b@),
{
    match (a, b) {
        (PrefixKind::Verbatim(x), PrefixKind::Verbatim(y)) => same_text(x.as_str(), y.as_str()),
        (PrefixKind::VerbatimUNC(x, v), PrefixKind::VerbatimUNC(y, w)) => same_text(
            x.as_str(),
            y.as_str(),
        ) && same_text(v.as_str(), w.as_str()),
        (PrefixKind::VerbatimDisk(x), PrefixKind::VerbatimDisk(y)) => *x == *y,
        (PrefixKind::DeviceNS(x), PrefixKind::DeviceNS(y)) => same_text(x.as_str(), y.as_str()),
        (PrefixKind::UNC(x, v), PrefixKind::UNC(y, w)) => same_text(x.as_str(), y.as_str())
            && same_text(v.as_str(), w.as_str()),
        (PrefixKind::Disk(x), PrefixKind::Disk(y)) => *x == *y,
        _ => false,
    }
}

fn is_same_component(a: &PathComponent, b: &PathComponent) -> (r: bool)
    ensures
        r == same_component(a@, b@),
{
    match (a, b) {
        (PathComponent::Prefix { kind: x, .. }, PathComponent::Prefix { kind: y, .. }) => is_same_prefix(
            x,
            y,
        ),
        (PathComponent::RootDir, PathComponent::RootDir) => true,
        (PathComponent::CurDir, PathComponent::CurDir) => true,
        (PathComponent::ParentDir, PathComponent::ParentDir) => true,
        (PathComponent::Normal(x), PathComponent::Normal(y)) => same_text(x.as_str(), y.as_str()),
        _ => false,
    }
}

/// Whether `b` is a leading part of `a`, component by component.
pub fn path_begins_with(a: &Vec<PathComponent>, b: &Vec<PathComponent>) -> (r: bool)
    ensures
        r == begins_with(component_views(a@), component_views(b@)),
{
    if b.len() > a.len() {
        return false;
    }
    let mut i: usize = 0;
    while i < b.len()
        invariant
            i <= b@.len() <= a@.len(),
            forall|k: int|
                0 <= k < i ==> same_component(
                    #[trigger] component_views(a@)[k],
                    component_views(b@)[k],
                ),
        decreases b@.len() - i,
    {
        if !is_same_component(&a[i], &b[i]) {
            proof {
                assert(!same_component(
                    component_views(a@)[i as int],
                    component_views(b@)[i as int],
                ));
            }
            return false;
        }
        i = i + 1;
    }
    true
}

/// Whether two paths mean the same.
pub fn is_same_path(a: &Vec<PathComponent>, b: &Vec<PathComponent>) -> (r: bool)
    ensures
        r == same_path(component_views(a@), component_views(b@)),
{
    a.len() == b.len() && path_begins_with(a, b)
}

/// The components by which it is told whether folders overlap: in lower case,
/// without the components that stand for a folder relative to another. The
/// root is written as the separator of the system.
pub open spec fn normalized(components: Seq<ComponentView>, separator: Seq<char>) -> Seq<Seq<char>>
    decreases components.len(),
{
    if components.len() == 0 {
        Seq::empty()
    } else {
        let before = normalized(components.drop_last(), separator);
        match components.last() {
            ComponentView::Normal(name) => before.push(lowercase(name)),
            ComponentView::Prefix { text, .. } => before.push(lowercase(text)),
            ComponentView::RootDir => before.push(separator),
            _ => before,
        }
    }
}

/// The components by which it is told whether folders overlap.
pub fn normalized_components(path: &ParsedPath) -> (r: Vec<String>)
    ensures
        texts(r@) == normalized(path@.components, path@.separator),
{
    let components = &path.components;
    let ghost all = path@.components;
    let ghost root = path@.separator;
    let mut r: Vec<String> = Vec::new();
    let mut i: usize = 0;
    proof {
        assert(texts(r@) =~= normalized(all.take(0), root));
    }
    while i < components.len()
        invariant
            i <= components@.len(),
            all == component_views(components@),
            root == path.separator@,
            texts(r@) == normalized(all.take(i as int), root),
        decreases components@.len() - i,
    {
        let ghost before = texts(r@);
        proof {
            assert(all.take(i + 1).drop_last() =~= all.take(i as int));
            assert(all.take(i + 1).last() == components@[i as int]@);
        }
        match &components[i] {
            PathComponent::Normal(name) => {
                r.push(std_lowercase(name.as_str()));
                proof {
                    assert(texts(r@) =~= before.push(lowercase(name@)));
                }
            },
            PathComponent::Prefix { text, .. } => {
                r.push(std_lowercase(text.as_str()));
                proof {
                    assert(texts(r@) =~= before.push(lowercase(text@)));
                }
            },
            PathComponent::RootDir => {
                r.push(path.separator.clone());
                proof {
                    assert(texts(r@) =~= before.push(root));
                }
            },
            _ => {},
        }
        i = i + 1;
    }
    proof {
        assert(all.take(all.len() as int) =~= all);
    }
    r
}

/// Whether one list begins with the other.
pub open spec fn leads(head: Seq<Seq<char>>, list: Seq<Seq<char>>) -> bool {
    head.len() <= list.len() && list.take(head.len() as int) == head
}

fn is_led_by(list: &Vec<String>, head: &Vec<String>) -> (r: bool)
    ensures
        r == leads(texts(head@), texts(list@)),
{
    if head.len() > list.len() {
        return false;
    }
    let mut i: usize = 0;
    while i < head.len()
        invariant
            i <= head@.len() <= list@.len(),
            forall|k: int| 0 <= k < i ==> (#[trigger] head@[k])@ == list@[k]@,
        decreases head@.len() - i,
    {
        if !same_text(head[i].as_str(), list[i].as_str()) {
            proof {
                assert(texts(list@).take(head@.len() as int)[i as int] != texts(head@)[i as int]);
            }
            return false;
        }
        i = i + 1;
    }
    proof {
        assert(texts(list@).take(head@.len() as int) =~= texts(head@));
    }
    true
}

/// Whether one of two lists begins with the other.
pub fn lists_overlap(a: &Vec<String>, b: &Vec<String>) -> (r: bool)
    ensures
        r == (leads(texts(a@), texts(b@)) || leads(texts(b@), texts(a@))),
{
    is_led_by(a, b) || is_led_by(b, a)
}

/// Whether one of two folders lies in the other, or they are the same.
pub open spec fn overlap(source: PathView, target: PathView) -> bool {
    let a = normalized(source.components, source.separator);
    let b = normalized(target.components, target.separator);
    leads(b, a) || leads(a, b)
}

/// Whether one of two folders lies in the other, or they are the same.
pub fn paths_overlap(source: &ParsedPath, target: &ParsedPath) -> (r: bool)
    ensures
        r == overlap(source@, target@),
{
    lists_overlap(&normalized_components(source), &normalized_components(target))
}

/// Overlapping goes both ways.
pub proof fn overlap_is_mutual(a: PathView, b: PathView)
    ensures
        overlap(a, b) == overlap(b, a),
{
}

proof fn lemma_normalized_grows(
    a: Seq<ComponentView>,
    more: Seq<ComponentView>,
    separator: Seq<char>,
)
    ensures
        leads(normalized(a, separator), normalized(a + more, separator)),
    decreases more.len(),
{
    let short = normalized(a, separator);
    let n = short.len() as int;
    if more.len() == 0 {
        assert(a + more =~= a);
        assert(short.take(n) =~= short);
    } else {
        lemma_normalized_grows(a, more.drop_last(), separator);
        assert((a + more).drop_last() =~= a + more.drop_last());
        assert(normalized(a + more, separator).take(n) =~= normalized(
            a + more.drop_last(),
            separator,
        ).take(n));
    }
}

/// A folder overlaps with everything inside it, and with itself.
pub proof fn folder_overlaps_its_inside(folder: PathView, inside: PathView, more: Seq<ComponentView>)
    requires
        inside.components == folder.components + more,
        inside.separator == folder.separator,
    ensures
        overlap(folder, inside),
        overlap(inside, folder),
{
    lemma_normalized_grows(folder.components, more, folder.separator);
}

/// The names among the components, with `/` between them.
pub open spec fn relative_key(components: Seq<ComponentView>) -> Seq<char> {
    joined(normal_names(components), "/"@)
}

pub open spec fn normal_names(components: Seq<ComponentView>) -> Seq<Seq<char>>
    decreases components.len(),
{
    if components.len() == 0 {
        Seq::empty()
    } else {
        let before = normal_names(components.drop_last());
        match components.last() {
            ComponentView::Normal(name) => before.push(name),
            _ => before,
        }
    }
}

/// How a file in a folder is called by its way from the folder: the names on
/// the way, with `/` between them on every system.
pub fn normalize_relative(components: &Vec<PathComponent>) -> (r: String)
    ensures
        r@ == relative_key(component_views(components@)),
{
    let ghost all = component_views(components@);
    let mut names: Vec<String> = Vec::new();
    let mut i: usize = 0;
    proof {
        assert(texts(names@) =~= normal_names(all.take(0)));
    }
    while i < components.len()
        invariant
            i <= components@.len(),
            all == component_views(components@),
            texts(names@) == normal_names(all.take(i as int)),
        decreases components@.len() - i,
    {
        let ghost before = texts(names@);
        proof {
            assert(all.take(i + 1).drop_last() =~= all.take(i as int));
            assert(all.take(i + 1).last() == components@[i as int]@);
        }
        if let PathComponent::Normal(name) = &components[i] {
            names.push(name.clone());
            proof {
                assert(texts(names@) =~= before.push(name@));
            }
        }
        i = i + 1;
    }
    proof {
        assert(all.take(all.len() as int) =~= all);
    }
    crate::text::join(&names, "/")
}

/// The last component of a path, where it is a name.
pub open spec fn file_name_of(components: Seq<ComponentView>) -> Option<Seq<char>> {
    if components.len() == 0 {
        None
    } else {
        match components.last() {
            ComponentView::Normal(name) => Some(name),
            _ => None,
        }
    }
}

/// The last component of a path, where it is a name.
pub fn file_name(components: &Vec<PathComponent>) -> (r: Option<String>)
    ensures
        crate::text::opt_text(r) == file_name_of(component_views(components@)),
{
    if components.len() == 0 {
        return None;
    }
    match &components[components.len() - 1] {
        PathComponent::Normal(name) => Some(name.clone()),
        _ => None,
    }
}

/// Where the last dot in `s` stands, if there is one.
pub open spec fn last_dot(s: Seq<char>) -> Option<int>
    decreases s.len(),
{
    if s.len() == 0 {
        None
    } else if s.last() == '.' {
        Some(s.len() - 1)
    } else {
        last_dot(s.drop_last())
    }
}

/// A file name cut at its last dot, where that is not its first character: the
/// stem before the dot, and the extension behind it.
pub open spec fn split_name(name: Seq<char>) -> (Seq<char>, Option<Seq<char>>) {
    match last_dot(name) {
        Some(at) => if at == 0 || name == ".."@ {
            (name, None)
        } else {
            (name.take(at), Some(name.skip(at + 1)))
        },
        None => (name, None),
    }
}

proof fn lemma_last_dot(s: Seq<char>, at: int)
    requires
        0 <= at < s.len(),
        s[at] == '.',
        forall|k: int| at < k < s.len() ==> s[k] != '.',
    ensures
        last_dot(s) == Some(at),
    decreases s.len(),
{
    if at < s.len() - 1 {
        lemma_last_dot(s.drop_last(), at);
    }
}

proof fn lemma_no_dot(s: Seq<char>)
    requires
        forall|k: int| 0 <= k < s.len() ==> s[k] != '.',
    ensures
        last_dot(s) is None,
    decreases s.len(),
{
    if s.len() > 0 {
        lemma_no_dot(s.drop_last());
    }
}

/// The stem and the extension of a file name.
pub fn split_file_name(name: &str) -> (r: (String, Option<String>))
    ensures
        (r.0@, crate::text::opt_text(r.1)) == split_name(name@),
{
    let n: usize = name.unicode_len();
    let mut at: usize = n;
    while at > 0
        invariant
            at <= n == name@.len(),
            forall|k: int| at <= k < n ==> name@[k] != '.',
        decreases at,
    {
        if name.get_char(at - 1) == '.' {
            proof {
                lemma_last_dot(name@, at - 1);
            }
            if at == 1 || same_text(name, "..") {
                return (String::from_str(name), None);
            }
            let stem = name.substring_char(0, at - 1);
            let extension = name.substring_char(at, n);
            proof {
                assert(stem@ =~= name@.take(at - 1));
                assert(extension@ =~= name@.skip(at as int));
            }
            return (String::from_str(stem), Some(String::from_str(extension)));
        }
        at = at - 1;
    }
    proof {
        lemma_no_dot(name@);
    }
    (String::from_str(name), None)
}

/// Where the first `/` in `s` stands; behind the last character where there is none.
pub open spec fn first_slash(s: Seq<char>) -> int
    decreases s.len(),
{
    if s.len() == 0 || s[0] == '/' {
        0
    } else {
        1 + first_slash(s.skip(1))
    }
}

/// The names between the slashes of `s`, in order.
pub open spec fn key_names(s: Seq<char>) -> Seq<Seq<char>>
    decreases s.len(),
{
    if s.len() == 0 {
        Seq::empty()
    } else {
        let n = first_slash(s);
        if n <= 0 {
            key_names(s.skip(1))
        } else if n < s.len() {
            seq![s.take(n)] + key_names(s.skip(n + 1))
        } else {
            seq![s]
        }
    }
}

proof fn lemma_first_slash(s: Seq<char>, n: int)
    requires
        0 <= n <= s.len(),
        forall|k: int| 0 <= k < n ==> s[k] != '/',
        n < s.len() ==> s[n] == '/',
    ensures
        first_slash(s) == n,
    decreases n,
{
    if n > 0 {
        assert forall|k: int| 0 <= k < n - 1 implies s.skip(1)[k] != '/' by {
            assert(s[k + 1] != '/');
        }
        lemma_first_slash(s.skip(1), n - 1);
    }
}

/// The names between the slashes of a relative path.
pub fn split_key(key: &str) -> (r: Vec<String>)
    ensures
        texts(r@) == key_names(key@),
{
    let n: usize = key.unicode_len();
    let mut r: Vec<String> = Vec::new();
    let mut start: usize = 0;
    proof {
        assert(key@.skip(0) =~= key@);
        assert(texts(r@) + key_names(key@) =~= key_names(key@));
    }
    while start < n
        invariant
            start <= n == key@.len(),
            texts(r@) + key_names(key@.skip(start as int)) == key_names(key@),
        decreases n - start,
    {
        let mut end: usize = start;
        while end < n && key.get_char(end) != '/'
            invariant
                start <= end <= n == key@.len(),
                forall|k: int| start <= k < end ==> key@[k] != '/',
            ensures
                start <= end <= n,
                forall|k: int| start <= k < end ==> key@[k] != '/',
                end < n ==> key@[end as int] == '/',
            decreases n - end,
        {
            end = end + 1;
        }
        let ghost rest = key@.skip(start as int);
        let ghost before = texts(r@);
        proof {
            lemma_first_slash(rest, end - start);
            if end < n {
                assert(rest.skip(end - start + 1) =~= key@.skip(end + 1));
            }
        }
        if end > start {
            let name = key.substring_char(start, end);
            r.push(String::from_str(name));
            proof {
                assert(name@ =~= rest.take(end - start));
                assert(texts(r@) =~= before.push(name@));
                if end < n {
                    assert(before + (seq![name@] + key_names(key@.skip(end + 1))) =~= texts(r@)
                        + key_names(key@.skip(end + 1)));
                } else {
                    assert(name@ =~= rest);
                    assert(before + seq![name@] =~= texts(r@));
                    assert(texts(r@) + Seq::<Seq<char>>::empty() =~= texts(r@));
                }
            }
        }
        if end < n {
            start = end + 1;
        } else {
            start = n;
            proof {
                assert(key@.skip(n as int).len() == 0);
            }
        }
    }
    proof {
        assert(texts(r@) + Seq::<Seq<char>>::empty() =~= texts(r@));
    }
    r
}

/// The place of a component among those of other sorts.
pub open spec fn component_rank(c: ComponentView) -> int {
    match c {
        ComponentView::Prefix { .. } => 0,
        ComponentView::RootDir => 1,
        ComponentView::CurDir => 2,
        ComponentView::ParentDir => 3,
        ComponentView::Normal(_) => 4,
    }
}

/// The place of a prefix among those of other sorts.
pub open spec fn prefix_rank(kind: PrefixView) -> int {
    match kind {
        PrefixView::Verbatim(_) => 0,
        PrefixView::VerbatimUNC(_, _) => 1,
        PrefixView::VerbatimDisk(_) => 2,
        PrefixView::DeviceNS(_) => 3,
        PrefixView::UNC(_, _) => 4,
        PrefixView::Disk(_) => 5,
    }
}

/// How two pairs of texts stand to each other: by the first ones, then by the second.
pub open spec fn pair_order(a: (Seq<char>, Seq<char>), b: (Seq<char>, Seq<char>)) -> Order {
    match text_order(a.0, b.0) {
        Order::Equal => text_order(a.1, b.1),
        other => other,
    }
}

pub open spec fn number_order(a: int, b: int) -> Order {
    if a < b {
        Order::Less
    } else if a > b {
        Order::Greater
    } else {
        Order::Equal
    }
}

/// How two prefixes stand to each other: by their sorts first, then by what is
/// inside. How they are written does not count.
pub open spec fn prefix_order(a: PrefixView, b: PrefixView) -> Order {
    match (a, b) {
        (PrefixView::Verbatim(x), PrefixView::Verbatim(y)) => text_order(x, y),
        (PrefixView::VerbatimUNC(x, v), PrefixView::VerbatimUNC(y, w)) => pair_order(
            (x, v),
            (y, w),
        ),
        (PrefixView::VerbatimDisk(x), PrefixView::VerbatimDisk(y)) => number_order(
            x as int,
            y as int,
        ),
        (PrefixView::DeviceNS(x), PrefixView::DeviceNS(y)) => text_order(x, y),
        (PrefixView::UNC(x, v), PrefixView::UNC(y, w)) => pair_order((x, v), (y, w)),
        (PrefixView::Disk(x), PrefixView::Disk(y)) => number_order(x as int, y as int),
        _ => number_order(prefix_rank(a), prefix_rank(b)),
    }
}

/// How two components stand to each other: by their sorts first, then by what
/// they mean.
pub open spec fn component_order(a: ComponentView, b: ComponentView) -> Order {
    if component_rank(a) < component_rank(b) {
        Order::Less
    } else if component_rank(a) > component_rank(b) {
        Order::Greater
    } else {
        match (a, b) {
            (ComponentView::Prefix { kind: x, .. }, ComponentView::Prefix { kind: y, .. }) => prefix_order(
                x,
                y,
            ),
            (ComponentView::Normal(x), ComponentView::Normal(y)) => text_order(x, y),
            _ => Order::Equal,
        }
    }
}

/// How two paths stand to each other: by their first components that differ.
pub open spec fn path_order(a: Seq<ComponentView>, b: Seq<ComponentView>) -> Order
    decreases a.len(),
{
    if a.len() == 0 {
        if b.len() == 0 {
            Order::Equal
        } else {
            Order::Less
        }
    } else if b.len() == 0 {
        Order::Greater
    } else {
        match component_order(a[0], b[0]) {
            Order::Equal => path_order(a.skip(1), b.skip(1)),
            other => other,
        }
    }
}

fn rank_of(c: &PathComponent) -> (r: u8)
    ensures
        r == component_rank(c@),
{
    match c {
        PathComponent::Prefix { .. } => 0,
        PathComponent::RootDir => 1,
        PathComponent::CurDir => 2,
        PathComponent::ParentDir => 3,
        PathComponent::Normal(_) => 4,
    }
}

fn rank_of_prefix(kind: &PrefixKind) -> (r: u8)
    ensures
        r == prefix_rank(kind@),
{
    match kind {
        PrefixKind::Verbatim(_) => 0,
        PrefixKind::VerbatimUNC(_, _) => 1,
        PrefixKind::VerbatimDisk(_) => 2,
        PrefixKind::DeviceNS(_) => 3,
        PrefixKind::UNC(_, _) => 4,
        PrefixKind::Disk(_) => 5,
    }
}

fn order_of_numbers(a: u8, b: u8) -> (r: Order)
    ensures
        r == number_order(a as int, b as int),
{
    if a < b {
        Order::Less
    } else if a > b {
        Order::Greater
    } else {
        Order::Equal
    }
}

fn order_of_pairs(a: (&str, &str), b: (&str, &str)) -> (r: Order)
    ensures
        r == pair_order((a.0@, a.1@), (b.0@, b.1@)),
{
    match order_of(a.0, b.0) {
        Order::Equal => order_of(a.1, b.1),
        other => other,
    }
}

/// How two prefixes stand to each other.
fn order_of_prefixes(a: &PrefixKind, b: &PrefixKind) -> (r: Order)
    ensures
        r == prefix_order(a@, b@),
{
    match (a, b) {
        (PrefixKind::Verbatim(x), PrefixKind::Verbatim(y)) => order_of(x.as_str(), y.as_str()),
        (PrefixKind::VerbatimUNC(x, v), PrefixKind::VerbatimUNC(y, w)) => order_of_pairs(
            (x.as_str(), v.as_str()),
            (y.as_str(), w.as_str()),
        ),
        (PrefixKind::VerbatimDisk(x), PrefixKind::VerbatimDisk(y)) => order_of_numbers(*x, *y),
        (PrefixKind::DeviceNS(x), PrefixKind::DeviceNS(y)) => order_of(x.as_str(), y.as_str()),
        (PrefixKind::UNC(x, v), PrefixKind::UNC(y, w)) => order_of_pairs(
            (x.as_str(), v.as_str()),
            (y.as_str(), w.as_str()),
        ),
        (PrefixKind::Disk(x), PrefixKind::Disk(y)) => order_of_numbers(*x, *y),
        _ => order_of_numbers(rank_of_prefix(a), rank_of_prefix(b)),
    }
}

fn order_of_components(a: &PathComponent, b: &PathComponent) -> (r: Order)
    ensures
        r == component_order(a@, b@),
{
    let x: u8 = rank_of(a);
    let y: u8 = rank_of(b);
    if x < y {
        return Order::Less;
    }
    if x > y {
        return Order::Greater;
    }
    match (a, b) {
        (PathComponent::Prefix { kind: x, .. }, PathComponent::Prefix { kind: y, .. }) => order_of_prefixes(
            x,
            y,
        ),
        (PathComponent::Normal(x), PathComponent::Normal(y)) => order_of(x.as_str(), y.as_str()),
        _ => Order::Equal,
    }
}

/// How two paths stand to each other.
pub fn order_of_paths(a: &Vec<PathComponent>, b: &Vec<PathComponent>) -> (r: Order)
    ensures
        r == path_order(component_views(a@), component_views(b@)),
{
    let ghost x = component_views(a@);
    let ghost y = component_views(b@);
    let mut i: usize = 0;
    proof {
        assert(x.skip(0) =~= x);
        assert(y.skip(0) =~= y);
    }
    while i < a.len() && i < b.len()
        invariant
            i <= a@.len(),
            i <= b@.len(),
            x == component_views(a@),
            y == component_views(b@),
            path_order(x.skip(i as int), y.skip(i as int)) == path_order(x, y),
        decreases a@.len() - i,
    {
        proof {
            assert(x.skip(i as int).skip(1) =~= x.skip(i + 1));
            assert(y.skip(i as int).skip(1) =~= y.skip(i + 1));
            assert(x.skip(i as int)[0] == a@[i as int]@);
            assert(y.skip(i as int)[0] == b@[i as int]@);
        }
        let order = order_of_components(&a[i], &b[i]);
        if order != Order::Equal {
            return order;
        }
        i = i + 1;
    }
    if i < a.len() {
        Order::Greater
    } else if i < b.len() {
        Order::Less
    } else {
        Order::Equal
    }
}

} // verus!
