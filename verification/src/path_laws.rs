//! What the names and the components of paths come to.
use crate::paths::{
    component_order, file_name_of, first_slash, key_names, last_dot, leads, lowercase, normal_names,
    normalized, overlap, path_order, prefix_order, relative_key, same_path, split_name,
    ComponentView, PathView, PrefixView,
};
use crate::text::{joined, text_order, text_order_equal, Order};
use vstd::prelude::*;
use vstd::string::*;

verus! {

proof fn lemma_dot(s: Seq<char>)
    ensures
        match last_dot(s) {
            Some(at) => 0 <= at < s.len() && s[at] == '.' && forall|k: int|
                at < k < s.len() ==> s[k] != '.',
            None => forall|k: int| 0 <= k < s.len() ==> s[k] != '.',
        },
    decreases s.len(),
{
    if s.len() > 0 && s.last() != '.' {
        let front = s.drop_last();
        lemma_dot(front);
        assert forall|k: int| 0 <= k < front.len() implies front[k] == s[k] by {}
    }
}

/// A file name with an extension is its stem, a dot and the extension, which
/// has no dot in it; the stem is not empty. A name without an extension is its
/// own stem, and has no dot but at its beginning, unless it is `..`.
pub proof fn name_is_stem_and_extension(name: Seq<char>)
    ensures
        match split_name(name).1 {
            Some(extension) => {
                &&& name == split_name(name).0 + seq!['.'] + extension
                &&& split_name(name).0.len() > 0
                &&& name != seq!['.', '.']
                &&& forall|k: int| 0 <= k < extension.len() ==> extension[k] != '.'
            },
            None => {
                &&& split_name(name).0 == name
                &&& name == seq!['.', '.'] || forall|k: int| 0 < k < name.len() ==> name[k] != '.'
            },
        },
{
    lemma_dot(name);
    reveal_strlit("..");
    assert(".."@ =~= seq!['.', '.']);
    if let Some(at) = last_dot(name) {
        if at != 0 && name != ".."@ {
            assert(name =~= name.take(at) + seq!['.'] + name.skip(at + 1));
        }
    }
}

proof fn lemma_slash(s: Seq<char>)
    ensures
        0 <= first_slash(s) <= s.len(),
        forall|k: int| 0 <= k < first_slash(s) ==> s[k] != '/',
        first_slash(s) < s.len() ==> s[first_slash(s)] == '/',
    decreases s.len(),
{
    if s.len() > 0 && s[0] != '/' {
        let rest = s.skip(1);
        lemma_slash(rest);
        assert forall|k: int| 0 <= k < first_slash(s) implies s[k] != '/' by {
            if k > 0 {
                assert(rest[k - 1] == s[k]);
            }
        }
    }
}

/// Behind a name that ends at a slash come the names of the rest.
proof fn lemma_first_name(name: Seq<char>, rest: Seq<char>)
    requires
        name.len() > 0,
        forall|k: int| 0 <= k < name.len() ==> name[k] != '/',
    ensures
        key_names(name + seq!['/'] + rest) == seq![name] + key_names(rest),
{
    let s = name + seq!['/'] + rest;
    lemma_slash(s);
    assert(s[name.len() as int] == '/');
    if first_slash(s) < name.len() {
        assert(s[first_slash(s)] == name[first_slash(s)]);
    }
    assert(s.take(name.len() as int) =~= name);
    assert(s.skip(name.len() as int + 1) =~= rest);
}

proof fn lemma_joined_front(names: Seq<Seq<char>>, sep: Seq<char>)
    requires
        names.len() > 1,
    ensures
        joined(names, sep) == names[0] + sep + joined(names.skip(1), sep),
    decreases names.len(),
{
    reveal_with_fuel(joined, 3);
    let rest = names.skip(1);
    let front = names.drop_last();
    if names.len() == 2 {
        assert(front[0] == names[0]);
        assert(rest[0] == names.last());
    } else {
        lemma_joined_front(front, sep);
        assert(front.skip(1) =~= rest.drop_last());
        assert(joined(names, sep) =~= names[0] + sep + joined(rest, sep));
    }
}

/// The names on a way through folders can be read off how the way is written:
/// the text that they make with slashes between them gives them back.
pub proof fn names_can_be_read_back(names: Seq<Seq<char>>)
    requires
        forall|i: int, k: int|
            0 <= i < names.len() && 0 <= k < (#[trigger] names[i]).len() ==> #[trigger] names[i][k]
                != '/',
        forall|i: int| 0 <= i < names.len() ==> (#[trigger] names[i]).len() > 0,
    ensures
        key_names(joined(names, "/"@)) == names,
    decreases names.len(),
{
    reveal_strlit("/");
    assert("/"@ =~= seq!['/']);
    if names.len() == 0 {
        assert(key_names(joined(names, "/"@)) =~= names);
    } else if names.len() == 1 {
        let s = names[0];
        lemma_slash(s);
        if first_slash(s) < s.len() {
            assert(names[0][first_slash(s)] != '/');
        }
        assert(key_names(s) =~= names);
    } else {
        let rest = names.skip(1);
        assert forall|i: int, k: int|
            0 <= i < rest.len() && 0 <= k < (#[trigger] rest[i]).len() implies #[trigger] rest[i][k]
            != '/' by {
            assert(names[i + 1][k] != '/');
        }
        assert forall|i: int| 0 <= i < rest.len() implies (#[trigger] rest[i]).len() > 0 by {
            assert(names[i + 1].len() > 0);
        }
        names_can_be_read_back(rest);
        lemma_joined_front(names, "/"@);
        assert forall|k: int| 0 <= k < names[0].len() implies names[0][k] != '/' by {}
        lemma_first_name(names[0], joined(rest, "/"@));
        assert(seq![names[0]] + rest =~= names);
    }
}

/// No name between slashes is empty or has a slash in it.
pub proof fn names_have_no_slashes(s: Seq<char>, i: int, k: int)
    requires
        0 <= i < key_names(s).len(),
    ensures
        key_names(s)[i].len() > 0,
        0 <= k < key_names(s)[i].len() ==> key_names(s)[i][k] != '/',
    decreases s.len(),
{
    let n = first_slash(s);
    lemma_slash(s);
    if n <= 0 {
        names_have_no_slashes(s.skip(1), i, k);
    } else if n < s.len() {
        if i > 0 {
            names_have_no_slashes(s.skip(n + 1), i - 1, k);
        }
    }
}

/// Of the components of a way through folders the names count, and nothing else
/// does: a component that is no name is passed over, and a name is added at the
/// end of those before it.
pub proof fn only_names_make_a_way(components: Seq<ComponentView>, more: ComponentView)
    ensures
        normal_names(Seq::empty()) == Seq::<Seq<char>>::empty(),
        more matches ComponentView::Normal(name) ==> normal_names(components.push(more))
            == normal_names(components).push(name),
        !(more is Normal) ==> normal_names(components.push(more)) == normal_names(components),
        relative_key(components) == joined(normal_names(components), "/"@),
        file_name_of(components.push(more)) == match more {
            ComponentView::Normal(name) => Some(name),
            _ => None::<Seq<char>>,
        },
{
    assert(components.push(more).drop_last() =~= components);
}

/// Where folders are compared, names and prefixes count in lower case, and the
/// root counts as the separator of the system, each in its place.
pub proof fn components_count_in_lower_case(components: Seq<ComponentView>, separator: Seq<char>, i: int)
    requires
        0 <= i < components.len(),
        forall|k: int|
            0 <= k <= i ==> !((#[trigger] components[k]) is CurDir) && !(components[k] is ParentDir),
    ensures
        normalized(components, separator).len() > i,
        normalized(components, separator)[i] == match components[i] {
            ComponentView::Normal(name) => lowercase(name),
            ComponentView::Prefix { text, .. } => lowercase(text),
            _ => separator,
        },
        (forall|k: int|
            0 <= k < components.len() ==> !((#[trigger] components[k]) is CurDir) && !(
            components[k] is ParentDir)) ==> normalized(components, separator).len()
            == components.len(),
    decreases components.len(),
{
    let front = components.drop_last();
    assert forall|k: int| 0 <= k < front.len() implies front[k] == #[trigger] components[k] by {}
    lemma_normalized_len(front, separator, i);
    if i < front.len() {
        components_count_in_lower_case(front, separator, i);
    } else if front.len() > 0 {
        assert(components[front.len() - 1] == front[front.len() - 1]);
        components_count_in_lower_case(front, separator, front.len() - 1);
    }
    if forall|k: int|
        0 <= k < components.len() ==> !((#[trigger] components[k]) is CurDir) && !(
        components[k] is ParentDir) {
        assert(components[components.len() - 1] == components.last());
        if front.len() > 0 {
            assert forall|k: int| 0 <= k < front.len() implies !((#[trigger] front[k]) is CurDir)
                && !(front[k] is ParentDir) by {
                assert(front[k] == components[k]);
            }
            if i >= front.len() {
                components_count_in_lower_case(front, separator, front.len() - 1);
            }
        }
    }
}

proof fn lemma_normalized_len(components: Seq<ComponentView>, separator: Seq<char>, i: int)
    ensures
        normalized(components, separator).len() <= components.len(),
    decreases components.len(),
{
    if components.len() > 0 {
        lemma_normalized_len(components.drop_last(), separator, i);
    }
}

/// Two folders whose ways part at names that differ beyond their case do not
/// overlap.
pub proof fn folders_that_part_do_not_overlap(
    a: PathView,
    b: PathView,
    i: int,
    x: Seq<char>,
    y: Seq<char>,
)
    requires
        0 <= i < a.components.len(),
        i < b.components.len(),
        forall|k: int|
            0 <= k <= i ==> !((#[trigger] a.components[k]) is CurDir) && !(
            a.components[k] is ParentDir),
        forall|k: int|
            0 <= k <= i ==> !((#[trigger] b.components[k]) is CurDir) && !(
            b.components[k] is ParentDir),
        a.components[i] == ComponentView::Normal(x),
        b.components[i] == ComponentView::Normal(y),
        lowercase(x) != lowercase(y),
    ensures
        !overlap(a, b),
{
    let p = normalized(a.components, a.separator);
    let q = normalized(b.components, b.separator);
    components_count_in_lower_case(a.components, a.separator, i);
    components_count_in_lower_case(b.components, b.separator, i);
    if leads(q, p) {
        assert(p.take(q.len() as int)[i] == q[i]);
    }
    if leads(p, q) {
        assert(q.take(p.len() as int)[i] == p[i]);
    }
}

/// Two folders of which one is reached on the way to the other overlap, however
/// the names on the way are capitalised.
pub proof fn folders_on_one_way_overlap(a: PathView, b: PathView)
    requires
        a.components.len() <= b.components.len(),
        a.separator == b.separator,
        forall|k: int|
            0 <= k < a.components.len() ==> match (#[trigger] a.components[k], b.components[k]) {
                (ComponentView::Normal(x), ComponentView::Normal(y)) => lowercase(x) == lowercase(y),
                (ComponentView::RootDir, ComponentView::RootDir) => true,
                (
                    ComponentView::Prefix { text: x, .. },
                    ComponentView::Prefix { text: y, .. },
                ) => lowercase(x) == lowercase(y),
                _ => false,
            },
    ensures
        overlap(a, b),
{
    let p = normalized(a.components, a.separator);
    let q = normalized(b.components, b.separator);
    let n = a.components.len();
    if n == 0 {
        assert(q.take(0) =~= p);
    } else {
        assert forall|k: int| 0 <= k < n implies k < p.len() && k < q.len() && #[trigger] p[k]
            == q[k] by {
            assert forall|j: int| 0 <= j <= k implies !((#[trigger] b.components[j]) is CurDir)
                && !(b.components[j] is ParentDir) by {
                assert(!(a.components[j] is CurDir) && !(a.components[j] is ParentDir));
            }
            components_count_in_lower_case(a.components, a.separator, k);
            components_count_in_lower_case(b.components, b.separator, k);
        }
        components_count_in_lower_case(a.components, a.separator, n - 1);
        assert(p.len() == n);
        assert(q.len() >= n) by {
            assert(p[n - 1] == q[n - 1]);
        }
        assert(q.take(p.len() as int) =~= p);
    }
}

proof fn lemma_normalized_joins(
    a: Seq<ComponentView>,
    b: Seq<ComponentView>,
    separator: Seq<char>,
)
    ensures
        normalized(a + b, separator) == normalized(a, separator) + normalized(b, separator),
    decreases b.len(),
{
    if b.len() == 0 {
        assert(a + b =~= a);
    } else {
        lemma_normalized_joins(a, b.drop_last(), separator);
        assert((a + b).drop_last() =~= a + b.drop_last());
    }
    assert(normalized(a + b, separator) =~= normalized(a, separator) + normalized(b, separator));
}

/// A component that stands for a folder relative to another does not count
/// where folders are compared, wherever on the way it stands.
pub proof fn relative_components_do_not_count(
    path: PathView,
    other: PathView,
    way: Seq<ComponentView>,
    dots: ComponentView,
    rest: Seq<ComponentView>,
)
    requires
        dots is CurDir || dots is ParentDir,
        path.components == way + seq![dots] + rest,
    ensures
        overlap(path, other) == overlap(PathView { components: way + rest, ..path }, other),
{
    lemma_normalized_joins(way + seq![dots], rest, path.separator);
    lemma_normalized_joins(way, seq![dots], path.separator);
    lemma_normalized_joins(way, rest, path.separator);
    reveal_with_fuel(normalized, 2);
    assert(seq![dots].drop_last() =~= Seq::<ComponentView>::empty());
    assert(normalized(seq![dots], path.separator) =~= Seq::<Seq<char>>::empty());
    assert(normalized(way, path.separator) + Seq::<Seq<char>>::empty() =~= normalized(
        way,
        path.separator,
    ));
}

/// Two paths mean the same where they have the same components one by one, but
/// for how a prefix is written: that is compared by what it means.
pub proof fn same_paths_have_the_same_components(a: Seq<ComponentView>, b: Seq<ComponentView>)
    ensures
        same_path(a, b) <==> a.len() == b.len() && forall|k: int|
            0 <= k < a.len() ==> match (#[trigger] a[k], b[k]) {
                (
                    ComponentView::Prefix { kind: x, .. },
                    ComponentView::Prefix { kind: y, .. },
                ) => x == y,
                (x, y) => x == y,
            },
        (forall|k: int| 0 <= k < a.len() ==> !((#[trigger] a[k]) is Prefix)) ==> (same_path(a, b)
            <==> a == b),
{
    if same_path(a, b) {
        assert forall|k: int|
            0 <= k < a.len() implies match (#[trigger] a[k], b[k]) {
            (ComponentView::Prefix { kind: x, .. }, ComponentView::Prefix { kind: y, .. }) => x
                == y,
            (x, y) => x == y,
        } by {}
        if forall|k: int| 0 <= k < a.len() ==> !((#[trigger] a[k]) is Prefix) {
            assert forall|k: int| 0 <= k < a.len() implies a[k] == b[k] by {
                assert(!(a[k] is Prefix));
            }
            assert(a =~= b);
        }
    }
}

/// Components of different sorts are ordered by their sorts: a prefix, the root,
/// the folder itself, the folder above, a name. Prefixes of different sorts are
/// ordered by theirs.
pub proof fn sorts_of_components_are_ordered(
    name: Seq<char>,
    text: Seq<char>,
    kind: PrefixView,
    letter: u8,
)
    ensures
        ({
            let sorts = seq![
                ComponentView::Prefix { text, kind },
                ComponentView::RootDir,
                ComponentView::CurDir,
                ComponentView::ParentDir,
                ComponentView::Normal(name),
            ];
            forall|i: int, j: int|
                0 <= i < j < 5 ==> component_order(#[trigger] sorts[i], #[trigger] sorts[j])
                    == Order::Less && component_order(sorts[j], sorts[i]) == Order::Greater
        }),
        ({
            let sorts = seq![
                PrefixView::Verbatim(name),
                PrefixView::VerbatimUNC(name, text),
                PrefixView::VerbatimDisk(letter),
                PrefixView::DeviceNS(name),
                PrefixView::UNC(name, text),
                PrefixView::Disk(letter),
            ];
            forall|i: int, j: int|
                0 <= i < j < 6 ==> prefix_order(#[trigger] sorts[i], #[trigger] sorts[j])
                    == Order::Less && prefix_order(sorts[j], sorts[i]) == Order::Greater
        }),
{
}

/// Prefixes of one sort are ordered by what they mean: drives by their letters,
/// names as texts, and shares by their servers first.
pub proof fn prefixes_are_ordered_by_what_they_mean(
    x: Seq<char>,
    y: Seq<char>,
    v: Seq<char>,
    w: Seq<char>,
    a: u8,
    b: u8,
)
    ensures
        prefix_order(PrefixView::Disk(a), PrefixView::Disk(b)) == Order::Less <==> a < b,
        prefix_order(PrefixView::Disk(a), PrefixView::Disk(b)) == Order::Equal <==> a == b,
        prefix_order(PrefixView::VerbatimDisk(a), PrefixView::VerbatimDisk(b)) == Order::Less <==> a
            < b,
        prefix_order(PrefixView::VerbatimDisk(a), PrefixView::VerbatimDisk(b)) == Order::Equal <==> a
            == b,
        prefix_order(PrefixView::Verbatim(x), PrefixView::Verbatim(y)) == text_order(x, y),
        prefix_order(PrefixView::DeviceNS(x), PrefixView::DeviceNS(y)) == text_order(x, y),
        x != y ==> prefix_order(PrefixView::UNC(x, v), PrefixView::UNC(y, w)) == text_order(x, y),
        prefix_order(PrefixView::UNC(x, v), PrefixView::UNC(x, w)) == text_order(v, w),
        x != y ==> prefix_order(PrefixView::VerbatimUNC(x, v), PrefixView::VerbatimUNC(y, w))
            == text_order(x, y),
        prefix_order(PrefixView::VerbatimUNC(x, v), PrefixView::VerbatimUNC(x, w)) == text_order(
            v,
            w,
        ),
{
    text_order_equal(x, y);
    text_order_equal(x, x);
}

/// Paths are ordered by their first components that differ; a folder comes
/// before what is inside it, and of two names in one folder the one that comes
/// first as a text.
pub proof fn paths_go_by_first_difference(
    way: Seq<ComponentView>,
    a: Seq<ComponentView>,
    b: Seq<ComponentView>,
)
    requires
        forall|k: int| 0 <= k < way.len() ==> !((#[trigger] way[k]) is Prefix),
    ensures
        path_order(way + a, way + b) == path_order(a, b),
        a.len() > 0 ==> path_order(Seq::empty(), a) == Order::Less && path_order(a, Seq::empty())
            == Order::Greater,
        a.len() > 0 && b.len() > 0 ==> match (a[0], b[0]) {
            (ComponentView::Normal(x), ComponentView::Normal(y)) => x != y ==> path_order(a, b)
                == text_order(x, y),
            _ => true,
        },
    decreases way.len(),
{
    if way.len() == 0 {
        assert(way + a =~= a);
        assert(way + b =~= b);
    } else {
        let rest = way.skip(1);
        assert forall|k: int| 0 <= k < rest.len() implies !((#[trigger] rest[k]) is Prefix) by {
            assert(!(way[k + 1] is Prefix));
        }
        paths_go_by_first_difference(rest, a, b);
        assert((way + a).skip(1) =~= rest + a);
        assert((way + b).skip(1) =~= rest + b);
        assert(!(way[0] is Prefix));
        if let ComponentView::Normal(x) = way[0] {
            text_order_equal(x, x);
        }
        assert(component_order(way[0], way[0]) == Order::Equal);
    }
    if a.len() > 0 && b.len() > 0 {
        if let ComponentView::Normal(x) = a[0] {
            if let ComponentView::Normal(y) = b[0] {
                text_order_equal(x, y);
            }
        }
    }
}

} // verus!
