//! Sets of relative paths, kept as lists in strictly ascending order.
use crate::text::{
    order_of, text_less, text_order, text_order_equal, text_order_flips, text_order_transitive,
    texts, Order,
};
use vstd::prelude::*;
use vstd::string::*;

verus! {

/// Whether `s` is in strictly ascending order, so that nothing occurs twice.
pub open spec fn is_key_set(s: Seq<Seq<char>>) -> bool {
    forall|i: int, j: int| 0 <= i < j < s.len() ==> text_less(#[trigger] s[i], #[trigger] s[j])
}

/// The set `s` with `key` in its place.
pub open spec fn with_key(s: Seq<Seq<char>>, key: Seq<char>) -> Seq<Seq<char>>
    decreases s.len(),
{
    if s.len() == 0 {
        seq![key]
    } else {
        match text_order(s.last(), key) {
            Order::Less => s.push(key),
            Order::Equal => s,
            Order::Greater => with_key(s.drop_last(), key).push(s.last()),
        }
    }
}

/// The set `s` with all of `more` in their places.
pub open spec fn with_keys(s: Seq<Seq<char>>, more: Seq<Seq<char>>) -> Seq<Seq<char>>
    decreases more.len(),
{
    if more.len() == 0 {
        s
    } else {
        with_key(with_keys(s, more.drop_last()), more.last())
    }
}

/// Those of `s` that do not occur in `others`, in their order.
pub open spec fn keys_without(s: Seq<Seq<char>>, others: Seq<Seq<char>>) -> Seq<Seq<char>> {
    s.filter(|k: Seq<char>| !others.contains(k))
}

/// Those of `s` that occur in `others`, in their order.
pub open spec fn keys_within(s: Seq<Seq<char>>, others: Seq<Seq<char>>) -> Seq<Seq<char>> {
    s.filter(|k: Seq<char>| others.contains(k))
}

/// Adding a key adds that key and nothing else, and keeps the order.
pub proof fn with_key_is_insertion(s: Seq<Seq<char>>, key: Seq<char>)
    requires
        is_key_set(s),
    ensures
        is_key_set(with_key(s, key)),
        forall|k: Seq<char>| #[trigger] with_key(s, key).contains(k) <==> s.contains(k) || k == key,
        with_key(s, key).len() <= s.len() + 1,
    decreases s.len(),
{
    let r = with_key(s, key);
    if s.len() == 0 {
        assert(r == seq![key]);
        assert(r[0] == key);
    } else {
        text_order_equal(s.last(), key);
        match text_order(s.last(), key) {
            Order::Less => {
                assert forall|i: int, j: int| 0 <= i < j < r.len() implies text_less(
                    #[trigger] r[i],
                    #[trigger] r[j],
                ) by {
                    if j == s.len() && i < s.len() - 1 {
                        assert(text_less(s[i], s[s.len() - 1]));
                        text_order_transitive(s[i], s.last(), key);
                    }
                }
                assert forall|k: Seq<char>| #[trigger] r.contains(k) <==> s.contains(k) || k == key by {
                    if s.contains(k) {
                        let i = choose|i: int| 0 <= i < s.len() && s[i] == k;
                        assert(r[i] == k);
                    }
                    if k == key {
                        assert(r[s.len() as int] == k);
                    }
                }
            },
            Order::Equal => {
                assert(s[s.len() - 1] == key);
            },
            Order::Greater => {
                let front = s.drop_last();
                assert(is_key_set(front));
                with_key_is_insertion(front, key);
                let inner = with_key(front, key);
                text_order_flips(key, s.last());
                assert forall|i: int, j: int| 0 <= i < j < r.len() implies text_less(
                    #[trigger] r[i],
                    #[trigger] r[j],
                ) by {
                    if j == r.len() - 1 {
                        assert(inner.contains(inner[i]));
                        if inner[i] != key {
                            let p = choose|p: int| 0 <= p < front.len() && front[p] == inner[i];
                            assert(text_less(s[p], s[s.len() - 1]));
                        }
                    } else {
                        assert(text_less(inner[i], inner[j]));
                    }
                }
                assert forall|k: Seq<char>| #[trigger] r.contains(k) <==> s.contains(k) || k == key by {
                    if s.contains(k) {
                        let i = choose|i: int| 0 <= i < s.len() && s[i] == k;
                        if i < s.len() - 1 {
                            assert(front[i] == k);
                            assert(inner.contains(k));
                            let q = choose|q: int| 0 <= q < inner.len() && inner[q] == k;
                            assert(r[q] == k);
                        } else {
                            assert(r[r.len() - 1] == k);
                        }
                    }
                    if k == key {
                        assert(inner.contains(key));
                        let q = choose|q: int| 0 <= q < inner.len() && inner[q] == key;
                        assert(r[q] == key);
                    }
                    if r.contains(k) {
                        let q = choose|q: int| 0 <= q < r.len() && r[q] == k;
                        if q < r.len() - 1 {
                            assert(inner[q] == k);
                            assert(inner.contains(k));
                            if k != key {
                                let p = choose|p: int| 0 <= p < front.len() && front[p] == k;
                                assert(s[p] == k);
                            }
                        } else {
                            assert(s[s.len() - 1] == k);
                        }
                    }
                }
            },
        }
    }
}

/// Adding keys adds those keys and nothing else, and keeps the order.
pub proof fn with_keys_is_union(s: Seq<Seq<char>>, more: Seq<Seq<char>>)
    requires
        is_key_set(s),
    ensures
        is_key_set(with_keys(s, more)),
        forall|k: Seq<char>| #[trigger]
            with_keys(s, more).contains(k) <==> s.contains(k) || more.contains(k),
        with_keys(s, more).len() <= s.len() + more.len(),
    decreases more.len(),
{
    if more.len() > 0 {
        let front = more.drop_last();
        with_keys_is_union(s, front);
        with_key_is_insertion(with_keys(s, front), more.last());
        assert forall|k: Seq<char>| #[trigger]
            with_keys(s, more).contains(k) <==> s.contains(k) || more.contains(k) by {
            assert(with_keys(s, front).contains(k) <==> s.contains(k) || front.contains(k));
            if more.contains(k) {
                let i = choose|i: int| 0 <= i < more.len() && more[i] == k;
                if i < more.len() - 1 {
                    assert(front[i] == k);
                }
            }
            if front.contains(k) {
                let i = choose|i: int| 0 <= i < front.len() && front[i] == k;
                assert(more[i] == k);
            }
            if k == more.last() {
                assert(more[more.len() - 1] == k);
            }
        }
    }
}

/// Two sets with the same keys are the same list.
pub proof fn key_sets_are_unique(a: Seq<Seq<char>>, b: Seq<Seq<char>>)
    requires
        is_key_set(a),
        is_key_set(b),
        forall|k: Seq<char>| #[trigger] a.contains(k) <==> b.contains(k),
    ensures
        a == b,
    decreases a.len(),
{
    if a.len() == 0 {
        if b.len() > 0 {
            assert(b.contains(b[0]));
            assert(a.contains(b[0]));
        }
        assert(a =~= b);
    } else {
        assert(a.contains(a.last()));
        assert(b.contains(a.last()));
        assert(b.contains(b.last()));
        assert(a.contains(b.last()));
        let i = choose|i: int| 0 <= i < b.len() && b[i] == a.last();
        let j = choose|j: int| 0 <= j < a.len() && a[j] == b.last();
        if i < b.len() - 1 && j < a.len() - 1 {
            assert(text_less(b[i], b[b.len() - 1]));
            assert(text_less(a[j], a[a.len() - 1]));
            text_order_transitive(a.last(), b.last(), a.last());
            text_order_equal(a.last(), a.last());
        }
        assert(a.last() == b.last());
        let fa = a.drop_last();
        let fb = b.drop_last();
        assert forall|k: Seq<char>| #[trigger] fa.contains(k) <==> fb.contains(k) by {
            if fa.contains(k) {
                let p = choose|p: int| 0 <= p < fa.len() && fa[p] == k;
                assert(a[p] == k);
                assert(text_less(a[p], a[a.len() - 1]));
                text_order_equal(k, a.last());
                assert(a.contains(k));
                assert(b.contains(k));
                let q = choose|q: int| 0 <= q < b.len() && b[q] == k;
                assert(fb[q] == k);
            }
            if fb.contains(k) {
                let p = choose|p: int| 0 <= p < fb.len() && fb[p] == k;
                assert(b[p] == k);
                assert(text_less(b[p], b[b.len() - 1]));
                text_order_equal(k, b.last());
                assert(b.contains(k));
                assert(a.contains(k));
                let q = choose|q: int| 0 <= q < a.len() && a[q] == k;
                assert(fa[q] == k);
            }
        }
        key_sets_are_unique(fa, fb);
        assert(a =~= fa.push(a.last()));
        assert(b =~= fb.push(b.last()));
    }
}

/// Where a key stands in a list in ascending order, or where it would stand.
pub struct Place {
    pub found: bool,
    pub at: usize,
}

/// Looks `key` up in a list in strictly ascending order.
pub fn find_key(keys: &Vec<String>, key: &str) -> (r: Place)
    requires
        is_key_set(texts(keys@)),
    ensures
        r.at <= keys@.len(),
        r.found == texts(keys@).contains(key@),
        r.found ==> r.at < keys@.len() && keys@[r.at as int]@ == key@,
        forall|i: int| 0 <= i < r.at ==> text_less((#[trigger] keys@[i])@, key@),
        !r.found ==> forall|i: int| r.at <= i < keys@.len() ==> text_less(key@, (#[trigger] keys@[i])@),
{
    let ghost all = texts(keys@);
    let mut lo: usize = 0;
    let mut hi: usize = keys.len();
    while lo < hi
        invariant
            lo <= hi <= keys@.len(),
            all == texts(keys@),
            is_key_set(all),
            forall|i: int| 0 <= i < lo ==> text_less((#[trigger] keys@[i])@, key@),
            forall|i: int| hi <= i < keys@.len() ==> text_less(key@, (#[trigger] keys@[i])@),
        decreases hi - lo,
    {
        let mid: usize = lo + (hi - lo) / 2;
        let order = order_of(keys[mid].as_str(), key);
        match order {
            Order::Less => {
                proof {
                    assert forall|i: int| 0 <= i < mid + 1 implies text_less(
                        (#[trigger] keys@[i])@,
                        key@,
                    ) by {
                        if i < mid {
                            assert(text_less(all[i], all[mid as int]));
                            text_order_transitive(all[i], all[mid as int], key@);
                        }
                    }
                }
                lo = mid + 1;
            },
            Order::Greater => {
                proof {
                    text_order_flips(key@, keys@[mid as int]@);
                    assert forall|i: int| mid <= i < keys@.len() implies text_less(
                        key@,
                        (#[trigger] keys@[i])@,
                    ) by {
                        if i > mid {
                            assert(text_less(all[mid as int], all[i]));
                            text_order_transitive(key@, all[mid as int], all[i]);
                        }
                    }
                }
                hi = mid;
            },
            Order::Equal => {
                proof {
                    text_order_equal(keys@[mid as int]@, key@);
                    assert(all[mid as int] == key@);
                    assert forall|i: int| 0 <= i < mid implies text_less(
                        (#[trigger] keys@[i])@,
                        key@,
                    ) by {
                        assert(text_less(all[i], all[mid as int]));
                    }
                }
                return Place { found: true, at: mid };
            },
        }
    }
    proof {
        if all.contains(key@) {
            let i = choose|i: int| 0 <= i < all.len() && all[i] == key@;
            assert(keys@[i]@ == key@);
            text_order_equal(key@, key@);
        }
    }
    Place { found: false, at: lo }
}

/// Whether a list is in strictly ascending order.
pub fn is_ascending(keys: &Vec<String>) -> (r: bool)
    ensures
        r == is_key_set(texts(keys@)),
{
    let ghost all = texts(keys@);
    let mut i: usize = 1;
    while i < keys.len()
        invariant
            1 <= i,
            all == texts(keys@),
            i <= keys@.len() || keys@.len() == 0,
            forall|a: int, b: int|
                0 <= a < b < i && b < all.len() ==> text_less(#[trigger] all[a], #[trigger] all[b]),
        decreases keys@.len() - i,
    {
        let order = order_of(keys[i - 1].as_str(), keys[i].as_str());
        if order != Order::Less {
            proof {
                assert(!text_less(all[i - 1], all[i as int]));
            }
            return false;
        }
        proof {
            assert forall|a: int, b: int| 0 <= a < b < i + 1 && b < all.len() implies text_less(
                #[trigger] all[a],
                #[trigger] all[b],
            ) by {
                if b == i && a < i - 1 {
                    assert(text_less(all[a], all[i - 1]));
                    text_order_transitive(all[a], all[i - 1], all[i as int]);
                }
            }
        }
        i = i + 1;
    }
    true
}

/// Whether `key` is in the set.
pub fn has_key(keys: &Vec<String>, key: &str) -> (r: bool)
    requires
        is_key_set(texts(keys@)),
    ensures
        r == texts(keys@).contains(key@),
{
    let place = find_key(keys, key);
    place.found
}

proof fn lemma_with_key_at(s: Seq<Seq<char>>, key: Seq<char>, at: int)
    requires
        is_key_set(s),
        0 <= at <= s.len(),
        forall|i: int| 0 <= i < at ==> text_less(#[trigger] s[i], key),
        forall|i: int| at <= i < s.len() ==> text_less(key, #[trigger] s[i]),
    ensures
        with_key(s, key) == s.insert(at, key),
    decreases s.len(),
{
    if s.len() == 0 {
        assert(s.insert(at, key) =~= seq![key]);
    } else {
        let front = s.drop_last();
        if at == s.len() {
            assert(text_less(s[s.len() - 1], key));
            assert(s.insert(at, key) =~= s.push(key));
        } else {
            assert(text_less(key, s[s.len() - 1]));
            text_order_flips(key, s.last());
            assert(is_key_set(front));
            lemma_with_key_at(front, key, at);
            assert(s.insert(at, key) =~= front.insert(at, key).push(s.last()));
        }
    }
}

proof fn lemma_with_key_present(s: Seq<Seq<char>>, key: Seq<char>)
    requires
        is_key_set(s),
        s.contains(key),
    ensures
        with_key(s, key) == s,
    decreases s.len(),
{
    let i = choose|i: int| 0 <= i < s.len() && s[i] == key;
    text_order_equal(s.last(), key);
    if i < s.len() - 1 {
        assert(text_less(s[i], s[s.len() - 1]));
        text_order_flips(key, s.last());
        let front = s.drop_last();
        assert(is_key_set(front));
        assert(front[i] == key);
        lemma_with_key_present(front, key);
        assert(s =~= front.push(s.last()));
    }
}

/// Puts `key` into the set.
pub fn add_key(keys: &mut Vec<String>, key: String)
    requires
        is_key_set(texts(old(keys)@)),
    ensures
        texts(final(keys)@) == with_key(texts(old(keys)@), key@),
        is_key_set(texts(final(keys)@)),
{
    let ghost before = texts(keys@);
    let place = find_key(keys, key.as_str());
    if place.found {
        proof {
            lemma_with_key_present(before, key@);
        }
    } else {
        let at: usize = place.at;
        proof {
            assert forall|i: int| 0 <= i < at implies text_less(#[trigger] before[i], key@) by {
                assert(before[i] == keys@[i]@);
            }
            assert forall|i: int| at <= i < before.len() implies text_less(
                key@,
                #[trigger] before[i],
            ) by {
                assert(before[i] == keys@[i]@);
            }
            lemma_with_key_at(before, key@, at as int);
        }
        keys.insert(at, key);
        proof {
            assert(texts(keys@) =~= before.insert(at as int, key@));
        }
    }
    proof {
        with_key_is_insertion(before, key@);
    }
}

/// Puts every string of `more` into the set.
pub fn add_keys(keys: &mut Vec<String>, more: &Vec<String>)
    requires
        is_key_set(texts(old(keys)@)),
    ensures
        texts(final(keys)@) == with_keys(texts(old(keys)@), texts(more@)),
        is_key_set(texts(final(keys)@)),
{
    let ghost before = texts(keys@);
    let ghost all = texts(more@);
    let mut i: usize = 0;
    while i < more.len()
        invariant
            i <= more@.len(),
            all == texts(more@),
            is_key_set(texts(keys@)),
            texts(keys@) == with_keys(before, all.take(i as int)),
        decreases more@.len() - i,
    {
        add_key(keys, more[i].clone());
        proof {
            assert(all.take(i + 1).drop_last() =~= all.take(i as int));
            assert(all.take(i + 1).last() == more@[i as int]@);
        }
        i = i + 1;
    }
    proof {
        assert(all.take(all.len() as int) =~= all);
    }
}

proof fn lemma_filter_step(s: Seq<Seq<char>>, p: spec_fn(Seq<char>) -> bool, i: int)
    requires
        0 <= i < s.len(),
    ensures
        s.take(i + 1).filter(p) == if p(s[i]) {
            s.take(i).filter(p).push(s[i])
        } else {
            s.take(i).filter(p)
        },
{
    reveal(Seq::filter);
    assert(s.take(i + 1).drop_last() =~= s.take(i));
    assert(s.take(i + 1).last() == s[i]);
}

/// Those of `keys` that are, or are not, in `others`.
pub fn select_keys(keys: &Vec<String>, others: &Vec<String>, within: bool) -> (r: Vec<String>)
    requires
        is_key_set(texts(others@)),
    ensures
        texts(r@) == if within {
            keys_within(texts(keys@), texts(others@))
        } else {
            keys_without(texts(keys@), texts(others@))
        },
{
    let mut r: Vec<String> = Vec::new();
    let ghost all = texts(keys@);
    let ghost known = texts(others@);
    let ghost keep = |k: Seq<char>| known.contains(k);
    let ghost drop = |k: Seq<char>| !known.contains(k);
    let mut i: usize = 0;
    proof {
        reveal(Seq::filter);
        assert(texts(r@) =~= all.take(0).filter(keep));
        assert(texts(r@) =~= all.take(0).filter(drop));
    }
    while i < keys.len()
        invariant
            i <= keys@.len(),
            all == texts(keys@),
            known == texts(others@),
            keep == (|k: Seq<char>| known.contains(k)),
            drop == (|k: Seq<char>| !known.contains(k)),
            is_key_set(known),
            within ==> texts(r@) == all.take(i as int).filter(keep),
            !within ==> texts(r@) == all.take(i as int).filter(drop),
        decreases keys@.len() - i,
    {
        let ghost before = texts(r@);
        let known_key = has_key(others, keys[i].as_str());
        proof {
            lemma_filter_step(all, keep, i as int);
            lemma_filter_step(all, drop, i as int);
            assert(all[i as int] == keys@[i as int]@);
        }
        if known_key == within {
            r.push(keys[i].clone());
            proof {
                assert(texts(r@) =~= before.push(all[i as int]));
            }
        }
        i = i + 1;
    }
    proof {
        assert(all.take(all.len() as int) =~= all);
    }
    r
}

/// What a selection holds: the keys for which the test holds, and no others,
/// still in ascending order.
pub proof fn selection_of_keys(s: Seq<Seq<char>>, p: spec_fn(Seq<char>) -> bool)
    requires
        is_key_set(s),
    ensures
        is_key_set(s.filter(p)),
        forall|k: Seq<char>| #[trigger] s.filter(p).contains(k) <==> s.contains(k) && p(k),
        s.filter(p).len() <= s.len(),
    decreases s.len(),
{
    reveal(Seq::filter);
    let r = s.filter(p);
    if s.len() > 0 {
        let front = s.drop_last();
        assert(is_key_set(front));
        selection_of_keys(front, p);
        let inner = front.filter(p);
        assert forall|k: Seq<char>| #[trigger] r.contains(k) <==> s.contains(k) && p(k) by {
            assert(inner.contains(k) <==> front.contains(k) && p(k));
            if s.contains(k) && p(k) {
                let i = choose|i: int| 0 <= i < s.len() && s[i] == k;
                if i < s.len() - 1 {
                    assert(front[i] == k);
                    let q = choose|q: int| 0 <= q < inner.len() && inner[q] == k;
                    assert(r[q] == k);
                } else {
                    assert(r[r.len() - 1] == k);
                }
            }
            if r.contains(k) {
                let q = choose|q: int| 0 <= q < r.len() && r[q] == k;
                if p(s.last()) && q == r.len() - 1 {
                    assert(s[s.len() - 1] == k);
                } else {
                    assert(inner[q] == k);
                    let i = choose|i: int| 0 <= i < front.len() && front[i] == k;
                    assert(s[i] == k);
                }
            }
        }
        assert forall|i: int, j: int| 0 <= i < j < r.len() implies text_less(
            #[trigger] r[i],
            #[trigger] r[j],
        ) by {
            if p(s.last()) && j == r.len() - 1 {
                assert(inner.contains(inner[i]));
                let a = choose|a: int| 0 <= a < front.len() && front[a] == inner[i];
                assert(text_less(s[a], s[s.len() - 1]));
            } else {
                assert(text_less(inner[i], inner[j]));
            }
        }
    }
}

/// A key put where it belongs keeps the order, and adds itself alone.
pub proof fn insertion_keeps_order(keys: Seq<Seq<char>>, key: Seq<char>, at: int)
    requires
        is_key_set(keys),
        0 <= at <= keys.len(),
        forall|i: int| 0 <= i < at ==> text_less(#[trigger] keys[i], key),
        forall|i: int| at <= i < keys.len() ==> text_less(key, #[trigger] keys[i]),
    ensures
        is_key_set(keys.insert(at, key)),
        forall|k: Seq<char>| #[trigger]
            keys.insert(at, key).contains(k) <==> keys.contains(k) || k == key,
{
    lemma_with_key_at(keys, key, at);
    with_key_is_insertion(keys, key);
}

} // verus!
