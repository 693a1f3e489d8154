//! Putting things in order of size, the largest first.
use vstd::prelude::*;

verus! {

/// Whether the thing numbered `a` comes before the one numbered `b`: it is
/// larger, or as large and was there first.
pub open spec fn comes_first(sizes: Seq<int>, a: int, b: int) -> bool {
    sizes[a] > sizes[b] || (sizes[a] == sizes[b] && a < b)
}

/// Whether `order` numbers the first `n` things, each once, the largest first
/// and equally large ones as they were.
pub open spec fn is_order(sizes: Seq<int>, order: Seq<int>, n: int) -> bool {
    &&& order.len() == n
    &&& forall|i: int| 0 <= i < n ==> 0 <= #[trigger] order[i] < n
    &&& forall|i: int, j: int|
        0 <= i < j < n ==> comes_first(sizes, #[trigger] order[i], #[trigger] order[j])
    &&& forall|k: int| 0 <= k < n ==> #[trigger] placed(order, k)
}

/// Whether the thing numbered `k` has a place in the order.
pub open spec fn placed(order: Seq<int>, k: int) -> bool {
    exists|i: int| 0 <= i < order.len() && #[trigger] order[i] == k
}

/// There is one such order.
pub proof fn order_is_unique(sizes: Seq<int>, a: Seq<int>, b: Seq<int>, n: int)
    requires
        is_order(sizes, a, n),
        is_order(sizes, b, n),
    ensures
        a == b,
{
    assert forall|i: int| 0 <= i < n implies a[i] == b[i] by {
        lemma_same_place(sizes, a, b, n, i);
    }
    assert(a =~= b);
}

proof fn lemma_same_place(sizes: Seq<int>, a: Seq<int>, b: Seq<int>, n: int, i: int)
    requires
        is_order(sizes, a, n),
        is_order(sizes, b, n),
        0 <= i < n,
    ensures
        a[i] == b[i],
    decreases i,
{
    assert forall|j: int| 0 <= j < i implies a[j] == b[j] by {
        lemma_same_place(sizes, a, b, n, j);
    }
    assert(placed(b, a[i]));
    assert(placed(a, b[i]));
    let p = choose|p: int| 0 <= p < b.len() && #[trigger] b[p] == a[i];
    let q = choose|q: int| 0 <= q < a.len() && #[trigger] a[q] == b[i];
    if p < i {
        assert(a[p] == b[p]);
        assert(comes_first(sizes, a[p], a[i]));
    }
    if q < i {
        assert(a[q] == b[q]);
        assert(comes_first(sizes, b[q], b[i]));
    }
    if p > i && q > i {
        assert(comes_first(sizes, b[i], b[p]));
        assert(comes_first(sizes, a[i], a[q]));
    }
}

/// The next thing has its place in the order behind everything that is as
/// large, and before everything that is smaller.
proof fn lemma_placed_in_order(sizes: Seq<int>, before: Seq<int>, n: int, lo: int)
    requires
        is_order(sizes, before, n),
        0 <= lo <= n < sizes.len(),
        forall|i: int| 0 <= i < lo ==> sizes[#[trigger] before[i]] >= sizes[n],
        forall|i: int| lo <= i < n ==> sizes[#[trigger] before[i]] < sizes[n],
    ensures
        is_order(sizes, before.insert(lo, n), n + 1),
{
    let after = before.insert(lo, n);
    assert forall|i: int, j: int| 0 <= i < j < n + 1 implies comes_first(
        sizes,
        #[trigger] after[i],
        #[trigger] after[j],
    ) by {
        let x = if i < lo {
            i
        } else {
            i - 1
        };
        let y = if j < lo {
            j
        } else {
            j - 1
        };
        if i != lo && j != lo {
            assert(comes_first(sizes, before[x], before[y]));
        } else if i == lo {
            assert(sizes[before[y]] < sizes[n]);
        } else {
            assert(sizes[before[x]] >= sizes[n]);
        }
    }
    assert forall|k: int| 0 <= k < n + 1 implies #[trigger] placed(after, k) by {
        if k == n {
            assert(after[lo] == k);
        } else {
            assert(placed(before, k));
            let i = choose|i: int| 0 <= i < before.len() && #[trigger] before[i] == k;
            if i < lo {
                assert(after[i] == k);
            } else {
                assert(after[i + 1] == k);
            }
        }
    }
    assert forall|i: int| 0 <= i < n + 1 implies 0 <= #[trigger] after[i] < n + 1 by {
        if i < lo {
            assert(after[i] == before[i]);
        } else if i > lo {
            assert(after[i] == before[i - 1]);
        }
    }
}

/// Where the next thing belongs among the first ones of an order.
proof fn lemma_first_smaller(sizes: Seq<int>, order: Seq<int>, n: int, from: int) -> (lo: int)
    requires
        is_order(sizes, order, n),
        0 <= from <= n < sizes.len(),
        forall|i: int| 0 <= i < from ==> sizes[#[trigger] order[i]] >= sizes[n],
    ensures
        0 <= lo <= n,
        forall|i: int| 0 <= i < lo ==> sizes[#[trigger] order[i]] >= sizes[n],
        forall|i: int| lo <= i < n ==> sizes[#[trigger] order[i]] < sizes[n],
    decreases n - from,
{
    if from == n {
        n
    } else if sizes[order[from]] < sizes[n] {
        assert forall|i: int| from <= i < n implies sizes[#[trigger] order[i]] < sizes[n] by {
            if i > from {
                assert(comes_first(sizes, order[from], order[i]));
            }
        }
        from
    } else {
        lemma_first_smaller(sizes, order, n, from + 1)
    }
}

proof fn lemma_order_of_first(sizes: Seq<int>, n: int) -> (order: Seq<int>)
    requires
        0 <= n <= sizes.len(),
    ensures
        is_order(sizes, order, n),
    decreases n,
{
    if n == 0 {
        Seq::empty()
    } else {
        let before = lemma_order_of_first(sizes, n - 1);
        let lo = lemma_first_smaller(sizes, before, n - 1, 0);
        lemma_placed_in_order(sizes, before, n - 1, lo);
        before.insert(lo, n - 1)
    }
}

/// There always is such an order.
pub proof fn size_order_is_order(sizes: Seq<int>)
    ensures
        is_order(sizes, size_order(sizes), sizes.len() as int),
{
    let order = lemma_order_of_first(sizes, sizes.len() as int);
    assert(is_order(sizes, order, sizes.len() as int));
}

/// The order of things by their sizes.
pub open spec fn size_order(sizes: Seq<int>) -> Seq<int> {
    choose|order: Seq<int>| is_order(sizes, order, sizes.len() as int)
}

/// The numbers that are held in memory, as mathematical ones.
pub open spec fn numbers(list: Seq<usize>) -> Seq<int> {
    list.map_values(|n: usize| n as int)
}

/// The numbers of the things, the largest first and equally large ones as they
/// were.
pub fn order_by_size(sizes: &Vec<usize>) -> (r: Vec<usize>)
    ensures
        is_order(numbers(sizes@), numbers(r@), sizes@.len() as int),
        numbers(r@) == size_order(numbers(sizes@)),
{
    let ghost all = numbers(sizes@);
    let mut order: Vec<usize> = Vec::new();
    let mut n: usize = 0;
    while n < sizes.len()
        invariant
            n <= sizes@.len(),
            all == numbers(sizes@),
            is_order(all, numbers(order@), n as int),
        decreases sizes@.len() - n,
    {
        let ghost before = numbers(order@);
        let mut lo: usize = 0;
        let mut hi: usize = n;
        while lo < hi
            invariant
                lo <= hi <= n < sizes@.len(),
                all == numbers(sizes@),
                before == numbers(order@),
                is_order(all, before, n as int),
                forall|i: int| 0 <= i < lo ==> all[#[trigger] before[i]] >= all[n as int],
                forall|i: int| hi <= i < n ==> all[#[trigger] before[i]] < all[n as int],
            decreases hi - lo,
        {
            let mid: usize = lo + (hi - lo) / 2;
            proof {
                assert(before[mid as int] == order@[mid as int]);
            }
            if sizes[order[mid]] >= sizes[n] {
                proof {
                    assert forall|i: int| 0 <= i < mid + 1 implies all[#[trigger] before[i]]
                        >= all[n as int] by {
                        if i < mid {
                            assert(comes_first(all, before[i], before[mid as int]));
                        }
                    }
                }
                lo = mid + 1;
            } else {
                proof {
                    assert forall|i: int| mid <= i < n implies all[#[trigger] before[i]] < all[n
                        as int] by {
                        if i > mid {
                            assert(comes_first(all, before[mid as int], before[i]));
                        }
                    }
                }
                hi = mid;
            }
        }
        order.insert(lo, n);
        proof {
            assert(numbers(order@) =~= before.insert(lo as int, n as int));
            lemma_placed_in_order(all, before, n as int, lo as int);
        }
        n = n + 1;
    }
    proof {
        order_is_unique(all, numbers(order@), size_order(all), sizes@.len() as int);
    }
    order
}

} // verus!
