//! A stable order of positions by group and key.

use vstd::prelude::*;

verus! {

/// Position `a` comes before position `b`: the unset group first, then the greater key,
/// then the lower position.
pub open spec fn ahead(group: Seq<bool>, key: Seq<i128>, a: int, b: int) -> bool {
    if group[a] != group[b] {
        !group[a]
    } else if key[a] != key[b] {
        key[a] > key[b]
    } else {
        a < b
    }
}

/// `order` lists every position once, each ahead of those behind it.
pub open spec fn is_ranking(group: Seq<bool>, key: Seq<i128>, order: Seq<usize>) -> bool {
    &&& order.len() == group.len()
    &&& forall|i: int| 0 <= i < order.len() ==> (#[trigger] order[i]) < group.len()
    &&& forall|i: int, j: int|
        0 <= i < j < order.len() ==> ahead(group, key, #[trigger] order[i] as int, #[trigger] order[j] as int)
    &&& forall|x: usize| x < group.len() ==> #[trigger] order.contains(x)
}

/// `order` lists the positions from `lo` to `hi` once, each ahead of those behind it.
spec fn ranks(group: Seq<bool>, key: Seq<i128>, order: Seq<usize>, lo: int, hi: int) -> bool {
    &&& order.len() == hi - lo
    &&& forall|i: int| 0 <= i < order.len() ==> lo <= (#[trigger] order[i]) < hi
    &&& forall|i: int, j: int|
        0 <= i < j < order.len() ==> ahead(group, key, #[trigger] order[i] as int, #[trigger] order[j] as int)
    &&& forall|x: usize| lo <= x < hi ==> #[trigger] order.contains(x)
}

fn comes_first(group: &[bool], key: &[i128], a: usize, b: usize) -> (r: bool)
    requires
        group.len() == key.len(),
        a < group.len(),
        b < group.len(),
    ensures
        r == ahead(group@, key@, a as int, b as int),
{
    if group[a] != group[b] {
        !group[a]
    } else if key[a] != key[b] {
        key[a] > key[b]
    } else {
        a < b
    }
}

/// Everything in `front` is ahead of `x`.
spec fn all_ahead(group: Seq<bool>, key: Seq<i128>, front: Seq<usize>, x: int) -> bool {
    forall|i: int| 0 <= i < front.len() ==> ahead(group, key, #[trigger] front[i] as int, x)
}

/// Two ordered halves as one.
fn merge(group: &[bool], key: &[i128], a: &Vec<usize>, b: &Vec<usize>, lo: usize, mid: usize, hi: usize) -> (order: Vec<
    usize,
>)
    requires
        group.len() == key.len(),
        lo <= mid <= hi <= group.len(),
        ranks(group@, key@, a@, lo as int, mid as int),
        ranks(group@, key@, b@, mid as int, hi as int),
    ensures
        ranks(group@, key@, order@, lo as int, hi as int),
{
    let mut order: Vec<usize> = Vec::new();
    let mut i: usize = 0;
    let mut j: usize = 0;
    while i < a.len() || j < b.len()
        invariant
            group.len() == key.len(),
            lo <= mid <= hi <= group.len(),
            ranks(group@, key@, a@, lo as int, mid as int),
            ranks(group@, key@, b@, mid as int, hi as int),
            i <= a@.len(),
            j <= b@.len(),
            order@.len() == i + j,
            forall|n: int| 0 <= n < order@.len() ==> lo <= (#[trigger] order@[n]) < hi,
            forall|m: int, n: int|
                0 <= m < n < order@.len() ==> ahead(
                    group@,
                    key@,
                    #[trigger] order@[m] as int,
                    #[trigger] order@[n] as int,
                ),
            i < a@.len() ==> all_ahead(group@, key@, order@, a@[i as int] as int),
            j < b@.len() ==> all_ahead(group@, key@, order@, b@[j as int] as int),
            forall|n: int| 0 <= n < i ==> order@.contains(#[trigger] a@[n]),
            forall|n: int| 0 <= n < j ==> order@.contains(#[trigger] b@[n]),
        decreases a@.len() + b@.len() - i - j,
    {
        let ghost before = order@;
        let left: bool = if i == a.len() {
            false
        } else if j == b.len() {
            true
        } else {
            comes_first(group, key, a[i], b[j])
        };
        let next: usize = if left {
            a[i]
        } else {
            b[j]
        };
        order.push(next);
        proof {
            let after = order@;
            assert(after.last() == next);
            assert forall|n: int| 0 <= n < i implies after.contains(#[trigger] a@[n]) by {
                let k = choose|k: int| 0 <= k < before.len() && before[k] == a@[n];
                assert(after[k] == a@[n]);
            }
            assert forall|n: int| 0 <= n < j implies after.contains(#[trigger] b@[n]) by {
                let k = choose|k: int| 0 <= k < before.len() && before[k] == b@[n];
                assert(after[k] == b@[n]);
            }
            assert forall|m: int, n: int| 0 <= m < n < after.len() implies ahead(
                group@,
                key@,
                #[trigger] after[m] as int,
                #[trigger] after[n] as int,
            ) by {
                assert(after[m] == before[m]);
                if n < before.len() {
                    assert(after[n] == before[n]);
                }
            }
            if left {
                if i + 1 < a@.len() {
                    assert(ahead(group@, key@, a@[i as int] as int, a@[i + 1] as int));
                    assert forall|n: int| 0 <= n < after.len() implies ahead(
                        group@,
                        key@,
                        #[trigger] after[n] as int,
                        a@[i + 1] as int,
                    ) by {
                        if n < before.len() {
                            assert(after[n] == before[n]);
                        }
                    }
                }
                if j < b@.len() {
                    assert forall|n: int| 0 <= n < after.len() implies ahead(
                        group@,
                        key@,
                        #[trigger] after[n] as int,
                        b@[j as int] as int,
                    ) by {
                        if n < before.len() {
                            assert(after[n] == before[n]);
                        }
                    }
                }
            } else {
                if j + 1 < b@.len() {
                    assert(ahead(group@, key@, b@[j as int] as int, b@[j + 1] as int));
                    assert forall|n: int| 0 <= n < after.len() implies ahead(
                        group@,
                        key@,
                        #[trigger] after[n] as int,
                        b@[j + 1] as int,
                    ) by {
                        if n < before.len() {
                            assert(after[n] == before[n]);
                        }
                    }
                }
                if i < a@.len() {
                    assert(ahead(group@, key@, b@[j as int] as int, a@[i as int] as int));
                    assert forall|n: int| 0 <= n < after.len() implies ahead(
                        group@,
                        key@,
                        #[trigger] after[n] as int,
                        a@[i as int] as int,
                    ) by {
                        if n < before.len() {
                            assert(after[n] == before[n]);
                        }
                    }
                }
            }
        }
        if left {
            i = i + 1;
        } else {
            j = j + 1;
        }
    }
    proof {
        assert forall|x: usize| lo <= x < hi implies #[trigger] order@.contains(x) by {
            if x < mid {
                assert(a@.contains(x));
                let n = choose|n: int| 0 <= n < a@.len() && a@[n] == x;
                assert(order@.contains(a@[n]));
            } else {
                assert(b@.contains(x));
                let n = choose|n: int| 0 <= n < b@.len() && b@[n] == x;
                assert(order@.contains(b@[n]));
            }
        }
    }
    order
}

fn rank_range(group: &[bool], key: &[i128], lo: usize, hi: usize) -> (order: Vec<usize>)
    requires
        group.len() == key.len(),
        lo <= hi <= group.len(),
    ensures
        ranks(group@, key@, order@, lo as int, hi as int),
    decreases hi - lo,
{
    if hi - lo == 0 {
        return Vec::new();
    }
    if hi - lo == 1 {
        let mut order: Vec<usize> = Vec::new();
        order.push(lo);
        assert(order@[0] == lo);
        return order;
    }
    let mid: usize = lo + (hi - lo) / 2;
    let a = rank_range(group, key, lo, mid);
    let b = rank_range(group, key, mid, hi);
    merge(group, key, &a, &b, lo, mid, hi)
}

/// Rank positions: a stable sort by group and descending key.
pub fn rank(group: &[bool], key: &[i128]) -> (order: Vec<usize>)
    requires
        group.len() == key.len(),
    ensures
        is_ranking(group@, key@, order@),
{
    rank_range(group, key, 0, group.len())
}

/// There is one ranking: positions that differ are never ahead of each other both ways.
pub proof fn law_ahead_is_strict(group: Seq<bool>, key: Seq<i128>, a: int, b: int)
    ensures
        !(ahead(group, key, a, b) && ahead(group, key, b, a)),
        a != b ==> ahead(group, key, a, b) || ahead(group, key, b, a),
{
}

/// A ranking lists every position once: the unset group before the set one, in each the greater
/// key before the smaller, and of equal keys the lower position first.
pub proof fn law_ranking_sorts(group: Seq<bool>, key: Seq<i128>, order: Seq<usize>, i: int, j: int, x: usize)
    requires
        is_ranking(group, key, order),
        group.len() == key.len(),
        0 <= i < j < order.len(),
    ensures
        order.len() == group.len(),
        order[i] < group.len(),
        order[i] != order[j],
        group[order[i] as int] ==> group[order[j] as int],
        group[order[i] as int] == group[order[j] as int] ==> key[order[i] as int] >= key[order[j] as int],
        group[order[i] as int] == group[order[j] as int] && key[order[i] as int] == key[order[j] as int] ==> order[i]
            < order[j],
        x < group.len() ==> exists|u: int| 0 <= u < order.len() && #[trigger] order[u] == x,
{
    assert(ahead(group, key, order[i] as int, order[j] as int));
    if x < group.len() {
        assert(order.contains(x));
    }
}

} // verus!
