//! The least recently used place that may be given up.

use vstd::prelude::*;

verus! {

/// A place that may be given up: not used this step, and used at a known step.
pub open spec fn evictable(used: Seq<u64>, step: u64, i: int) -> bool {
    0 <= i < used.len() && used[i] != step && used[i] != u64::MAX
}

/// Place `v` is the first of the least recently used places that may be given up.
pub open spec fn is_victim(used: Seq<u64>, step: u64, v: int) -> bool {
    &&& evictable(used, step, v)
    &&& forall|i: int| #[trigger] evictable(used, step, i) ==> used[v] <= used[i]
    &&& forall|i: int| #[trigger] evictable(used, step, i) && used[i] == used[v] ==> v <= i
}

pub open spec fn has_victim(used: Seq<u64>, step: u64) -> bool {
    exists|i: int| evictable(used, step, i)
}

pub open spec fn victim(used: Seq<u64>, step: u64) -> int {
    choose|v: int| is_victim(used, step, v)
}

/// There is at most one victim.
pub proof fn law_victim_unique(used: Seq<u64>, step: u64, a: int, b: int)
    requires
        is_victim(used, step, a),
        is_victim(used, step, b),
    ensures
        a == b,
{
    assert(evictable(used, step, a) && evictable(used, step, b));
    assert(used[a] <= used[b] && used[b] <= used[a]);
}

/// The victim among `used`, or nothing when every place is in use.
pub fn find_victim(used: &Vec<u64>, step: u64) -> (r: Option<usize>)
    ensures
        match r {
            Some(v) => has_victim(used@, step) && v == victim(used@, step) && is_victim(used@, step, v as int),
            None => !has_victim(used@, step),
        },
{
    let mut best: Option<usize> = None;
    let mut best_used: u64 = u64::MAX;
    let mut s: usize = 0;
    while s < used.len()
        invariant_except_break
            s <= used.len(),
            best is None <==> best_used == u64::MAX,
            best is None ==> forall|i: int| 0 <= i < s ==> !evictable(used@, step, i),
            best is Some ==> {
                &&& best->0 < s
                &&& evictable(used@, step, best->0 as int)
                &&& used@[best->0 as int] == best_used
                &&& forall|i: int| 0 <= i < s && #[trigger] evictable(used@, step, i) ==> best_used <= used@[i]
                &&& forall|i: int|
                    0 <= i < s && #[trigger] evictable(used@, step, i) && used@[i] == best_used ==> best->0 <= i
            },
        ensures
            best is None ==> forall|i: int| !evictable(used@, step, i),
            best is Some ==> is_victim(used@, step, best->0 as int),
        decreases used.len() - s,
    {
        let u: u64 = used[s];
        if u != step && u < best_used {
            best_used = u;
            best = Some(s);
            if u == 0 {
                assert(evictable(used@, step, s as int));
                break;
            }
        }
        s = s + 1;
    }
    proof {
        if best is Some {
            let v = best->0 as int;
            assert(is_victim(used@, step, v));
            law_victim_unique(used@, step, v, victim(used@, step));
        }
    }
    best
}

/// Where some place may be given up there is a victim.
pub proof fn lemma_victim_exists(used: Seq<u64>, step: u64)
    requires
        has_victim(used, step),
    ensures
        is_victim(used, step, victim(used, step)),
{
    lemma_least(used, step, used.len() as int);
    let v = choose|v: int| least_before(used, step, used.len() as int, v);
    assert(is_victim(used, step, v));
}

spec fn least_before(used: Seq<u64>, step: u64, n: int, v: int) -> bool {
    &&& 0 <= v < n
    &&& evictable(used, step, v)
    &&& forall|i: int| 0 <= i < n && #[trigger] evictable(used, step, i) ==> used[v] <= used[i]
    &&& forall|i: int| 0 <= i < n && #[trigger] evictable(used, step, i) && used[i] == used[v] ==> v <= i
}

proof fn lemma_least(used: Seq<u64>, step: u64, n: int)
    requires
        0 <= n <= used.len(),
    ensures
        (exists|i: int| 0 <= i < n && evictable(used, step, i)) ==> exists|v: int| least_before(used, step, n, v),
    decreases n,
{
    if n > 0 {
        lemma_least(used, step, n - 1);
        if exists|i: int| 0 <= i < n && evictable(used, step, i) {
            if exists|i: int| 0 <= i < n - 1 && evictable(used, step, i) {
                let m = n - 1;
                let v = choose|v: int| #[trigger] least_before(used, step, m, v);
                if evictable(used, step, n - 1) && used[n - 1] < used[v] {
                    assert(least_before(used, step, n, n - 1));
                } else {
                    assert(least_before(used, step, n, v));
                }
            } else {
                assert(evictable(used, step, n - 1));
                assert(least_before(used, step, n, n - 1));
            }
        }
    }
}

/// What goes is what was used longest ago, and the first of those; what this step uses or what is
/// pinned never goes. There is nothing to let go exactly where everything is one or the other.
pub proof fn law_oldest_goes(used: Vec<u64>, step: u64, r: Option<usize>)
    requires
        call_ensures(find_victim, (&used, step), r),
    ensures
        r is None <==> forall|i: int| 0 <= i < used@.len() ==> #[trigger] used@[i] == step || used@[i] == u64::MAX,
        r matches Some(v) ==> {
            &&& v < used@.len() && used@[v as int] != step && used@[v as int] != u64::MAX
            &&& forall|i: int|
                0 <= i < used@.len() && #[trigger] used@[i] != step && used@[i] != u64::MAX ==> used@[v as int] < used@[i] || (
                used@[v as int] == used@[i] && v <= i)
        },
{
    if r is None {
        assert forall|i: int| 0 <= i < used@.len() implies #[trigger] used@[i] == step || used@[i] == u64::MAX by {
            assert(!evictable(used@, step, i));
        }
    } else {
        let v = r->0 as int;
        assert(evictable(used@, step, v));
        assert forall|i: int|
            0 <= i < used@.len() && #[trigger] used@[i] != step && used@[i] != u64::MAX implies used@[v] < used@[i] || (
        used@[v] == used@[i] && v <= i) by {
            assert(evictable(used@, step, i));
        }
    }
}

} // verus!
