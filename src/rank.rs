//! Choosing the most used entries: the ranking step of a cache refresh.

use vstd::prelude::*;

verus! {

/// How many entries a refresh keeps out of `n`: all of them without a capacity,
/// else at most the capacity.
pub open spec fn kept_count(limit: Option<usize>, n: nat) -> nat {
    match limit {
        Some(l) => if (l as nat) < n { l as nat } else { n },
        None => n,
    }
}

/// Position `a` ranks at least as high as position `b`: a larger count, or an
/// equal count where `b` is not preferred or `a` is.
pub open spec fn outranks(counts: Seq<u64>, preferred: Seq<bool>, a: int, b: int) -> bool {
    counts[a] > counts[b] || (counts[a] == counts[b] && (preferred[a] || !preferred[b]))
}

/// Positions of the `kept_count(limit, counts.len())` largest counts, largest first.
/// No position left out has a larger count than one taken, and on equal counts a
/// preferred position is never left out for one that is not.
pub fn rank_top(counts: &Vec<u64>, preferred: &Vec<bool>, limit: Option<usize>) -> (r: Vec<usize>)
    requires
        preferred@.len() == counts@.len(),
    ensures
        r@.len() == kept_count(limit, counts@.len() as nat),
        r@.no_duplicates(),
        forall|i: int| 0 <= i < r@.len() ==> r@[i] < counts@.len(),
        forall|i: int, j: int|
            0 <= i <= j < r@.len() ==> counts@[r@[i] as int] >= counts@[r@[j] as int],
        forall|i: int, p: usize|
            0 <= i < r@.len() && p < counts@.len() && !r@.contains(p) ==> #[trigger] counts@[r@[i] as int]
                >= #[trigger] counts@[p as int],
        forall|i: int, p: usize|
            0 <= i < r@.len() && p < counts@.len() && !r@.contains(p) && #[trigger] counts@[r@[i] as int]
                == #[trigger] counts@[p as int] ==> preferred@[r@[i] as int] || !preferred@[p as int],
{
    let n = counts.len();
    let m: usize = match limit {
        Some(l) => if l < n { l } else { n },
        None => n,
    };
    let mut order: Vec<usize> = Vec::new();
    let mut i: usize = 0;
    while i < n
        invariant
            i <= n,
            order@.len() == i,
            forall|k: int| 0 <= k < i ==> order@[k] == k,
        decreases n - i,
    {
        order.push(i);
        i += 1;
    }
    proof {
        assert forall|p: usize| p < n implies #[trigger] order@.contains(p) by {
            assert(order@[p as int] == p);
        }
    }
    let mut pos: usize = 0;
    while pos < m
        invariant
            m <= n,
            n == counts@.len(),
            n == preferred@.len(),
            m == kept_count(limit, n as nat),
            pos <= m,
            order@.len() == n,
            forall|k: int| 0 <= k < n ==> order@[k] < n,
            forall|a: int, b: int| 0 <= a < n && 0 <= b < n && a != b ==> order@[a] != order@[b],
            forall|p: usize| p < n ==> #[trigger] order@.contains(p),
            forall|a: int, b: int|
                0 <= a < b < pos ==> counts@[order@[a] as int] >= counts@[order@[b] as int],
            forall|a: int, b: int|
                0 <= a < pos <= b < n ==> outranks(
                    counts@,
                    preferred@,
                    order@[a] as int,
                    order@[b] as int,
                ),
        decreases m - pos,
    {
        let mut best: usize = pos;
        let mut j: usize = pos + 1;
        while j < n
            invariant
                pos < n,
                n == counts@.len(),
                n == preferred@.len(),
                order@.len() == n,
                forall|k: int| 0 <= k < n ==> order@[k] < n,
                pos <= best < j <= n,
                forall|b: int|
                    pos <= b < j ==> outranks(
                        counts@,
                        preferred@,
                        order@[best as int] as int,
                        order@[b] as int,
                    ),
            decreases n - j,
        {
            let cj = counts[order[j]];
            let cb = counts[order[best]];
            if cj > cb || (cj == cb && preferred[order[j]] && !preferred[order[best]]) {
                best = j;
            }
            j += 1;
        }
        let ghost before = order@;
        let a = order[pos];
        let b = order[best];
        order.set(pos, b);
        order.set(best, a);
        proof {
            assert forall|p: usize| p < n implies #[trigger] order@.contains(p) by {
                assert(before.contains(p));
                let k = choose|k: int| 0 <= k < before.len() && before[k] == p;
                if k == pos {
                    assert(order@[best as int] == p);
                } else if k == best {
                    assert(order@[pos as int] == p);
                } else {
                    assert(order@[k] == p);
                }
            }
        }
        proof {
            assert forall|x: int| 0 <= x < pos implies counts@[order@[x] as int]
                >= counts@[order@[pos as int] as int] by {
                assert(outranks(counts@, preferred@, before[x] as int, before[best as int] as int));
            }
            assert forall|x: int, y: int| 0 <= x <= pos < y < n implies outranks(
                counts@,
                preferred@,
                order@[x] as int,
                order@[y] as int,
            ) by {
                let y0 = if y == best { pos as int } else { y };
                if x < pos {
                    assert(outranks(counts@, preferred@, before[x] as int, before[y0] as int));
                } else {
                    assert(outranks(counts@, preferred@, before[best as int] as int, before[y0] as int));
                }
            }
        }
        pos += 1;
    }
    let ghost full = order@;
    order.truncate(m);
    proof {
        assert(order@ =~= full.subrange(0, m as int));
        assert forall|i: int, p: usize|
            0 <= i < order@.len() && p < counts@.len() && !order@.contains(p) implies counts@[order@[i] as int]
            >= counts@[p as int] && (counts@[order@[i] as int] == counts@[p as int]
            ==> preferred@[order@[i] as int] || !preferred@[p as int]) by {
            assert(full.contains(p));
            let k = choose|k: int| 0 <= k < full.len() && full[k] == p;
            if k < m {
                assert(order@[k] == p);
            }
            assert(outranks(counts@, preferred@, full[i] as int, full[k] as int));
        }
    }
    order
}

} // verus!
