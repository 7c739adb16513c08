use vstd::prelude::*;
use crate::node_id::{be_value, xor_bytes, NodeId};

verus! {

/// XOR distance from `id` to `target`, as a number.
pub open spec fn dist(id: NodeId, target: NodeId) -> nat {
    be_value(xor_bytes(id.0@, target.0@))
}

/// `picked` lists distinct indices into `ids`, closest to `target` first;
/// every index left out is at least as far as every index picked.
pub open spec fn closest_selection(ids: Seq<NodeId>, target: NodeId, picked: Seq<usize>) -> bool {
    &&& forall|a: int| 0 <= a < picked.len() ==> picked[a] < ids.len()
    &&& forall|a: int, b: int| 0 <= a < b < picked.len() ==> picked[a] != picked[b]
    &&& forall|a: int, b: int|
        0 <= a < b < picked.len() ==> dist(ids[picked[a] as int], target) <= dist(ids[picked[b] as int], target)
    &&& forall|a: int, j: int|
        #![trigger picked[a], ids[j]]
        0 <= a < picked.len() && 0 <= j < ids.len() && !picked.contains(j as usize) ==> dist(
            ids[picked[a] as int],
            target,
        ) <= dist(ids[j], target)
}

/// Whether `a` is strictly closer to `target` than `b`.
pub fn closer(a: &NodeId, b: &NodeId, target: &NodeId) -> (r: bool)
    ensures
        r == (dist(*a, *target) < dist(*b, *target)),
{
    let da = a.distance(target);
    let db = b.distance(target);
    da.is_less_than(&db)
}

/// Picks the `count` ids closest to `target` (all of them when there are
/// fewer), closest first, as indices into `ids`.
pub fn select_closest(ids: &Vec<NodeId>, target: &NodeId, count: usize) -> (r: Vec<usize>)
    ensures
        closest_selection(ids@, *target, r@),
        r@.len() == if count < ids@.len() { count as int } else { ids@.len() as int },
{
    let n = ids.len();
    let want = if count < n { count } else { n };
    let mut remaining: Vec<usize> = Vec::new();
    let mut k: usize = 0;
    while k < n
        invariant
            0 <= k <= n,
            n == ids@.len(),
            remaining@.len() == k,
            forall|j: int| 0 <= j < k ==> remaining@[j] == j,
        decreases n - k,
    {
        remaining.push(k);
        k = k + 1;
    }
    let mut picked: Vec<usize> = Vec::new();
    assert forall|j: usize| j < n implies #[trigger] picked@.contains(j) || remaining@.contains(j) by {
        assert(remaining@[j as int] == j);
    }
    while picked.len() < want
        invariant
            n == ids@.len(),
            want <= n,
            picked@.len() <= want,
            picked@.len() + remaining@.len() == n,
            closest_selection(ids@, *target, picked@),
            forall|a: int| 0 <= a < remaining@.len() ==> remaining@[a] < n,
            forall|a: int, b: int| 0 <= a < b < remaining@.len() ==> remaining@[a] != remaining@[b],
            forall|a: int, b: int| 0 <= a < picked@.len() && 0 <= b < remaining@.len() ==> picked@[a] != remaining@[b],
            forall|j: usize| j < n ==> #[trigger] picked@.contains(j) || remaining@.contains(j),
            forall|a: int, b: int|
                0 <= a < picked@.len() && 0 <= b < remaining@.len() ==> dist(ids@[picked@[a] as int], *target)
                    <= dist(ids@[remaining@[b] as int], *target),
        decreases want - picked@.len(),
    {
        let mut best: usize = 0;
        let mut j: usize = 1;
        while j < remaining.len()
            invariant
                n == ids@.len(),
                forall|a: int| 0 <= a < remaining@.len() ==> remaining@[a] < n,
                remaining@.len() > 0,
                1 <= j <= remaining@.len(),
                best < j,
                forall|m: int| 0 <= m < j ==> dist(ids@[remaining@[best as int] as int], *target) <= dist(
                    ids@[remaining@[m] as int],
                    *target,
                ),
            decreases remaining@.len() - j,
        {
            if closer(&ids[remaining[j]], &ids[remaining[best]], target) {
                best = j;
            }
            j = j + 1;
        }
        let ghost before = picked@;
        let ghost rem = remaining@;
        let chosen = remaining.remove(best);
        picked.push(chosen);
        proof {
            assert(chosen == rem[best as int]);
            assert(picked@ == before.push(chosen));
            assert forall|a: int| 0 <= a < remaining@.len() implies remaining@[a] == rem[if a < best { a } else { a + 1 }] by {}
            assert forall|a: int, b: int| 0 <= a < b < picked@.len() implies picked@[a] != picked@[b] by {
                if b == picked@.len() - 1 {
                    assert(before[a] != rem[best as int]);
                }
            }
            assert forall|a: int, b: int|
                0 <= a < b < picked@.len() implies dist(ids@[picked@[a] as int], *target) <= dist(
                ids@[picked@[b] as int],
                *target,
            ) by {
                if b == picked@.len() - 1 {
                    assert(dist(ids@[before[a] as int], *target) <= dist(ids@[rem[best as int] as int], *target));
                }
            }
            assert forall|a: int, b: int|
                0 <= a < picked@.len() && 0 <= b < remaining@.len() implies dist(ids@[picked@[a] as int], *target)
                <= dist(ids@[remaining@[b] as int], *target) by {
                let ob = if b < best { b } else { b + 1 };
                assert(remaining@[b] == rem[ob]);
                if a == picked@.len() - 1 {
                } else {
                    assert(picked@[a] == before[a]);
                }
            }
            assert forall|a: int, b: int| 0 <= a < picked@.len() && 0 <= b < remaining@.len() implies picked@[a]
                != remaining@[b] by {
                let ob = if b < best { b } else { b + 1 };
                assert(remaining@[b] == rem[ob]);
                if a == picked@.len() - 1 {
                    assert(rem[best as int] != rem[ob]);
                } else {
                    assert(picked@[a] == before[a]);
                }
            }
            assert forall|a: int, b: int| 0 <= a < b < remaining@.len() implies remaining@[a] != remaining@[b] by {
                let oa = if a < best { a } else { a + 1 };
                let ob = if b < best { b } else { b + 1 };
                assert(remaining@[a] == rem[oa]);
                assert(remaining@[b] == rem[ob]);
            }
            assert forall|j: usize| j < n implies #[trigger] picked@.contains(j) || remaining@.contains(j) by {
                if before.contains(j) {
                    let q = choose|q: int| 0 <= q < before.len() && before[q] == j;
                    assert(picked@[q] == j);
                } else {
                    assert(rem.contains(j));
                    let q = choose|q: int| 0 <= q < rem.len() && rem[q] == j;
                    if q == best {
                        assert(picked@[picked@.len() - 1] == j);
                    } else if q < best {
                        assert(remaining@[q] == j);
                    } else {
                        assert(remaining@[q - 1] == j);
                    }
                }
            }
            assert forall|a: int, j: int|
                #![trigger picked@[a], ids@[j]]
                0 <= a < picked@.len() && 0 <= j < ids@.len() && !picked@.contains(j as usize) implies dist(
                ids@[picked@[a] as int],
                *target,
            ) <= dist(ids@[j], *target) by {
                assert(remaining@.contains(j as usize));
                let q = choose|q: int| 0 <= q < remaining@.len() && remaining@[q] == j as usize;
                assert(dist(ids@[picked@[a] as int], *target) <= dist(ids@[remaining@[q] as int], *target));
            }
        }
    }
    proof {
        assert forall|a: int, j: int|
            #![trigger picked@[a], ids@[j]]
            0 <= a < picked@.len() && 0 <= j < ids@.len() && !picked@.contains(j as usize) implies dist(
            ids@[picked@[a] as int],
            *target,
        ) <= dist(ids@[j], *target) by {
            assert(remaining@.contains(j as usize));
            let q = choose|q: int| 0 <= q < remaining@.len() && remaining@[q] == j as usize;
            assert(dist(ids@[picked@[a] as int], *target) <= dist(ids@[remaining@[q] as int], *target));
        }
    }
    picked
}

} // verus!
