//! A stable ordering of items by an integer key, as `sort_by_key` gives.

use vstd::prelude::*;

verus! {

/// Key `a` comes strictly before key `b`.
pub open spec fn precedes(a: i128, b: i128, descending: bool) -> bool {
    if descending {
        a > b
    } else {
        a < b
    }
}

/// `order` lists each position of `keys` once.
pub open spec fn is_permutation(order: Seq<usize>, n: int) -> bool {
    &&& order.len() == n
    &&& forall|a: int| 0 <= a < order.len() ==> #[trigger] order[a] < n
    &&& forall|a: int, b: int| 0 <= a < b < order.len() ==> #[trigger] order[a] != #[trigger] order[b]
}

/// `order` is sorted by key, and positions with equal keys keep their order.
pub open spec fn is_stable_sorted(order: Seq<usize>, keys: Seq<i128>, descending: bool) -> bool {
    forall|a: int, b: int|
        0 <= a < b < order.len() ==> !precedes(keys[#[trigger] order[b] as int], keys[#[trigger] order[a] as int], descending)
            && (keys[order[a] as int] == keys[order[b] as int] ==> order[a] < order[b])
}

/// The positions of `keys` in key order (ascending, or descending), equal
/// keys in their original order: what a stable sort by key yields.
pub fn stable_order(keys: &[i128], descending: bool) -> (order: Vec<usize>)
    ensures
        is_permutation(order@, keys@.len() as int),
        is_stable_sorted(order@, keys@, descending),
{
    let mut out: Vec<usize> = Vec::new();
    let mut i: usize = 0;
    while i < keys.len()
        invariant
            i <= keys.len(),
            is_permutation(out@, i as int),
            is_stable_sorted(out@, keys@, descending),
        decreases keys.len() - i,
    {
        let k = keys[i];
        let mut p: usize = 0;
        while p < out.len()
            invariant_except_break
                p <= out.len(),
                i < keys.len(),
                is_permutation(out@, i as int),
                forall|q: int| 0 <= q < p ==> !precedes(k, keys@[#[trigger] out@[q] as int], descending),
            ensures
                p <= out.len(),
                forall|q: int| 0 <= q < p ==> !precedes(k, keys@[#[trigger] out@[q] as int], descending),
                p < out.len() ==> precedes(k, keys@[out@[p as int] as int], descending),
            decreases out.len() - p,
        {
            assert(out@[p as int] < i);
            let kq = keys[out[p]];
            let before = if descending { k > kq } else { k < kq };
            if before {
                break;
            }
            p = p + 1;
        }
        let ghost old_out = out@;
        out.insert(p, i);
        proof {
            let nw = out@;
            assert(nw =~= old_out.insert(p as int, i));
            assert forall|a: int| 0 <= a < nw.len() implies #[trigger] nw[a] < i + 1 by {
                if a < p {
                    assert(nw[a] == old_out[a]);
                } else if a > p {
                    assert(nw[a] == old_out[a - 1]);
                }
            }
            assert forall|a: int, b: int| 0 <= a < b < nw.len() implies #[trigger] nw[a] != #[trigger] nw[b] by {
                if a < p && b < p {
                    assert(nw[a] == old_out[a] && nw[b] == old_out[b]);
                } else if a < p && b == p {
                    assert(nw[a] == old_out[a]);
                } else if a < p {
                    assert(nw[a] == old_out[a] && nw[b] == old_out[b - 1]);
                } else if a == p {
                    assert(nw[b] == old_out[b - 1]);
                } else {
                    assert(nw[a] == old_out[a - 1] && nw[b] == old_out[b - 1]);
                }
            }
            assert forall|a: int, b: int| 0 <= a < b < nw.len() implies !precedes(
                keys@[#[trigger] nw[b] as int],
                keys@[#[trigger] nw[a] as int],
                descending,
            ) && (keys@[nw[a] as int] == keys@[nw[b] as int] ==> nw[a] < nw[b]) by {
                if a < p && b < p {
                    assert(nw[a] == old_out[a] && nw[b] == old_out[b]);
                } else if a < p && b == p {
                    assert(nw[a] == old_out[a]);
                } else if a < p {
                    assert(nw[a] == old_out[a] && nw[b] == old_out[b - 1]);
                } else if a == p {
                    assert(nw[b] == old_out[b - 1]);
                    if b - 1 > p {
                        assert(old_out[p as int] == old_out[p as int]);
                        assert(!precedes(keys@[old_out[b - 1] as int], keys@[old_out[p as int] as int], descending));
                    }
                } else {
                    assert(nw[a] == old_out[a - 1] && nw[b] == old_out[b - 1]);
                }
            }
        }
        i = i + 1;
    }
    out
}

} // verus!
