//! Orderings of rows by a key, greatest key first.

use vstd::prelude::*;

verus! {

/// Index `j` occurs in `order`.
pub open spec fn listed(order: Seq<usize>, j: int) -> bool {
    exists|k: int| 0 <= k < order.len() && order[k] == j
}

/// `order` lists each index below `n` exactly once.
pub open spec fn is_permutation(order: Seq<usize>, n: int) -> bool {
    &&& order.len() == n
    &&& forall|k: int| 0 <= k < n ==> order[k] < n
    &&& forall|k1: int, k2: int| 0 <= k1 < k2 < n ==> order[k1] != order[k2]
    &&& forall|j: int| 0 <= j < n ==> #[trigger] listed(order, j)
}

/// Along `order`, the keys never increase.
pub open spec fn sorted_desc_by(order: Seq<usize>, keys: Seq<i64>) -> bool {
    forall|a: int, b: int|
        0 <= a < b < order.len() ==> keys[#[trigger] order[a] as int] >= keys[#[trigger] order[b] as int]
}

/// The indices of `keys`, greatest key first (equal keys keep their order).
pub fn order_desc(keys: &Vec<i64>) -> (r: Vec<usize>)
    ensures
        is_permutation(r@, keys@.len() as int),
        sorted_desc_by(r@, keys@),
{
    let mut order: Vec<usize> = Vec::new();
    let mut i: usize = 0;
    while i < keys.len()
        invariant
            i <= keys@.len(),
            is_permutation(order@, i as int),
            sorted_desc_by(order@, keys@),
        decreases keys@.len() - i,
    {
        let mut p: usize = 0;
        while p < order.len() && keys[order[p]] >= keys[i]
            invariant
                i < keys@.len(),
                p <= order@.len(),
                is_permutation(order@, i as int),
                forall|q: int| 0 <= q < p ==> keys@[order@[q] as int] >= keys@[i as int],
            decreases order@.len() - p,
        {
            p = p + 1;
        }
        let ghost old_order = order@;
        order.insert(p, i);
        proof {
            old_order.insert_ensures(p as int, i);
            let o = order@;
            assert(o == old_order.insert(p as int, i));
            assert forall|a: int, b: int| 0 <= a < b < o.len() implies keys@[#[trigger] o[a] as int] >= keys@[
                #[trigger] o[b] as int] by {
                if b < p {
                } else if b == p {
                } else if a < p {
                    assert(o[b] == old_order[b - 1]);
                    assert(keys@[old_order[p as int] as int] < keys@[i as int]);
                    if p < b - 1 {
                        assert(keys@[old_order[p as int] as int] >= keys@[old_order[b - 1] as int]);
                    }
                } else if a == p {
                    assert(o[b] == old_order[b - 1]);
                    assert(keys@[old_order[p as int] as int] < keys@[i as int]);
                    if p < b - 1 {
                        assert(keys@[old_order[p as int] as int] >= keys@[old_order[b - 1] as int]);
                    }
                } else {
                    assert(o[a] == old_order[a - 1]);
                    assert(o[b] == old_order[b - 1]);
                }
            }
            assert forall|j: int| 0 <= j < i + 1 implies #[trigger] listed(o, j) by {
                if j == i {
                    assert(o[p as int] == j);
                } else {
                    assert(listed(old_order, j));
                    let k = choose|k: int| 0 <= k < old_order.len() && old_order[k] == j;
                    if k < p {
                        assert(o[k] == j);
                    } else {
                        assert(o[k + 1] == j);
                    }
                }
            }
            assert forall|k1: int, k2: int| 0 <= k1 < k2 < i + 1 implies o[k1] != o[k2] by {
                if k1 == p {
                    assert(o[k2] == old_order[k2 - 1]);
                } else if k2 == p {
                    assert(o[k1] == old_order[k1]);
                } else {
                    let a1 = if k1 < p { k1 } else { k1 - 1 };
                    let a2 = if k2 < p { k2 } else { k2 - 1 };
                    assert(o[k1] == old_order[a1]);
                    assert(o[k2] == old_order[a2]);
                }
            }
            assert forall|k: int| 0 <= k < i + 1 implies o[k] < i + 1 by {
                if k < p {
                    assert(o[k] == old_order[k]);
                } else if k > p {
                    assert(o[k] == old_order[k - 1]);
                }
            }
        }
        i = i + 1;
    }
    order
}

} // verus!
