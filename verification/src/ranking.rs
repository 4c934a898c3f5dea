//! Stable "best first" ordering by integer keys.
//!
//! Scores produced by the simulation are floating-point; each score's
//! bits map to a `u64` key (`total_order_key`) that orders as
//! `f64::total_cmp` orders the scores, and every ranking (prune eviction
//! order, similarity search, recall, detection order) is then a stable
//! descending sort over those keys — the order that
//! `slice::sort_by(|a, b| b.total_cmp(a))` produces.

use vstd::prelude::*;

verus! {

/// `a` is ranked strictly before `b`: higher key first, and on equal keys
/// the earlier position first (stability).
pub open spec fn ranks_before(keys: Seq<u64>, a: int, b: int) -> bool {
    keys[a] > keys[b] || (keys[a] == keys[b] && a < b)
}

/// `order` lists every position of `keys` exactly once, best first.
pub open spec fn is_ranking(keys: Seq<u64>, order: Seq<usize>) -> bool {
    &&& order.len() == keys.len()
    &&& forall|i: int| 0 <= i < order.len() ==> #[trigger] order[i] < keys.len()
    &&& forall|i: int, j: int|
        0 <= i < j < order.len() ==> ranks_before(keys, #[trigger] order[i] as int, #[trigger] order[j] as int)
}

/// Positions of `keys`, best (largest key) first; ties keep their
/// original relative order.
pub fn rank_desc(keys: &Vec<u64>) -> (order: Vec<usize>)
    ensures
        is_ranking(keys@, order@),
{
    let n = keys.len();
    let mut order: Vec<usize> = Vec::new();
    let mut k: usize = 0;
    while k < n
        invariant
            k <= n,
            n == keys@.len(),
            order@.len() == k,
            forall|i: int| 0 <= i < order@.len() ==> #[trigger] order@[i] < k,
            forall|i: int, j: int|
                0 <= i < j < order@.len() ==> ranks_before(keys@, #[trigger] order@[i] as int, #[trigger] order@[j] as int),
        decreases n - k,
    {
        // Insert k after every element whose key is >= keys[k].
        let mut p: usize = 0;
        while p < order.len() && keys[order[p]] >= keys[k]
            invariant
                p <= order@.len(),
                order@.len() == k,
                k < n,
                n == keys@.len(),
                forall|i: int| 0 <= i < order@.len() ==> #[trigger] order@[i] < k,
                forall|i: int| 0 <= i < p ==> keys@[#[trigger] order@[i] as int] >= keys@[k as int],
            decreases order@.len() - p,
        {
            p = p + 1;
        }
        let ghost old_order = order@;
        // Everything at or after p ranks below k: p is the first key < keys[k],
        // and keys are non-increasing along the order.
        proof {
            assert forall|i: int| p <= i < old_order.len() implies keys@[#[trigger] old_order[i] as int]
                < keys@[k as int] by {
                if i > p {
                    assert(ranks_before(keys@, old_order[p as int] as int, old_order[i] as int));
                }
            }
        }
        order.insert(p, k);
        proof {
            assert forall|i: int, j: int| 0 <= i < j < order@.len() implies ranks_before(
                keys@,
                #[trigger] order@[i] as int,
                #[trigger] order@[j] as int,
            ) by {
                if i < p && j < p {
                    assert(order@[i] == old_order[i] && order@[j] == old_order[j]);
                } else if i < p && j == p {
                    assert(order@[i] == old_order[i]);
                } else if i < p && j > p {
                    assert(order@[i] == old_order[i] && order@[j] == old_order[j - 1]);
                } else if i == p {
                    assert(order@[j] == old_order[j - 1]);
                } else {
                    assert(order@[i] == old_order[i - 1] && order@[j] == old_order[j - 1]);
                }
            }
            assert forall|i: int| 0 <= i < order@.len() implies #[trigger] order@[i] < k + 1 by {
                if i < p {
                    assert(order@[i] == old_order[i]);
                } else if i > p {
                    assert(order@[i] == old_order[i - 1]);
                }
            }
        }
        k = k + 1;
    }
    order
}

pub const SIGN_BIT: u64 = 0x8000_0000_0000_0000;

/// The key of an `f64` given by its bits, in `f64::total_cmp` order:
/// negative values (sign bit set) reversed below, non-negative values
/// above with the sign bit set.
pub open spec fn order_key_spec(bits: u64) -> u64 {
    if bits >= SIGN_BIT {
        (u64::MAX - bits) as u64
    } else {
        (bits + SIGN_BIT) as u64
    }
}

pub fn total_order_key(bits: u64) -> (k: u64)
    ensures
        k == order_key_spec(bits),
{
    if bits >= SIGN_BIT {
        u64::MAX - bits
    } else {
        bits + SIGN_BIT
    }
}

/// Different bits never share a key.
pub proof fn lemma_order_key_injective(a: u64, b: u64)
    ensures
        a != b ==> order_key_spec(a) != order_key_spec(b),
{
}

/// Every non-negative value keys above every negative one, and within
/// each sign the key follows the bits (up for non-negatives, down for
/// negatives).
pub proof fn lemma_order_key_monotone(a: u64, b: u64)
    ensures
        a < SIGN_BIT && b >= SIGN_BIT ==> order_key_spec(a) > order_key_spec(b),
        a < SIGN_BIT && b < SIGN_BIT && a < b ==> order_key_spec(a) < order_key_spec(b),
        a >= SIGN_BIT && b >= SIGN_BIT && a < b ==> order_key_spec(a) > order_key_spec(b),
{
}

} // verus!
