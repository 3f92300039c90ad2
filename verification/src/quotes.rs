//! Quotes as the provider hands them over: the order in which to read them.

use vstd::prelude::*;

verus! {

/// Whether the quote at position `i` goes before the one at position `j`:
/// the earlier timestamp first, and of two equal timestamps the one that
/// came first from the provider.
pub open spec fn goes_before(timestamps: Seq<i64>, i: int, j: int) -> bool {
    timestamps[i] < timestamps[j] || (timestamps[i] == timestamps[j] && i < j)
}

/// Whether `order` lists every position of `timestamps` once, by ascending
/// timestamp, positions with equal timestamps in the order in which they came.
pub open spec fn is_closing_order(timestamps: Seq<i64>, order: Seq<usize>) -> bool {
    &&& order.len() == timestamps.len()
    &&& forall|a: int| 0 <= a < order.len() ==> (#[trigger] order[a]) < timestamps.len()
    &&& forall|i: usize| i < timestamps.len() ==> #[trigger] order.contains(i)
    &&& forall|a: int, b: int|
        0 <= a < b < order.len() ==> goes_before(
            timestamps,
            #[trigger] order[a] as int,
            #[trigger] order[b] as int,
        )
}

/// The order in which to read quotes so that their timestamps ascend: a
/// stable sort of the positions by timestamp.
pub fn closing_order(timestamps: &Vec<i64>) -> (order: Vec<usize>)
    ensures
        is_closing_order(timestamps@, order@),
{
    let mut order: Vec<usize> = Vec::new();
    let mut k: usize = 0;
    while k < timestamps.len()
        invariant
            k <= timestamps.len(),
            is_closing_order(timestamps@.subrange(0, k as int), order@),
        decreases timestamps.len() - k,
    {
        let ghost placed = timestamps@.subrange(0, k as int);
        let ghost longer = timestamps@.subrange(0, k + 1);
        let ghost before = order@;
        let stamp = timestamps[k];
        let mut p: usize = k;
        while p > 0 && timestamps[order[p - 1]] > stamp
            invariant
                p <= k,
                k < timestamps.len(),
                order@ == before,
                stamp == timestamps@[k as int],
                is_closing_order(placed, before),
                placed == timestamps@.subrange(0, k as int),
                forall|a: int| p <= a < k ==> timestamps@[(#[trigger] before[a]) as int] > stamp,
            decreases p,
        {
            p = p - 1;
        }
        order.insert(p, k);
        proof {
            let after = order@;
            assert forall|a: int| 0 <= a < p implies goes_before(
                longer,
                (#[trigger] before[a]) as int,
                k as int,
            ) by {
                assert(placed[before[a] as int] == longer[before[a] as int]);
                assert(placed[before[p - 1] as int] == longer[before[p - 1] as int]);
                if a < p - 1 {
                    assert(goes_before(placed, before[a] as int, before[p - 1] as int));
                }
            }
            assert forall|a: int, b: int| 0 <= a < b < after.len() implies goes_before(
                longer,
                #[trigger] after[a] as int,
                #[trigger] after[b] as int,
            ) by {
                if b < p {
                    assert(after[a] == before[a] && after[b] == before[b]);
                    assert(goes_before(placed, before[a] as int, before[b] as int));
                } else if b == p {
                    assert(after[a] == before[a]);
                } else if a < p {
                    assert(after[a] == before[a] && after[b] == before[b - 1]);
                    if a < b - 1 {
                        assert(goes_before(placed, before[a] as int, before[b - 1] as int));
                    }
                } else if a == p {
                    assert(after[b] == before[b - 1]);
                } else {
                    assert(after[a] == before[a - 1] && after[b] == before[b - 1]);
                    assert(goes_before(placed, before[a - 1] as int, before[b - 1] as int));
                }
            }
            assert forall|i: usize| i < longer.len() implies #[trigger] after.contains(i) by {
                if i == k {
                    assert(after[p as int] == k);
                } else {
                    assert(before.contains(i));
                    let a = choose|a: int| 0 <= a < before.len() && before[a] == i;
                    if a < p {
                        assert(after[a] == i);
                    } else {
                        assert(after[a + 1] == i);
                    }
                }
            }
            assert forall|a: int| 0 <= a < after.len() implies (#[trigger] after[a])
                < longer.len() by {
                if a < p {
                    assert(after[a] == before[a]);
                } else if a > p {
                    assert(after[a] == before[a - 1]);
                }
            }
        }
        k = k + 1;
    }
    proof {
        assert(timestamps@.subrange(0, k as int) =~= timestamps@);
    }
    order
}

} // verus!
