//! Ordering of history rows: a verified selection sort over `(key, index)`
//! pairs, used to emit a listing in descending key order.

use vstd::prelude::*;

verus! {

/// Pairs each position of `keys` with its key and sorts the pairs by key,
/// descending.  The result visits every position exactly once, and the
/// sort is stable: positions with equal keys keep their relative order.
pub(crate) fn sorted_pair_order(keys: &Vec<i64>) -> (out: Vec<(i64, usize)>)
    ensures
        out@.len() == keys@.len(),
        forall|i: int|
            0 <= i < out@.len() ==> 0 <= (#[trigger] out@[i]).1 < keys@.len() && out@[i].0
                == keys@[out@[i].1 as int],
        forall|i: int, j: int|
            0 <= i < j < out@.len() ==> (#[trigger] out@[i]).1 != (#[trigger] out@[j]).1,
        forall|i: int, j: int|
            0 <= i < j < out@.len() ==> (#[trigger] out@[i]).0 >= (#[trigger] out@[j]).0,
        forall|i: int, j: int|
            0 <= i < j < out@.len() && (#[trigger] out@[i]).0 == (#[trigger] out@[j]).0
                ==> out@[i].1 < out@[j].1,
{
    let n = keys.len();
    let mut pairs: Vec<(i64, usize)> = Vec::new();
    let mut i: usize = 0;
    while i < n
        invariant
            n == keys@.len(),
            i <= n,
            pairs@.len() == i,
            forall|k: int| 0 <= k < i ==> (#[trigger] pairs@[k]) == (keys@[k], k as usize),
        decreases n - i,
    {
        let key = keys[i];
        pairs.push((key, i));
        i += 1;
    }
    let mut out: Vec<(i64, usize)> = Vec::new();
    while pairs.len() > 0
        invariant
            n == keys@.len(),
            out@.len() + pairs@.len() == n,
            forall|k: int|
                0 <= k < out@.len() ==> 0 <= (#[trigger] out@[k]).1 < n && out@[k].0
                    == keys@[out@[k].1 as int],
            forall|k: int|
                0 <= k < pairs@.len() ==> 0 <= (#[trigger] pairs@[k]).1 < n && pairs@[k].0
                    == keys@[pairs@[k].1 as int],
            forall|k: int, l: int|
                0 <= k < l < out@.len() ==> (#[trigger] out@[k]).1 != (#[trigger] out@[l]).1,
            forall|k: int, l: int|
                0 <= k < l < pairs@.len() ==> (#[trigger] pairs@[k]).1 < (#[trigger] pairs@[l]).1,
            forall|k: int, l: int|
                0 <= k < out@.len() && 0 <= l < pairs@.len() ==> (#[trigger] out@[k]).1 != (
                #[trigger] pairs@[l]).1,
            forall|k: int, l: int|
                0 <= k < l < out@.len() ==> (#[trigger] out@[k]).0 >= (#[trigger] out@[l]).0,
            forall|k: int, l: int|
                0 <= k < l < out@.len() && (#[trigger] out@[k]).0 == (#[trigger] out@[l]).0
                    ==> out@[k].1 < out@[l].1,
            forall|k: int, l: int|
                0 <= k < out@.len() && 0 <= l < pairs@.len() ==> (#[trigger] out@[k]).0 >= (
                #[trigger] pairs@[l]).0,
            forall|k: int, l: int|
                0 <= k < out@.len() && 0 <= l < pairs@.len() && (#[trigger] out@[k]).0 == (
                #[trigger] pairs@[l]).0 ==> out@[k].1 < pairs@[l].1,
        decreases pairs@.len(),
    {
        let mut m: usize = 0;
        let mut j: usize = 1;
        while j < pairs.len()
            invariant
                0 < pairs@.len(),
                m < j,
                j <= pairs@.len(),
                forall|k: int| 0 <= k < j ==> (#[trigger] pairs@[k]).0 <= pairs@[m as int].0,
                forall|k: int| 0 <= k < m ==> (#[trigger] pairs@[k]).0 < pairs@[m as int].0,
            decreases pairs@.len() - j,
        {
            if pairs[j].0 > pairs[m].0 {
                m = j;
            }
            j += 1;
        }
        let ghost old_pairs = pairs@;
        let ghost old_out = out@;
        let best = pairs.remove(m);
        out.push(best);
        proof {
            assert(best == old_pairs[m as int]);
            assert(out@ =~= old_out.push(best));
            assert(pairs@ =~= old_pairs.remove(m as int));
            assert forall|k: int| 0 <= k < pairs@.len() implies 0 <= (#[trigger] pairs@[k]).1 < n
                && pairs@[k].0 == keys@[pairs@[k].1 as int] by {
                if k < m {
                    assert(pairs@[k] == old_pairs[k]);
                } else {
                    assert(pairs@[k] == old_pairs[k + 1]);
                }
            }
            assert forall|k: int, l: int| 0 <= k < l < pairs@.len() implies (
            #[trigger] pairs@[k]).1 < (#[trigger] pairs@[l]).1 by {
                let k0: int = if k < m { k } else { k + 1 };
                let l0: int = if l < m { l } else { l + 1 };
                assert(pairs@[k] == old_pairs[k0]);
                assert(pairs@[l] == old_pairs[l0]);
            }
            assert forall|k: int, l: int|
                0 <= k < out@.len() && 0 <= l < pairs@.len() implies (#[trigger] out@[k]).1 != (
            #[trigger] pairs@[l]).1 by {
                let l0: int = if l < m { l } else { l + 1 };
                assert(pairs@[l] == old_pairs[l0]);
                if k < old_out.len() {
                    assert(out@[k] == old_out[k]);
                } else {
                    assert(out@[k] == old_pairs[m as int]);
                }
            }
            assert forall|k: int, l: int|
                0 <= k < out@.len() && 0 <= l < pairs@.len() implies (#[trigger] out@[k]).0 >= (
            #[trigger] pairs@[l]).0 by {
                let l0: int = if l < m { l } else { l + 1 };
                assert(pairs@[l] == old_pairs[l0]);
                assert(old_pairs[l0].0 <= old_pairs[m as int].0);
                if k < old_out.len() {
                    assert(out@[k] == old_out[k]);
                    assert(old_out[k].0 >= old_pairs[l0].0);
                } else {
                    assert(out@[k] == old_pairs[m as int]);
                }
            }
            assert forall|k: int, l: int|
                0 <= k < l < out@.len() && (#[trigger] out@[k]).0 == (#[trigger] out@[l]).0
                implies out@[k].1 < out@[l].1 by {
                if l == out@.len() - 1 {
                    assert(out@[k] == old_out[k]);
                    assert(out@[l] == old_pairs[m as int]);
                }
            }
            assert forall|k: int, l: int|
                0 <= k < out@.len() && 0 <= l < pairs@.len() && (#[trigger] out@[k]).0 == (
            #[trigger] pairs@[l]).0 implies out@[k].1 < pairs@[l].1 by {
                let l0: int = if l < m { l } else { l + 1 };
                assert(pairs@[l] == old_pairs[l0]);
                if k < old_out.len() {
                    assert(out@[k] == old_out[k]);
                } else {
                    assert(out@[k] == old_pairs[m as int]);
                    // An equal key cannot sit before the first maximum, so
                    // the surviving pair lies after it and carries a larger
                    // position.
                    assert(l0 > m);
                    assert(old_pairs[m as int].1 < old_pairs[l0].1);
                }
            }
        }
    }
    out
}

} // verus!
