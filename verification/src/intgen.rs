//! Integer mode: draw `count` uniform values of `[low, high]`, distinct
//! within the run when requested.
//!
//! A distinct draw is taken uniformly from the values of the range that
//! are still unclaimed: the verified selection below turns a uniform
//! index into the index-th unclaimed value, so every accepted value is
//! provably fresh and the loop needs no unbounded redrawing.

use vstd::prelude::*;
use crate::GenError;
use crate::lemma_push_contains;
use crate::pairwise_distinct;

verus! {

/// Relies on rand's `random_range` over `low..=high`: a draw from a
/// non-empty inclusive integer range lies within it.
#[verifier::external_body]
fn int_rng(low: i32, high: i32) -> (r: i32)
    requires
        low <= high,
    ensures
        low <= r <= high,
{
    rand::random_range(low..=high)
}

/// Relies on rand's `random_range` over `0..n`: a draw from a non-empty
/// index range lies below its bound.
#[verifier::external_body]
fn index_rng(n: u64) -> (r: u64)
    requires
        n >= 1,
    ensures
        r < n,
{
    rand::random_range(0..n)
}

/// True when the value does not occur in the list of already generated
/// values.
pub fn check_i32_for_uniqueness(num: &i32, array: &Vec<i32>) -> (r: bool)
    ensures
        r == !array@.contains(*num),
{
    let mut i: usize = 0;
    while i < array.len()
        invariant
            i <= array@.len(),
            forall|k: int| 0 <= k < i ==> array@[k] != *num,
        decreases array@.len() - i,
    {
        if array[i] == *num {
            proof {
                assert(array@.contains(*num));
            }
            return false;
        }
        i += 1;
    }
    true
}

/// The sequence grows strictly: an ordered list of distinct values.
pub open spec fn sorted_strict(s: Seq<i32>) -> bool {
    forall|i: int, j: int| 0 <= i < j < s.len() ==> s[i] < s[j]
}

/// The index-th value of `[low, high]` that the sorted claimed list does
/// not hold: start at `low + index` and step once past every claimed
/// value at or below the cursor.
fn nth_unclaimed(low: i32, high: i32, claimed: &Vec<i32>, index: u64) -> (r: i32)
    requires
        low <= high,
        sorted_strict(claimed@),
        claimed@.len() + index < high as int - low as int + 1,
    ensures
        low <= r <= high,
        !claimed@.contains(r),
{
    let mut c: i64 = low as i64 + index as i64;
    let mut k: usize = 0;
    while k < claimed.len() && (claimed[k] as i64) <= c
        invariant
            low <= high,
            sorted_strict(claimed@),
            claimed@.len() + index < high as int - low as int + 1,
            k <= claimed@.len(),
            c == low as int + index as int + k as int,
            forall|l: int| 0 <= l < k ==> (#[trigger] claimed@[l]) < c,
        decreases claimed@.len() - k,
    {
        c = c + 1;
        k = k + 1;
    }
    proof {
        assert(c <= high);
        assert forall|l: int| 0 <= l < claimed@.len() implies (#[trigger] claimed@[l]) != c by {
            if l >= k {
                assert(k < claimed@.len());
                assert((claimed@[k as int] as i64) > c);
                if l > k {
                    assert(claimed@[k as int] < claimed@[l]);
                }
            }
        }
        assert(!claimed@.contains(c as i32));
    }
    c as i32
}

/// Insert a fresh value into the sorted claimed list, keeping it sorted;
/// afterwards the list holds exactly the old values and the new one.
fn insert_sorted(claimed: &mut Vec<i32>, value: i32)
    requires
        sorted_strict(old(claimed)@),
        !old(claimed)@.contains(value),
    ensures
        sorted_strict(final(claimed)@),
        final(claimed)@.len() == old(claimed)@.len() + 1,
        forall|x: i32|
            final(claimed)@.contains(x) <==> old(claimed)@.contains(x) || x == value,
{
    let ghost pre = claimed@;
    let mut idx: usize = 0;
    while idx < claimed.len() && claimed[idx] < value
        invariant
            claimed@ == pre,
            idx <= pre.len(),
            forall|l: int| 0 <= l < idx ==> (#[trigger] pre[l]) < value,
        decreases claimed@.len() - idx,
    {
        idx += 1;
    }
    proof {
        assert forall|l: int| idx <= l < pre.len() implies (#[trigger] pre[l]) > value by {
            assert(pre[idx as int] >= value);
            if pre[idx as int] == value {
                assert(pre.contains(value));
            }
            if l > idx {
                assert(pre[idx as int] < pre[l]);
            }
        }
    }
    claimed.insert(idx, value);
    proof {
        pre.insert_ensures(idx as int, value);
        let post = claimed@;
        assert forall|a: int, b: int| 0 <= a < b < post.len() implies post[a] < post[b] by {
            if b < idx {
                assert(post[a] == pre[a] && post[b] == pre[b]);
            } else if a < idx && b == idx {
                assert(post[a] == pre[a] && post[b] == value);
            } else if a < idx && b > idx {
                assert(post[a] == pre[a] && post[b] == pre[b - 1]);
                if b - 1 < idx {
                    assert(false);
                } else {
                    assert(pre[b - 1] > value);
                }
            } else if a == idx {
                assert(post[a] == value && post[b] == pre[b - 1]);
            } else {
                assert(post[a] == pre[a - 1] && post[b] == pre[b - 1]);
            }
        }
        assert forall|x: i32| post.contains(x) implies pre.contains(x) || x == value by {
            let i = choose|i: int| 0 <= i < post.len() && post[i] == x;
            if i < idx {
                assert(pre[i] == x);
            } else if i > idx {
                assert(pre[i - 1] == x);
            }
        }
        assert forall|x: i32| pre.contains(x) || x == value implies post.contains(x) by {
            if x == value {
                assert(post[idx as int] == x);
            } else {
                let i = choose|i: int| 0 <= i < pre.len() && pre[i] == x;
                if i < idx {
                    assert(post[i] == x);
                } else {
                    assert(post[i + 1] == x);
                }
            }
        }
    }
}

/// Produce `count` uniform integers of `[low, high]`, pairwise distinct
/// when `unique` is set.
///
/// The run fails, before anything is emitted, exactly when distinct
/// values are requested and a positive count exceeds the number of
/// values the range holds. On success the list holds one value per
/// requested draw (none for a count below one), every value lies in
/// `[low, high]`, and under `unique` no two of them are equal.
pub fn generate_integers(low: i32, high: i32, count: i32, unique: bool) -> (r: Result<
    Vec<i32>,
    GenError,
>)
    requires
        count > 0 && !unique ==> low <= high,
    ensures
        (match r {
            Ok(v) => {
                &&& !(unique && count > 0 && count as int > high as int - low as int + 1)
                &&& v@.len() == (if count >= 0 {
                    count as int
                } else {
                    0int
                })
                &&& (forall|i: int| 0 <= i < v@.len() ==> low <= #[trigger] v@[i] <= high)
                &&& (unique ==> pairwise_distinct(v@))
            },
            Err(e) => {
                &&& e is UnsatisfiableUniqueness
                &&& unique && count > 0 && count as int > high as int - low as int + 1
            },
        }),
{
    let mut out: Vec<i32> = Vec::new();
    if count <= 0 {
        return Ok(out);
    }
    let cnt = count as usize;
    if unique {
        let span: i64 = high as i64 - low as i64 + 1;
        if count as i64 > span {
            return Err(GenError::UnsatisfiableUniqueness);
        }
        let mut claimed: Vec<i32> = Vec::new();
        let mut i: usize = 0;
        while i < cnt
            invariant
                low <= high,
                cnt == count as int,
                count as int <= high as int - low as int + 1,
                i <= cnt,
                out@.len() == i,
                claimed@.len() == i,
                sorted_strict(claimed@),
                forall|x: i32| claimed@.contains(x) <==> out@.contains(x),
                forall|k: int| 0 <= k < out@.len() ==> low <= #[trigger] out@[k] <= high,
                pairwise_distinct(out@),
            decreases cnt - i,
        {
            let remaining = (high as i64 - low as i64 + 1 - claimed.len() as i64) as u64;
            let index = index_rng(remaining);
            let num = nth_unclaimed(low, high, &claimed, index);
            let ghost pre_out = out@;
            let ghost pre_claimed = claimed@;
            insert_sorted(&mut claimed, num);
            out.push(num);
            proof {
                assert(!pre_out.contains(num));
                assert forall|a: int, b: int|
                    0 <= a < b < out@.len() implies out@[a] != out@[b] by {
                    if b < pre_out.len() {
                        assert(out@[a] == pre_out[a] && out@[b] == pre_out[b]);
                    } else {
                        assert(out@[b] == num && out@[a] == pre_out[a]);
                        if pre_out[a] == num {
                            assert(pre_out.contains(num));
                        }
                    }
                }
                assert forall|x: i32| claimed@.contains(x) <==> out@.contains(x) by {
                    lemma_push_contains(pre_out, num, x);
                }
            }
            i += 1;
        }
        Ok(out)
    } else {
        let mut i: usize = 0;
        while i < cnt
            invariant
                low <= high,
                i <= cnt,
                out@.len() == i,
                forall|k: int| 0 <= k < out@.len() ==> low <= #[trigger] out@[k] <= high,
            decreases cnt - i,
        {
            let num = int_rng(low, high);
            out.push(num);
            i += 1;
        }
        Ok(out)
    }
}

} // verus!
