//! The largest sum of a contiguous, non-empty run of a sequence, found in one
//! pass (Kadane's algorithm).
use vstd::prelude::*;
use crate::error::InputError;

verus! {

/// The sum of `s[i..j]`, zero when the range is empty.
pub open spec fn range_sum(s: Seq<i32>, i: int, j: int) -> int
    decreases j - i,
{
    if j <= i {
        0
    } else {
        range_sum(s, i, j - 1) + s[j - 1]
    }
}

/// `m` is the largest sum of a non-empty contiguous run of `s`.
pub open spec fn is_max_subarray_sum(s: Seq<i32>, m: int) -> bool {
    &&& exists|i: int, j: int| 0 <= i < j <= s.len() && range_sum(s, i, j) == m
    &&& forall|i: int, j: int| 0 <= i < j <= s.len() ==> range_sum(s, i, j) <= m
}

proof fn lemma_range_sum_bounds(s: Seq<i32>, i: int, j: int)
    requires
        0 <= i <= j <= s.len(),
    ensures
        -0x8000_0000 * (j - i) <= range_sum(s, i, j) <= 0x8000_0000 * (j - i),
    decreases j - i,
{
    if j > i {
        lemma_range_sum_bounds(s, i, j - 1);
    }
}

/// The largest sum of a contiguous, non-empty run of `list`; among runs with
/// that sum the first is followed. An empty list has no run.
pub fn max_subarray_sum(list: &[i32]) -> (r: Result<i128, InputError>)
    ensures
        r is Err <==> list@.len() == 0,
        r is Err ==> r == Err::<i128, InputError>(InputError::InvalidInput),
        r matches Ok(m) ==> is_max_subarray_sum(list@, m as int),
{
    if list.len() == 0 {
        return Err(InputError::InvalidInput);
    }
    let ghost s = list@;
    let mut current_sum: i128 = list[0] as i128;
    let mut max_sum: i128 = list[0] as i128;
    let ghost mut current_start: int = 0;
    let ghost mut best_start: int = 0;
    let ghost mut best_end: int = 1;
    let mut k: usize = 1;
    assert(range_sum(s, 0, 0) == 0);
    assert(range_sum(s, 0, 1) == s[0]);
    while k < list.len()
        invariant
            s == list@,
            1 <= k <= list.len(),
            0 <= current_start < k,
            current_sum == range_sum(s, current_start, k as int),
            forall|i: int| 0 <= i < k ==> range_sum(s, i, k as int) <= current_sum,
            0 <= best_start < best_end <= k,
            max_sum == range_sum(s, best_start, best_end),
            forall|i: int, j: int| 0 <= i < j <= k ==> range_sum(s, i, j) <= max_sum,
        decreases list.len() - k,
    {
        proof {
            lemma_range_sum_bounds(s, current_start, k as int);
            lemma_range_sum_bounds(s, best_start, best_end);
        }
        let x = list[k] as i128;
        let ghost next: int = k + 1;
        assert(range_sum(s, k as int, k as int) == 0);
        assert(range_sum(s, k as int, next) == x);
        if current_sum < 0 {
            current_sum = x;
            proof {
                current_start = k as int;
            }
        } else {
            current_sum = current_sum + x;
        }
        assert forall|i: int| 0 <= i < next implies range_sum(s, i, next) <= current_sum by {
            if i < k {
                assert(range_sum(s, i, next) == range_sum(s, i, k as int) + x);
            }
        }
        if current_sum > max_sum {
            max_sum = current_sum;
            proof {
                best_start = current_start;
                best_end = next;
            }
        }
        k += 1;
        assert forall|i: int, j: int| 0 <= i < j <= k implies range_sum(s, i, j) <= max_sum by {
            if j == k {
                assert(range_sum(s, i, j) <= current_sum);
            }
        }
    }
    Ok(max_sum)
}

} // verus!
