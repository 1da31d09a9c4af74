//! The pair of a sequence whose sum is closest to a target: sort, then scan
//! with one index from each end. Among pairs at the same distance from the
//! target, the one whose positions lie furthest apart is chosen.
use vstd::prelude::*;
use crate::error::InputError;

verus! {

/// `s` is in ascending order.
pub open spec fn sorted_ascending(s: Seq<i32>) -> bool {
    forall|i: int, j: int| 0 <= i <= j < s.len() ==> s[i] <= s[j]
}

pub open spec fn abs_int(x: int) -> int {
    if x < 0 {
        -x
    } else {
        x
    }
}

/// How far the sum of positions `i` and `j` of `s` lies from `target`.
pub open spec fn pair_distance(s: Seq<i32>, target: i32, i: int, j: int) -> int {
    abs_int(s[i] + s[j] - target)
}

/// Positions `i < j` of `s` whose sum is nearest to `target`, and among the
/// nearest the ones furthest apart.
pub open spec fn is_widest_closest(s: Seq<i32>, target: i32, i: int, j: int) -> bool {
    &&& 0 <= i < j < s.len()
    &&& forall|k: int, l: int|
        0 <= k < l < s.len() ==> pair_distance(s, target, i, j) <= pair_distance(
            s,
            target,
            k,
            l,
        )
    &&& forall|k: int, l: int|
        0 <= k < l < s.len() && pair_distance(s, target, k, l) == pair_distance(s, target, i, j)
            ==> l - k <= j - i
}

/// The values at some positions `i < j` of `s`.
pub open spec fn is_pair_of(s: Seq<i32>, p: (i32, i32)) -> bool {
    exists|i: int, j: int| 0 <= i < j < s.len() && p == (s[i], s[j])
}

/// The values of the widest closest pair of `s` for `target`.
pub open spec fn is_closest_pair(s: Seq<i32>, target: i32, p: (i32, i32)) -> bool {
    exists|i: int, j: int| is_widest_closest(s, target, i, j) && p == (s[i], s[j])
}

/// Truncating halving, as integer division rounds toward zero.
pub open spec fn half_toward_zero(x: int) -> int {
    if x >= 0 {
        x / 2
    } else {
        -((-x) / 2)
    }
}

/// The starting distance of the scan: from the target to the lowest pair
/// sum when the middle of the lowest and highest pair sums is at most the
/// target, else from the highest pair sum to the target.
pub open spec fn initial_distance(s: Seq<i32>, target: i32) -> int
    recommends
        s.len() >= 2,
{
    let highest = s[s.len() - 1] + s[s.len() - 2];
    let lowest = s[0] + s[1];
    if half_toward_zero(highest + lowest) - target <= 0 {
        target - lowest
    } else {
        highest - target
    }
}

/// On a sorted sequence there is one widest closest pair of positions, so the
/// values that `is_closest_pair` describes are fixed by the sequence and the
/// target.
pub proof fn lemma_widest_closest_unique(s: Seq<i32>, target: i32, i: int, j: int, k: int, l: int)
    requires
        sorted_ascending(s),
        is_widest_closest(s, target, i, j),
        is_widest_closest(s, target, k, l),
    ensures
        i == k,
        j == l,
{
    assert(pair_distance(s, target, i, j) <= pair_distance(s, target, k, l));
    assert(pair_distance(s, target, k, l) <= pair_distance(s, target, i, j));
    assert(l - k == j - i);
    if i < k {
        assert(s[i] <= s[k] && s[j] <= s[l]);
        assert(pair_distance(s, target, i, l) >= pair_distance(s, target, i, j));
    } else if k < i {
        assert(s[k] <= s[i] && s[l] <= s[j]);
        assert(pair_distance(s, target, k, j) >= pair_distance(s, target, k, l));
    }
}

/// Relies on `slice::sort`: afterwards the vector is in ascending order and
/// holds the same elements as before.
#[verifier::external_body]
fn sort_ascending(v: &mut Vec<i32>)
    ensures
        sorted_ascending(final(v)@),
        final(v)@.to_multiset() == old(v)@.to_multiset(),
{
    v.sort();
}

fn abs_i64(x: i64) -> (r: i64)
    requires
        x > i64::MIN,
    ensures
        r == abs_int(x as int),
{
    if x < 0 {
        -x
    } else {
        x
    }
}

/// Two-index scan of the first `len` elements of `list`. The first pair looked
/// at is always taken; after that a pair replaces the kept one only when it is
/// strictly closer to the target, so the widest of the closest pairs stays.
fn scan_closest(list: &Vec<i32>, len: usize, target: i32, init_distance: i64) -> (r: (i32, i32))
    requires
        2 <= len <= list.len(),
        -0x1_0000_0000_0000 < init_distance < 0x1_0000_0000_0000,
    ensures
        is_pair_of(list@.take(len as int), r),
        sorted_ascending(list@.take(len as int)) ==> is_closest_pair(
            list@.take(len as int),
            target,
            r,
        ),
{
    let ghost s = list@.take(len as int);
    let ghost sorted = sorted_ascending(s);
    let mut distance: i64 = init_distance;
    let mut pair: Option<(i32, i32)> = None;
    let mut left_index: usize = 0;
    let mut right_index: usize = len - 1;
    let ghost mut bi: int = 0;
    let ghost mut bj: int = 0;
    while left_index < right_index
        invariant
            2 <= len <= list.len(),
            s == list@.take(len as int),
            sorted == sorted_ascending(s),
            0 <= left_index <= right_index < len,
            -0x1_0000_0000_0000 < distance < 0x1_0000_0000_0000,
            pair is None ==> left_index == 0 && right_index == len - 1,
            pair is Some ==> {
                &&& 0 <= bi < bj < len
                &&& pair == Some((s[bi], s[bj]))
                &&& abs_int(distance as int) == pair_distance(s, target, bi, bj)
                &&& bj - bi > right_index - left_index
            },
            sorted && pair is Some ==> forall|k: int, l: int|
                0 <= k < l < len && (k < left_index || l > right_index) ==> {
                    &&& pair_distance(s, target, bi, bj) <= pair_distance(s, target, k, l)
                    &&& (pair_distance(s, target, k, l) == pair_distance(s, target, bi, bj)
                        ==> l - k <= bj - bi)
                },
        decreases right_index - left_index,
    {
        let temp_sum: i64 = list[left_index] as i64 + list[right_index] as i64;
        let temp_distance: i64 = target as i64 - temp_sum;
        let ghost l0 = left_index as int;
        let ghost r0 = right_index as int;
        if pair.is_none() || abs_i64(temp_distance) < abs_i64(distance) {
            distance = temp_distance;
            pair = Some((list[left_index], list[right_index]));
            proof {
                bi = left_index as int;
                bj = right_index as int;
            }
        }
        assert(pair_distance(s, target, l0, r0) == abs_int(temp_distance as int));
        if temp_distance > 0 {
            left_index += 1;
            proof {
                if sorted {
                    assert forall|k: int, l: int|
                        0 <= k < l < len && (k < left_index || l > right_index) implies {
                        &&& pair_distance(s, target, bi, bj) <= pair_distance(s, target, k, l)
                        &&& (pair_distance(s, target, k, l) == pair_distance(s, target, bi, bj)
                            ==> l - k <= bj - bi)
                    } by {
                        if k == l0 && l <= r0 {
                            assert(s[l] <= s[r0]);
                        }
                    }
                }
            }
        } else if temp_distance < 0 {
            right_index -= 1;
            proof {
                if sorted {
                    assert forall|k: int, l: int|
                        0 <= k < l < len && (k < left_index || l > right_index) implies {
                        &&& pair_distance(s, target, bi, bj) <= pair_distance(s, target, k, l)
                        &&& (pair_distance(s, target, k, l) == pair_distance(s, target, bi, bj)
                            ==> l - k <= bj - bi)
                    } by {
                        if l == r0 && k >= l0 {
                            assert(s[l0] <= s[k]);
                        }
                    }
                }
            }
        } else {
            proof {
                if sorted {
                    assert(is_widest_closest(s, target, bi, bj));
                }
            }
            return pair.unwrap();
        }
    }
    proof {
        if sorted {
            assert(is_widest_closest(s, target, bi, bj));
        }
    }
    pair.unwrap()
}

/// The seed distance of the scan over the first `len` elements of `list`.
fn seed_distance(list: &Vec<i32>, len: usize, desired_sum: i32) -> (r: i64)
    requires
        2 <= len <= list.len(),
    ensures
        r == initial_distance(list@.take(len as int), desired_sum),
        -0x1_0000_0000_0000 < r < 0x1_0000_0000_0000,
{
    let highest_sum: i64 = list[len - 1] as i64 + list[len - 2] as i64;
    let lowest_sum: i64 = list[0] as i64 + list[1] as i64;
    let total: i64 = highest_sum + lowest_sum;
    let avg_sum: i64 = if total >= 0 {
        total / 2
    } else {
        -((-total) / 2)
    };
    if avg_sum - desired_sum as i64 <= 0 {
        desired_sum as i64 - lowest_sum
    } else {
        highest_sum - desired_sum as i64
    }
}

/// Sorts `list` in place, then returns the values of the pair whose sum is
/// closest to `target`; among pairs at the same distance, the one whose
/// positions in the sorted list lie furthest apart. A list of fewer than two
/// elements has no pair.
pub fn closest_sum_pair(list: &mut Vec<i32>, target: i32) -> (r: Result<(i32, i32), InputError>)
    ensures
        sorted_ascending(final(list)@),
        final(list)@.to_multiset() == old(list)@.to_multiset(),
        r is Err <==> old(list)@.len() < 2,
        r is Err ==> r == Err::<(i32, i32), InputError>(InputError::InvalidInput),
        r matches Ok(p) ==> is_closest_pair(final(list)@, target, p),
{
    proof {
        old(list)@.to_multiset_ensures();
    }
    sort_ascending(list);
    proof {
        list@.to_multiset_ensures();
    }
    let len = list.len();
    if len < 2 {
        return Err(InputError::InvalidInput);
    }
    let seed = seed_distance(list, len, target);
    let pair = scan_closest(list, len, target, seed);
    assert(list@.take(len as int) == list@);
    Ok(pair)
}

/// A list, a length and a target sum, with the results of the steps that find
/// the closest pair: sort, seed the distance, scan. The steps look at the first
/// `len` elements of the list.
pub struct Elements {
    list: Vec<i32>,
    len: usize,
    desired_sum: i32,
    pair: Option<(i32, i32)>,
    init_distance: Option<i64>,
}

impl Elements {
    pub closed spec fn list_view(&self) -> Seq<i32> {
        self.list@
    }

    pub closed spec fn len_view(&self) -> nat {
        self.len as nat
    }

    pub closed spec fn desired_sum_view(&self) -> i32 {
        self.desired_sum
    }

    pub closed spec fn pair_view(&self) -> Option<(i32, i32)> {
        self.pair
    }

    pub closed spec fn init_distance_view(&self) -> Option<int> {
        match self.init_distance {
            Some(d) => Some(d as int),
            None => None,
        }
    }

    /// The length names at least two elements of the list.
    pub open spec fn len_is_usable(&self) -> bool {
        2 <= self.len_view() <= self.list_view().len()
    }

    /// The elements that the steps look at.
    pub open spec fn considered(&self) -> Seq<i32> {
        self.list_view().take(self.len_view() as int)
    }

    pub fn new(list: Vec<i32>, len: usize, desired_sum: i32) -> (r: Self)
        ensures
            r.list_view() == list@,
            r.len_view() == len,
            r.desired_sum_view() == desired_sum,
            r.pair_view() is None,
            r.init_distance_view() is None,
    {
        Elements { list, len, desired_sum, pair: None, init_distance: None }
    }

    /// Sorts the whole list in ascending order.
    pub fn sort_list(&mut self) -> (r: &mut Self)
        ensures
            sorted_ascending(r.list_view()),
            r.list_view().to_multiset() == old(self).list_view().to_multiset(),
            r.len_view() == old(self).len_view(),
            r.desired_sum_view() == old(self).desired_sum_view(),
            r.pair_view() == old(self).pair_view(),
            r.init_distance_view() == old(self).init_distance_view(),
            *final(self) == *final(r),
    {
        sort_ascending(&mut self.list);
        self
    }

    /// Seeds the distance of the scan (see `initial_distance`); with an
    /// unusable length there is no seed.
    pub fn find_init_distance(&mut self) -> (r: &mut Self)
        ensures
            r.list_view() == old(self).list_view(),
            r.len_view() == old(self).len_view(),
            r.desired_sum_view() == old(self).desired_sum_view(),
            r.pair_view() == old(self).pair_view(),
            old(self).len_is_usable() ==> r.init_distance_view() == Some(
                initial_distance(old(self).considered(), old(self).desired_sum_view()),
            ),
            !old(self).len_is_usable() ==> r.init_distance_view() is None,
            *final(self) == *final(r),
    {
        if 2 <= self.len && self.len <= self.list.len() {
            self.init_distance = Some(seed_distance(&self.list, self.len, self.desired_sum));
        } else {
            self.init_distance = None;
        }
        self
    }

    /// Scans the considered elements for the closest pair. On a sorted list it
    /// is the widest closest pair; with an unusable length there is none.
    pub fn find_pair(&mut self) -> (r: &Self)
        ensures
            r.list_view() == old(self).list_view(),
            r.len_view() == old(self).len_view(),
            r.desired_sum_view() == old(self).desired_sum_view(),
            r.init_distance_view() == old(self).init_distance_view(),
            !old(self).len_is_usable() ==> r.pair_view() is None,
            old(self).len_is_usable() ==> (r.pair_view() matches Some(p) && is_pair_of(
                old(self).considered(),
                p,
            )),
            old(self).len_is_usable() && sorted_ascending(old(self).considered())
                ==> (r.pair_view() matches Some(p) && is_closest_pair(
                old(self).considered(),
                old(self).desired_sum_view(),
                p,
            )),
            *final(self) == *r,
    {
        if 2 <= self.len && self.len <= self.list.len() {
            // Without a seed from `find_init_distance`, compute it here.
            let seed = match self.init_distance {
                Some(d) if -0x1_0000_0000_0000 < d && d < 0x1_0000_0000_0000 => d,
                _ => seed_distance(&self.list, self.len, self.desired_sum),
            };
            self.pair = Some(scan_closest(&self.list, self.len, self.desired_sum, seed));
        } else {
            self.pair = None;
        }
        self
    }

    /// The pair found by `find_pair`, or `InvalidInput` when there is none.
    pub fn result(&self) -> (r: Result<(i32, i32), InputError>)
        ensures
            self.pair_view() matches Some(p) ==> r == Ok::<(i32, i32), InputError>(p),
            self.pair_view() is None ==> r == Err::<(i32, i32), InputError>(
                InputError::InvalidInput,
            ),
    {
        match self.pair {
            Some(p) => Ok(p),
            None => Err(InputError::InvalidInput),
        }
    }

    /// The list, sorted once `sort_list` has run.
    pub fn list(&self) -> (r: &Vec<i32>)
        ensures
            r@ == self.list_view(),
    {
        &self.list
    }
}

} // verus!
