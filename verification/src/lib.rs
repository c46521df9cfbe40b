//! Two-sum solver: given a sequence of integers and a target value, find
//! the indices of two distinct elements whose values sum to the target.
//!
//! The search is a single left-to-right scan that keeps a lookup table
//! from each value to its first-seen index. When a pair is found, the
//! indices come back later-found-first: `[j, i]` with `i < j`.

use std::collections::HashMap;
use vstd::prelude::*;

verus! {

broadcast use vstd::std_specs::hash::group_hash_axioms;

/// Indices `i < j` of `nums` form a matching pair for `target`: both are in
/// bounds and their values sum to `target` over the unbounded integers.
pub open spec fn is_match(nums: Seq<i32>, target: i32, i: int, j: int) -> bool {
    &&& 0 <= i < j < nums.len()
    &&& nums[i] + nums[j] == target
}

/// Some pair of distinct indices of `nums` sums to `target`.
pub open spec fn has_match(nums: Seq<i32>, target: i32) -> bool {
    exists|i: int, j: int| is_match(nums, target, i, j)
}

/// What the solver must return for `nums` and `target`.
///
/// When no pair sums to `target`, the answer is the empty sequence.
/// Otherwise it is `[j, i]` where `j` is the smallest index completing a
/// pair with some earlier index, and `i` is the earliest such partner for
/// that `j` (the first-seen index of the complement value).
pub open spec fn valid_answer(nums: Seq<i32>, target: i32, r: Seq<i32>) -> bool {
    if has_match(nums, target) {
        &&& r.len() == 2
        &&& is_match(nums, target, r[1] as int, r[0] as int)
        &&& forall|i: int, j: int| #[trigger] is_match(nums, target, i, j) ==> r[0] as int <= j
        &&& forall|i: int| i < r[1] as int ==> !is_match(nums, target, i, r[0] as int)
    } else {
        r == Seq::<i32>::empty()
    }
}

/// Law: when no two elements of `nums` sum to `target`, the only valid
/// answer is the empty sequence.
pub proof fn lemma_no_match_answer_empty(nums: Seq<i32>, target: i32, r: Seq<i32>)
    requires
        valid_answer(nums, target, r),
        forall|i: int, j: int| !(#[trigger] is_match(nums, target, i, j)),
    ensures
        r == Seq::<i32>::empty(),
{
    if has_match(nums, target) {
        let (i, j) = choose|i: int, j: int| is_match(nums, target, i, j);
        assert(!is_match(nums, target, i, j));
    }
}

/// Law: when exactly one pair of distinct indices `(i, j)` with `i < j`
/// sums to `target`, the answer is that pair, later index first: `[j, i]`.
pub proof fn lemma_unique_match_answer(
    nums: Seq<i32>,
    target: i32,
    i: int,
    j: int,
    r: Seq<i32>,
)
    requires
        valid_answer(nums, target, r),
        is_match(nums, target, i, j),
        forall|i2: int, j2: int| #[trigger] is_match(nums, target, i2, j2) ==> i2 == i && j2 == j,
    ensures
        r.len() == 2,
        r[0] as int == j,
        r[1] as int == i,
{
    assert(has_match(nums, target));
    assert(is_match(nums, target, r[1] as int, r[0] as int));
}

/// Law: whatever other pairs sum to `target`, the answer's first element
/// is the smallest index that completes a pair with some earlier index,
/// and its second element is an earlier partner of that index.
pub proof fn lemma_answer_has_earliest_completion(
    nums: Seq<i32>,
    target: i32,
    i: int,
    j: int,
    r: Seq<i32>,
)
    requires
        valid_answer(nums, target, r),
        is_match(nums, target, i, j),
    ensures
        r.len() == 2,
        is_match(nums, target, r[1] as int, r[0] as int),
        r[0] as int <= j,
{
    assert(has_match(nums, target));
}

/// Law: the answer for a given `nums` and `target` is unique. With
/// `two_sum`'s contract this says that repeated calls on the same input
/// and target return the same result: the solver keeps no state between
/// calls.
pub proof fn lemma_answer_unique(nums: Seq<i32>, target: i32, r1: Seq<i32>, r2: Seq<i32>)
    requires
        valid_answer(nums, target, r1),
        valid_answer(nums, target, r2),
    ensures
        r1 == r2,
{
    if has_match(nums, target) {
        let j1 = r1[0] as int;
        let i1 = r1[1] as int;
        let j2 = r2[0] as int;
        let i2 = r2[1] as int;
        assert(is_match(nums, target, i1, j1));
        assert(is_match(nums, target, i2, j2));
        assert(j1 == j2);
        if i1 < i2 {
            assert(!is_match(nums, target, i1, j2));
        }
        if i2 < i1 {
            assert(!is_match(nums, target, i2, j1));
        }
        assert(r1 =~= r2);
    } else {
        assert(r1 =~= r2);
    }
}

/// The two-sum solver.
pub struct Solution;

impl Solution {
    /// Returns `[j, i]` for the first pair of indices `i < j` with
    /// `nums[i] + nums[j] == target`, or `[]` when no pair sums to `target`.
    ///
    /// "First" means: `j` is the smallest index that completes a pair with
    /// any earlier index, and `i` is the first-seen index of the complement
    /// value `target - nums[j]`. The sum is taken over the unbounded
    /// integers, so a pair whose complement falls outside the `i32` range
    /// never matches. The length bound only keeps every index representable
    /// in the `i32` result.
    pub fn two_sum(nums: Vec<i32>, target: i32) -> (r: Vec<i32>)
        requires
            nums.len() <= i32::MAX as usize,
        ensures
            valid_answer(nums@, target, r@),
    {
        let mut table: HashMap<i64, i32> = HashMap::new();
        let n: usize = nums.len();
        let mut idx: usize = 0;
        while idx < n
            invariant
                n == nums.len(),
                n <= i32::MAX as usize,
                idx <= n,
                // no pair completed by an index already scanned
                forall|i: int, j: int| #[trigger] is_match(nums@, target, i, j) ==> idx <= j,
                // the table holds exactly the values seen so far
                forall|v: i64| #[trigger] table@.contains_key(v)
                    <==> exists|k: int| 0 <= k < idx && nums@[k] as i64 == v,
                // each entry is the first-seen index of its value
                forall|v: i64| #[trigger] table@.contains_key(v) ==> {
                    let k = table@[v] as int;
                    &&& 0 <= k < idx
                    &&& nums@[k] as i64 == v
                    &&& forall|k2: int| 0 <= k2 < k ==> nums@[k2] as i64 != v
                },
            decreases n - idx,
        {
            let num = nums[idx];
            let comp: i64 = (target as i64) - (num as i64);
            match table.get(&comp) {
                Some(entry) => {
                    let stored: i32 = *entry;
                    proof {
                        let k = stored as int;
                        assert(nums@[k] as i64 == comp);
                        assert(is_match(nums@, target, k, idx as int));
                        assert forall|i2: int| i2 < k implies !is_match(
                            nums@,
                            target,
                            i2,
                            idx as int,
                        ) by {
                            if is_match(nums@, target, i2, idx as int) {
                                assert(nums@[i2] as i64 == comp);
                            }
                        }
                    }
                    return vec![idx as i32, stored];
                },
                None => {
                    proof {
                        assert forall|i2: int| !is_match(nums@, target, i2, idx as int) by {
                            if is_match(nums@, target, i2, idx as int) {
                                assert(nums@[i2] as i64 == comp);
                                assert(table@.contains_key(comp));
                            }
                        }
                    }
                    if !table.contains_key(&(num as i64)) {
                        table.insert(num as i64, idx as i32);
                    }
                    proof {
                        assert forall|v: i64| #[trigger] table@.contains_key(v) implies exists|
                            k: int,
                        | 0 <= k < idx + 1 && nums@[k] as i64 == v by {
                            if nums@[idx as int] as i64 != v {
                                let k = choose|k: int| 0 <= k < idx && nums@[k] as i64 == v;
                                assert(0 <= k < idx + 1 && nums@[k] as i64 == v);
                            } else {
                                assert(nums@[idx as int] as i64 == v);
                            }
                        }
                    }
                },
            }
            idx = idx + 1;
        }
        proof {
            assert forall|i: int, j: int| !is_match(nums@, target, i, j) by {
                if is_match(nums@, target, i, j) {
                    assert(idx <= j);
                }
            }
            assert(!has_match(nums@, target));
        }
        vec![]
    }
}

} // verus!
