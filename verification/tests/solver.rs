use two_sum::Solution;

#[test]
fn example_pair_at_front() {
    assert_eq!(Solution::two_sum(vec![2, 7, 11, 15], 9), vec![1, 0]);
}

#[test]
fn example_pair_at_back() {
    assert_eq!(Solution::two_sum(vec![3, 2, 4], 6), vec![2, 1]);
}

#[test]
fn duplicate_value_pairs_with_itself() {
    assert_eq!(Solution::two_sum(vec![3, 3], 6), vec![1, 0]);
}

#[test]
fn empty_input_gives_empty_answer() {
    assert_eq!(Solution::two_sum(vec![], 0), Vec::<i32>::new());
}

#[test]
fn no_pair_gives_empty_answer() {
    assert_eq!(Solution::two_sum(vec![1, 2, 3], 100), Vec::<i32>::new());
}

#[test]
fn no_pair_with_negative_values() {
    assert_eq!(Solution::two_sum(vec![-5, -2, 8], 0), Vec::<i32>::new());
}

#[test]
fn single_element_gives_empty_answer() {
    assert_eq!(Solution::two_sum(vec![4], 8), Vec::<i32>::new());
}

#[test]
fn exactly_one_pair_is_returned_later_first() {
    assert_eq!(Solution::two_sum(vec![10, 1, 20, 5], 15), vec![3, 0]);
}

#[test]
fn multiple_pairs_take_smallest_completing_index() {
    // both (0, 1) and (2, 3) sum to 5; index 1 completes a pair first
    assert_eq!(Solution::two_sum(vec![1, 4, 2, 3], 5), vec![1, 0]);
}

#[test]
fn partner_is_first_seen_index_of_complement() {
    // 3 occurs at indices 0 and 1; the pair reports its first occurrence
    assert_eq!(Solution::two_sum(vec![3, 3, 5], 8), vec![2, 0]);
}

#[test]
fn negative_target() {
    assert_eq!(Solution::two_sum(vec![-3, 4, 1, 90], -2), vec![2, 0]);
}

#[test]
fn complement_near_integer_boundary() {
    assert_eq!(Solution::two_sum(vec![i32::MAX, -1], i32::MAX - 1), vec![1, 0]);
}

#[test]
fn complement_outside_integer_range_never_matches() {
    // target - nums[0] exceeds i32::MAX, so nothing can complete index 0
    assert_eq!(Solution::two_sum(vec![i32::MIN, 5], i32::MAX), Vec::<i32>::new());
}

#[test]
fn repeated_calls_agree() {
    let first = Solution::two_sum(vec![3, 2, 4], 6);
    let second = Solution::two_sum(vec![3, 2, 4], 6);
    assert_eq!(first, second);
    let third = Solution::two_sum(vec![1, 2, 3], 100);
    let fourth = Solution::two_sum(vec![1, 2, 3], 100);
    assert_eq!(third, fourth);
}
