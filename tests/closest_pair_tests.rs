use int_algos::{closest_sum_pair, Elements, InputError};

/// The values of the widest pair with the smallest distance, found by trying
/// every pair of the sorted list.
fn brute_force(list: &[i32], target: i32) -> (i32, i32) {
    let mut sorted = list.to_vec();
    sorted.sort();
    let mut best: Option<(i64, usize, usize)> = None;
    for i in 0..sorted.len() {
        for j in (i + 1)..sorted.len() {
            let d = (sorted[i] as i64 + sorted[j] as i64 - target as i64).abs();
            let better = match best {
                None => true,
                Some((bd, bi, bj)) => d < bd || (d == bd && j - i > bj - bi),
            };
            if better {
                best = Some((d, i, j));
            }
        }
    }
    let (_, i, j) = best.unwrap();
    (sorted[i], sorted[j])
}

#[test]
fn closest_sum_pair_of_the_example() {
    let mut list = vec![-2, -4, -7, -2, -5, -13, -7];
    assert_eq!(closest_sum_pair(&mut list, -1), Ok((-2, -2)));
    assert_eq!(list, vec![-13, -7, -7, -5, -4, -2, -2]);
}

#[test]
fn elements_chain_finds_the_example_pair() {
    let list: Vec<i32> = vec![-2, -4, -7, -2, -5, -13, -7];
    let len = list.len();
    let mut elements = Elements::new(list, len, -1);
    let pair = elements.sort_list().find_init_distance().find_pair().result();
    assert_eq!(pair, Ok((-2, -2)));
    assert_eq!(elements.list(), &vec![-13, -7, -7, -5, -4, -2, -2]);
}

#[test]
fn closest_sum_pair_of_short_lists_is_invalid_input() {
    let mut one = vec![4];
    assert_eq!(closest_sum_pair(&mut one, 4), Err(InputError::InvalidInput));
    let mut none: Vec<i32> = Vec::new();
    assert_eq!(closest_sum_pair(&mut none, 0), Err(InputError::InvalidInput));
}

#[test]
fn elements_with_a_short_list_have_no_pair() {
    let mut elements = Elements::new(vec![3], 1, 9);
    assert_eq!(
        elements.sort_list().find_init_distance().find_pair().result(),
        Err(InputError::InvalidInput)
    );
    let mut too_long = Elements::new(vec![3, 5], 3, 9);
    assert_eq!(too_long.find_pair().result(), Err(InputError::InvalidInput));
    let fresh = Elements::new(vec![3, 5, 7], 3, 9);
    assert_eq!(fresh.result(), Err(InputError::InvalidInput));
}

#[test]
fn closest_sum_pair_of_two_elements() {
    let mut list = vec![2, 1];
    assert_eq!(closest_sum_pair(&mut list, 10), Ok((1, 2)));
}

#[test]
fn closest_sum_pair_of_equal_elements() {
    let mut list = vec![0, 0, 0];
    assert_eq!(closest_sum_pair(&mut list, 5), Ok((0, 0)));
}

#[test]
fn closest_sum_pair_prefers_the_widest_pair() {
    let mut list = vec![4, 3, 2, 1];
    assert_eq!(closest_sum_pair(&mut list, 5), Ok((1, 4)));
    let mut list = vec![1, 2, 3, 4, 5];
    assert_eq!(closest_sum_pair(&mut list, 7), Ok((2, 5)));
}

#[test]
fn closest_sum_pair_does_not_overflow() {
    let mut list = vec![i32::MAX, i32::MAX, i32::MIN];
    assert_eq!(closest_sum_pair(&mut list, 0), Ok((i32::MIN, i32::MAX)));
    let mut list = vec![i32::MAX, i32::MAX];
    assert_eq!(closest_sum_pair(&mut list, i32::MIN), Ok((i32::MAX, i32::MAX)));
}

#[test]
fn closest_sum_pair_matches_brute_force() {
    let mut state: u64 = 2024;
    for len in 2..10usize {
        for _ in 0..300 {
            let mut list: Vec<i32> = Vec::new();
            for _ in 0..len {
                state = state.wrapping_mul(6364136223846793005).wrapping_add(1442695040888963407);
                list.push(((state >> 33) % 31) as i32 - 15);
            }
            state = state.wrapping_mul(6364136223846793005).wrapping_add(1442695040888963407);
            let target = ((state >> 33) % 41) as i32 - 20;
            let expected = brute_force(&list, target);
            let mut copy = list.clone();
            assert_eq!(closest_sum_pair(&mut copy, target), Ok(expected));
        }
    }
}
