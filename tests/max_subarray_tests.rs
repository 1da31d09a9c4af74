use int_algos::{max_subarray_sum, InputError};

fn brute_force(list: &[i32]) -> i128 {
    let mut best = i128::MIN;
    for i in 0..list.len() {
        let mut sum: i128 = 0;
        for j in i..list.len() {
            sum += list[j] as i128;
            if sum > best {
                best = sum;
            }
        }
    }
    best
}

#[test]
fn max_subarray_sum_of_the_example_is_7() {
    assert_eq!(max_subarray_sum(&[-2, -3, 4, -1, -2, 1, 5, -3]), Ok(7));
}

#[test]
fn max_subarray_sum_of_empty_list_is_invalid_input() {
    let empty: Vec<i32> = Vec::new();
    assert_eq!(max_subarray_sum(&empty), Err(InputError::InvalidInput));
}

#[test]
fn max_subarray_sum_of_one_element() {
    assert_eq!(max_subarray_sum(&[5]), Ok(5));
    assert_eq!(max_subarray_sum(&[-5]), Ok(-5));
}

#[test]
fn max_subarray_sum_of_all_negative_list_is_its_largest_element() {
    assert_eq!(max_subarray_sum(&[-3, -1, -2]), Ok(-1));
}

#[test]
fn max_subarray_sum_does_not_overflow() {
    assert_eq!(max_subarray_sum(&[i32::MAX, i32::MAX, i32::MAX]), Ok(3 * i32::MAX as i128));
    assert_eq!(max_subarray_sum(&[i32::MIN, i32::MIN]), Ok(i32::MIN as i128));
}

#[test]
fn max_subarray_sum_matches_brute_force() {
    let mut state: u64 = 12345;
    for len in 1..12usize {
        for _ in 0..200 {
            let mut list: Vec<i32> = Vec::new();
            for _ in 0..len {
                state = state.wrapping_mul(6364136223846793005).wrapping_add(1442695040888963407);
                list.push(((state >> 33) % 21) as i32 - 10);
            }
            assert_eq!(max_subarray_sum(&list), Ok(brute_force(&list)));
        }
    }
}
