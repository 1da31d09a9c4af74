use int_algos::gcd;

fn euclid(mut a: u64, mut b: u64) -> u64 {
    while b != 0 {
        let r = a % b;
        a = b;
        b = r;
    }
    a
}

fn next_random(state: &mut u64) -> u64 {
    *state = state.wrapping_mul(6364136223846793005).wrapping_add(1442695040888963407);
    *state >> 11
}

#[test]
fn gcd_of_15_and_51_is_3() {
    assert_eq!(gcd(15u8, 51u8), 3);
}

#[test]
fn gcd_is_commutative_on_all_u8_pairs() {
    for a in 0..=255u8 {
        for b in 0..=255u8 {
            assert_eq!(gcd(a, b), gcd(b, a));
        }
    }
}

#[test]
fn gcd_with_zero_is_the_other_argument() {
    for a in 0..=255u8 {
        assert_eq!(gcd(a, 0), a);
        assert_eq!(gcd(0, a), a);
    }
    assert_eq!(gcd(0u64, u64::MAX), u64::MAX);
    assert_eq!(gcd(u32::MAX, 0u32), u32::MAX);
    assert_eq!(gcd(0u16, 0u16), 0);
}

#[test]
fn gcd_matches_euclid_on_all_u8_pairs() {
    for a in 0..=255u8 {
        for b in 0..=255u8 {
            let g = gcd(a, b);
            assert_eq!(g as u64, euclid(a as u64, b as u64));
            if g != 0 {
                assert_eq!(a % g, 0);
                assert_eq!(b % g, 0);
            }
        }
    }
}

#[test]
fn gcd_is_the_greatest_common_divisor_on_small_pairs() {
    for a in 1..=60u16 {
        for b in 1..=60u16 {
            let g = gcd(a, b);
            assert_eq!(a % g, 0);
            assert_eq!(b % g, 0);
            for c in (g + 1)..=a.min(b) {
                assert!(a % c != 0 || b % c != 0);
            }
        }
    }
}

#[test]
fn gcd_matches_euclid_on_random_u64_pairs() {
    let mut state: u64 = 7;
    for _ in 0..2000 {
        let shift_a = next_random(&mut state) % 20;
        let shift_b = next_random(&mut state) % 20;
        let a = next_random(&mut state) << shift_a;
        let b = next_random(&mut state) << shift_b;
        assert_eq!(gcd(a, b), euclid(a, b));
    }
}

#[test]
fn gcd_matches_euclid_on_random_u32_and_u16_pairs() {
    let mut state: u64 = 99;
    for _ in 0..2000 {
        let a = next_random(&mut state) as u32;
        let b = next_random(&mut state) as u32;
        assert_eq!(gcd(a, b) as u64, euclid(a as u64, b as u64));
        let c = next_random(&mut state) as u16;
        let d = next_random(&mut state) as u16;
        assert_eq!(gcd(c, d) as u64, euclid(c as u64, d as u64));
    }
}

#[test]
fn gcd_keeps_shared_powers_of_two() {
    assert_eq!(gcd(1u64 << 63, 1u64 << 62), 1u64 << 62);
    assert_eq!(gcd(96u8, 128u8), 32);
    assert_eq!(gcd(48u32, 18u32), 6);
    assert_eq!(gcd(u64::MAX, u64::MAX), u64::MAX);
    assert_eq!(gcd(u16::MAX, 257u16), 257);
    assert_eq!(gcd(128u8, 128u8), 128);
}

#[test]
fn gcd_twice_gives_the_same_result() {
    let first = gcd(84u32, 36u32);
    let second = gcd(84u32, 36u32);
    assert_eq!(first, second);
    assert_eq!(first, 12);
}
