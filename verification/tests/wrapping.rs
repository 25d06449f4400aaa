use sliding_window::WrappingExt;

fn exact(lhs: usize, rhs: usize, limit: usize) -> usize {
    ((lhs as u128 + rhs as u128) % limit as u128) as usize
}

#[test]
pub fn sanity_check() {
    let vector: &[(usize, usize, usize, usize)] = &[
        (5, 1, 10, 6),
        (5, 5, 10, 0),
        (5, 6, 10, 1),
        (5, 16, 10, 1),
        (usize::MAX, usize::MAX, usize::MAX, 0),
        (usize::MAX, 1, usize::MAX, 1),
        (usize::MAX - 1, 2, usize::MAX, 1),
    ];

    for &(lhs, rhs, limit, expectation) in vector.iter() {
        assert_eq!(
            expectation,
            lhs.wrapping_add_limited(rhs, limit),
            "({} + {}) mod {} == {}",
            lhs,
            rhs,
            limit,
            expectation
        );
    }
}

#[test]
pub fn sanity_check_increment() {
    let vector: &[(usize, usize, usize)] = &[(5, 10, 6), (9, 10, 0)];

    for &(lhs, limit, expectation) in vector.iter() {
        assert_eq!(
            lhs.wrapping_add_limited(1, limit),
            lhs.wrapping_add1_limited(limit),
            "({} + 1) mod {} == {}",
            lhs,
            limit,
            expectation
        );
    }
}

#[test]
fn increment_gives_the_expected_values() {
    assert_eq!(6, 5usize.wrapping_add1_limited(10));
    assert_eq!(0, 9usize.wrapping_add1_limited(10));
    assert_eq!(0, 0usize.wrapping_add1_limited(1));
    assert_eq!(1, 0usize.wrapping_add1_limited(usize::MAX));
}

#[test]
fn increment_reduces_a_base_beyond_the_limit() {
    assert_eq!(3, 12usize.wrapping_add1_limited(10));
    assert_eq!(0, 19usize.wrapping_add1_limited(10));
    assert_eq!(exact(usize::MAX, 1, 10), usize::MAX.wrapping_add1_limited(10));
    assert_eq!(0, usize::MAX.wrapping_add1_limited(1));
    assert_eq!(1, usize::MAX.wrapping_add1_limited(usize::MAX));
}

#[test]
fn sum_is_exact_where_it_overflows_the_word() {
    let limits = [1usize, 2, 3, 7, 10, 16, 1000, usize::MAX / 2, usize::MAX - 1, usize::MAX];
    let values = [0usize, 1, 2, 9, 10, usize::MAX / 2, usize::MAX - 2, usize::MAX - 1, usize::MAX];
    for &limit in limits.iter() {
        for &lhs in values.iter() {
            for &rhs in values.iter() {
                assert_eq!(
                    exact(lhs, rhs, limit),
                    lhs.wrapping_add_limited(rhs, limit),
                    "({} + {}) mod {}",
                    lhs,
                    rhs,
                    limit
                );
            }
        }
    }
}

#[test]
fn sum_past_the_word_is_not_taken_modulo_the_word() {
    // 2^k mod 10 is 6 for every word width k that is a multiple of 4.
    assert_eq!(6, usize::MAX.wrapping_add_limited(1, 10));
    assert_eq!(exact(usize::MAX, usize::MAX, 7), usize::MAX.wrapping_add_limited(usize::MAX, 7));
}

#[test]
fn sum_wraps_to_zero_at_the_limit() {
    assert_eq!(0, 9usize.wrapping_add_limited(1, 10));
    assert_eq!(0, 3usize.wrapping_add_limited(7, 10));
    assert_eq!(9, 4usize.wrapping_add_limited(5, 10));
    assert_eq!(0, 17usize.wrapping_add_limited(5, 1));
}

#[test]
fn increment_agrees_with_adding_one() {
    let limits = [1usize, 2, 3, 10, usize::MAX - 1, usize::MAX];
    let values = [0usize, 1, 2, 8, 9, 10, usize::MAX - 1, usize::MAX];
    for &limit in limits.iter() {
        for &lhs in values.iter() {
            assert_eq!(lhs.wrapping_add_limited(1, limit), lhs.wrapping_add1_limited(limit));
            assert_eq!(exact(lhs, 1, limit), lhs.wrapping_add1_limited(limit));
        }
    }
}
