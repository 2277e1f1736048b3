//! The modular sequence-number comparisons: the RFC 1323 half-space rule,
//! its exact 2^31 threshold, antisymmetry, agreement with the plain order on
//! close pairs, and shift invariance of the window test.

use trust::seq_space::{in_between_wrapped, wrapping_lt};

#[test]
fn wrapping_lt_basic_order() {
    assert!(wrapping_lt(0, 1));
    assert!(!wrapping_lt(1, 0));
    assert!(!wrapping_lt(7, 7));
    assert!(wrapping_lt(50, 100));
    assert!(!wrapping_lt(100, 50));
}

/// The comparison threshold is exactly 2^31 (not a small xor-typo value):
/// a forward distance of 2^31 - 1 still orders, 2^31 no longer does.
#[test]
fn wrapping_lt_threshold_is_two_to_the_31() {
    assert!(wrapping_lt(0, 0x7fff_ffff));
    assert!(!wrapping_lt(0, 0x8000_0000));
    assert!(!wrapping_lt(0, 0x8000_0001));
    // a distance of 30 is far below the threshold, on either side
    assert!(!wrapping_lt(30, 0));
    assert!(wrapping_lt(0, 30));
}

#[test]
fn wrapping_lt_across_the_wrap() {
    // 2^32 - 5 precedes 3 on the ring
    assert!(wrapping_lt(u32::MAX - 4, 3));
    assert!(!wrapping_lt(3, u32::MAX - 4));
}

/// Antisymmetry on concrete pairs, wrapped and not.
#[test]
fn wrapping_lt_antisymmetric_cases() {
    let pairs = [(0u32, 1u32), (1, 0), (u32::MAX, 0), (5, 5), (0x8000_0000, 0)];
    for (a, b) in pairs {
        assert!(!(wrapping_lt(a, b) && wrapping_lt(b, a)));
    }
}

/// On pairs less than 2^31 apart, the ring order is the plain order.
#[test]
fn wrapping_lt_consistent_with_plain_lt() {
    let pairs = [(3u32, 9u32), (9, 3), (1000, 1000), (0, 0x7fff_fffe)];
    for (a, b) in pairs {
        assert_eq!(wrapping_lt(a, b), a < b);
    }
}

#[test]
fn in_between_wrapped_basic() {
    assert!(in_between_wrapped(5, 10, 20));
    assert!(!in_between_wrapped(5, 5, 20));
    assert!(!in_between_wrapped(5, 20, 20));
    assert!(!in_between_wrapped(5, 25, 20));
    // an interval that crosses the wrap
    assert!(in_between_wrapped(u32::MAX - 2, 1, 5));
    assert!(!in_between_wrapped(u32::MAX - 2, 6, 5));
}

/// Adding one constant to all three arguments leaves the window test
/// unchanged, including around the wrap.
#[test]
fn in_between_wrapped_shift_invariant_cases() {
    let triples = [(5u32, 10u32, 20u32), (5, 25, 20), (100, 100, 200), (0, 1, 2)];
    let shifts = [1u32, 1000, u32::MAX - 7, 0x8000_0000];
    for (s, x, e) in triples {
        for k in shifts {
            assert_eq!(
                in_between_wrapped(s.wrapping_add(k), x.wrapping_add(k), e.wrapping_add(k)),
                in_between_wrapped(s, x, e),
            );
        }
    }
}
