//! Tests of the Luhn generator and of the candidate transform.

use luhn::generator::{candidate_from, make_valid_from};
use luhn::{generate, is_valid};

#[test]
fn candidate_applies_luhn_weighting() {
    // 7777: every other digit from the second-rightmost doubles, 14 becomes 5.
    assert_eq!(candidate_from(7777), "5757");
    // 109: the only doubled digit is the 0, which stays 0.
    assert_eq!(candidate_from(109), "109");
    assert_eq!(candidate_from(0), "0");
}

#[test]
fn constructed_numbers_pass_validation() {
    assert_eq!(make_valid_from(1), "18");
    assert_eq!(make_valid_from(123), "1230");
    assert_eq!(make_valid_from(0), "00");
    for seed in [0u64, 1, 9, 123, 999_999, 100_000_000_000_000_000] {
        let s = make_valid_from(seed);
        assert!(is_valid(&s));
    }
}

#[test]
fn generated_numbers_are_valid() {
    for _ in 0..50 {
        let s = generate();
        assert!(is_valid(&s));
        assert!(s.len() >= 2);
        assert!(s.chars().all(|c| c.is_ascii_digit()));
    }
}

#[test]
fn generated_numbers_vary() {
    let mut seen: Vec<String> = Vec::new();
    for _ in 0..20 {
        seen.push(generate());
    }
    let first = seen[0].clone();
    assert!(seen.iter().any(|s| *s != first));
}
