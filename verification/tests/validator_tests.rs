//! Tests of the Luhn validator on concrete inputs.

use luhn::is_valid;

#[test]
fn accepts_known_numbers() {
    assert!(is_valid(&String::from("4539 1488 0343 6467")));
    assert!(is_valid(&String::from("2323 2005 7766 3554")));
    assert!(is_valid(&String::from("2323200577663554")));
}

#[test]
fn rejects_failing_checksum() {
    assert!(!is_valid(&String::from("1234567812345678")));
    assert!(!is_valid(&String::from("2323 2005 7766 3555")));
}

#[test]
fn whitespace_does_not_change_the_verdict() {
    assert_eq!(
        is_valid(&String::from("4539 1488 0343 6467")),
        is_valid(&String::from("4539148803436467"))
    );
    assert_eq!(
        is_valid(&String::from(" 1234 5678 1234 5678 ")),
        is_valid(&String::from("1234567812345678"))
    );
    assert!(is_valid(&String::from("\t45 391 488 034 364 67\n")));
}

#[test]
fn rejects_non_digit_characters() {
    assert!(!is_valid(&String::from("2323-2005-7766-3554")));
    assert!(!is_valid(&String::from("4539a1488 0343 6467")));
    assert!(!is_valid(&String::from("453914880343646x")));
}

#[test]
fn rejects_short_inputs() {
    assert!(!is_valid(&String::from("")));
    assert!(!is_valid(&String::from("5")));
    assert!(!is_valid(&String::from(" 5 ")));
    assert!(!is_valid(&String::from("   ")));
}

#[test]
fn accepts_two_digit_multiples_of_ten() {
    assert!(is_valid(&String::from("59")));
    assert!(is_valid(&String::from("00")));
    assert!(!is_valid(&String::from("58")));
}

#[test]
fn single_digit_mutations_are_detected() {
    let base = "4539148803436467";
    assert!(is_valid(&String::from(base)));
    for i in 0..base.len() {
        for replacement in "0123456789".chars() {
            let original = base.as_bytes()[i] as char;
            if replacement != original {
                let mut mutated: Vec<char> = base.chars().collect();
                mutated[i] = replacement;
                let mutated: String = mutated.into_iter().collect();
                assert!(!is_valid(&mutated));
            }
        }
    }
}
