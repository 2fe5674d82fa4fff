use fakepay::decimal::to_decimal;
use fakepay::token::{fresh_nonce, make_token};

#[test]
fn zero_is_written_as_one_digit() {
    assert_eq!(to_decimal(0), "0");
}

#[test]
fn single_digits_are_written_as_themselves() {
    let expected = ["0", "1", "2", "3", "4", "5", "6", "7", "8", "9"];
    for (digit, text) in expected.iter().enumerate() {
        assert_eq!(to_decimal(digit as u64), *text);
    }
}

#[test]
fn numbers_are_written_without_leading_zeros() {
    assert_eq!(to_decimal(10), "10");
    assert_eq!(to_decimal(100), "100");
    assert_eq!(to_decimal(1_234_567_890), "1234567890");
}

#[test]
fn the_largest_number_is_written_in_full() {
    assert_eq!(to_decimal(u64::MAX), "18446744073709551615");
}

#[test]
fn decimal_text_agrees_with_the_standard_library() {
    for n in [0u64, 9, 10, 11, 99, 100, 101, 4_294_967_295, 4_294_967_296, u64::MAX - 1] {
        assert_eq!(to_decimal(n), n.to_string());
    }
}

#[test]
fn a_token_is_made_of_its_serial_number_and_its_nonce() {
    assert_eq!(make_token(0, 0), "T0-0");
    assert_eq!(make_token(12, 345), "T12-345");
    assert_eq!(
        make_token(u64::MAX, u64::MAX),
        "T18446744073709551615-18446744073709551615"
    );
}

#[test]
fn tokens_differ_where_the_serial_number_or_the_nonce_differs() {
    assert_ne!(make_token(1, 23), make_token(12, 3));
    assert_ne!(make_token(1, 2), make_token(1, 3));
    assert_ne!(make_token(1, 2), make_token(2, 2));
}

#[test]
fn nonces_are_not_all_the_same() {
    let mut seen = Vec::new();
    for serial in 0..64u64 {
        seen.push(fresh_nonce(serial));
    }
    let first = seen[0];
    assert!(seen.iter().any(|nonce| *nonce != first));
}
