use fakepay::checkout::CheckoutError;
use fakepay::decimal::to_decimal;
use fakepay::request::{amount_in, handle_pairs, handle_request, parse_amount, requested_amount,
    response_body, RequestError};
use fakepay::service::PaymentService;

fn pairs(list: &[(&str, &str)]) -> Vec<(String, String)> {
    list.iter().map(|(name, value)| (name.to_string(), value.to_string())).collect()
}

#[test]
fn digits_write_an_amount() {
    assert_eq!(parse_amount("0"), Some(0));
    assert_eq!(parse_amount("7"), Some(7));
    assert_eq!(parse_amount("10"), Some(10));
    assert_eq!(parse_amount("150"), Some(150));
    assert_eq!(parse_amount("4294967295"), Some(u32::MAX));
}

#[test]
fn a_plus_sign_and_leading_zeros_are_allowed() {
    assert_eq!(parse_amount("+10"), Some(10));
    assert_eq!(parse_amount("007"), Some(7));
    assert_eq!(parse_amount("+000"), Some(0));
    assert_eq!(parse_amount("00000000000000000000000000000005"), Some(5));
    assert_eq!(parse_amount("0000000000004294967295"), Some(u32::MAX));
}

#[test]
fn what_is_not_a_number_is_no_amount() {
    for text in ["", "+", "-", "-1", "++1", "+-1", "1+", " 1", "1 ", "1.5", "1e3", "0x10", "1_000", "ten", "１２", "1２", "é", "+é"] {
        assert_eq!(parse_amount(text), None);
    }
}

#[test]
fn what_does_not_fit_is_no_amount() {
    assert_eq!(parse_amount("4294967296"), None);
    assert_eq!(parse_amount("4294967300"), None);
    assert_eq!(parse_amount("42949672950"), None);
    assert_eq!(parse_amount("18446744073709551616"), None);
    assert_eq!(parse_amount("99999999999999999999999999999999999999"), None);
    assert_eq!(parse_amount("99999999999999999999999999999999999999x"), None);
}

#[test]
fn amounts_are_read_as_the_standard_library_reads_them() {
    for text in ["", "+", "-", "0", "+0", "-0", "00", "42", "+42", "042", " 42", "42 ", "4294967295", "4294967296", "+4294967295", "12a", "a12", "１"] {
        assert_eq!(parse_amount(text), text.parse::<u32>().ok());
    }
}

#[test]
fn a_written_number_reads_back() {
    for amount in (0..=20_000u32).chain([99_999, 100_000, 4_294_967_294, u32::MAX]) {
        assert_eq!(parse_amount(&to_decimal(amount as u64)), Some(amount));
    }
    assert_eq!(parse_amount(&to_decimal(u32::MAX as u64 + 1)), None);
}

#[test]
fn the_first_count_is_the_amount() {
    assert_eq!(amount_in(&pairs(&[("count", "42")])), Ok(42));
    assert_eq!(amount_in(&pairs(&[("a", "1"), ("count", "7"), ("count", "9")])), Ok(7));
    assert_eq!(amount_in(&pairs(&[("count", "x"), ("count", "9")])), Err(RequestError::InvalidCount));
}

#[test]
fn a_query_without_count_has_no_amount() {
    assert_eq!(amount_in(&pairs(&[])), Err(RequestError::MissingCount));
    assert_eq!(amount_in(&pairs(&[("Count", "1"), ("counts", "2"), ("", "3")])), Err(RequestError::MissingCount));
    assert_eq!(amount_in(&pairs(&[("amount", "10")])), Err(RequestError::MissingCount));
}

#[test]
fn a_count_that_is_no_amount_is_invalid() {
    assert_eq!(amount_in(&pairs(&[("count", "")])), Err(RequestError::InvalidCount));
    assert_eq!(amount_in(&pairs(&[("count", "-5")])), Err(RequestError::InvalidCount));
    assert_eq!(amount_in(&pairs(&[("count", "4294967296")])), Err(RequestError::InvalidCount));
}

#[test]
fn the_amount_is_read_from_the_query_string() {
    assert_eq!(requested_amount("count=42"), Ok(42));
    assert_eq!(requested_amount("a=1&count=7&count=9"), Ok(7));
    assert_eq!(requested_amount("&&count=3&"), Ok(3));
    assert_eq!(requested_amount(""), Err(RequestError::MissingCount));
    assert_eq!(requested_amount("name=count"), Err(RequestError::MissingCount));
    assert_eq!(requested_amount("count"), Err(RequestError::InvalidCount));
    assert_eq!(requested_amount("count=abc"), Err(RequestError::InvalidCount));
}

#[test]
fn the_query_string_is_decoded_before_it_is_read() {
    assert_eq!(requested_amount("count=%34%32"), Ok(42));
    assert_eq!(requested_amount("%63ount=5"), Ok(5));
    assert_eq!(requested_amount("count=%2B5"), Ok(5));
    assert_eq!(requested_amount("count=+5"), Err(RequestError::InvalidCount));
    assert_eq!(requested_amount("count=5=6"), Err(RequestError::InvalidCount));
}

#[test]
fn the_body_names_the_transaction() {
    assert_eq!(response_body("1"), b"success paid txid 1".to_vec());
    assert_eq!(response_body(""), b"success paid txid ".to_vec());
    assert_eq!(response_body("é"), "success paid txid é".as_bytes().to_vec());
}

#[test]
fn a_request_is_served_with_the_transaction_id() {
    let mut service = PaymentService::new(100);
    assert_eq!(handle_request(&mut service, "count=10"), Ok(b"success paid txid 1".to_vec()));
    assert_eq!(handle_request(&mut service, "x=y&count=100"), Ok(b"success paid txid 2".to_vec()));
    assert_eq!(handle_pairs(&mut service, &pairs(&[("count", "1")])), Ok(b"success paid txid 3".to_vec()));
}

#[test]
fn a_request_over_the_ceiling_is_not_served() {
    let mut service = PaymentService::new(100);
    let expected = RequestError::Checkout(CheckoutError::InvalidParameter("too much to pay".to_string()));
    assert_eq!(handle_request(&mut service, "count=150"), Err(expected.clone()));
    assert_eq!(handle_pairs(&mut service, &pairs(&[("count", "101")])), Err(expected));
    assert_eq!(handle_request(&mut service, "count=10"), Ok(b"success paid txid 1".to_vec()));
}

#[test]
fn a_request_without_an_amount_leaves_the_service_alone() {
    let mut service = PaymentService::new(100);
    assert_eq!(handle_request(&mut service, "name=x"), Err(RequestError::MissingCount));
    assert_eq!(handle_request(&mut service, "count=x"), Err(RequestError::InvalidCount));
    assert_eq!(handle_pairs(&mut service, &pairs(&[])), Err(RequestError::MissingCount));
    assert_eq!(handle_request(&mut service, "count=10"), Ok(b"success paid txid 1".to_vec()));
}

#[test]
fn a_failure_tells_the_caller_why() {
    assert_eq!(RequestError::MissingCount.message(), "parse count err");
    assert_eq!(RequestError::InvalidCount.message(), "parse count err");
    let refused = RequestError::Checkout(CheckoutError::InvalidParameter("too much to pay".to_string()));
    assert_eq!(refused.message(), "too much to pay");
    let down = RequestError::Checkout(CheckoutError::ServiceUnavailable("timeout".to_string()));
    assert_eq!(down.message(), "timeout");
    let partial = RequestError::Checkout(CheckoutError::PartialCheckoutFailure("auth code invalid".to_string()));
    assert_eq!(partial.message(), "auth code invalid");
}
