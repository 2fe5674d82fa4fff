use fakepay::checkout::{after_authorization, after_completion, authorization_request, checkout,
    CheckoutError};
use fakepay::messages::{AuthorizationRequest, AuthorizationResult, CompletionRequest,
    CompletionResult};
use fakepay::service::PaymentService;

#[test]
fn a_checkout_within_the_ceiling_pays() {
    let mut service = PaymentService::new(100);
    assert_eq!(checkout(&mut service, 10), Ok("1".to_string()));
    assert_eq!(checkout(&mut service, 100), Ok("2".to_string()));
    assert_eq!(checkout(&mut service, 0), Ok("3".to_string()));
}

#[test]
fn a_checkout_over_the_ceiling_fails_before_completion() {
    let mut service = PaymentService::new(100);
    assert_eq!(
        checkout(&mut service, 150),
        Err(CheckoutError::InvalidParameter("too much to pay".to_string()))
    );
    let next = service.authorize_with_nonce(&AuthorizationRequest { amount: 10 }, 3);
    assert_eq!(next.auth_token, Some("T0-3".to_string()));
    assert_eq!(checkout(&mut service, 10), Ok("1".to_string()));
}

#[test]
fn a_checkout_uses_the_amount_it_is_given() {
    let mut service = PaymentService::new(10);
    assert_eq!(authorization_request(11), AuthorizationRequest { amount: 11 });
    assert!(checkout(&mut service, 11).is_err());
    assert!(checkout(&mut service, 10).is_ok());
}

#[test]
fn a_checkout_leaves_its_token_used() {
    let mut service = PaymentService::new(100);
    assert_eq!(checkout(&mut service, 10), Ok("1".to_string()));
    let granted = service.authorize_with_nonce(&AuthorizationRequest { amount: 10 }, 0);
    assert_eq!(granted.auth_token, Some("T1-0".to_string()));
}

#[test]
fn a_granted_authorization_leads_to_the_completion_of_its_token() {
    let reply = AuthorizationResult {
        success: true,
        auth_token: Some("T1".to_string()),
        fail_reason: None,
    };
    assert_eq!(after_authorization(Ok(reply)), Ok(CompletionRequest { auth_token: "T1".to_string() }));
}

#[test]
fn a_refused_authorization_ends_the_checkout_with_the_reason() {
    let reply = AuthorizationResult {
        success: false,
        auth_token: None,
        fail_reason: Some("too much to pay".to_string()),
    };
    assert_eq!(
        after_authorization(Ok(reply)),
        Err(CheckoutError::InvalidParameter("too much to pay".to_string()))
    );
}

#[test]
fn a_refusal_without_a_reason_gets_the_stock_reason() {
    let reply = AuthorizationResult { success: false, auth_token: None, fail_reason: None };
    assert_eq!(
        after_authorization(Ok(reply)),
        Err(CheckoutError::InvalidParameter("auth response failed".to_string()))
    );
}

#[test]
fn no_token_is_made_up_or_taken_from_a_refusal() {
    let without = AuthorizationResult { success: true, auth_token: None, fail_reason: None };
    assert_eq!(
        after_authorization(Ok(without)),
        Err(CheckoutError::InvalidParameter("auth response failed".to_string()))
    );
    let refused = AuthorizationResult {
        success: false,
        auth_token: Some("T1".to_string()),
        fail_reason: Some("no".to_string()),
    };
    assert_eq!(
        after_authorization(Ok(refused)),
        Err(CheckoutError::InvalidParameter("no".to_string()))
    );
}

#[test]
fn an_unreachable_service_is_reported_as_it_was() {
    assert_eq!(
        after_authorization(Err("timeout".to_string())),
        Err(CheckoutError::ServiceUnavailable("timeout".to_string()))
    );
    assert_eq!(
        after_completion(Err("timeout".to_string())),
        Err(CheckoutError::ServiceUnavailable("timeout".to_string()))
    );
}

#[test]
fn a_completed_payment_ends_the_checkout_with_its_id() {
    let reply = CompletionResult { success: true, txid: Some("0042".to_string()), fail_reason: None };
    assert_eq!(after_completion(Ok(reply)), Ok("0042".to_string()));
}

#[test]
fn a_refused_completion_is_a_partial_failure() {
    let reply = CompletionResult {
        success: false,
        txid: None,
        fail_reason: Some("auth code invalid".to_string()),
    };
    assert_eq!(
        after_completion(Ok(reply)),
        Err(CheckoutError::PartialCheckoutFailure("auth code invalid".to_string()))
    );
    let bare = CompletionResult { success: false, txid: None, fail_reason: None };
    assert_eq!(
        after_completion(Ok(bare)),
        Err(CheckoutError::PartialCheckoutFailure("auth response failed".to_string()))
    );
    let odd = CompletionResult { success: false, txid: Some("9".to_string()), fail_reason: None };
    assert!(after_completion(Ok(odd)).is_err());
    let empty = CompletionResult { success: true, txid: None, fail_reason: None };
    assert!(after_completion(Ok(empty)).is_err());
}

#[test]
fn a_token_that_expired_in_between_fails_the_checkout_in_part() {
    let mut service = PaymentService::new(100);
    let request = authorization_request(10);
    let next = after_authorization(Ok(service.authorize(&request))).unwrap();
    assert!(service.expire(&next.auth_token));
    assert_eq!(
        after_completion(Ok(service.complete(&next))),
        Err(CheckoutError::PartialCheckoutFailure("auth code invalid".to_string()))
    );
}

#[test]
fn the_steps_of_a_checkout_agree_with_the_whole() {
    let mut stepwise = PaymentService::new(100);
    let mut whole = PaymentService::new(100);
    for amount in [10u32, 200, 100, 101, 0] {
        let request = authorization_request(amount);
        let by_steps = match after_authorization(Ok(stepwise.authorize(&request))) {
            Ok(next) => after_completion(Ok(stepwise.complete(&next))),
            Err(error) => Err(error),
        };
        assert_eq!(by_steps, checkout(&mut whole, amount));
    }
}
