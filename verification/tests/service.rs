use fakepay::messages::{AuthorizationRequest, CompletionRequest, PaymentMethod};
use fakepay::service::{PaymentService, DEFAULT_CEILING};

fn authorize(service: &mut PaymentService, amount: u32) -> String {
    let result = service.authorize(&AuthorizationRequest { amount });
    assert!(result.success);
    result.auth_token.unwrap()
}

fn complete(service: &mut PaymentService, token: &str) -> Option<String> {
    let result = service.complete(&CompletionRequest { auth_token: token.to_string() });
    assert_eq!(result.success, result.txid.is_some());
    assert_eq!(result.success, result.fail_reason.is_none());
    result.txid
}

#[test]
fn the_default_ceiling_is_one_hundred() {
    assert_eq!(DEFAULT_CEILING, 100);
    assert_eq!(PaymentService::default().ceiling(), 100);
    assert_eq!(PaymentService::new(7).ceiling(), 7);
}

#[test]
fn an_amount_within_the_ceiling_is_authorized() {
    let mut service = PaymentService::new(100);
    for amount in [0u32, 1, 10, 99, 100] {
        let result = service.authorize(&AuthorizationRequest { amount });
        assert!(result.success);
        assert_eq!(result.fail_reason, None);
        assert!(!result.auth_token.unwrap().is_empty());
    }
}

#[test]
fn every_authorization_gets_a_token_of_its_own() {
    let mut service = PaymentService::new(100);
    let mut tokens = Vec::new();
    for _ in 0..50 {
        let token = authorize(&mut service, 10);
        assert!(!tokens.contains(&token));
        tokens.push(token);
    }
}

#[test]
fn a_token_names_the_serial_number_and_the_nonce() {
    let mut service = PaymentService::new(100);
    let first = service.authorize_with_nonce(&AuthorizationRequest { amount: 10 }, 7);
    assert!(first.success);
    assert_eq!(first.auth_token, Some("T0-7".to_string()));
    assert_eq!(first.fail_reason, None);
    let second = service.authorize_with_nonce(&AuthorizationRequest { amount: 20 }, 7);
    assert_eq!(second.auth_token, Some("T1-7".to_string()));
    let third = service.authorize(&AuthorizationRequest { amount: 30 });
    assert!(third.auth_token.unwrap().starts_with("T2-"));
}

#[test]
fn a_refused_authorization_takes_no_serial_number() {
    let mut service = PaymentService::new(100);
    let refused = service.authorize_with_nonce(&AuthorizationRequest { amount: 101 }, 7);
    assert!(!refused.success);
    let granted = service.authorize_with_nonce(&AuthorizationRequest { amount: 100 }, 7);
    assert_eq!(granted.auth_token, Some("T0-7".to_string()));
}

#[test]
fn an_amount_over_the_ceiling_is_refused() {
    let mut service = PaymentService::new(100);
    for amount in [101u32, 150, 1_000_000, u32::MAX] {
        let result = service.authorize(&AuthorizationRequest { amount });
        assert!(!result.success);
        assert_eq!(result.auth_token, None);
        assert_eq!(result.fail_reason, Some("too much to pay".to_string()));
    }
}

#[test]
fn a_refusal_leaves_other_authorizations_alone() {
    let mut service = PaymentService::new(100);
    let token = authorize(&mut service, 10);
    let refused = service.authorize(&AuthorizationRequest { amount: 150 });
    assert!(!refused.success);
    assert_eq!(complete(&mut service, &token), Some("1".to_string()));
}

#[test]
fn the_ceiling_is_what_the_service_was_given() {
    let mut strict = PaymentService::new(0);
    assert!(strict.authorize(&AuthorizationRequest { amount: 0 }).success);
    assert!(!strict.authorize(&AuthorizationRequest { amount: 1 }).success);
    let mut open = PaymentService::new(u32::MAX);
    assert!(open.authorize(&AuthorizationRequest { amount: u32::MAX }).success);
}

#[test]
fn authorize_then_complete_then_complete_again() {
    let mut service = PaymentService::new(100);
    let authorized = service.authorize(&AuthorizationRequest { amount: 10 });
    assert!(authorized.success);
    let token = authorized.auth_token.unwrap();
    let request = CompletionRequest { auth_token: token };
    let first = service.complete(&request);
    assert!(first.success);
    assert_eq!(first.txid, Some("1".to_string()));
    assert_eq!(first.fail_reason, None);
    let second = service.complete(&request);
    assert!(!second.success);
    assert_eq!(second.txid, None);
    assert_eq!(second.fail_reason, Some("auth code invalid".to_string()));
}

#[test]
fn a_replayed_token_does_not_move_the_counter() {
    let mut service = PaymentService::new(100);
    let first = authorize(&mut service, 10);
    let second = authorize(&mut service, 10);
    assert_eq!(complete(&mut service, &first), Some("1".to_string()));
    for _ in 0..5 {
        assert_eq!(complete(&mut service, &first), None);
    }
    assert_eq!(complete(&mut service, &second), Some("2".to_string()));
}

#[test]
fn an_unknown_token_is_refused() {
    let mut service = PaymentService::new(100);
    let granted = service.authorize_with_nonce(&AuthorizationRequest { amount: 10 }, 7);
    assert_eq!(granted.auth_token, Some("T0-7".to_string()));
    for token in [
        "", "nope", "atestcode", "T", "T-", "Tx", "T0", "T0-", "T0-8", "T1-7", "t0-7", "T0-7 ", " T0-7",
        "T00-7", "T0-07", "T0--7", "T0-7é", "T٠-7", "T18446744073709551616-7",
        "T99999999999999999999999999999999-7", "T4294967296-7",
    ] {
        let result = service.complete(&CompletionRequest { auth_token: token.to_string() });
        assert!(!result.success);
        assert_eq!(result.txid, None);
        assert_eq!(result.fail_reason, Some("auth code invalid".to_string()));
    }
    assert_eq!(complete(&mut service, "T0-7"), Some("1".to_string()));
}

#[test]
fn a_new_service_knows_no_token() {
    let mut service = PaymentService::new(100);
    assert_eq!(complete(&mut service, "T0-0"), None);
}

#[test]
fn transaction_ids_count_up_from_one_without_gaps() {
    let mut service = PaymentService::new(100);
    let mut tokens = Vec::new();
    for _ in 0..25 {
        tokens.push(authorize(&mut service, 1));
    }
    tokens.reverse();
    let mut issued = Vec::new();
    for (turn, token) in tokens.iter().enumerate() {
        if turn % 3 == 0 {
            assert_eq!(complete(&mut service, "unknown"), None);
        }
        if turn % 4 == 0 {
            assert!(!service.authorize(&AuthorizationRequest { amount: 500 }).success);
        }
        issued.push(complete(&mut service, token).unwrap());
        assert_eq!(complete(&mut service, token), None);
    }
    let expected: Vec<String> = (1..=25u32).map(|n| n.to_string()).collect();
    assert_eq!(issued, expected);
}

#[test]
fn completions_behind_a_lock_get_ids_of_their_own() {
    let service = std::sync::Mutex::new(PaymentService::new(100));
    let tokens: Vec<String> = (0..10).map(|_| authorize(&mut service.lock().unwrap(), 5)).collect();
    let mut issued: Vec<u64> = tokens
        .iter()
        .map(|token| complete(&mut service.lock().unwrap(), token).unwrap().parse().unwrap())
        .collect();
    for pair in issued.windows(2) {
        assert!(pair[0] < pair[1]);
    }
    issued.dedup();
    assert_eq!(issued, (1..=10u64).collect::<Vec<u64>>());
}

#[test]
fn an_expired_token_is_refused_like_an_unknown_one() {
    let mut service = PaymentService::new(100);
    let token = authorize(&mut service, 10);
    assert!(service.expire(&token));
    let expired = service.complete(&CompletionRequest { auth_token: token.clone() });
    let unknown = service.complete(&CompletionRequest { auth_token: "unknown".to_string() });
    assert_eq!(expired, unknown);
    assert!(!expired.success);
    assert_eq!(expired.fail_reason, Some("auth code invalid".to_string()));
}

#[test]
fn only_a_pending_token_expires() {
    let mut service = PaymentService::new(100);
    assert!(!service.expire("unknown"));
    let expired = authorize(&mut service, 10);
    assert!(service.expire(&expired));
    assert!(!service.expire(&expired));
    let completed = authorize(&mut service, 10);
    assert_eq!(complete(&mut service, &completed), Some("1".to_string()));
    assert!(!service.expire(&completed));
    assert_eq!(complete(&mut service, &completed), None);
}

#[test]
fn an_expiry_issues_no_transaction_id() {
    let mut service = PaymentService::new(100);
    let first = authorize(&mut service, 10);
    let second = authorize(&mut service, 10);
    assert!(service.expire(&first));
    assert_eq!(complete(&mut service, &second), Some("1".to_string()));
}

#[test]
fn the_default_catalog_offers_one_method() {
    let service = PaymentService::new(100);
    assert_eq!(
        service.get_payment_methods(),
        vec![PaymentMethod { token: "alipay".to_string(), label: None }]
    );
}

#[test]
fn the_catalog_is_the_one_configured() {
    let catalog = vec![
        PaymentMethod { token: "card-1".to_string(), label: Some("personal".to_string()) },
        PaymentMethod { token: "card-2".to_string(), label: Some("work".to_string()) },
        PaymentMethod { token: "wallet".to_string(), label: None },
    ];
    let service = PaymentService::with_catalog(50, catalog.clone()).unwrap();
    assert_eq!(service.ceiling(), 50);
    assert_eq!(service.get_payment_methods(), catalog);
}

#[test]
fn an_empty_catalog_makes_no_service() {
    assert!(PaymentService::with_catalog(100, Vec::new()).is_none());
}

#[test]
fn the_catalog_is_the_same_at_every_call() {
    let mut service = PaymentService::new(100);
    let before = service.get_payment_methods();
    assert!(!before.is_empty());
    assert_eq!(service.get_payment_methods(), before);
    let token = authorize(&mut service, 10);
    assert_eq!(service.get_payment_methods(), before);
    assert!(!service.authorize(&AuthorizationRequest { amount: 101 }).success);
    assert_eq!(complete(&mut service, &token), Some("1".to_string()));
    assert_eq!(complete(&mut service, &token), None);
    assert!(!service.expire(&token));
    assert_eq!(service.get_payment_methods(), before);
}
