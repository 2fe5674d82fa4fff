//! What callers send to the payment service and what it answers.

use crate::model::{AuthorizationOutcome, CompletionOutcome, PaymentMethodView};
use vstd::prelude::*;

verus! {

/// The text of an optional string.
pub open spec fn optional_text(text: Option<String>) -> Option<Seq<char>> {
    match text {
        Some(text) => Some(text@),
        None => None,
    }
}

/// Asks for the authorization of an amount, in minor units of currency.
#[derive(Clone, Debug, PartialEq, Eq)]
pub struct AuthorizationRequest {
    pub amount: u32,
}

/// The answer to an authorization request: a token on success, a reason on
/// failure.
#[derive(Clone, Debug, PartialEq, Eq)]
pub struct AuthorizationResult {
    pub success: bool,
    pub auth_token: Option<String>,
    pub fail_reason: Option<String>,
}

impl View for AuthorizationResult {
    type V = AuthorizationOutcome;

    open spec fn view(&self) -> AuthorizationOutcome {
        AuthorizationOutcome {
            success: self.success,
            auth_token: optional_text(self.auth_token),
            fail_reason: optional_text(self.fail_reason),
        }
    }
}

/// Asks for the completion of the payment that `auth_token` authorized.
#[derive(Clone, Debug, PartialEq, Eq)]
pub struct CompletionRequest {
    pub auth_token: String,
}

/// The answer to a completion request: a transaction id on success, a reason
/// on failure.
#[derive(Clone, Debug, PartialEq, Eq)]
pub struct CompletionResult {
    pub success: bool,
    pub txid: Option<String>,
    pub fail_reason: Option<String>,
}

impl View for CompletionResult {
    type V = CompletionOutcome;

    open spec fn view(&self) -> CompletionOutcome {
        CompletionOutcome {
            success: self.success,
            txid: optional_text(self.txid),
            fail_reason: optional_text(self.fail_reason),
        }
    }
}

/// A stored payment instrument: an opaque handle and, where the customer gave
/// one, a label.
#[derive(Clone, Debug, PartialEq, Eq)]
pub struct PaymentMethod {
    pub token: String,
    pub label: Option<String>,
}

impl View for PaymentMethod {
    type V = PaymentMethodView;

    open spec fn view(&self) -> PaymentMethodView {
        PaymentMethodView { token: self.token@, label: optional_text(self.label) }
    }
}

/// The catalog that a list of payment methods stands for.
pub open spec fn catalog_of(methods: Seq<PaymentMethod>) -> Seq<PaymentMethodView> {
    Seq::new(methods.len(), |i: int| methods[i]@)
}

impl PaymentMethod {
    /// A copy of this payment method.
    pub(crate) fn duplicate(&self) -> (copy: PaymentMethod)
        ensures
            copy == *self,
    {
        let label = match &self.label {
            Some(label) => Some(label.clone()),
            None => None,
        };
        PaymentMethod { token: self.token.clone(), label }
    }
}

} // verus!
