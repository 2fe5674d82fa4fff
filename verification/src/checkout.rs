//! The checkout orchestrator: one authorization, then one completion, and
//! the first failure ends the purchase.
//!
//! The orchestrator decides; it does not send. `authorization_request`,
//! `after_authorization` and `after_completion` are its three decisions, so
//! that a caller whose payment service is somewhere else can put its own
//! transport between them. `checkout` runs them against a service at hand.

use crate::messages::{optional_text, AuthorizationRequest, AuthorizationResult,
    CompletionRequest, CompletionResult};
use crate::decimal::decimal;
use crate::laws::{law_checkout_over_ceiling_fails, law_checkout_within_ceiling_succeeds};
use crate::model::{too_much_to_pay, AuthorizationOutcome, CompletionOutcome, ServiceView};
use crate::service::PaymentService;
use vstd::prelude::*;
use vstd::string::*;

verus! {

/// Why a checkout failed.
#[derive(Clone, Debug, PartialEq, Eq)]
pub enum CheckoutError {
    /// The authorization was refused; the text is the service's reason.
    InvalidParameter(String),
    /// The payment service could not be reached; the text is the
    /// transport's account of it.
    ServiceUnavailable(String),
    /// The authorization was granted and the completion was refused: the
    /// authorization is left pending. The text is the service's reason.
    PartialCheckoutFailure(String),
}

/// Why a checkout failed, as texts.
pub enum CheckoutFailure {
    InvalidParameter(Seq<char>),
    ServiceUnavailable(Seq<char>),
    PartialCheckoutFailure(Seq<char>),
}

impl View for CheckoutError {
    type V = CheckoutFailure;

    open spec fn view(&self) -> CheckoutFailure {
        match self {
            CheckoutError::InvalidParameter(reason) => CheckoutFailure::InvalidParameter(reason@),
            CheckoutError::ServiceUnavailable(cause) => CheckoutFailure::ServiceUnavailable(cause@),
            CheckoutError::PartialCheckoutFailure(reason) => CheckoutFailure::PartialCheckoutFailure(
                reason@,
            ),
        }
    }
}

/// The reason that stands in for one that the service did not give.
pub open spec fn auth_response_failed() -> Seq<char> {
    "auth response failed"@
}

/// The reason of a refusal: the service's own, where it gave one.
pub open spec fn reason_of(fail_reason: Option<Seq<char>>) -> Seq<char> {
    match fail_reason {
        Some(reason) => reason,
        None => auth_response_failed(),
    }
}

/// What follows the answer to the authorization request. A granted
/// authorization with a token leads to the completion of that token.
/// Anything else the service answered ends the checkout as an invalid
/// parameter, and an unreachable service as unavailable.
pub open spec fn authorization_decision(reply: Result<AuthorizationOutcome, Seq<char>>) -> Result<
    Seq<char>,
    CheckoutFailure,
> {
    match reply {
        Err(cause) => Err(CheckoutFailure::ServiceUnavailable(cause)),
        Ok(answer) => match answer.auth_token {
            Some(token) if answer.success => Ok(token),
            _ => Err(CheckoutFailure::InvalidParameter(reason_of(answer.fail_reason))),
        },
    }
}

/// What follows the answer to the completion request. A completed payment
/// with a transaction id ends the checkout with that id. Anything else the
/// service answered ends it as a partial failure, and an unreachable service
/// as unavailable.
pub open spec fn completion_decision(reply: Result<CompletionOutcome, Seq<char>>) -> Result<
    Seq<char>,
    CheckoutFailure,
> {
    match reply {
        Err(cause) => Err(CheckoutFailure::ServiceUnavailable(cause)),
        Ok(answer) => match answer.txid {
            Some(txid) if answer.success => Ok(txid),
            _ => Err(CheckoutFailure::PartialCheckoutFailure(reason_of(answer.fail_reason))),
        },
    }
}

/// A whole checkout of `amount` against a service in `state`, with `nonce`
/// drawn for the token: the state it leaves and how it ends.
pub open spec fn checkout_of(state: ServiceView, amount: nat, nonce: nat) -> (
    ServiceView,
    Result<Seq<char>, CheckoutFailure>,
) {
    let (authorized, answer) = state.authorize(amount, nonce);
    match authorization_decision(Ok(answer)) {
        Err(failure) => (authorized, Err(failure)),
        Ok(token) => {
            let (completed, answer) = authorized.complete(token);
            (completed, completion_decision(Ok(answer)))
        },
    }
}

/// An answer to the authorization request, or the transport's account of why
/// there is none, as texts.
pub open spec fn authorization_reply(reply: Result<AuthorizationResult, String>) -> Result<
    AuthorizationOutcome,
    Seq<char>,
> {
    match reply {
        Ok(answer) => Ok(answer@),
        Err(cause) => Err(cause@),
    }
}

/// An answer to the completion request, or the transport's account of why
/// there is none, as texts.
pub open spec fn completion_reply(reply: Result<CompletionResult, String>) -> Result<
    CompletionOutcome,
    Seq<char>,
> {
    match reply {
        Ok(answer) => Ok(answer@),
        Err(cause) => Err(cause@),
    }
}

/// The completion request to send next, or the end of the checkout, as texts.
pub open spec fn next_step(next: Result<CompletionRequest, CheckoutError>) -> Result<
    Seq<char>,
    CheckoutFailure,
> {
    match next {
        Ok(request) => Ok(request.auth_token@),
        Err(error) => Err(error@),
    }
}

/// The end of a checkout, as texts.
pub open spec fn ending(outcome: Result<String, CheckoutError>) -> Result<
    Seq<char>,
    CheckoutFailure,
> {
    match outcome {
        Ok(txid) => Ok(txid@),
        Err(error) => Err(error@),
    }
}

/// The reason of a refusal as a string of its own.
fn reason(fail_reason: Option<String>) -> (reason: String)
    ensures
        reason@ == reason_of(optional_text(fail_reason)),
{
    match fail_reason {
        Some(reason) => reason,
        None => String::from_str("auth response failed"),
    }
}

/// The first step of a checkout: the authorization request for the amount of
/// the purchase, as it was handed in.
pub fn authorization_request(amount: u32) -> (request: AuthorizationRequest)
    ensures
        request.amount == amount,
{
    AuthorizationRequest { amount }
}

/// The second step: given the answer to the authorization request, the
/// completion request for the token in it, or the failure that ends the
/// checkout. No completion request is made for a refused authorization.
pub fn after_authorization(reply: Result<AuthorizationResult, String>) -> (next: Result<
    CompletionRequest,
    CheckoutError,
>)
    ensures
        next_step(next) == authorization_decision(authorization_reply(reply)),
{
    match reply {
        Err(cause) => Err(CheckoutError::ServiceUnavailable(cause)),
        Ok(answer) => {
            let AuthorizationResult { success, auth_token, fail_reason } = answer;
            match auth_token {
                Some(token) if success => Ok(CompletionRequest { auth_token: token }),
                _ => Err(CheckoutError::InvalidParameter(reason(fail_reason))),
            }
        },
    }
}

/// The last step: given the answer to the completion request, the
/// transaction id in it, as it came, or the failure that ends the checkout.
pub fn after_completion(reply: Result<CompletionResult, String>) -> (outcome: Result<
    String,
    CheckoutError,
>)
    ensures
        ending(outcome) == completion_decision(completion_reply(reply)),
{
    match reply {
        Err(cause) => Err(CheckoutError::ServiceUnavailable(cause)),
        Ok(answer) => {
            let CompletionResult { success, txid, fail_reason } = answer;
            match txid {
                Some(txid) if success => Ok(txid),
                _ => Err(CheckoutError::PartialCheckoutFailure(reason(fail_reason))),
            }
        },
    }
}

/// Checks out a purchase of `amount` against `service`: authorizes the
/// amount, completes the token that comes back, and answers with the
/// transaction id. Each request is made once. A refused authorization ends
/// the checkout before any completion is asked for.
pub fn checkout(service: &mut PaymentService, amount: u32) -> (outcome: Result<
    String,
    CheckoutError,
>)
    requires
        old(service).wf(),
    ensures
        final(service).wf(),
        exists|nonce: nat|
            {
                &&& final(service)@ == (#[trigger] checkout_of(old(service)@, amount as nat, nonce)).0
                &&& ending(outcome) == checkout_of(old(service)@, amount as nat, nonce).1
            },
        outcome is Ok <==> amount <= old(service)@.ceiling,
        outcome matches Ok(txid) ==> {
            &&& txid@ == decimal(old(service)@.issued + 1)
            &&& final(service)@.issued == old(service)@.issued + 1
            &&& final(service)@.granted == old(service)@.granted + 1
        },
        outcome matches Err(error) ==> {
            &&& error@ == CheckoutFailure::InvalidParameter(too_much_to_pay())
            &&& final(service)@ == old(service)@
        },
{
    let request = authorization_request(amount);
    let answer = service.authorize(&request);
    let ghost nonce = choose|nonce: nat|
        {
            &&& service@ == (#[trigger] old(service)@.authorize(amount as nat, nonce)).0
            &&& answer@ == old(service)@.authorize(amount as nat, nonce).1
        };
    proof {
        old(service).lemma_view_wf();
        if amount <= old(service)@.ceiling {
            law_checkout_within_ceiling_succeeds(old(service)@, amount as nat, nonce);
        } else {
            law_checkout_over_ceiling_fails(old(service)@, amount as nat, nonce);
        }
    }
    match after_authorization(Ok(answer)) {
        Err(error) => Err(error),
        Ok(request) => {
            let answer = service.complete(&request);
            after_completion(Ok(answer))
        },
    }
}

} // verus!
