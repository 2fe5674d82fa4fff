//! The payment service as a mathematical state, and its operations as
//! functions from one state to the next. The executable service answers to
//! this model; the laws of the protocol are proved of it.

use crate::decimal::decimal;
use crate::token::{carries_serial, token_text};
use vstd::prelude::*;

verus! {

/// Where an authorization stands. `Pending` is the only state that
/// `complete` accepts; `Completed` and `Expired` are final.
#[derive(Clone, Copy, Debug, PartialEq, Eq, Structural)]
pub enum RecordState {
    Pending,
    Completed,
    Expired,
}

/// What the ledger holds of one authorization.
pub struct RecordView {
    pub amount: nat,
    pub state: RecordState,
    /// The service's logical time when the authorization was granted: the
    /// number of authorizations granted before it.
    pub created_at: nat,
}

/// One entry of the catalog of payment methods.
pub struct PaymentMethodView {
    pub token: Seq<char>,
    pub label: Option<Seq<char>>,
}

/// What `authorize` answers.
pub struct AuthorizationOutcome {
    pub success: bool,
    pub auth_token: Option<Seq<char>>,
    pub fail_reason: Option<Seq<char>>,
}

/// What `complete` answers.
pub struct CompletionOutcome {
    pub success: bool,
    pub txid: Option<Seq<char>>,
    pub fail_reason: Option<Seq<char>>,
}

/// The reason given when an amount is above the ceiling.
pub open spec fn too_much_to_pay() -> Seq<char> {
    "too much to pay"@
}

/// The reason given when a token is unknown, used or expired.
pub open spec fn auth_code_invalid() -> Seq<char> {
    "auth code invalid"@
}

/// The state of a payment service.
pub struct ServiceView {
    /// The largest amount that is authorized.
    pub ceiling: nat,
    /// Every authorization ever granted, by its token.
    pub ledger: Map<Seq<char>, RecordView>,
    /// The number of authorizations granted so far.
    pub granted: nat,
    /// The transaction counter: the number of transaction ids issued so far,
    /// which is also the last one issued.
    pub issued: nat,
    /// The payment methods on offer.
    pub catalog: Seq<PaymentMethodView>,
}

impl ServiceView {
    /// What holds of every state that a service can reach: the catalog is not
    /// empty, and every token in the ledger carries the serial number of its
    /// record, which is below the number of authorizations granted.
    pub open spec fn wf(self) -> bool {
        &&& self.catalog.len() > 0
        &&& forall|token: Seq<char>| #[trigger]
            self.ledger.dom().contains(token) ==> {
                &&& self.ledger[token].created_at < self.granted
                &&& carries_serial(token, self.ledger[token].created_at)
            }
    }

    /// The state of a new service.
    pub open spec fn initial(ceiling: nat, catalog: Seq<PaymentMethodView>) -> ServiceView {
        ServiceView { ceiling, ledger: Map::empty(), granted: 0, issued: 0, catalog }
    }

    /// Whether `token` can be redeemed: it is in the ledger and still pending.
    pub open spec fn redeemable(self, token: Seq<char>) -> bool {
        self.ledger.dom().contains(token) && self.ledger[token].state == RecordState::Pending
    }

    /// An authorization request for `amount`, with `nonce` drawn for the
    /// token. An amount above the ceiling is refused and changes nothing.
    /// Any other amount gets the next token, and the ledger a pending record
    /// under it.
    pub open spec fn authorize(self, amount: nat, nonce: nat) -> (ServiceView, AuthorizationOutcome) {
        if amount > self.ceiling {
            (
                self,
                AuthorizationOutcome {
                    success: false,
                    auth_token: None,
                    fail_reason: Some(too_much_to_pay()),
                },
            )
        } else {
            let token = token_text(self.granted, nonce);
            let record = RecordView {
                amount,
                state: RecordState::Pending,
                created_at: self.granted,
            };
            (
                ServiceView {
                    ledger: self.ledger.insert(token, record),
                    granted: self.granted + 1,
                    ..self
                },
                AuthorizationOutcome { success: true, auth_token: Some(token), fail_reason: None },
            )
        }
    }

    /// A completion request for `token`. A redeemable token is marked
    /// completed and answered with the next transaction id, in decimal. Any
    /// other token is refused and changes nothing.
    pub open spec fn complete(self, token: Seq<char>) -> (ServiceView, CompletionOutcome) {
        if self.redeemable(token) {
            let record = RecordView { state: RecordState::Completed, ..self.ledger[token] };
            (
                ServiceView {
                    ledger: self.ledger.insert(token, record),
                    issued: self.issued + 1,
                    ..self
                },
                CompletionOutcome {
                    success: true,
                    txid: Some(decimal(self.issued + 1)),
                    fail_reason: None,
                },
            )
        } else {
            (
                self,
                CompletionOutcome {
                    success: false,
                    txid: None,
                    fail_reason: Some(auth_code_invalid()),
                },
            )
        }
    }

    /// The timeout of `token`. A redeemable token is marked expired, and the
    /// answer is `true`; any other token changes nothing.
    pub open spec fn expire(self, token: Seq<char>) -> (ServiceView, bool) {
        if self.redeemable(token) {
            let record = RecordView { state: RecordState::Expired, ..self.ledger[token] };
            (ServiceView { ledger: self.ledger.insert(token, record), ..self }, true)
        } else {
            (self, false)
        }
    }
}

} // verus!
