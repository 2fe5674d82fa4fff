//! What holds of the payment protocol, whatever is asked of the service and
//! in whatever order. Every law here is stated of the model in `model`, to
//! which the executable service answers operation by operation.

use crate::checkout::{checkout_of, CheckoutFailure};
use crate::decimal::{decimal, decimal_value, lemma_decimal_round_trip};
use crate::model::{auth_code_invalid, too_much_to_pay, RecordState, RecordView, ServiceView};
use crate::request::amount_of;
use crate::token::{carries_serial, lemma_serial_unique, lemma_token_text_not_empty,
    token_text};
use vstd::prelude::*;

verus! {

/// An amount within the ceiling is authorized. The token is not empty and
/// was in no record before; afterwards it is pending in the ledger, for that
/// amount.
pub proof fn law_amount_within_ceiling_is_authorized(state: ServiceView, amount: nat, nonce: nat)
    requires
        state.wf(),
        amount <= state.ceiling,
    ensures
        ({
            let (after, answer) = state.authorize(amount, nonce);
            &&& answer.success
            &&& answer.fail_reason is None
            &&& answer.auth_token == Some(token_text(state.granted, nonce))
            &&& token_text(state.granted, nonce).len() > 0
            &&& !state.ledger.dom().contains(token_text(state.granted, nonce))
            &&& after.redeemable(token_text(state.granted, nonce))
            &&& after.ledger[token_text(state.granted, nonce)].amount == amount
        }),
{
    let token = token_text(state.granted, nonce);
    lemma_token_text_not_empty(state.granted, nonce);
    if state.ledger.dom().contains(token) {
        lemma_serial_unique(token, state.ledger[token].created_at, state.granted);
    }
}

/// An amount above the ceiling is refused with the reason "too much to
/// pay", no token is handed out, and the service is as it was.
pub proof fn law_amount_over_ceiling_is_refused(state: ServiceView, amount: nat, nonce: nat)
    requires
        amount > state.ceiling,
    ensures
        ({
            let (after, answer) = state.authorize(amount, nonce);
            &&& !answer.success
            &&& answer.auth_token is None
            &&& answer.fail_reason == Some(too_much_to_pay())
            &&& after == state
        }),
{
}

/// A refused authorization does not touch the others: a token granted
/// before it is completed after it, with the transaction id it would have
/// had without the refusal.
pub proof fn law_refusal_spares_other_tokens(
    state: ServiceView,
    granted_amount: nat,
    nonce: nat,
    refused_amount: nat,
    other_nonce: nat,
)
    requires
        state.wf(),
        granted_amount <= state.ceiling,
        refused_amount > state.ceiling,
    ensures
        ({
            let (granted, answer) = state.authorize(granted_amount, nonce);
            let (refused, refusal) = granted.authorize(refused_amount, other_nonce);
            let (completed, done) = refused.complete(answer.auth_token->0);
            &&& answer.success
            &&& !refusal.success
            &&& done.success
            &&& done.txid == Some(decimal(state.issued + 1))
            &&& completed == granted.complete(answer.auth_token->0).0
        }),
{
}

/// A token is redeemed once. The first completion of a pending token is
/// answered with the next transaction id; the second is refused with the
/// reason "auth code invalid", issues no id and changes nothing.
pub proof fn law_token_is_redeemed_once(state: ServiceView, token: Seq<char>)
    requires
        state.redeemable(token),
    ensures
        ({
            let (after, first) = state.complete(token);
            let (later, second) = after.complete(token);
            &&& first.success
            &&& first.txid == Some(decimal(state.issued + 1))
            &&& first.fail_reason is None
            &&& after.ledger[token].state == RecordState::Completed
            &&& !second.success
            &&& second.txid is None
            &&& second.fail_reason == Some(auth_code_invalid())
            &&& later == after
        }),
{
}

/// A token that the ledger does not hold, or holds as completed or expired,
/// is refused with the reason "auth code invalid": no transaction id is
/// issued and nothing changes.
pub proof fn law_other_tokens_are_refused(state: ServiceView, token: Seq<char>)
    requires
        !state.ledger.dom().contains(token) || state.ledger[token].state != RecordState::Pending,
    ensures
        ({
            let (after, answer) = state.complete(token);
            &&& !answer.success
            &&& answer.txid is None
            &&& answer.fail_reason == Some(auth_code_invalid())
            &&& after == state
        }),
{
}

/// An expired token is refused exactly as a token that was never issued.
pub proof fn law_expired_is_as_unknown(state: ServiceView, token: Seq<char>, unknown: Seq<char>)
    requires
        state.redeemable(token),
        !state.ledger.dom().contains(unknown),
    ensures
        ({
            let (expired, done) = state.expire(token);
            &&& done
            &&& expired.complete(token).1 == state.complete(unknown).1
            &&& expired.complete(token).0 == expired
        }),
{
}

/// One request to the service.
pub enum Request {
    Authorize { amount: nat, nonce: nat },
    Complete { token: Seq<char> },
    Expire { token: Seq<char> },
}

/// The state after one request.
pub open spec fn apply(state: ServiceView, request: Request) -> ServiceView {
    match request {
        Request::Authorize { amount, nonce } => state.authorize(amount, nonce).0,
        Request::Complete { token } => state.complete(token).0,
        Request::Expire { token } => state.expire(token).0,
    }
}

/// The token that a request is answered with, if it is.
pub open spec fn token_from(state: ServiceView, request: Request) -> Option<Seq<char>> {
    match request {
        Request::Authorize { amount, nonce } => state.authorize(amount, nonce).1.auth_token,
        _ => None,
    }
}

/// The transaction id that a request is answered with, if it is.
pub open spec fn txid_from(state: ServiceView, request: Request) -> Option<Seq<char>> {
    match request {
        Request::Complete { token } => state.complete(token).1.txid,
        _ => None,
    }
}

/// The state after a history of requests, served one after the other.
pub open spec fn run(state: ServiceView, history: Seq<Request>) -> ServiceView
    decreases history.len(),
{
    if history.len() == 0 {
        state
    } else {
        apply(run(state, history.drop_last()), history.last())
    }
}

/// The transaction ids issued in the course of a history, in the order in
/// which they were issued.
pub open spec fn txids(state: ServiceView, history: Seq<Request>) -> Seq<Seq<char>>
    decreases history.len(),
{
    if history.len() == 0 {
        Seq::empty()
    } else {
        let earlier = txids(state, history.drop_last());
        match txid_from(run(state, history.drop_last()), history.last()) {
            Some(txid) => earlier.push(txid),
            None => earlier,
        }
    }
}

/// Every request leaves a well-formed service well-formed.
pub proof fn law_requests_keep_well_formedness(state: ServiceView, request: Request)
    requires
        state.wf(),
    ensures
        apply(state, request).wf(),
{
    // A record that was there before keeps its token and its serial number;
    // the one that an authorization adds has the next serial number.
    let after = apply(state, request);
    assert forall|token: Seq<char>| #[trigger] after.ledger.dom().contains(token) implies {
        &&& after.ledger[token].created_at < after.granted
        &&& carries_serial(token, after.ledger[token].created_at)
    } by {
        if !state.ledger.dom().contains(token) {
            assert(request is Authorize);
        }
    }
}

/// No request removes a record, changes its amount or its time of creation,
/// or moves it out of a final state: what is completed stays completed, and
/// what is expired stays expired.
pub proof fn law_records_are_kept(state: ServiceView, request: Request, token: Seq<char>)
    requires
        state.wf(),
        state.ledger.dom().contains(token),
    ensures
        ({
            let before = state.ledger[token];
            let after = apply(state, request).ledger;
            &&& after.dom().contains(token)
            &&& after[token].amount == before.amount
            &&& after[token].created_at == before.created_at
            &&& before.state != RecordState::Pending ==> after[token] == before
        }),
{
    match request {
        Request::Authorize { amount, nonce } => {
            let new_token = token_text(state.granted, nonce);
            if token == new_token {
                lemma_serial_unique(token, state.ledger[token].created_at, state.granted);
            }
        },
        _ => {},
    }
}

/// A record leaves the pending state only through a completion that is
/// answered with a transaction id, or through its timeout.
pub proof fn law_pending_ends_once(state: ServiceView, request: Request, token: Seq<char>)
    requires
        state.wf(),
        state.redeemable(token),
    ensures
        ({
            let after = apply(state, request).ledger[token].state;
            &&& after == RecordState::Completed <==> request == (Request::Complete { token })
            &&& after == RecordState::Expired <==> request == (Request::Expire { token })
        }),
{
    law_records_are_kept(state, request, token);
    match request {
        Request::Authorize { amount, nonce } => {
            let new_token = token_text(state.granted, nonce);
            if token == new_token {
                lemma_serial_unique(token, state.ledger[token].created_at, state.granted);
            }
        },
        _ => {},
    }
}

/// A well-formed service stays well-formed through every history.
pub proof fn law_histories_keep_well_formedness(state: ServiceView, history: Seq<Request>)
    requires
        state.wf(),
    ensures
        run(state, history).wf(),
    decreases history.len(),
{
    if history.len() > 0 {
        law_histories_keep_well_formedness(state, history.drop_last());
        law_requests_keep_well_formedness(run(state, history.drop_last()), history.last());
    }
}

/// Transaction ids are consecutive. Whatever the history, the `k`-th id
/// issued in its course is the decimal text of the counter at its start plus
/// `k + 1`, and the counter at its end has moved by the number of ids issued:
/// none is skipped and none is issued twice.
pub proof fn law_transaction_ids_are_consecutive(state: ServiceView, history: Seq<Request>)
    ensures
        run(state, history).issued == state.issued + txids(state, history).len(),
        forall|k: int|
            0 <= k < txids(state, history).len() ==> #[trigger] txids(state, history)[k]
                == decimal((state.issued + k + 1) as nat),
    decreases history.len(),
{
    if history.len() > 0 {
        law_transaction_ids_are_consecutive(state, history.drop_last());
    }
}

/// Transaction ids increase. Of two ids issued in the course of one history,
/// the later one writes the greater number, so the two are never the same
/// text.
pub proof fn law_transaction_ids_increase(
    state: ServiceView,
    history: Seq<Request>,
    earlier: int,
    later: int,
)
    requires
        0 <= earlier < later < txids(state, history).len(),
    ensures
        decimal_value(txids(state, history)[earlier]) < decimal_value(txids(state, history)[later]),
        txids(state, history)[earlier] != txids(state, history)[later],
{
    law_transaction_ids_are_consecutive(state, history);
    lemma_decimal_round_trip((state.issued + earlier + 1) as nat);
    lemma_decimal_round_trip((state.issued + later + 1) as nat);
}

/// A history can be served in two parts: the state after the whole is the
/// state after the second part, started where the first part ended.
pub proof fn law_histories_compose(state: ServiceView, history: Seq<Request>, at: int)
    requires
        0 <= at <= history.len(),
    ensures
        run(state, history) == run(
            run(state, history.subrange(0, at)),
            history.subrange(at, history.len() as int),
        ),
    decreases history.len() - at,
{
    let first = history.subrange(0, at);
    let second = history.subrange(at, history.len() as int);
    if at == history.len() {
        assert(first =~= history);
    } else {
        law_histories_compose(state, history.drop_last(), at);
        assert(history.drop_last().subrange(0, at) =~= first);
        assert(history.drop_last().subrange(at, history.len() - 1) =~= second.drop_last());
    }
}

/// The ledger forgets nothing. Through every history a record stays in the
/// ledger with its amount and its time of creation, and a record that has
/// left the pending state is never changed again: what is completed stays
/// completed, and what is expired stays expired.
pub proof fn law_ledger_forgets_nothing(state: ServiceView, history: Seq<Request>, token: Seq<char>)
    requires
        state.wf(),
        state.ledger.dom().contains(token),
    ensures
        ({
            let before = state.ledger[token];
            let after = run(state, history).ledger;
            &&& after.dom().contains(token)
            &&& after[token].amount == before.amount
            &&& after[token].created_at == before.created_at
            &&& before.state != RecordState::Pending ==> after[token] == before
        }),
    decreases history.len(),
{
    if history.len() > 0 {
        law_ledger_forgets_nothing(state, history.drop_last(), token);
        law_histories_keep_well_formedness(state, history.drop_last());
        law_records_are_kept(run(state, history.drop_last()), history.last(), token);
    }
}

/// No token is handed out twice. Of two requests of one history, whatever
/// lies between them, the later one is never answered with the token that
/// the earlier one was answered with.
pub proof fn law_tokens_are_never_reissued(
    state: ServiceView,
    history: Seq<Request>,
    first: int,
    second: int,
)
    requires
        state.wf(),
        0 <= first < second < history.len(),
        token_from(run(state, history.subrange(0, first)), history[first]) is Some,
    ensures
        token_from(run(state, history.subrange(0, second)), history[second]) != token_from(
            run(state, history.subrange(0, first)),
            history[first],
        ),
{
    let before = run(state, history.subrange(0, first));
    let after = run(state, history.subrange(0, first + 1));
    let between = history.subrange(first + 1, second);
    let upto = history.subrange(0, second);
    let token = token_from(before, history[first])->0;
    assert(history.subrange(0, first + 1).drop_last() =~= history.subrange(0, first));
    law_histories_keep_well_formedness(state, history.subrange(0, first + 1));
    law_histories_compose(state, upto, first + 1);
    assert(upto.subrange(0, first + 1) =~= history.subrange(0, first + 1));
    assert(upto.subrange(first + 1, upto.len() as int) =~= between);
    law_ledger_forgets_nothing(after, between, token);
    law_histories_keep_well_formedness(state, upto);
    match history[second] {
        Request::Authorize { amount, nonce } => {
            if amount <= run(state, upto).ceiling {
                law_amount_within_ceiling_is_authorized(run(state, upto), amount, nonce);
            }
        },
        _ => {},
    }
}

/// A token is completed at most once. Of two completion requests for one
/// token in one history, whatever lies between them, at most one is answered
/// with a transaction id.
pub proof fn law_token_is_completed_at_most_once(
    state: ServiceView,
    history: Seq<Request>,
    token: Seq<char>,
    first: int,
    second: int,
)
    requires
        state.wf(),
        0 <= first < second < history.len(),
        history[first] == (Request::Complete { token }),
        history[second] == (Request::Complete { token }),
        txid_from(run(state, history.subrange(0, first)), history[first]) is Some,
    ensures
        txid_from(run(state, history.subrange(0, second)), history[second]) is None,
{
    let before = run(state, history.subrange(0, first));
    let after = run(state, history.subrange(0, first + 1));
    let between = history.subrange(first + 1, second);
    let upto = history.subrange(0, second);
    assert(history.subrange(0, first + 1).drop_last() =~= history.subrange(0, first));
    law_histories_keep_well_formedness(state, history.subrange(0, first + 1));
    law_histories_compose(state, upto, first + 1);
    assert(upto.subrange(0, first + 1) =~= history.subrange(0, first + 1));
    assert(upto.subrange(first + 1, upto.len() as int) =~= between);
    law_ledger_forgets_nothing(after, between, token);
}

/// The catalog is stable: no history of requests changes it, and it is never
/// empty.
pub proof fn law_catalog_is_stable(state: ServiceView, history: Seq<Request>)
    requires
        state.wf(),
    ensures
        run(state, history).catalog == state.catalog,
        run(state, history).catalog.len() > 0,
        run(state, history).ceiling == state.ceiling,
    decreases history.len(),
{
    if history.len() > 0 {
        law_catalog_is_stable(state, history.drop_last());
    }
}

/// Nothing is completed that was not authorized. In a history that starts
/// with an empty ledger, every token in the ledger was handed out by an
/// earlier authorization of that history.
pub proof fn law_ledger_holds_what_was_authorized(
    state: ServiceView,
    history: Seq<Request>,
    token: Seq<char>,
)
    requires
        state.ledger == Map::<Seq<char>, RecordView>::empty(),
        run(state, history).ledger.dom().contains(token),
    ensures
        exists|at: int|
            0 <= at < history.len() && #[trigger] token_from(
                run(state, history.subrange(0, at)),
                history[at],
            ) == Some(token),
    decreases history.len(),
{
    if history.len() > 0 {
        let earlier = history.drop_last();
        let before = run(state, earlier);
        if before.ledger.dom().contains(token) {
            law_ledger_holds_what_was_authorized(state, earlier, token);
            let at = choose|at: int|
                0 <= at < earlier.len() && #[trigger] token_from(
                    run(state, earlier.subrange(0, at)),
                    earlier[at],
                ) == Some(token);
            assert(earlier.subrange(0, at) =~= history.subrange(0, at));
        } else {
            let at = history.len() - 1;
            assert(token_from(run(state, history.subrange(0, at)), history[at]) == Some(token));
        }
    }
}

/// A completion that is answered with a transaction id redeems a token that
/// an earlier request of the same history was answered with.
pub proof fn law_completion_follows_authorization(
    state: ServiceView,
    history: Seq<Request>,
    token: Seq<char>,
)
    requires
        state.ledger == Map::<Seq<char>, RecordView>::empty(),
        run(state, history).complete(token).1.success,
    ensures
        exists|at: int|
            0 <= at < history.len() && #[trigger] token_from(
                run(state, history.subrange(0, at)),
                history[at],
            ) == Some(token),
{
    law_ledger_holds_what_was_authorized(state, history, token);
}

/// A checkout of an amount above the ceiling fails as an invalid parameter,
/// with the service's reason, and leaves the service as it was: no
/// completion was asked for.
pub proof fn law_checkout_over_ceiling_fails(state: ServiceView, amount: nat, nonce: nat)
    requires
        amount > state.ceiling,
    ensures
        checkout_of(state, amount, nonce) == (
            state,
            Err::<Seq<char>, CheckoutFailure>(CheckoutFailure::InvalidParameter(too_much_to_pay())),
        ),
{
}

/// A checkout of an amount within the ceiling goes through: it is answered
/// with the next transaction id, and the ledger holds its authorization as
/// completed.
pub proof fn law_checkout_within_ceiling_succeeds(state: ServiceView, amount: nat, nonce: nat)
    requires
        state.wf(),
        amount <= state.ceiling,
    ensures
        ({
            let (after, ended) = checkout_of(state, amount, nonce);
            let token = token_text(state.granted, nonce);
            &&& ended == Ok::<Seq<char>, CheckoutFailure>(decimal(state.issued + 1))
            &&& after.issued == state.issued + 1
            &&& after.granted == state.granted + 1
            &&& after.ledger == state.ledger.insert(
                token,
                RecordView {
                    amount,
                    state: RecordState::Completed,
                    created_at: state.granted,
                },
            )
            &&& after.wf()
        }),
{
    let token = token_text(state.granted, nonce);
    let (authorized, answer) = state.authorize(amount, nonce);
    let (after, ended) = checkout_of(state, amount, nonce);
    law_requests_keep_well_formedness(state, Request::Authorize { amount, nonce });
    law_requests_keep_well_formedness(authorized, Request::Complete { token });
    assert(after.ledger =~= state.ledger.insert(
        token,
        RecordView { amount, state: RecordState::Completed, created_at: state.granted },
    ));
}

/// A transaction id reads back as the number it writes: the decimal text of
/// an amount is an amount, and that one.
pub proof fn law_decimal_reads_back(amount: u32)
    ensures
        amount_of(decimal(amount as nat)) == Some(amount),
{
    lemma_decimal_round_trip(amount as nat);
}

} // verus!
