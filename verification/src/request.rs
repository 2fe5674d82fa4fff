//! The purchase request: from a query string to the amount it asks for, and
//! from a transaction id to the body of the answer.

use crate::checkout::{checkout, checkout_of, ending, CheckoutError, CheckoutFailure};
use crate::decimal::{all_digits, decimal, decimal_value, is_digit, read_digits};
use crate::model::{too_much_to_pay, ServiceView};
use crate::service::PaymentService;
use vstd::prelude::*;
use vstd::string::*;
use vstd::utf8::encode_utf8;

verus! {

/// Why a purchase request was not served.
#[derive(Clone, Debug, PartialEq, Eq)]
pub enum RequestError {
    /// The query has no parameter named `count`.
    MissingCount,
    /// The first `count` of the query is not an amount.
    InvalidCount,
    /// The checkout failed.
    Checkout(CheckoutError),
}

/// Why a purchase request was not served, as texts.
pub enum RequestFailure {
    MissingCount,
    InvalidCount,
    Checkout(CheckoutFailure),
}

impl View for RequestError {
    type V = RequestFailure;

    open spec fn view(&self) -> RequestFailure {
        match self {
            RequestError::MissingCount => RequestFailure::MissingCount,
            RequestError::InvalidCount => RequestFailure::InvalidCount,
            RequestError::Checkout(error) => RequestFailure::Checkout(error@),
        }
    }
}

/// What the caller is told of a request that was not served.
pub open spec fn message_of(failure: RequestFailure) -> Seq<char> {
    match failure {
        RequestFailure::MissingCount => "parse count err"@,
        RequestFailure::InvalidCount => "parse count err"@,
        RequestFailure::Checkout(CheckoutFailure::InvalidParameter(reason)) => reason,
        RequestFailure::Checkout(CheckoutFailure::ServiceUnavailable(cause)) => cause,
        RequestFailure::Checkout(CheckoutFailure::PartialCheckoutFailure(reason)) => reason,
    }
}

impl RequestError {
    /// What the caller is told: "parse count err" where the query gave no
    /// amount, and the text of the failure where the checkout failed.
    pub fn message(&self) -> (message: String)
        ensures
            message@ == message_of(self@),
    {
        match self {
            RequestError::MissingCount => String::from_str("parse count err"),
            RequestError::InvalidCount => String::from_str("parse count err"),
            RequestError::Checkout(CheckoutError::InvalidParameter(reason)) => reason.clone(),
            RequestError::Checkout(CheckoutError::ServiceUnavailable(cause)) => cause.clone(),
            RequestError::Checkout(CheckoutError::PartialCheckoutFailure(reason)) => reason.clone(),
        }
    }
}

/// The (name, value) pairs that `form_urlencoded::parse` reads from a query
/// string, in the order in which it yields them.
pub uninterp spec fn decoded_pairs(query: Seq<char>) -> Seq<(Seq<char>, Seq<char>)>;

/// A list of pairs of strings, as texts.
pub open spec fn pairs_of(pairs: Seq<(String, String)>) -> Seq<(Seq<char>, Seq<char>)> {
    Seq::new(pairs.len(), |i: int| (pairs[i].0@, pairs[i].1@))
}

/// `form_urlencoded::parse`, on the bytes of `query`, with every pair it
/// yields made into owned strings. The parser is a function of its input
/// alone and yields a pair for each non-empty piece between `&`s; what it
/// yields is given the name `decoded_pairs`, and nothing else is claimed.
#[verifier::external_body]
fn parse_query(query: &str) -> (pairs: Vec<(String, String)>)
    ensures
        pairs_of(pairs@) == decoded_pairs(query@),
{
    form_urlencoded::parse(query.as_bytes()).into_owned().collect()
}

/// The amount that `text` writes: an optional `+`, then one digit or more,
/// leading zeros allowed, and the number no greater than `u32::MAX`.
pub open spec fn amount_of(text: Seq<char>) -> Option<u32> {
    let digits = if text.len() > 0 && text[0] == '+' {
        text.subrange(1, text.len() as int)
    } else {
        text
    };
    if digits.len() > 0 && all_digits(digits) && decimal_value(digits) <= u32::MAX {
        Some(decimal_value(digits) as u32)
    } else {
        None
    }
}

/// The value of the first pair named `count`.
pub open spec fn count_in(pairs: Seq<(Seq<char>, Seq<char>)>) -> Option<Seq<char>>
    decreases pairs.len(),
{
    if pairs.len() == 0 {
        None
    } else if pairs[0].0 == "count"@ {
        Some(pairs[0].1)
    } else {
        count_in(pairs.drop_first())
    }
}

/// The amount that a list of pairs asks for: what the first `count` writes.
pub open spec fn requested(pairs: Seq<(Seq<char>, Seq<char>)>) -> Result<u32, RequestFailure> {
    match count_in(pairs) {
        None => Err(RequestFailure::MissingCount),
        Some(text) => match amount_of(text) {
            None => Err(RequestFailure::InvalidCount),
            Some(amount) => Ok(amount),
        },
    }
}

/// The text of the answer to a purchase that went through.
pub open spec fn success_text(txid: Seq<char>) -> Seq<char> {
    "success paid txid "@ + txid
}

/// How a purchase request with the given pairs is served by a service in
/// `state`, with `nonce` drawn for the token: the state it leaves, and the
/// body of the answer or the failure. A request without an amount leaves the
/// service alone.
pub open spec fn served(state: ServiceView, pairs: Seq<(Seq<char>, Seq<char>)>, nonce: nat) -> (
    ServiceView,
    Result<Seq<u8>, RequestFailure>,
) {
    match requested(pairs) {
        Err(failure) => (state, Err(failure)),
        Ok(amount) => {
            let (after, ended) = checkout_of(state, amount as nat, nonce);
            match ended {
                Ok(txid) => (after, Ok(encode_utf8(success_text(txid)))),
                Err(failure) => (after, Err(RequestFailure::Checkout(failure))),
            }
        },
    }
}

/// Why a purchase request with the given pairs is not served by a service
/// with the given ceiling, if it is not: for want of an amount, or because
/// the amount is above the ceiling.
pub open spec fn refusal(ceiling: nat, pairs: Seq<(Seq<char>, Seq<char>)>) -> Option<
    RequestFailure,
> {
    match requested(pairs) {
        Err(failure) => Some(failure),
        Ok(amount) => if amount > ceiling {
            Some(RequestFailure::Checkout(CheckoutFailure::InvalidParameter(too_much_to_pay())))
        } else {
            None
        },
    }
}

/// The answer to a purchase request, as texts and bytes.
pub open spec fn answer_of(answer: Result<Vec<u8>, RequestError>) -> Result<
    Seq<u8>,
    RequestFailure,
> {
    match answer {
        Ok(body) => Ok(body@),
        Err(error) => Err(error@),
    }
}

/// The amount read from a query, as texts.
pub open spec fn amount_or_failure(amount: Result<u32, RequestError>) -> Result<
    u32,
    RequestFailure,
> {
    match amount {
        Ok(amount) => Ok(amount),
        Err(error) => Err(error@),
    }
}

/// Reads an amount: `Some` exactly for the texts that write one.
pub fn parse_amount(text: &str) -> (amount: Option<u32>)
    ensures
        amount == amount_of(text@),
{
    if !text.is_ascii() {
        proof {
            let at = choose|at: int|
                0 <= at < text@.len() && !('\0' <= #[trigger] text@[at] <= '\u{7f}');
            // That character is no digit and no sign: it stands among the
            // digits, with the sign or without it.
            if text@.len() > 0 && text@[0] == '+' {
                assert(text@.subrange(1, text@.len() as int)[at - 1] == text@[at]);
            }
        }
        return None;
    }
    let len = text.unicode_len();
    let start: usize = if len > 0 && text.get_ascii(0) == 43u8 {
        1
    } else {
        0
    };
    let (end, value) = read_digits(text, start);
    let ghost digits = text@.subrange(start as int, len as int);
    assert(start == 0 ==> digits =~= text@);
    if end < len {
        assert(!is_digit(digits[end - start]));
        return None;
    }
    match value {
        Some(value) if start < end && value <= 0xffff_ffffu64 => Some(value as u32),
        _ => None,
    }
}

/// The amount that a list of pairs asks for: the amount that the value of
/// the first pair named `count` writes. Without such a pair the count is
/// missing; with a value that writes no amount it is invalid.
pub fn amount_in(pairs: &Vec<(String, String)>) -> (amount: Result<u32, RequestError>)
    ensures
        amount_or_failure(amount) == requested(pairs_of(pairs@)),
{
    let name = String::from_str("count");
    let ghost all = pairs_of(pairs@);
    let mut at: usize = 0;
    assert(all.subrange(0, all.len() as int) =~= all);
    while at < pairs.len()
        invariant
            at <= pairs@.len(),
            all == pairs_of(pairs@),
            name@ == "count"@,
            count_in(all) == count_in(all.subrange(at as int, all.len() as int)),
        decreases pairs@.len() - at,
    {
        let ghost rest = all.subrange(at as int, all.len() as int);
        proof {
            assert(rest.drop_first() =~= all.subrange(at + 1, all.len() as int));
        }
        if pairs[at].0 == name {
            return match parse_amount(pairs[at].1.as_str()) {
                Some(amount) => Ok(amount),
                None => Err(RequestError::InvalidCount),
            };
        }
        at = at + 1;
    }
    Err(RequestError::MissingCount)
}

/// The amount that a query string asks for: that of the pairs that the
/// parser reads from it.
pub fn requested_amount(query: &str) -> (amount: Result<u32, RequestError>)
    ensures
        amount_or_failure(amount) == requested(decoded_pairs(query@)),
{
    let pairs = parse_query(query);
    amount_in(&pairs)
}

/// The body of the answer to a purchase that went through: the bytes of
/// "success paid txid " and the transaction id.
pub fn response_body(txid: &str) -> (body: Vec<u8>)
    ensures
        body@ == encode_utf8(success_text(txid@)),
{
    let mut text = String::from_str("success paid txid ");
    text.append(txid);
    text.as_str().as_bytes_vec()
}

/// Serves a purchase request whose query was read into `pairs`: finds the
/// amount, checks it out against `service`, and answers with the body that
/// names the transaction id.
pub fn handle_pairs(service: &mut PaymentService, pairs: &Vec<(String, String)>) -> (answer: Result<
    Vec<u8>,
    RequestError,
>)
    requires
        old(service).wf(),
    ensures
        final(service).wf(),
        exists|nonce: nat|
            {
                &&& final(service)@ == (#[trigger] served(old(service)@, pairs_of(pairs@), nonce)).0
                &&& answer_of(answer) == served(old(service)@, pairs_of(pairs@), nonce).1
            },
        answer is Ok <==> refusal(old(service)@.ceiling, pairs_of(pairs@)) is None,
        answer matches Ok(body) ==> {
            &&& body@ == encode_utf8(success_text(decimal(old(service)@.issued + 1)))
            &&& final(service)@.issued == old(service)@.issued + 1
        },
        answer matches Err(error) ==> {
            &&& Some(error@) == refusal(old(service)@.ceiling, pairs_of(pairs@))
            &&& final(service)@ == old(service)@
        },
{
    match amount_in(pairs) {
        Err(error) => Err(error),
        Ok(amount) => {
            let ended = checkout(service, amount);
            let ghost nonce = choose|nonce: nat|
                {
                    &&& service@ == (#[trigger] checkout_of(old(service)@, amount as nat, nonce)).0
                    &&& ending(ended) == checkout_of(old(service)@, amount as nat, nonce).1
                };
            let answer = match ended {
                Ok(txid) => Ok(response_body(txid.as_str())),
                Err(error) => Err(RequestError::Checkout(error)),
            };
            assert(service@ == served(old(service)@, pairs_of(pairs@), nonce).0);
            answer
        },
    }
}

/// Serves a purchase request: reads the query string, finds the amount in
/// its `count` parameter, checks it out against `service`, and answers with
/// the body that names the transaction id.
pub fn handle_request(service: &mut PaymentService, query: &str) -> (answer: Result<
    Vec<u8>,
    RequestError,
>)
    requires
        old(service).wf(),
    ensures
        final(service).wf(),
        exists|nonce: nat|
            {
                &&& final(service)@ == (#[trigger] served(
                    old(service)@,
                    decoded_pairs(query@),
                    nonce,
                )).0
                &&& answer_of(answer) == served(old(service)@, decoded_pairs(query@), nonce).1
            },
        answer is Ok <==> refusal(old(service)@.ceiling, decoded_pairs(query@)) is None,
        answer matches Ok(body) ==> {
            &&& body@ == encode_utf8(success_text(decimal(old(service)@.issued + 1)))
            &&& final(service)@.issued == old(service)@.issued + 1
        },
        answer matches Err(error) ==> {
            &&& Some(error@) == refusal(old(service)@.ceiling, decoded_pairs(query@))
            &&& final(service)@ == old(service)@
        },
{
    let pairs = parse_query(query);
    handle_pairs(service, &pairs)
}

} // verus!
