//! Authorization tokens: their text, and what makes each one new.
//!
//! A token is the letter `T`, the decimal serial number of the authorization
//! it stands for, a hyphen, and the decimal text of a nonce. The serial
//! number alone tells two tokens of one service apart; the nonce is there so
//! that a token cannot be derived from the ones seen before.

use crate::decimal::{decimal, is_digit, lemma_decimal_injective, lemma_decimal_round_trip,
    read_digits, to_decimal};
use std::hash::RandomState;
use vstd::prelude::*;
use vstd::string::*;
use vstd::utf8::is_ascii_chars;

verus! {

/// The text of the token with the given serial number and nonce.
pub open spec fn token_text(serial: nat, nonce: nat) -> Seq<char> {
    seq!['T'] + decimal(serial) + seq!['-'] + decimal(nonce)
}

/// Whether `token` is the text of a token with the given serial number.
pub open spec fn carries_serial(token: Seq<char>, serial: nat) -> bool {
    exists|nonce: nat| token == #[trigger] token_text(serial, nonce)
}

/// A token's text gives back the serial number and the nonce it was made of.
pub proof fn lemma_token_text_injective(serial: nat, nonce: nat, other_serial: nat, other_nonce: nat)
    requires
        token_text(serial, nonce) == token_text(other_serial, other_nonce),
    ensures
        serial == other_serial,
        nonce == other_nonce,
{
    let a = decimal(serial);
    let b = decimal(nonce);
    let c = decimal(other_serial);
    let d = decimal(other_nonce);
    let a_len = a.len() as int;
    let c_len = c.len() as int;
    let left = token_text(serial, nonce);
    let right = token_text(other_serial, other_nonce);
    lemma_decimal_round_trip(serial);
    lemma_decimal_round_trip(other_serial);
    // The first hyphen of a token stands right behind the serial number,
    // whose characters are digits: the two serial numbers end at one place.
    assert(left[1 + a_len] == '-');
    assert(right[1 + c_len] == '-');
    assert(a.len() == c.len());
    assert(a =~= c) by {
        assert forall|i: int| 0 <= i < a.len() implies a[i] == c[i] by {
            assert(left[1 + i] == a[i]);
        }
    }
    assert(b =~= d) by {
        assert(left.len() == 2 + a.len() + b.len());
        assert forall|i: int| 0 <= i < b.len() implies b[i] == d[i] by {
            assert(left[2 + a_len + i] == b[i]);
        }
    }
    lemma_decimal_injective(serial, other_serial);
    lemma_decimal_injective(nonce, other_nonce);
}

/// One text carries at most one serial number.
pub proof fn lemma_serial_unique(token: Seq<char>, serial: nat, other_serial: nat)
    requires
        carries_serial(token, serial),
        carries_serial(token, other_serial),
    ensures
        serial == other_serial,
{
    let nonce = choose|nonce: nat| token == #[trigger] token_text(serial, nonce);
    let other_nonce = choose|nonce: nat| token == #[trigger] token_text(other_serial, nonce);
    lemma_token_text_injective(serial, nonce, other_serial, other_nonce);
}

/// A token is never the empty text.
pub proof fn lemma_token_text_not_empty(serial: nat, nonce: nat)
    ensures
        token_text(serial, nonce).len() >= 4,
{
    lemma_decimal_round_trip(serial);
    lemma_decimal_round_trip(nonce);
}

/// Every character of a token is an ASCII character.
pub proof fn lemma_token_text_is_ascii(serial: nat, nonce: nat)
    ensures
        is_ascii_chars(token_text(serial, nonce)),
{
    let a = decimal(serial);
    let b = decimal(nonce);
    let a_len = a.len() as int;
    let token = token_text(serial, nonce);
    lemma_decimal_round_trip(serial);
    lemma_decimal_round_trip(nonce);
    assert forall|i: int| 0 <= i < token.len() implies '\0' <= #[trigger] token[i] <= '\u{7f}' by {
        if 1 <= i < 1 + a_len {
            assert(is_digit(a[i - 1]));
        } else if i > 1 + a_len {
            assert(is_digit(b[i - 2 - a_len]));
        }
    }
}

/// Reads the serial number that a token names. Of the text of a token it
/// gives back the serial number; of any other text it gives back some number
/// or none.
pub(crate) fn serial_of(token: &str) -> (serial: Option<u64>)
    ensures
        forall|number: nat, nonce: nat|
            number <= u64::MAX && token@ == #[trigger] token_text(number, nonce) ==> serial == Some(
                number as u64,
            ),
{
    if !token.is_ascii() {
        assert forall|number: nat, nonce: nat|
            token@ == #[trigger] token_text(number, nonce) implies false by {
            lemma_token_text_is_ascii(number, nonce);
        }
        return None;
    }
    if token.unicode_len() == 0 {
        return None;
    }
    let (end, value) = read_digits(token, 1);
    assert forall|number: nat, nonce: nat|
        number <= u64::MAX && token@ == #[trigger] token_text(number, nonce) implies value == Some(
        number as u64,
    ) by {
        let a = decimal(number);
        let a_len = a.len() as int;
        lemma_decimal_round_trip(number);
        // The digits that were read end where the serial number ends: no
        // sooner, for its characters are digits, and no later, for a hyphen
        // follows it.
        if end > 1 + a_len {
            assert(token@.subrange(1, end as int)[a_len] == '-');
        }
        assert(end == 1 + a_len);
        assert(token@.subrange(1, end as int) =~= a);
    }
    value
}

/// Writes the token with the given serial number and nonce.
pub fn make_token(serial: u64, nonce: u64) -> (token: String)
    ensures
        token@ == token_text(serial as nat, nonce as nat),
{
    proof {
        reveal_strlit("T");
        reveal_strlit("-");
    }
    let mut token = String::from_str("T");
    let serial_text = to_decimal(serial);
    token.append(serial_text.as_str());
    token.append("-");
    let nonce_text = to_decimal(nonce);
    token.append(nonce_text.as_str());
    token
}

/// `RandomState::new` of std: a hasher factory whose keys are drawn at
/// random. Nothing is claimed of the state that comes back.
#[verifier::external_body]
fn random_state() -> (state: RandomState) {
    RandomState::new()
}

/// `BuildHasher::hash_one` of std, on a `RandomState`: the hash of `value`
/// under the state's keys. Nothing is claimed of the number that comes back:
/// std says of it only that two states are unlikely to hash one value alike.
#[verifier::external_body]
fn keyed_hash(state: &RandomState, value: u64) -> (hash: u64) {
    std::hash::BuildHasher::hash_one(state, value)
}

/// A nonce for the token with the given serial number: the hash of `serial`
/// under keys that std has just drawn. The number cannot be told from the
/// serial number, and that is all this function is for: nothing is stated
/// of it, and whoever uses it is proved right for every value.
pub fn fresh_nonce(serial: u64) -> (nonce: u64) {
    let state = random_state();
    keyed_hash(&state, serial)
}

} // verus!
