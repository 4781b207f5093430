//! Identities as JSON text, written and read by serde_json.

use vstd::prelude::*;

verus! {

/// serde_json's error, carried as an opaque value.
#[verifier::external_type_specification]
#[verifier::external_body]
pub struct ExJsonError(serde_json::Error);

/// What `serde_json::from_str::<i64>` makes of a text: the number it reads,
/// or `None` where it reports an error.
pub uninterp spec fn json_i64(text: Seq<char>) -> Option<i64>;

/// The decimal digits of `n`, without leading zeros.
pub open spec fn digits(n: nat) -> Seq<char>
    decreases n,
{
    let last = seq!['0', '1', '2', '3', '4', '5', '6', '7', '8', '9'][(n % 10) as int];
    if n < 10 {
        seq![last]
    } else {
        digits(n / 10).push(last)
    }
}

/// The decimal text of `n`, with a minus sign before a negative number.
pub open spec fn decimal(n: int) -> Seq<char> {
    if n < 0 {
        seq!['-'] + digits((-n) as nat)
    } else {
        digits(n as nat)
    }
}

/// Calls `serde_json::to_string` on an `i64`. The contract claims of it:
/// it does not fail on an integer (it writes into a vector in memory); the
/// text is the integer in decimal, as JSON writes integers; and
/// `serde_json::from_str::<i64>` reads that text back as the same integer.
#[verifier::external_body]
fn to_json(id: i64) -> (result: Result<String, serde_json::Error>)
    ensures
        result is Ok,
        result->Ok_0@ == decimal(id as int),
        json_i64(result->Ok_0@) == Some(id),
{
    serde_json::to_string(&id)
}

/// Calls `serde_json::from_str::<i64>`. The contract claims of it only
/// that the result is a function of the text: [`json_i64`].
#[verifier::external_body]
fn from_json(text: &str) -> (result: Result<i64, serde_json::Error>)
    ensures
        match result {
            Ok(id) => json_i64(text@) == Some(id),
            Err(_) => json_i64(text@) is None,
        },
{
    serde_json::from_str::<i64>(text)
}

/// The JSON text of an identity: the number in decimal.
pub fn encode_identity(id: i64) -> (text: String)
    ensures
        text@ == decimal(id as int),
        json_i64(text@) == Some(id),
{
    match to_json(id) {
        Ok(text) => text,
        Err(_) => String::new(),
    }
}

/// The identity that a JSON text holds, if it holds one.
pub fn decode_identity(text: &str) -> (id: Option<i64>)
    ensures
        id == json_i64(text@),
{
    match from_json(text) {
        Ok(id) => Some(id),
        Err(_) => None,
    }
}

} // verus!
