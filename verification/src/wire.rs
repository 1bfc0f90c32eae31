//! Lines that are no requests, and answers that belong to another request.

use vstd::prelude::*;
use vstd::string::*;

use crate::proto::{Response, ResponseView};
use crate::text::{decimal, join2, push_u64, trim, trimmed};

verus! {

/// The number under a key of the JSON object that a text holds: what `serde_json` reads the
/// text as, where that is an object in which the key has a whole number that is not negative
/// and fits into 64 bits.
pub uninterp spec fn json_number(text: Seq<char>, key: Seq<char>) -> Option<u64>;

/// Calls `serde_json::from_str`, and on the value that it reads `Value::get` and
/// `Value::as_u64`. The result is a function of the text and the key alone, named
/// [`json_number`].
#[verifier::external_body]
fn number_under(text: &str, key: &str) -> (r: Option<u64>)
    ensures
        r == json_number(text@, key@),
{
    let value: serde_json::Value = serde_json::from_str(text).ok()?;
    value.get(key).and_then(serde_json::Value::as_u64)
}

/// The number under which a line that is no request is answered: the one that was read from
/// it, or zero.
pub fn id_or_zero(read: Option<u64>) -> (id: u64)
    ensures
        id == (match read {
            Some(n) => n,
            None => 0,
        }),
{
    match read {
        Some(n) => n,
        None => 0,
    }
}

/// The number under which a line that is no request is answered.
pub fn parse_id_best_effort(line: &str) -> (id: u64)
    ensures
        id == (match json_number(line@, "id"@) {
            Some(n) => n,
            None => 0,
        }),
{
    id_or_zero(number_under(line, "id"))
}

/// Whether a line holds nothing but whitespace. Such a line is passed over.
pub fn is_blank(line: &str) -> (r: bool)
    ensures
        r == (trimmed(line@).len() == 0),
{
    trim(line).as_str().unicode_len() == 0
}

/// The answer to a line that is no request. `why` says what is wrong with it.
pub fn bad_request(id: u64, why: &str) -> (r: Response)
    ensures
        r@ == (ResponseView {
            id,
            ok: false,
            error: Some("bad request: "@ + why@),
            data: None,
        }),
{
    Response { id, ok: false, error: Some(join2("bad request: ", why)), data: None }
}

/// The words for an answer to another request than the one that was made.
pub open spec fn mismatch(expected: u64, got: u64) -> Seq<char> {
    "response id mismatch: expected "@ + decimal(expected as nat) + ", got "@ + decimal(got as nat)
}

/// Whether an answer belongs to the request that was made.
pub fn check_reply(expected: u64, got: u64) -> (r: Result<(), String>)
    ensures
        r is Ok <==> expected == got,
        r is Err ==> r->Err_0@ == mismatch(expected, got),
{
    if expected == got {
        return Ok(());
    }
    let mut words = "response id mismatch: expected ".to_owned();
    push_u64(&mut words, expected);
    words.append(", got ");
    push_u64(&mut words, got);
    Err(words)
}

} // verus!
