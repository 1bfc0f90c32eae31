//! The bounds that every request is held to, and the rules for names.

use vstd::prelude::*;
use vstd::string::*;

use crate::text::{chars_of, decimal, has_space, is_space, push_u64, space};

verus! {

/// Most characters of an agent or channel name.
pub const MAX_NAME_CHARS: usize = 64;

/// Most bytes of a message body.
pub const MAX_BODY_BYTES: usize = 65536;

/// Most mentions of one message that become recipients.
pub const MAX_MENTIONS: usize = 32;

/// Most seconds between now and a scheduled delivery: 365 days.
pub const MAX_DELAY_SECONDS: u64 = 31536000;

/// Most results of a history or search request.
pub const MAX_RESULTS: usize = 1000;

/// Most characters of a search query.
pub const MAX_QUERY_CHARS: usize = 256;

/// Most messages that one inbox call returns.
pub const INBOX_BATCH: usize = 500;

/// Longest wait of an inbox call, in milliseconds.
pub const MAX_INBOX_WAIT_MS: u64 = 300000;

/// Days for which read messages are kept.
pub const DEFAULT_RETENTION_DAYS: i64 = 30;

/// Days after which an agent that was not seen counts as stale.
pub const STALE_AFTER_DAYS: i64 = 7;

/// The channel that everyone joins on first sight.
pub const DEFAULT_CHANNEL: &'static str = "general";

/// The operator's name.
pub const MASTER: &'static str = "master";

/// A name: at least one character, at most [`MAX_NAME_CHARS`], none of them white space.
pub open spec fn valid_name(name: Seq<char>) -> bool {
    1 <= name.len() <= MAX_NAME_CHARS && !has_space(name)
}

/// Why a name is refused.
#[derive(Clone, Copy, Debug, PartialEq, Eq, Structural)]
pub enum NameError {
    Empty,
    TooLong,
    WhiteSpace,
}

/// What is wrong with a name, if anything is.
pub open spec fn name_fault(name: Seq<char>) -> Option<NameError> {
    if name.len() == 0 {
        Some(NameError::Empty)
    } else if name.len() > MAX_NAME_CHARS {
        Some(NameError::TooLong)
    } else if has_space(name) {
        Some(NameError::WhiteSpace)
    } else {
        None
    }
}

impl NameError {
    /// The words for this error.
    pub open spec fn words(self) -> Seq<char> {
        match self {
            NameError::Empty => "name must not be empty"@,
            NameError::TooLong => "name must be 64 characters or fewer"@,
            NameError::WhiteSpace => "name must not contain whitespace"@,
        }
    }

    /// The words for this error.
    pub fn message(self) -> (r: &'static str)
        ensures
            r@ == self.words(),
    {
        match self {
            NameError::Empty => "name must not be empty",
            NameError::TooLong => "name must be 64 characters or fewer",
            NameError::WhiteSpace => "name must not contain whitespace",
        }
    }
}

/// Checks an agent or channel name.
pub fn validate_name(name: &str) -> (r: Result<(), NameError>)
    ensures
        r is Ok <==> valid_name(name@),
        match r {
            Ok(_) => name_fault(name@) is None,
            Err(e) => name_fault(name@) == Some(e),
        },
{
    let chars = chars_of(name);
    if chars.len() == 0 {
        return Err(NameError::Empty);
    }
    if chars.len() > MAX_NAME_CHARS {
        return Err(NameError::TooLong);
    }
    let mut i: usize = 0;
    while i < chars.len()
        invariant
            chars@ == name@,
            0 < chars@.len() <= MAX_NAME_CHARS,
            i <= chars@.len(),
            forall|j: int| 0 <= j < i ==> !is_space(#[trigger] name@[j]),
        decreases chars@.len() - i,
    {
        if space(chars[i]) {
            assert(is_space(name@[i as int]));
            return Err(NameError::WhiteSpace);
        }
        i = i + 1;
    }
    Ok(())
}

/// The bytes that a text takes in UTF-8.
pub open spec fn byte_len(s: Seq<char>) -> nat {
    vstd::utf8::encode_utf8(s).len()
}

/// Counts the bytes that a text takes in UTF-8.
pub fn count_bytes(s: &str) -> (n: usize)
    ensures
        n == byte_len(s@),
{
    s.as_bytes().len()
}

/// The words for a body that is too long.
pub open spec fn body_fault_words(body: Seq<char>) -> Seq<char> {
    "body is "@ + decimal(byte_len(body)) + " bytes; max is "@ + decimal(MAX_BODY_BYTES as nat)
}

/// Checks a message body. A body over the limit is answered with the words for it.
pub fn validate_body(body: &str) -> (r: Result<(), String>)
    ensures
        r is Ok <==> byte_len(body@) <= MAX_BODY_BYTES,
        r matches Err(e) ==> e@ == body_fault_words(body@),
{
    let n: usize = count_bytes(body);
    if n <= MAX_BODY_BYTES {
        return Ok(());
    }
    let mut e = String::new();
    e.append("body is ");
    push_u64(&mut e, n as u64);
    e.append(" bytes; max is ");
    push_u64(&mut e, MAX_BODY_BYTES as u64);
    assert(e@ =~= body_fault_words(body@));
    Err(e)
}

/// The words for a result limit that is too large.
pub open spec fn limit_fault_words(limit: nat) -> Seq<char> {
    "limit "@ + decimal(limit) + " exceeds max of "@ + decimal(MAX_RESULTS as nat)
}

/// Checks a result limit.
pub fn validate_limit(limit: usize) -> (r: Result<(), String>)
    ensures
        r is Ok <==> limit <= MAX_RESULTS,
        r matches Err(e) ==> e@ == limit_fault_words(limit as nat),
{
    if limit <= MAX_RESULTS {
        return Ok(());
    }
    let mut e = String::new();
    e.append("limit ");
    push_u64(&mut e, limit as u64);
    e.append(" exceeds max of ");
    push_u64(&mut e, MAX_RESULTS as u64);
    assert(e@ =~= limit_fault_words(limit as nat));
    Err(e)
}

/// The words for a search query that is too long.
pub open spec fn query_fault_words(query: Seq<char>) -> Seq<char> {
    "query is "@ + decimal(query.len()) + " characters; max is "@ + decimal(MAX_QUERY_CHARS as nat)
}

/// Checks the length of a search query.
pub fn validate_query(query: &str) -> (r: Result<(), String>)
    ensures
        r is Ok <==> query@.len() <= MAX_QUERY_CHARS,
        r matches Err(e) ==> e@ == query_fault_words(query@),
{
    let n: usize = query.unicode_len();
    if n <= MAX_QUERY_CHARS {
        return Ok(());
    }
    let mut e = String::new();
    e.append("query is ");
    push_u64(&mut e, n as u64);
    e.append(" characters; max is ");
    push_u64(&mut e, MAX_QUERY_CHARS as u64);
    assert(e@ =~= query_fault_words(query@));
    Err(e)
}

} // verus!
