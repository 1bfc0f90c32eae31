//! When a message is to be sent: after a delay, or at a time.

use vstd::prelude::*;

use crate::clock::{moment_of, parse_rfc3339, rfc3339_instant, Timestamp};
use crate::proto::When;

verus! {

/// Why it is not clear when a message is to be sent.
#[derive(Clone, Debug)]
pub enum WhenError {
    /// Both a delay and a time were given.
    Both,
    /// Neither a delay nor a time was given.
    Neither,
    /// The time cannot be read; with the words for why.
    Unreadable(String),
}

/// What a delay and the time that was read amount to.
pub open spec fn chosen(
    delay_seconds: Option<u64>,
    at: Option<Result<Timestamp, Seq<char>>>,
) -> Result<When, WhenErrorView> {
    match (delay_seconds, at) {
        (Some(s), None) => Ok(When::DelaySeconds { delay_seconds: s }),
        (None, Some(Ok(t))) => Ok(When::At { at: t }),
        (None, Some(Err(words))) => Err(WhenErrorView::Unreadable(words)),
        (Some(_), Some(_)) => Err(WhenErrorView::Both),
        (None, None) => Err(WhenErrorView::Neither),
    }
}

/// Why it is not clear when a message is to be sent, with its words as characters.
pub enum WhenErrorView {
    Both,
    Neither,
    Unreadable(Seq<char>),
}

impl View for WhenError {
    type V = WhenErrorView;

    open spec fn view(&self) -> WhenErrorView {
        match *self {
            WhenError::Both => WhenErrorView::Both,
            WhenError::Neither => WhenErrorView::Neither,
            WhenError::Unreadable(words) => WhenErrorView::Unreadable(words@),
        }
    }
}

/// The view of a time that was read, or of the words for why it was not.
pub open spec fn read_view(at: Option<Result<Timestamp, String>>) -> Option<
    Result<Timestamp, Seq<char>>,
> {
    match at {
        Some(Ok(t)) => Some(Ok(t)),
        Some(Err(words)) => Some(Err(words@)),
        None => None,
    }
}

/// The view of a choice.
pub open spec fn choice_view(r: Result<When, WhenError>) -> Result<When, WhenErrorView> {
    match r {
        Ok(w) => Ok(w),
        Err(e) => Err(e@),
    }
}

/// What a delay and the time that was read amount to.
pub fn choose_when(delay_seconds: Option<u64>, at: Option<Result<Timestamp, String>>) -> (r: Result<
    When,
    WhenError,
>)
    ensures
        choice_view(r) == chosen(delay_seconds, read_view(at)),
{
    match (delay_seconds, at) {
        (Some(s), None) => Ok(When::DelaySeconds { delay_seconds: s }),
        (None, Some(Ok(t))) => Ok(When::At { at: t }),
        (None, Some(Err(words))) => Err(WhenError::Unreadable(words)),
        (Some(_), Some(_)) => Err(WhenError::Both),
        (None, None) => Err(WhenError::Neither),
    }
}

/// What a delay and the text of a time amount to.
pub fn schedule_when(delay_seconds: Option<u64>, at: &Option<String>) -> (r: Result<
    When,
    WhenError,
>)
    ensures
        choice_view(r) == chosen(
            delay_seconds,
            match *at {
                Some(text) => Some(moment_of(rfc3339_instant(text@))),
                None => None,
            },
        ),
{
    match at {
        Some(text) => choose_when(delay_seconds, Some(parse_rfc3339(text.as_str()))),
        None => choose_when(delay_seconds, None),
    }
}

} // verus!
