//! How rows are kept in columns: recipients, intents and what became of scheduled sends.

use vstd::prelude::*;
use vstd::string::*;

use crate::text::same;
use crate::types::{intent_from_str, intent_of_word, Intent};

use super::tables::{ScheduledStatus, Target};

verus! {

/// The recipient that a message's columns name. One that names nobody went to everyone.
pub open spec fn target_in(to_agent: Option<i64>, to_channel: Option<i64>, is_broadcast: i64) -> Target {
    if is_broadcast != 0 {
        Target::Broadcast
    } else {
        match (to_channel, to_agent) {
            (Some(c), _) => Target::Channel(c),
            (None, Some(a)) => Target::Agent(a),
            (None, None) => Target::Broadcast,
        }
    }
}

/// The recipient that a message's columns name.
pub fn row_target(to_agent: Option<i64>, to_channel: Option<i64>, is_broadcast: i64) -> (t: Target)
    ensures
        t == target_in(to_agent, to_channel, is_broadcast),
{
    if is_broadcast != 0 {
        return Target::Broadcast;
    }
    match (to_channel, to_agent) {
        (Some(c), _) => Target::Channel(c),
        (None, Some(a)) => Target::Agent(a),
        (None, None) => Target::Broadcast,
    }
}

/// The columns for a recipient: an agent, a channel, and whether it is everyone.
pub open spec fn columns_of(t: Target) -> (Option<i64>, Option<i64>, i64) {
    match t {
        Target::Agent(a) => (Some(a), None, 0),
        Target::Channel(c) => (None, Some(c), 0),
        Target::Broadcast => (None, None, 1),
    }
}

/// The columns for a recipient.
pub fn target_columns(t: Target) -> (r: (Option<i64>, Option<i64>, i64))
    ensures
        r == columns_of(t),
{
    match t {
        Target::Agent(a) => (Some(a), None, 0),
        Target::Channel(c) => (None, Some(c), 0),
        Target::Broadcast => (None, None, 1),
    }
}

/// A recipient's columns name that recipient.
pub proof fn law_target_reads_back(t: Target)
    ensures
        ({
            let (to_agent, to_channel, is_broadcast) = columns_of(t);
            target_in(to_agent, to_channel, is_broadcast) == t
        }),
{
}

/// The intent that a column names. A word that names none counts as none.
pub fn row_intent(word: &Option<String>) -> (r: Option<Intent>)
    ensures
        r == (match *word {
            Some(w) => intent_of_word(w@),
            None => None,
        }),
{
    match word {
        Some(w) => intent_from_str(w.as_str()),
        None => None,
    }
}

/// The word for what has become of a scheduled send.
pub open spec fn status_text(status: ScheduledStatus) -> Seq<char> {
    match status {
        ScheduledStatus::Pending => "pending"@,
        ScheduledStatus::Delivered => "delivered"@,
        ScheduledStatus::Failed => "failed"@,
        ScheduledStatus::Cancelled => "cancelled"@,
    }
}

/// The word for what has become of a scheduled send.
pub fn status_word(status: ScheduledStatus) -> (r: &'static str)
    ensures
        r@ == status_text(status),
{
    match status {
        ScheduledStatus::Pending => "pending",
        ScheduledStatus::Delivered => "delivered",
        ScheduledStatus::Failed => "failed",
        ScheduledStatus::Cancelled => "cancelled",
    }
}

/// What has become of a scheduled send, by its word. A word that says nothing else counts as
/// cancelled: such a send is neither delivered nor dropped.
pub open spec fn status_in(word: Seq<char>) -> ScheduledStatus {
    if word == "pending"@ {
        ScheduledStatus::Pending
    } else if word == "delivered"@ {
        ScheduledStatus::Delivered
    } else if word == "failed"@ {
        ScheduledStatus::Failed
    } else {
        ScheduledStatus::Cancelled
    }
}

/// What has become of a scheduled send, by its word.
pub fn row_status(word: &str) -> (r: ScheduledStatus)
    ensures
        r == status_in(word@),
{
    if same(word, "pending") {
        ScheduledStatus::Pending
    } else if same(word, "delivered") {
        ScheduledStatus::Delivered
    } else if same(word, "failed") {
        ScheduledStatus::Failed
    } else {
        ScheduledStatus::Cancelled
    }
}

/// The word for what has become of a scheduled send says just that.
pub proof fn law_status_reads_back(status: ScheduledStatus)
    ensures
        status_in(status_text(status)) == status,
{
    reveal_strlit("pending");
    reveal_strlit("delivered");
    reveal_strlit("failed");
    reveal_strlit("cancelled");
    assert("pending"@.len() == 7);
    assert("delivered"@.len() == 9);
    assert("failed"@.len() == 6);
    assert("cancelled"@.len() == 9);
    assert("cancelled"@[0] != "delivered"@[0]);
}

} // verus!
