//! What the rows of the tables and the values of answers hold, field by field, and what makes
//! tables consistent.

use vstd::prelude::*;
use vstd::seq_lib::*;

use crate::proto::{
    answer, AgentDetails, ChannelDetails, DataView, Event, EventView, MessageDelivery,
    MessageDetail, Op, OpView, ResponseData, ScheduledRow, StatusInfo,
};
use crate::types::{Intent, Message, Recipient, RecipientView};

use super::laws_sending::is_name;
use super::rows::{columns_of, status_in, status_text, target_in};
use super::tables::{
    AgentRow, ChannelRow, MessageRow, ScheduledEntry, ScheduledPayload, ScheduledStatus,
    TablesView, Target,
};

verus! {

// ---- values ----

/// The view of a row or of a value has its fields, each as it is.
pub proof fn law_rows_hold_their_fields(
    a: AgentRow,
    c: ChannelRow,
    m: MessageRow,
    p: ScheduledPayload,
    s: ScheduledEntry,
)
    ensures
        a@.id == a.id && a@.name == a.name@ && a@.first_seen == a.first_seen && a@.last_seen
            == a.last_seen,
        a.display_name is None <==> a@.display_name is None,
        a.display_name matches Some(d) ==> a@.display_name == Some(d@),
        c@.id == c.id && c@.name == c.name@ && c@.created_at == c.created_at,
        m@.id == m.id && m@.from == m.from && m@.target == m.target && m@.body == m.body@,
        m@.intent == m.intent && m@.reply_to == m.reply_to && m@.created_at == m.created_at,
        p@.from == p.from@ && p@.to == p.to@ && p@.body == p.body@ && p@.intent == p.intent
            && p@.reply_to == p.reply_to,
        s@.id == s.id && s@.deliver_at == s.deliver_at && s@.created_at == s.created_at && s@.status
            == s.status,
        s.payload is None <==> s@.payload is None,
        s.payload matches Some(x) ==> s@.payload == Some(x@),
{
}

/// The view of an answer's values has their fields, each as it is.
pub proof fn law_values_hold_their_fields(
    a: AgentDetails,
    c: ChannelDetails,
    s: StatusInfo,
    d: MessageDelivery,
    r: ScheduledRow,
    m: Message,
)
    ensures
        a@.name == a.name@ && a@.first_seen == a.first_seen && a@.last_seen == a.last_seen
            && a@.active_sessions == a.active_sessions,
        c@.name == c.name@ && c@.created_at == c.created_at && c@.member_count == c.member_count
            && c@.last_message_at == c.last_message_at,
        s@.paused == s.paused && s@.agent_count == s.agent_count && s@.channel_count
            == s.channel_count && s@.unread_count == s.unread_count && s@.pending_scheduled
            == s.pending_scheduled && s@.uptime_seconds == s.uptime_seconds && s@.db_path
            == s.db_path@ && s@.socket_path == s.socket_path@,
        d@.agent == d.agent@ && d@.delivered_at == d.delivered_at && d@.read_at == d.read_at,
        r@.id == r.id && r@.from == r.from@ && r@.to == r.to@ && r@.body == r.body@ && r@.deliver_at
            == r.deliver_at && r@.created_at == r.created_at,
        m@.id == m.id && m@.from == m.from@ && m@.to == m.to@ && m@.body == m.body@ && m@.intent
            == m.intent && m@.reply_to == m.reply_to && m@.created_at == m.created_at,
{
}

/// The view of an answer's data has its items, in their order; that of a recipient its name,
/// that of an event its fields.
pub proof fn law_data_holds_its_items(
    messages: Vec<Message>,
    agents: Vec<AgentDetails>,
    channels: Vec<ChannelDetails>,
    names: Vec<String>,
    rows: Vec<ScheduledRow>,
    detail: MessageDetail,
    k: int,
)
    ensures
        (ResponseData::Messages { messages })@ matches DataView::Messages(list) && list.len()
            == messages@.len() && (0 <= k < list.len() ==> list[k] == messages@[k]@),
        (ResponseData::AgentsDetailed { agents_detailed: agents })@ matches DataView::AgentsDetailed(
            list,
        ) && list.len() == agents@.len() && (0 <= k < list.len() ==> list[k] == agents@[k]@),
        (ResponseData::ChannelsDetailed {
            channels_detailed: channels,
        })@ matches DataView::ChannelsDetailed(list) && list.len() == channels@.len() && (0 <= k
            < list.len() ==> list[k] == channels@[k]@),
        (ResponseData::Agents { agents: names })@ matches DataView::Agents(list) && list.len()
            == names@.len() && (0 <= k < list.len() ==> list[k] == names@[k]@),
        (ResponseData::Channels { channels: names })@ matches DataView::Channels(list) && list.len()
            == names@.len() && (0 <= k < list.len() ==> list[k] == names@[k]@),
        (ResponseData::Scheduled { scheduled: rows })@ matches DataView::Scheduled(list)
            && list.len() == rows@.len() && (0 <= k < list.len() ==> list[k] == rows@[k]@),
        (ResponseData::MessageDetail(detail))@ matches DataView::MessageDetail(x) && x.message
            == detail.message@ && x.deliveries.len() == detail.deliveries@.len() && (0 <= k
            < x.deliveries.len() ==> x.deliveries[k] == detail.deliveries@[k]@),
{
}

/// The views of recipients, events and requests hold what these hold.
pub proof fn law_requests_hold_their_fields(
    to: String,
    body: String,
    from: Recipient,
    intent: Option<Intent>,
    id: i64,
    limit: usize,
    flag: bool,
)
    ensures
        Recipient::Agent(to)@ == RecipientView::Agent(to@),
        Recipient::Channel(to)@ == RecipientView::Channel(to@),
        Recipient::Broadcast@ == RecipientView::Broadcast,
        (Event::Message { to: from, from: to, body, message_id: id })@ == (EventView::Message {
            to: from@,
            from: to@,
            body: body@,
            message_id: id,
        }),
        Event::Paused@ == EventView::Paused,
        Event::Resumed@ == EventView::Resumed,
        (Op::Send { to, body, intent, reply_to: Some(id) })@ == OpView::Send(
            to@,
            body@,
            intent,
            Some(id),
        ),
        (Op::History { channel: Some(to), with: None, limit })@ == OpView::History(
            Some(to@),
            None,
            limit,
        ),
        (Op::History { channel: None, with: Some(to), limit })@ == OpView::History(
            None,
            Some(to@),
            limit,
        ),
        (Op::HistoryDetailed { channel: to, limit })@ == OpView::HistoryDetailed(to@, limit),
        (Op::Search { query: to, limit })@ == OpView::Search(to@, limit),
        (Op::Prune { inactive_days: id, dry_run: flag })@ == OpView::Prune(id, flag),
        (Op::Agents { include_stale: flag })@ == OpView::Agents(flag),
        (Op::Join { channel: to })@ == OpView::Join(to@),
        (Op::Leave { channel: to })@ == OpView::Leave(to@),
        (Op::Inspect { message_id: id })@ == OpView::Inspect(id),
        (Op::Cancel { scheduled_id: id })@ == OpView::Cancel(id),
        Op::Pause@ == OpView::Pause && Op::Resume@ == OpView::Resume && Op::Status@
            == OpView::Status,
{
}

/// An answer bears the number of its request; it is in order if and only if it has data, and
/// otherwise it has the words of the error.
pub proof fn law_answer(id: u64, data: DataView, words: Seq<char>)
    ensures
        answer(id, Ok(data)).id == id && answer(id, Err(words)).id == id,
        answer(id, Ok(data)).ok && !answer(id, Err(words)).ok,
        answer(id, Ok(data)).data == Some(data) && answer(id, Ok(data)).error is None,
        answer(id, Err(words)).error == Some(words) && answer(id, Err(words)).data is None,
{
}

// ---- columns ----

/// What is written of a recipient is read as the same, and of the three columns a broadcast
/// needs only its mark, a channel its id and an agent its own; of a row with both, the channel
/// counts.
pub proof fn law_target_columns(a: i64, c: i64, t: Target)
    ensures
        target_in(columns_of(t).0, columns_of(t).1, columns_of(t).2) == t,
        columns_of(Target::Agent(a)) == (Some(a), None::<i64>, 0i64),
        columns_of(Target::Channel(c)) == (None::<i64>, Some(c), 0i64),
        columns_of(Target::Broadcast) == (None::<i64>, None::<i64>, 1i64),
        target_in(Some(a), Some(c), 0) == Target::Channel(c),
        target_in(None, None, 0) == Target::Broadcast,
        target_in(Some(a), Some(c), 1) == Target::Broadcast,
{
}

/// The words for the states of a scheduled message; any other word counts as cancelled.
pub proof fn law_status_words(word: Seq<char>, s: ScheduledStatus)
    ensures
        status_text(s) == match s {
            ScheduledStatus::Pending => "pending"@,
            ScheduledStatus::Delivered => "delivered"@,
            ScheduledStatus::Failed => "failed"@,
            ScheduledStatus::Cancelled => "cancelled"@,
        },
        status_in(status_text(s)) == s,
        word != "pending"@ && word != "delivered"@ && word != "failed"@ ==> status_in(word)
            == ScheduledStatus::Cancelled,
{
    reveal_strlit("pending");
    reveal_strlit("delivered");
    reveal_strlit("failed");
    reveal_strlit("cancelled");
    assert("pending"@.len() == 7 && "delivered"@.len() == 9 && "failed"@.len() == 6
        && "cancelled"@.len() == 9);
    assert("delivered"@[0] == 'd' && "cancelled"@[0] == 'c');
}

// ---- consistency ----

/// Whether an agent of this id is known.
pub open spec fn is_agent(t: TablesView, id: i64) -> bool {
    exists|i: int| 0 <= i < t.agents.len() && (#[trigger] t.agents[i]).id == id
}

/// Whether a channel of this id is known.
pub open spec fn is_place(t: TablesView, id: i64) -> bool {
    exists|i: int| 0 <= i < t.channels.len() && (#[trigger] t.channels[i]).id == id
}

/// Whether a message of this id is stored.
pub open spec fn is_stored(t: TablesView, id: i64) -> bool {
    exists|i: int| 0 <= i < t.messages.len() && (#[trigger] t.messages[i]).id == id
}

proof fn lemma_ids(t: TablesView, id: i64)
    ensures
        is_agent(t, id) == t.has_agent(id),
        is_place(t, id) == t.has_channel(id),
        is_stored(t, id) == t.has_message(id),
{
    if is_agent(t, id) {
        let i = choose|i: int| 0 <= i < t.agents.len() && (#[trigger] t.agents[i]).id == id;
        assert(t.agent_ids()[i] == id);
    }
    if t.has_agent(id) {
        let i = t.agent_ids().index_of(id);
        assert(t.agents[i].id == id);
    }
    if is_place(t, id) {
        let i = choose|i: int| 0 <= i < t.channels.len() && (#[trigger] t.channels[i]).id == id;
        assert(t.channel_ids()[i] == id);
    }
    if t.has_channel(id) {
        let i = t.channel_ids().index_of(id);
        assert(t.channels[i].id == id);
    }
    if is_stored(t, id) {
        let i = choose|i: int| 0 <= i < t.messages.len() && (#[trigger] t.messages[i]).id == id;
        assert(t.message_ids()[i] == id);
    }
    if t.has_message(id) {
        let i = t.message_ids().index_of(id);
        assert(t.messages[i].id == id);
    }
}

/// In consistent tables no two agents, channels, messages, scheduled sends or sessions share an
/// id, and no two agents or channels a name.
pub proof fn law_consistent_ids(t: TablesView, i: int, j: int)
    requires
        t.consistent(),
        0 <= i < j,
    ensures
        j < t.agents.len() ==> t.agents[i].id != t.agents[j].id && t.agents[i].name
            != t.agents[j].name && t.agents[j].id < t.next_agent,
        j < t.channels.len() ==> t.channels[i].id != t.channels[j].id && t.channels[i].name
            != t.channels[j].name && t.channels[j].id < t.next_channel,
        j < t.messages.len() ==> t.messages[i].id < t.messages[j].id < t.next_message,
        j < t.scheduled.len() ==> t.scheduled[i].id < t.scheduled[j].id < t.next_scheduled,
        j < t.sessions.len() ==> t.sessions[i].id < t.sessions[j].id < t.next_session,
        j < t.members.len() ==> t.members[i].agent != t.members[j].agent || t.members[i].channel
            != t.members[j].channel,
        j < t.deliveries.len() ==> t.deliveries[i].message != t.deliveries[j].message
            || t.deliveries[i].agent != t.deliveries[j].agent,
{
    if j < t.agents.len() {
        assert(t.agent_ids()[i] < t.agent_ids()[j] && t.agent_ids()[j] < t.next_agent);
        assert(t.agent_names()[i] != t.agent_names()[j]);
    }
    if j < t.channels.len() {
        assert(t.channel_ids()[i] < t.channel_ids()[j] && t.channel_ids()[j] < t.next_channel);
        assert(t.channel_names()[i] != t.channel_names()[j]);
    }
    if j < t.messages.len() {
        assert(t.message_ids()[i] < t.message_ids()[j] && t.message_ids()[j] < t.next_message);
    }
    if j < t.scheduled.len() {
        assert(t.scheduled_ids()[i] < t.scheduled_ids()[j] && t.scheduled_ids()[j]
            < t.next_scheduled);
    }
    if j < t.sessions.len() {
        assert(t.session_ids()[i] < t.session_ids()[j] && t.session_ids()[j] < t.next_session);
    }
}

/// In consistent tables every row that a row refers to exists; in valid ones `master` and
/// `#general` do.
pub proof fn law_consistent_references(t: TablesView, k: int)
    requires
        t.consistent(),
        0 <= k,
    ensures
        k < t.members.len() ==> is_agent(t, t.members[k].agent) && is_place(t, t.members[k].channel),
        k < t.messages.len() ==> is_agent(t, t.messages[k].from) && (match t.messages[k].target {
            Target::Agent(a) => is_agent(t, a),
            Target::Channel(c) => is_place(t, c),
            Target::Broadcast => true,
        }) && (t.messages[k].reply_to matches Some(m) ==> is_stored(t, m)),
        k < t.deliveries.len() ==> is_stored(t, t.deliveries[k].message) && is_agent(
            t,
            t.deliveries[k].agent,
        ),
        k < t.sessions.len() ==> is_agent(t, t.sessions[k].agent),
        t.valid() ==> is_name(t, "master"@) && exists|i: int|
            0 <= i < t.channels.len() && (#[trigger] t.channels[i]).name == "general"@,
{
    if k < t.members.len() {
        lemma_ids(t, t.members[k].agent);
        lemma_ids(t, t.members[k].channel);
    }
    if k < t.messages.len() {
        lemma_ids(t, t.messages[k].from);
        match t.messages[k].target {
            Target::Agent(a) => {
                lemma_ids(t, a);
            },
            Target::Channel(c) => {
                lemma_ids(t, c);
            },
            Target::Broadcast => {},
        }
        match t.messages[k].reply_to {
            Some(m) => {
                lemma_ids(t, m);
            },
            None => {},
        }
    }
    if k < t.deliveries.len() {
        lemma_ids(t, t.deliveries[k].message);
        lemma_ids(t, t.deliveries[k].agent);
    }
    if k < t.sessions.len() {
        lemma_ids(t, t.sessions[k].agent);
    }
    if t.valid() {
        super::laws_sending::lemma_is_name(t, "master"@);
        let i = t.channel_names().index_of("general"@);
        assert(t.channel_names()[i] == "general"@);
        assert(t.channels[i].name == "general"@);
    }
}

} // verus!
