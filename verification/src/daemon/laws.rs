//! What holds across operations.

use vstd::prelude::*;
use vstd::seq_lib::*;

use crate::clock::Timestamp;
use crate::limits::{
    valid_name, DEFAULT_CHANNEL, DEFAULT_RETENTION_DAYS, INBOX_BATCH, MASTER, MAX_MENTIONS,
};
use crate::mentions::mentions;
use crate::proto::ScheduledRowView;
use crate::text::lower_text;
use crate::types::{MessageView, RecipientView};

use super::keeping::{lemma_filter_order, lemma_rising_unique};
use super::order::{ascending, last_of, law_sorted, sorted_by};
use super::posting::{
    called_names, grown, lemma_addressed, lemma_called_ids, lemma_agent_named, lemma_called_names, lemma_channel_named,
    lemma_direct_recipients, lemma_grown_twice, lemma_posted, lemma_with_agent, lemma_with_called, lemma_with_ends,
    Draft,
};
use super::server::started;
use super::store::browse::{
    addressed_to, between, channel_history, found, lemma_both_seen, matching, reading_dms, timeline,
};
use super::store::inbox::{fetching, ids_of, message_time};
use super::store::membership::{is_open, joining, left};
use super::store::opening::seeded;
use super::store::post::{agent_fault, seeing, sending};
use super::store::schedule::{
    cancelling, delivering, delivering_due, delivering_one, due_rows, due_time, is_due, is_shown,
    scheduling, shown, DeliveredView,
};
use super::store::upkeep::{
    all_read, cleaned, cutoff, has_mail, idle_agents, is_done, is_idle, is_over, is_past,
    past_messages, past_scheduled, past_sessions, pruned,
};
use super::store::StoreError;
use super::tables::{
    AgentView, Delivery, Membership, MessageRowView, PayloadView, ScheduledStatus, ScheduledView, Session,
    TablesView, Target,
};

verus! {

// ---- what is sent arrives ----

/// A draft, as its recipients will read it.
pub open spec fn letter(d: Draft, id: i64, now: Timestamp) -> MessageView {
    MessageView {
        id,
        from: d.from,
        to: d.to,
        body: d.body,
        intent: d.intent,
        reply_to: d.reply_to,
        created_at: now,
    }
}

/// A message that was posted reads as it was written: sender, recipient, body, intent, the
/// message replied to and the time are the draft's.
pub proof fn law_reads_as_written(t: TablesView, d: Draft, now: Timestamp)
    requires
        t.valid(),
        t.postable(d),
        t.posted(d, now).fits(),
    ensures
        t.posted(d, now).has_message(t.next_message as i64),
        t.posted(d, now).message(t.next_message as i64) == t.row_of(d, now),
        t.posted(d, now).message_of(t.row_of(d, now)) == letter(d, t.next_message as i64, now),
{
    let (u, ids) = t.addressed(d, now);
    let w = t.posted(d, now);
    let row = t.row_of(d, now);
    lemma_addressed(t, d, now);
    lemma_posted(t, d, now);
    lemma_with_ends(t, d, now);
    assert(w.has_message(t.next_message as i64));
    let n = t.messages.len() as int;
    assert(w.message_ids()[n] == row.id);
    lemma_rising_unique(w.message_ids(), w.next_message, n);
    assert(w.agents == u.agents && w.channels == u.channels);
    lemma_agent_named(u, d.from);
    assert(w.agent_name(row.from) == u.agent_name(row.from));
    match d.to {
        RecipientView::Agent(name) => {
            assert(u.knows_agent(name));
            lemma_agent_named(u, name);
            assert(w.agent_name(u.agent_id(name)) == u.agent_name(u.agent_id(name)));
        },
        RecipientView::Channel(name) => {
            assert(t.with_ends(d, now).knows_channel(name));
            assert(u.knows_channel(name));
            lemma_channel_named(u, name);
            assert(w.channel_name(u.channel_id(name)) == u.channel_name(u.channel_id(name)));
        },
        RecipientView::Broadcast => {},
    }
}

/// A message that was posted waits in the inbox of each of its recipients.
pub proof fn law_waits_for_recipients(t: TablesView, d: Draft, now: Timestamp, agent: i64, name: Seq<char>)
    requires
        t.valid(),
        t.postable(d),
        t.posted(d, now).fits(),
        t.addressed(d, now).1.contains(agent),
    ensures
        t.posted(d, now).waiting(agent, name, false).contains(t.row_of(d, now)),
{
    let (u, ids) = t.addressed(d, now);
    let w = t.posted(d, now);
    law_reads_as_written(t, d, now);
    let k = ids.index_of(agent);
    let n = t.deliveries.len() as int;
    lemma_addressed(t, d, now);
    let item = Delivery {
        message: t.next_message as i64,
        agent,
        delivered_at: Some(now),
        read_at: None,
    };
    assert(w.deliveries[n + k] == item);
    let pred = w.waits(agent, name, false);
    assert(pred(item));
    lemma_filter_order(w.deliveries, pred);
    let waiting = w.deliveries.filter(pred);
    let j = waiting.index_of(item);
    assert(waiting[j] == item);
    assert(w.waiting(agent, name, false)[j] == w.message(t.next_message as i64));
}

/// What is sent is what is read: after a successful send, the next inbox call of any recipient
/// returns the message as it was written, unless more messages wait for it than one call
/// returns.
pub proof fn law_sent_is_read(
    t: TablesView,
    d: Draft,
    now: Timestamp,
    name: Seq<char>,
    later: Timestamp,
)
    requires
        t.valid(),
        sending(t, d, now) is Ok,
        t.posted(d, now).knows_agent(name),
        t.addressed(d, now).1.contains(t.posted(d, now).agent_id(name)),
        t.posted(d, now).waiting(t.posted(d, now).agent_id(name), name, false).len() <= INBOX_BATCH,
    ensures
        fetching(t.posted(d, now), name, false, later) is Ok,
        fetching(t.posted(d, now), name, false, later)->Ok_0.1.contains(
            letter(d, t.next_message as i64, now),
        ),
{
    let w = t.posted(d, now);
    let agent = w.agent_id(name);
    let row = t.row_of(d, now);
    lemma_posted(t, d, now);
    law_reads_as_written(t, d, now);
    law_waits_for_recipients(t, d, now, agent, name);
    assert(agent_fault(w, name) is None);
    let v = w.with_agent(name, later);
    lemma_with_agent(w, name, later);
    assert(v.agent_id(name) == agent);
    assert(v.messages == w.messages && v.deliveries == w.deliveries);
    lemma_same_waiting(w, v, agent, name, false);
    let batch = v.inbox_batch(agent, name, false);
    law_sorted(v.waiting(agent, name, false), message_time());
    assert(batch.contains(row));
    let k = batch.index_of(row);
    assert(batch[k] == row);
    assert(v.messages_of(batch)[k] == v.message_of(row));
    assert(w.has_agent(row.from)) by {
        lemma_addressed(t, d, now);
    }
    assert(v.agent_name(row.from) == w.agent_name(row.from));
    lemma_addressed(t, d, now);
    let u = t.addressed(d, now).0;
    assert(w.agents == u.agents && w.channels == u.channels);
    match row.target {
        Target::Agent(a) => {
            assert(u.has_agent(a));
            assert(w.has_agent(a));
            assert(v.agent_name(a) == w.agent_name(a));
        },
        Target::Channel(c) => {
            assert(u.has_channel(c));
            assert(w.has_channel(c));
            assert(v.channel_name(c) == w.channel_name(c));
        },
        Target::Broadcast => {},
    }
}

/// Tables with the same messages and deliveries have the same inboxes.
pub proof fn lemma_same_waiting(
    t: TablesView,
    u: TablesView,
    agent: i64,
    name: Seq<char>,
    mentions_only: bool,
)
    requires
        u.messages == t.messages,
        u.deliveries == t.deliveries,
    ensures
        u.waiting(agent, name, mentions_only) == t.waiting(agent, name, mentions_only),
{
    let p = t.waits(agent, name, mentions_only);
    let q = u.waits(agent, name, mentions_only);
    assert forall|id: i64| #[trigger] u.message(id) == t.message(id) by {}
    assert forall|m: MessageRowView| #[trigger]
        u.calls_on(m, agent, name) == t.calls_on(m, agent, name) by {}
    assert(p =~= q);
    assert(u.waiting(agent, name, mentions_only) =~= t.waiting(agent, name, mentions_only));
}

// ---- who receives ----

/// A message to an agent goes to that agent alone, whomever its body mentions.
pub proof fn law_direct_goes_to_one(t: TablesView, d: Draft, now: Timestamp, name: Seq<char>)
    requires
        d.to == RecipientView::Agent(name),
    ensures
        t.addressed(d, now).1 == seq![t.addressed(d, now).0.agent_id(name)],
{
}

/// A message to a channel goes to its members but for the sender, and to those whom it calls
/// by name; to nobody else, and never to the sender.
pub proof fn law_channel_recipients(
    t: TablesView,
    d: Draft,
    now: Timestamp,
    channel: Seq<char>,
    agent: i64,
)
    requires
        t.valid(),
        t.postable(d),
        t.posted(d, now).fits(),
        d.to == RecipientView::Channel(channel),
    ensures
        ({
            let ends = t.with_ends(d, now);
            let (u, ids) = t.addressed(d, now);
            let from = ends.agent_id(d.from);
            let id = ends.channel_id(channel);
            &&& agent != from && ends.is_member(agent, id) ==> ids.contains(agent)
            &&& ids.contains(agent) ==> agent != from && (ends.is_member(agent, id) || exists|
                i: int,
            |
                0 <= i < called_names(d.body).len() && u.agent_id(#[trigger] called_names(d.body)[i])
                    == agent)
        }),
{
    let ends = t.with_ends(d, now);
    let from = ends.agent_id(d.from);
    let target = ends.target_of(d.to);
    let first = ends.direct_recipients(target, from);
    lemma_addressed(t, d, now);
    lemma_with_ends(t, d, now);
    lemma_direct_recipients(ends, target, from);
    lemma_called_names(d.body);
    lemma_with_called(ends, called_names(d.body), from, first, now);
    assert(first.contains(agent) <==> agent != from && ends.is_member(
        agent,
        ends.channel_id(channel),
    ));
    let ids = t.addressed(d, now).1;
    if ids.contains(agent) {
        assert(!first.contains(from));
        assert(agent != from);
    }
}

/// A message to everyone goes to all known agents but for the sender, and to those whom it
/// calls by name; to nobody else, and never to the sender.
pub proof fn law_broadcast_recipients(t: TablesView, d: Draft, now: Timestamp, agent: i64)
    requires
        t.valid(),
        t.postable(d),
        t.posted(d, now).fits(),
        d.to == RecipientView::Broadcast,
    ensures
        ({
            let ends = t.with_ends(d, now);
            let (u, ids) = t.addressed(d, now);
            let from = ends.agent_id(d.from);
            &&& agent != from && ends.has_agent(agent) ==> ids.contains(agent)
            &&& ids.contains(agent) ==> agent != from && (ends.has_agent(agent) || exists|i: int|
                0 <= i < called_names(d.body).len() && u.agent_id(#[trigger] called_names(d.body)[i])
                    == agent)
        }),
{
    let ends = t.with_ends(d, now);
    let from = ends.agent_id(d.from);
    let target = ends.target_of(d.to);
    let first = ends.direct_recipients(target, from);
    lemma_addressed(t, d, now);
    lemma_with_ends(t, d, now);
    lemma_direct_recipients(ends, target, from);
    lemma_called_names(d.body);
    lemma_with_called(ends, called_names(d.body), from, first, now);
    assert(first.contains(agent) <==> agent != from && ends.has_agent(agent));
    let ids = t.addressed(d, now).1;
    if ids.contains(agent) {
        assert(!first.contains(from));
        assert(agent != from);
    }
}

/// Whoever a message to a channel or to everyone calls by name receives it, member or not,
/// known before or not; the sender aside.
pub proof fn law_mention_reaches(t: TablesView, d: Draft, now: Timestamp, i: int)
    requires
        t.valid(),
        t.postable(d),
        t.posted(d, now).fits(),
        d.to !is Agent,
        0 <= i < called_names(d.body).len(),
    ensures
        t.addressed(d, now).0.knows_agent(called_names(d.body)[i]),
        t.addressed(d, now).0.agent_id(called_names(d.body)[i]) == t.addressed(d, now).0.agent_id(
            d.from,
        ) || t.addressed(d, now).1.contains(
            t.addressed(d, now).0.agent_id(called_names(d.body)[i]),
        ),
{
    let ends = t.with_ends(d, now);
    let from = ends.agent_id(d.from);
    let target = ends.target_of(d.to);
    lemma_addressed(t, d, now);
    lemma_with_ends(t, d, now);
    lemma_direct_recipients(ends, target, from);
    lemma_called_names(d.body);
    lemma_with_called(
        ends,
        called_names(d.body),
        from,
        ends.direct_recipients(target, from),
        now,
    );
}

/// A name that a message mentions first, second and so on is called, as long as no more than
/// the limit are mentioned and it is a valid name.
pub proof fn law_mention_is_called(body: Seq<char>, name: Seq<char>)
    requires
        mentions(body).contains(name),
        valid_name(name),
        mentions(body).len() <= MAX_MENTIONS,
    ensures
        called_names(body).contains(name),
{
    let pred = |n: Seq<char>| valid_name(n);
    lemma_filter_order(mentions(body), pred);
    mentions(body).lemma_filter_len(pred);
    let i = mentions(body).index_of(name);
    assert(pred(mentions(body)[i]));
    assert(mentions(body).filter(pred).contains(name));
}

/// Sending to an unknown agent makes it known, and a member of the default channel.
pub proof fn law_recipient_becomes_known(t: TablesView, d: Draft, now: Timestamp, name: Seq<char>)
    requires
        t.valid(),
        t.postable(d),
        t.posted(d, now).fits(),
        d.to == RecipientView::Agent(name),
        !t.knows_agent(name),
    ensures
        t.posted(d, now).knows_agent(name),
        t.posted(d, now).is_member(
            t.posted(d, now).agent_id(name),
            t.posted(d, now).channel_id(DEFAULT_CHANNEL@),
        ),
{
    let a = t.with_agent(d.from, now);
    let b = t.with_ends(d, now);
    let w = t.posted(d, now);
    lemma_addressed(t, d, now);
    lemma_with_ends(t, d, now);
    lemma_with_agent(t, d.from, now);
    assert(w.agents == b.agents && w.channels == b.channels && w.members == b.members);
    assert(w.knows_agent(name) == b.knows_agent(name));
    if d.from == name {
        lemma_newcomer(t, name, now);
        assert(a.knows_agent(name));
        assert(b == a.see_agent(a.agent_id(name), now));
        super::keeping::lemma_see_agent(a, a.agent_id(name), now);
        assert(b.members == a.members && b.channels == a.channels);
    } else {
        assert(!a.knows_agent(name)) by {
            if a.knows_agent(name) {
                if t.knows_agent(d.from) {
                    super::keeping::lemma_see_agent(t, t.agent_id(d.from), now);
                } else {
                    super::keeping::lemma_add_agent(
                        t,
                        AgentView {
                            id: t.next_agent as i64,
                            name: d.from,
                            display_name: None,
                            first_seen: now,
                            last_seen: now,
                        },
                    );
                }
            }
        }
        lemma_newcomer(a, name, now);
    }
    let agent = b.agent_id(name);
    let channel = b.channel_id(DEFAULT_CHANNEL@);
    assert(b.is_member(agent, channel));
    let i = choose|i: int|
        0 <= i < b.members.len() && (#[trigger] b.members[i]).agent == agent && b.members[i].channel
            == channel;
    assert(w.members[i].agent == agent);
}

/// An agent that is added is a member of the default channel.
proof fn lemma_newcomer(t: TablesView, name: Seq<char>, now: Timestamp)
    requires
        t.valid(),
        t.next_agent <= i64::MAX,
        !t.knows_agent(name),
    ensures
        t.with_agent(name, now).is_member(
            t.with_agent(name, now).agent_id(name),
            t.with_agent(name, now).channel_id(DEFAULT_CHANNEL@),
        ),
{
    let row = AgentView {
        id: t.next_agent as i64,
        name,
        display_name: None,
        first_seen: now,
        last_seen: now,
    };
    super::keeping::lemma_add_agent(t, row);
    let v = t.add_agent(row);
    lemma_channel_named(t, DEFAULT_CHANNEL@);
    let m = Membership {
        agent: t.next_agent as i64,
        channel: t.channel_id(DEFAULT_CHANNEL@),
        joined_at: now,
    };
    assert(v.has_channel(m.channel));
    super::keeping::lemma_add_member(v, m);
    let u = t.with_agent(name, now);
    assert(u.agents == v.agents);
    assert(u.agent_id(name) == v.agent_id(name));
}

// ---- the inbox ----

/// The message that a delivery refers to has the delivery's message id.
pub proof fn lemma_message_id(t: TablesView, id: i64)
    requires
        t.has_message(id),
    ensures
        t.message(id).id == id,
{
    let i = t.message_ids().index_of(id);
    assert(t.message_ids()[i] == id);
}

/// A row waits if and only if an unread delivery of it does.
pub proof fn lemma_waiting_row(
    t: TablesView,
    agent: i64,
    name: Seq<char>,
    mentions_only: bool,
    m: MessageRowView,
)
    requires
        t.consistent(),
    ensures
        t.waiting(agent, name, mentions_only).contains(m) <==> exists|i: int|
            0 <= i < t.deliveries.len() && t.waits(agent, name, mentions_only)(
                #[trigger] t.deliveries[i],
            ) && t.message(t.deliveries[i].message) == m,
        t.waiting(agent, name, mentions_only).contains(m) ==> t.has_message(m.id) && t.message(m.id)
            == m,
{
    let pred = t.waits(agent, name, mentions_only);
    let list = t.deliveries.filter(pred);
    let rows = t.waiting(agent, name, mentions_only);
    lemma_filter_order(t.deliveries, pred);
    if rows.contains(m) {
        let k = rows.index_of(m);
        assert(rows[k] == t.message(list[k].message));
        assert(pred(list[k]));
        let i = choose|i: int| 0 <= i < t.deliveries.len() && t.deliveries[i] == list[k];
        assert(pred(t.deliveries[i]));
        assert(t.has_message(t.deliveries[i].message));
        lemma_message_id(t, t.deliveries[i].message);
    }
    if exists|i: int|
        0 <= i < t.deliveries.len() && pred(#[trigger] t.deliveries[i]) && t.message(
            t.deliveries[i].message,
        ) == m {
        let i = choose|i: int|
            0 <= i < t.deliveries.len() && pred(#[trigger] t.deliveries[i]) && t.message(
                t.deliveries[i].message,
            ) == m;
        assert(list.contains(t.deliveries[i]));
        let k = list.index_of(t.deliveries[i]);
        assert(rows[k] == m);
    }
}

/// An inbox call marks the agent's deliveries of the messages that it returns as read, and
/// touches no other delivery; nobody else's inbox changes.
pub proof fn law_fetch_reads_only_its_own(
    t: TablesView,
    name: Seq<char>,
    mentions_only: bool,
    now: Timestamp,
    i: int,
)
    requires
        t.valid(),
        fetching(t, name, mentions_only, now) is Ok,
        0 <= i < t.deliveries.len(),
    ensures
        ({
            let (u, messages) = fetching(t, name, mentions_only, now)->Ok_0;
            let before = t.deliveries[i];
            let after = u.deliveries[i];
            &&& u.deliveries.len() == t.deliveries.len()
            &&& u.messages == t.messages
            &&& after.message == before.message && after.agent == before.agent && after.delivered_at
                == before.delivered_at
            &&& if before.agent == u.agent_id(name) && exists|k: int|
                0 <= k < messages.len() && (#[trigger] messages[k]).id == before.message {
                after.read_at == Some(now)
            } else {
                after == before
            }
        }),
{
    let w = t.with_agent(name, now);
    lemma_with_agent(t, name, now);
    let agent = w.agent_id(name);
    let batch = w.inbox_batch(agent, name, mentions_only);
    let (u, messages) = fetching(t, name, mentions_only, now)->Ok_0;
    assert(u.agents == w.agents);
    assert(u.agent_id(name) == agent);
    let d = t.deliveries[i];
    assert(w.deliveries[i] == d);
    if ids_of(batch).contains(d.message) {
        let k = ids_of(batch).index_of(d.message);
        assert(ids_of(batch)[k] == batch[k].id);
        assert(messages[k].id == d.message);
    }
    if exists|k: int| 0 <= k < messages.len() && (#[trigger] messages[k]).id == d.message {
        let k = choose|k: int| 0 <= k < messages.len() && (#[trigger] messages[k]).id == d.message;
        assert(ids_of(batch)[k] == d.message);
    }
}

/// What an inbox call returned waits no longer, and everything else that waited still does.
pub proof fn law_rest_waits(
    t: TablesView,
    name: Seq<char>,
    mentions_only: bool,
    now: Timestamp,
    m: MessageRowView,
)
    requires
        t.valid(),
        fetching(t, name, mentions_only, now) is Ok,
    ensures
        ({
            let (u, messages) = fetching(t, name, mentions_only, now)->Ok_0;
            let agent = u.agent_id(name);
            u.waiting(agent, name, false).contains(m) <==> t.waiting(agent, name, false).contains(m)
                && !(exists|k: int| 0 <= k < messages.len() && (#[trigger] messages[k]).id == m.id)
        }),
{
    let w = t.with_agent(name, now);
    lemma_with_agent(t, name, now);
    let agent = w.agent_id(name);
    let batch = w.inbox_batch(agent, name, mentions_only);
    let (u, messages) = fetching(t, name, mentions_only, now)->Ok_0;
    assert(u.agents == w.agents);
    assert(u.agent_id(name) == agent);
    super::keeping::lemma_mark_read(w, agent, ids_of(batch), now);
    lemma_same_waiting(t, w, agent, name, false);
    lemma_waiting_row(w, agent, name, false, m);
    lemma_waiting_row(u, agent, name, false, m);
    assert forall|id: i64| #[trigger] u.message(id) == w.message(id) by {}
    let got = exists|k: int| 0 <= k < messages.len() && (#[trigger] messages[k]).id == m.id;
    assert(got <==> ids_of(batch).contains(m.id)) by {
        if got {
            let k = choose|k: int| 0 <= k < messages.len() && (#[trigger] messages[k]).id == m.id;
            assert(ids_of(batch)[k] == m.id);
        }
        if ids_of(batch).contains(m.id) {
            let k = ids_of(batch).index_of(m.id);
            assert(messages[k].id == m.id);
        }
    }
    let p = w.waits(agent, name, false);
    let q = u.waits(agent, name, false);
    if w.waiting(agent, name, false).contains(m) && !got {
        let i = choose|i: int|
            0 <= i < w.deliveries.len() && p(#[trigger] w.deliveries[i]) && w.message(
                w.deliveries[i].message,
            ) == m;
        assert(w.has_message(w.deliveries[i].message));
        lemma_message_id(w, w.deliveries[i].message);
        assert(u.deliveries[i] == w.deliveries[i]);
        assert(q(u.deliveries[i]));
    }
    if u.waiting(agent, name, false).contains(m) {
        let i = choose|i: int|
            0 <= i < u.deliveries.len() && q(#[trigger] u.deliveries[i]) && u.message(
                u.deliveries[i].message,
            ) == m;
        assert(w.has_message(w.deliveries[i].message));
        lemma_message_id(w, w.deliveries[i].message);
        assert(u.deliveries[i] == w.deliveries[i]);
        assert(p(w.deliveries[i]));
        assert(!ids_of(batch).contains(m.id));
    }
}

/// No message waits twice in an inbox.
pub proof fn lemma_waiting_distinct(t: TablesView, agent: i64, name: Seq<char>, mentions_only: bool)
    requires
        t.consistent(),
    ensures
        t.waiting(agent, name, mentions_only).no_duplicates(),
{
    let pred = t.waits(agent, name, mentions_only);
    let list = t.deliveries.filter(pred);
    let w = t.waiting(agent, name, mentions_only);
    lemma_filter_order(t.deliveries, pred);
    assert forall|i: int, j: int| 0 <= i < w.len() && 0 <= j < w.len() && i != j implies w[i]
        != w[j] by {
        let a = if i < j {
            i
        } else {
            j
        };
        let b = if i < j {
            j
        } else {
            i
        };
        assert(pred(list[a]) && pred(list[b]));
        let (p, q) = choose|p: int, q: int|
            0 <= p < q < t.deliveries.len() && #[trigger] t.deliveries[p] == list[a]
                && #[trigger] t.deliveries[q] == list[b];
        assert(t.has_message(t.deliveries[p].message) && t.has_message(t.deliveries[q].message));
        lemma_message_id(t, list[a].message);
        lemma_message_id(t, list[b].message);
        assert(w[a] == t.message(list[a].message));
        assert(w[b] == t.message(list[b].message));
    }
}

/// An inbox call returns as many messages as wait, up to the limit, and that many fewer wait
/// afterwards: calling again and again empties an inbox.
pub proof fn law_inbox_drains(t: TablesView, name: Seq<char>, now: Timestamp)
    requires
        t.valid(),
        fetching(t, name, false, now) is Ok,
    ensures
        ({
            let (u, messages) = fetching(t, name, false, now)->Ok_0;
            let agent = u.agent_id(name);
            let before = t.waiting(agent, name, false).len();
            &&& messages.len() == if before <= INBOX_BATCH {
                before
            } else {
                INBOX_BATCH as nat
            }
            &&& u.waiting(agent, name, false).len() == before - messages.len()
        }),
{
    let w = t.with_agent(name, now);
    lemma_with_agent(t, name, now);
    let agent = w.agent_id(name);
    let batch = w.inbox_batch(agent, name, false);
    let (u, messages) = fetching(t, name, false, now)->Ok_0;
    assert(u.agents == w.agents);
    assert(u.agent_id(name) == agent);
    super::keeping::lemma_mark_read(w, agent, ids_of(batch), now);
    lemma_same_waiting(t, w, agent, name, false);
    let a = w.waiting(agent, name, false);
    let c = u.waiting(agent, name, false);
    let sorted = sorted_by(a, message_time());
    law_sorted(a, message_time());
    lemma_waiting_distinct(w, agent, name, false);
    lemma_waiting_distinct(u, agent, name, false);
    a.lemma_multiset_has_no_duplicates();
    sorted.lemma_multiset_has_no_duplicates_conv();
    assert(batch.no_duplicates());
    assert forall|m: MessageRowView| #[trigger] sorted.contains(m) implies a.contains(m) by {
        broadcast use group_to_multiset_ensures;

        assert(sorted.to_multiset().count(m) > 0);
    }
    let whole = a.to_set();
    let taken = batch.to_set();
    let rest = c.to_set();
    assert forall|m: MessageRowView| #[trigger] batch.contains(m) implies a.contains(m) by {
        let k = batch.index_of(m);
        assert(sorted[k] == m);
        assert(sorted.contains(m));
    }
    assert forall|m: MessageRowView| rest.contains(m) <==> whole.contains(m) && !taken.contains(
        m,
    ) by {
        law_rest_waits(t, name, false, now, m);
        lemma_waiting_row(w, agent, name, false, m);
        let got = exists|k: int| 0 <= k < messages.len() && (#[trigger] messages[k]).id == m.id;
        if a.contains(m) {
            if got {
                let k = choose|k: int|
                    0 <= k < messages.len() && (#[trigger] messages[k]).id == m.id;
                assert(batch.contains(batch[k]));
                lemma_waiting_row(w, agent, name, false, batch[k]);
                assert(batch[k] == m);
            }
            if batch.contains(m) {
                let k = batch.index_of(m);
                assert(messages[k].id == m.id);
            }
        }
    }
    a.unique_seq_to_set();
    batch.unique_seq_to_set();
    c.unique_seq_to_set();
    assert(whole =~= rest + taken);
    assert(rest.disjoint(taken));
    vstd::set_lib::lemma_set_disjoint_lens(rest, taken);
}

/// No message is returned by two inbox calls in a row.
pub proof fn law_returned_once(
    t: TablesView,
    name: Seq<char>,
    first_only: bool,
    second_only: bool,
    now: Timestamp,
    later: Timestamp,
    i: int,
    j: int,
)
    requires
        t.valid(),
        fetching(t, name, first_only, now) is Ok,
        fetching(fetching(t, name, first_only, now)->Ok_0.0, name, second_only, later) is Ok,
        0 <= i < fetching(t, name, first_only, now)->Ok_0.1.len(),
        0 <= j < fetching(
            fetching(t, name, first_only, now)->Ok_0.0,
            name,
            second_only,
            later,
        )->Ok_0.1.len(),
    ensures
        fetching(t, name, first_only, now)->Ok_0.1[i].id != fetching(
            fetching(t, name, first_only, now)->Ok_0.0,
            name,
            second_only,
            later,
        )->Ok_0.1[j].id,
{
    let (u, one) = fetching(t, name, first_only, now)->Ok_0;
    let (v, two) = fetching(u, name, second_only, later)->Ok_0;
    let w = t.with_agent(name, now);
    lemma_with_agent(t, name, now);
    let agent = w.agent_id(name);
    let batch = w.inbox_batch(agent, name, first_only);
    super::keeping::lemma_mark_read(w, agent, ids_of(batch), now);
    super::keeping::lemma_same_people(w, u);
    assert(u.agents == w.agents);
    let x = u.with_agent(name, later);
    lemma_with_agent(u, name, later);
    assert(u.knows_agent(name)) by {
        assert(w.knows_agent(name));
    }
    assert(x.agent_id(name) == agent);
    let next = x.inbox_batch(agent, name, second_only);
    let rows = x.waiting(agent, name, second_only);
    law_sorted(rows, message_time());
    let sorted = sorted_by(rows, message_time());
    assert(two[j].id == next[j].id);
    assert(next[j] == sorted[j]);
    assert(sorted.contains(sorted[j]));
    let m = next[j];
    lemma_waiting_row(x, agent, name, second_only, m);
    let k = choose|k: int|
        0 <= k < x.deliveries.len() && x.waits(agent, name, second_only)(#[trigger] x.deliveries[k])
            && x.message(x.deliveries[k].message) == m;
    assert(x.has_message(x.deliveries[k].message));
    lemma_message_id(x, x.deliveries[k].message);
    assert(x.deliveries == u.deliveries);
    assert(u.deliveries[k].read_at is None);
    if one[i].id == two[j].id {
        assert(ids_of(batch)[i] == m.id);
        assert(w.deliveries[k].agent == agent);
        assert(u.deliveries[k].read_at == Some(now));
    }
}

/// An inbox call returns at most so many messages, oldest first, and none that it leaves is
/// older than one that it returns.
pub proof fn law_oldest_first(
    t: TablesView,
    agent: i64,
    name: Seq<char>,
    mentions_only: bool,
    i: int,
    m: MessageRowView,
)
    requires
        0 <= i < t.inbox_batch(agent, name, mentions_only).len(),
        t.waiting(agent, name, mentions_only).contains(m),
        !t.inbox_batch(agent, name, mentions_only).contains(m),
    ensures
        t.inbox_batch(agent, name, mentions_only).len() == INBOX_BATCH,
        ascending(t.inbox_batch(agent, name, mentions_only), message_time()),
        t.inbox_batch(agent, name, mentions_only)[i].created_at.at() <= m.created_at.at(),
{
    let rows = t.waiting(agent, name, mentions_only);
    let sorted = sorted_by(rows, message_time());
    let batch = t.inbox_batch(agent, name, mentions_only);
    law_sorted(rows, message_time());
    assert(sorted.contains(m));
    let k = sorted.index_of(m);
    assert(sorted[k] == m);
    if k < batch.len() {
        assert(batch[k] == m);
    }
    assert(batch[i] == sorted[i]);
    assert(message_time()(sorted[i]) <= message_time()(sorted[k]));
    assert forall|a: int, b: int| 0 <= a <= b < batch.len() implies message_time()(
        #[trigger] batch[a],
    ) <= message_time()(#[trigger] batch[b]) by {
        assert(batch[a] == sorted[a] && batch[b] == sorted[b]);
    }
}

/// With `mentions_only`, an inbox call returns messages that call on the agent and no others.
pub proof fn law_mentions_only(t: TablesView, agent: i64, name: Seq<char>, m: MessageRowView)
    requires
        t.consistent(),
    ensures
        t.waiting(agent, name, true).contains(m) <==> t.waiting(agent, name, false).contains(m)
            && t.calls_on(m, agent, name),
{
    lemma_waiting_row(t, agent, name, true, m);
    lemma_waiting_row(t, agent, name, false, m);
    let p = t.waits(agent, name, true);
    let q = t.waits(agent, name, false);
    if t.waiting(agent, name, true).contains(m) {
        let i = choose|i: int|
            0 <= i < t.deliveries.len() && p(#[trigger] t.deliveries[i]) && t.message(
                t.deliveries[i].message,
            ) == m;
        assert(q(t.deliveries[i]));
    }
    if t.waiting(agent, name, false).contains(m) && t.calls_on(m, agent, name) {
        let i = choose|i: int|
            0 <= i < t.deliveries.len() && q(#[trigger] t.deliveries[i]) && t.message(
                t.deliveries[i].message,
            ) == m;
        assert(p(t.deliveries[i]));
    }
}

// ---- histories and search ----

/// A message to a channel is in the channel's history: as its last entry, where no earlier
/// message bears a later time.
pub proof fn law_sent_is_in_history(
    t: TablesView,
    d: Draft,
    now: Timestamp,
    channel: Seq<char>,
    limit: int,
)
    requires
        t.valid(),
        t.postable(d),
        t.posted(d, now).fits(),
        d.to == RecipientView::Channel(channel),
        limit >= 1,
        forall|i: int|
            0 <= i < t.messages.len() ==> (#[trigger] t.messages[i]).created_at.at() <= now.at(),
    ensures
        channel_history(t.posted(d, now), channel, limit).len() > 0,
        channel_history(t.posted(d, now), channel, limit).last() == t.row_of(d, now),
{
    let w = t.posted(d, now);
    let row = t.row_of(d, now);
    let (u, ids) = t.addressed(d, now);
    lemma_posted(t, d, now);
    lemma_addressed(t, d, now);
    lemma_with_ends(t, d, now);
    assert(t.with_ends(d, now).knows_channel(channel));
    assert(u.knows_channel(channel));
    assert(w.channels == u.channels);
    assert(w.knows_channel(channel));
    assert(w.channel_id(channel) == u.channel_id(channel));
    let pred = addressed_to(Target::Channel(w.channel_id(channel)));
    assert(pred(row));
    t.messages.lemma_filter_push(row, pred);
    let before = t.messages.filter(pred);
    assert(w.messages.filter(pred) == before.push(row));
    assert(before.push(row).drop_last() =~= before);
    law_sorted(before, message_time());
    let sorted = sorted_by(before, message_time());
    assert(sorted_by(before.push(row), message_time()) == sorted.push(row)) by {
        if sorted.len() > 0 {
            let m = sorted.last();
            assert(sorted.contains(m));
            lemma_filter_order(t.messages, pred);
            let k = before.index_of(m);
            let p = choose|p: int| 0 <= p < t.messages.len() && t.messages[p] == before[k];
            assert(t.messages[p].created_at.at() <= now.at());
        }
    }
    let all = sorted.push(row);
    assert(timeline(w, pred) == all);
    assert(last_of(all, limit).last() == all.last());
}

/// The whole history of a channel is made of the messages to it, and of no others.
pub proof fn law_history_is_complete(t: TablesView, channel: Seq<char>, m: MessageRowView)
    requires
        t.valid(),
        t.knows_channel(channel),
    ensures
        channel_history(t, channel, t.messages.len() as int).contains(m) <==> t.messages.contains(m)
            && m.target == Target::Channel(t.channel_id(channel)),
{
    let pred = addressed_to(Target::Channel(t.channel_id(channel)));
    law_sorted(t.messages.filter(pred), message_time());
    t.messages.lemma_filter_len(pred);
    lemma_filter_contains(t.messages, pred, m);
}

/// The history of a channel holds the newest of the messages to it, up to the limit.
pub proof fn law_history_is_the_newest(
    t: TablesView,
    channel: Seq<char>,
    limit: int,
    m: MessageRowView,
)
    requires
        t.knows_channel(channel),
        limit >= 0,
        t.messages.contains(m),
        m.target == Target::Channel(t.channel_id(channel)),
    ensures
        ({
            let list = channel_history(t, channel, limit);
            list.contains(m) || list.len() == limit && forall|i: int|
                0 <= i < list.len() ==> m.created_at.at() <= (#[trigger] list[i]).created_at.at()
        }),
{
    let pred = addressed_to(Target::Channel(t.channel_id(channel)));
    let rows = timeline(t, pred);
    let last = channel_history(t, channel, limit);
    law_sorted(t.messages.filter(pred), message_time());
    lemma_filter_contains(t.messages, pred, m);
    assert(rows.contains(m));
    let p = rows.index_of(m);
    let start = rows.len() - last.len();
    if p >= start {
        assert(last[p - start] == m);
    } else {
        assert forall|i: int| 0 <= i < last.len() implies m.created_at.at() <= (
        #[trigger] last[i]).created_at.at() by {
            assert(last[i] == rows[start + i]);
            assert(message_time()(rows[p]) <= message_time()(rows[start + i]));
        }
    }
}

/// A filtered sequence holds what meets the condition.
pub proof fn lemma_filter_contains<T>(s: Seq<T>, pred: spec_fn(T) -> bool, x: T)
    ensures
        s.filter(pred).contains(x) <==> s.contains(x) && pred(x),
{
    lemma_filter_order(s, pred);
    if s.filter(pred).contains(x) {
        let i = s.filter(pred).index_of(x);
        assert(s.filter(pred)[i] == x);
    }
    if s.contains(x) && pred(x) {
        let i = s.index_of(x);
        assert(s[i] == x);
    }
}

/// A search returns messages that hold the query, newest first; and every one, unless the
/// limit is reached with messages that are no older.
pub proof fn law_search(t: TablesView, query: Seq<char>, limit: int, m: MessageRowView, i: int, j: int)
    requires
        limit >= 0,
    ensures
        found(t, query, limit).len() <= limit,
        found(t, query, limit).contains(m) ==> t.messages.contains(m) && matching(query)(m),
        t.messages.contains(m) && matching(query)(m) && !found(t, query, limit).contains(m)
            ==> found(t, query, limit).len() == limit && forall|k: int|
            0 <= k < limit ==> (#[trigger] found(t, query, limit)[k]).created_at.at()
                >= m.created_at.at(),
        0 <= i <= j < found(t, query, limit).len() ==> found(t, query, limit)[i].created_at.at()
            >= found(t, query, limit)[j].created_at.at(),
{
    let pred = matching(query);
    let rows = t.messages.filter(pred);
    let sorted = timeline(t, pred);
    let back = sorted.reverse();
    let got = found(t, query, limit);
    law_sorted(rows, message_time());
    t.messages.lemma_filter_len(pred);
    lemma_filter_contains(t.messages, pred, m);
    if got.contains(m) {
        let k = got.index_of(m);
        assert(got[k] == back[k]);
        assert(back[k] == sorted[sorted.len() - 1 - k]);
        assert(sorted.contains(m));
    }
    if t.messages.contains(m) && pred(m) {
        assert(sorted.contains(m));
        let n = sorted.len() as int;
        let p = sorted.index_of(m);
        assert(back[n - 1 - p] == m);
        if n - 1 - p < got.len() {
            assert(got[n - 1 - p] == m);
        } else {
            assert forall|k: int| 0 <= k < limit implies (#[trigger] got[k]).created_at.at()
                >= m.created_at.at() by {
                assert(got[k] == sorted[n - 1 - k]);
                assert(message_time()(sorted[p]) <= message_time()(sorted[n - 1 - k]));
            }
        }
    }
    if 0 <= i <= j < got.len() {
        let n = sorted.len() as int;
        assert(got[i] == sorted[n - 1 - i] && got[j] == sorted[n - 1 - j]);
        assert(message_time()(sorted[n - 1 - j]) <= message_time()(sorted[n - 1 - i]));
    }
}

/// A search does not tell capital from small ASCII letters: queries that differ in nothing
/// else find the same.
pub proof fn law_search_ignores_case(t: TablesView, one: Seq<char>, two: Seq<char>, limit: int)
    requires
        lower_text(one) == lower_text(two),
    ensures
        found(t, one, limit) == found(t, two, limit),
{
    assert(matching(one) =~= matching(two));
}

/// Whether a message went from one of two agents to the other.
pub open spec fn exchanged(m: MessageView, a: Seq<char>, b: Seq<char>) -> bool {
    ||| m.from == a && m.to == RecipientView::Agent(b)
    ||| m.from == b && m.to == RecipientView::Agent(a)
}

/// The history of two agents holds the newest messages that went from one of them to the
/// other, up to the limit, oldest first; messages to channels and to everyone never.
pub proof fn law_dm_history_is_the_newest(
    t: TablesView,
    a: Seq<char>,
    b: Seq<char>,
    limit: int,
    now: Timestamp,
    m: MessageRowView,
)
    requires
        t.valid(),
        limit >= 0,
        reading_dms(t, a, b, limit, now) is Ok,
        t.messages.contains(m),
        exchanged(t.message_of(m), a, b),
    ensures
        ({
            let list = reading_dms(t, a, b, limit, now)->Ok_0.1;
            list.contains(t.message_of(m)) || list.len() == limit && forall|i: int|
                0 <= i < list.len() ==> m.created_at.at() <= (#[trigger] list[i]).created_at.at()
        }),
{
    let u = t.with_agent(a, now).with_agent(b, now);
    let pred = between(u.agent_id(a), u.agent_id(b));
    let rows = timeline(u, pred);
    let last = last_of(rows, limit);
    let list = reading_dms(t, a, b, limit, now)->Ok_0.1;
    lemma_both_in(t, a, b, now);
    lemma_exchanged_row(t, a, b, now, m);
    law_sorted(u.messages.filter(pred), message_time());
    lemma_filter_contains(u.messages, pred, m);
    assert(rows.contains(m));
    let p = rows.index_of(m);
    assert(rows[p] == m);
    let start = rows.len() - last.len();
    if p >= start {
        assert(last[p - start] == m);
        assert(list[p - start] == u.message_of(m));
    } else {
        assert forall|i: int| 0 <= i < list.len() implies m.created_at.at() <= (
        #[trigger] list[i]).created_at.at() by {
            assert(last[i] == rows[start + i]);
            assert(message_time()(rows[p]) <= message_time()(rows[start + i]));
        }
    }
}

/// What the history of two agents holds: only messages that were stored and went from one of
/// them to the other, in the order of their times.
pub proof fn law_dm_history_is_theirs(
    t: TablesView,
    a: Seq<char>,
    b: Seq<char>,
    limit: int,
    now: Timestamp,
    i: int,
)
    requires
        t.valid(),
        limit >= 0,
        reading_dms(t, a, b, limit, now) is Ok,
        0 <= i < reading_dms(t, a, b, limit, now)->Ok_0.1.len(),
    ensures
        ({
            let list = reading_dms(t, a, b, limit, now)->Ok_0.1;
            &&& list.len() <= limit
            &&& exchanged(list[i], a, b)
            &&& t.messages_of(t.messages).contains(list[i])
            &&& forall|j: int|
                i <= j < list.len() ==> list[i].created_at.at() <= (
                #[trigger] list[j]).created_at.at()
        }),
{
    let u = t.with_agent(a, now).with_agent(b, now);
    let pred = between(u.agent_id(a), u.agent_id(b));
    let rows = timeline(u, pred);
    let last = last_of(rows, limit);
    let list = reading_dms(t, a, b, limit, now)->Ok_0.1;
    let start = rows.len() - last.len();
    law_sorted(u.messages.filter(pred), message_time());
    lemma_both_in(t, a, b, now);
    let m = last[i];
    assert(m == rows[start + i]);
    assert(rows.contains(m));
    lemma_filter_contains(u.messages, pred, m);
    lemma_exchanged_row(t, a, b, now, m);
    assert(list[i] == u.message_of(m));
    let k = t.messages.index_of(m);
    assert(t.messages_of(t.messages)[k] == t.message_of(m));
    assert forall|j: int| i <= j < list.len() implies list[i].created_at.at() <= (
    #[trigger] list[j]).created_at.at() by {
        assert(last[j] == rows[start + j]);
        assert(message_time()(rows[start + i]) <= message_time()(rows[start + j]));
    }
}

/// The history of two agents is the same read from either side.
pub proof fn law_dm_history_has_two_sides(
    t: TablesView,
    a: Seq<char>,
    b: Seq<char>,
    limit: int,
    now: Timestamp,
)
    requires
        t.valid(),
        limit >= 0,
    ensures
        reading_dms(t, a, b, limit, now) is Ok <==> reading_dms(t, b, a, limit, now) is Ok,
        reading_dms(t, a, b, limit, now) is Ok ==> reading_dms(t, a, b, limit, now)->Ok_0.1
            == reading_dms(t, b, a, limit, now)->Ok_0.1,
{
    let u = t.with_agent(a, now).with_agent(b, now);
    let v = t.with_agent(b, now).with_agent(a, now);
    lemma_both_seen(t, a, b, now);
    lemma_both_seen(t, b, a, now);
    assert(u.fits() == v.fits());
    if reading_dms(t, a, b, limit, now) is Ok {
        let p = between(u.agent_id(a), u.agent_id(b));
        let q = between(v.agent_id(b), v.agent_id(a));
        lemma_both_in(t, a, b, now);
        lemma_both_in(t, b, a, now);
        assert forall|i: int| 0 <= i < t.messages.len() implies p(#[trigger] t.messages[i]) == q(
            t.messages[i],
        ) by {
            assert(t.messages.contains(t.messages[i]));
            lemma_exchanged_row(t, a, b, now, t.messages[i]);
            lemma_exchanged_row(t, b, a, now, t.messages[i]);
        }
        lemma_same_filter(t.messages, p, q);
        let rows = last_of(timeline(u, p), limit);
        assert(rows == last_of(timeline(v, q), limit));
        law_sorted(t.messages.filter(p), message_time());
        assert forall|i: int| 0 <= i < rows.len() implies u.message_of(#[trigger] rows[i])
            == v.message_of(rows[i]) by {
            let all = timeline(u, p);
            assert(all.contains(rows[i])) by {
                let start = all.len() - rows.len();
                assert(all[start + i] == rows[i]);
            }
            lemma_filter_contains(t.messages, p, rows[i]);
            lemma_exchanged_row(t, a, b, now, rows[i]);
            lemma_exchanged_row(t, b, a, now, rows[i]);
        }
        assert(u.messages_of(rows) =~= v.messages_of(rows));
    }
}

/// Two conditions that agree on every item of a sequence select the same items.
pub proof fn lemma_same_filter<T>(s: Seq<T>, p: spec_fn(T) -> bool, q: spec_fn(T) -> bool)
    requires
        forall|i: int| 0 <= i < s.len() ==> p(#[trigger] s[i]) == q(s[i]),
    ensures
        s.filter(p) == s.filter(q),
    decreases s.len(),
{
    reveal(Seq::filter);
    if s.len() > 0 {
        let front = s.drop_last();
        assert forall|i: int| 0 <= i < front.len() implies p(#[trigger] front[i]) == q(front[i]) by {
            assert(front[i] == s[i]);
        }
        lemma_same_filter(front, p, q);
        assert(p(s[s.len() - 1]) == q(s[s.len() - 1]));
    }
}

/// Seeing two agents brings both into the tables.
pub proof fn lemma_both_in(t: TablesView, a: Seq<char>, b: Seq<char>, now: Timestamp)
    requires
        t.valid(),
        t.accepts_agent(a),
        t.accepts_agent(b),
        t.with_agent(a, now).with_agent(b, now).next_agent <= i64::MAX,
    ensures
        t.with_agent(a, now).with_agent(b, now).valid(),
        grown(t, t.with_agent(a, now).with_agent(b, now)),
        t.with_agent(a, now).with_agent(b, now).knows_agent(a),
        t.with_agent(a, now).with_agent(b, now).knows_agent(b),
{
    let u = t.with_agent(a, now);
    lemma_with_agent(t, a, now);
    assert(t.knows_agent(b) ==> u.knows_agent(b));
    lemma_with_agent(u, b, now);
    lemma_grown_twice(t, u, u.with_agent(b, now));
    assert(u.with_agent(b, now).knows_agent(a));
}

/// A stored message is one between two agents by their ids if and only if it is by their
/// names.
proof fn lemma_exchanged_row(
    t: TablesView,
    a: Seq<char>,
    b: Seq<char>,
    now: Timestamp,
    m: MessageRowView,
)
    requires
        t.valid(),
        t.accepts_agent(a),
        t.accepts_agent(b),
        t.with_agent(a, now).with_agent(b, now).next_agent <= i64::MAX,
        t.messages.contains(m),
    ensures
        ({
            let u = t.with_agent(a, now).with_agent(b, now);
            &&& between(u.agent_id(a), u.agent_id(b))(m) <==> exchanged(t.message_of(m), a, b)
            &&& u.message_of(m) == t.message_of(m)
        }),
{
    let u = t.with_agent(a, now).with_agent(b, now);
    lemma_both_in(t, a, b, now);
    let k = t.messages.index_of(m);
    assert(t.messages[k] == m);
    assert(t.has_agent(m.from) && t.has_target(m.target));
    assert(u.has_agent(m.from) && u.agent_name(m.from) == t.agent_name(m.from));
    lemma_agent_known(u, m.from);
    lemma_agent_named(u, a);
    lemma_agent_named(u, b);
    match m.target {
        Target::Agent(x) => {
            assert(u.has_agent(x) && u.agent_name(x) == t.agent_name(x));
            lemma_agent_known(u, x);
        },
        Target::Channel(c) => {
            assert(u.channel_name(c) == t.channel_name(c));
        },
        Target::Broadcast => {},
    }
}

/// The name of an agent in the tables is known, and its id is that agent's.
pub proof fn lemma_agent_known(t: TablesView, id: i64)
    requires
        t.consistent(),
        t.has_agent(id),
    ensures
        t.knows_agent(t.agent_name(id)),
        t.agent_id(t.agent_name(id)) == id,
{
    let i = t.agent_ids().index_of(id);
    assert(t.agent_ids()[i] == id);
    assert(t.agent_names()[i] == t.agents[i].name);
    let k = t.agent_names().index_of(t.agents[i].name);
    assert(t.agent_names()[k] == t.agent_names()[i]);
}

// ---- membership ----

/// Seeing an agent makes nobody a member who was known before.
proof fn lemma_seeing_joins_nobody(t: TablesView, name: Seq<char>, now: Timestamp, a: i64, c: i64)
    requires
        t.valid(),
        t.with_agent(name, now).next_agent <= i64::MAX,
        t.has_agent(a),
        t.with_agent(name, now).is_member(a, c),
    ensures
        t.is_member(a, c),
{
    if t.knows_agent(name) {
        let u = t.with_agent(name, now);
        let i = choose|i: int|
            0 <= i < u.members.len() && (#[trigger] u.members[i]).agent == a && u.members[i].channel
                == c;
        assert(t.members[i].agent == a);
    } else {
        let row = AgentView {
            id: t.next_agent as i64,
            name,
            display_name: None,
            first_seen: now,
            last_seen: now,
        };
        super::keeping::lemma_add_agent(t, row);
        let v = t.add_agent(row);
        lemma_channel_named(t, DEFAULT_CHANNEL@);
        let m = Membership {
            agent: t.next_agent as i64,
            channel: t.channel_id(DEFAULT_CHANNEL@),
            joined_at: now,
        };
        assert(v.has_channel(m.channel));
        super::keeping::lemma_add_member(v, m);
        assert(v.is_member(a, c));
        let i = choose|i: int|
            0 <= i < v.members.len() && (#[trigger] v.members[i]).agent == a && v.members[i].channel
                == c;
        assert(t.members[i].agent == a);
    }
}

/// An agent keeps its id, however often it is seen.
pub proof fn law_agent_keeps_its_id(
    t: TablesView,
    name: Seq<char>,
    now: Timestamp,
    later: Timestamp,
)
    requires
        t.valid(),
        seeing(t, name, now) is Ok,
    ensures
        ({
            let (u, id) = seeing(t, name, now)->Ok_0;
            &&& seeing(u, name, later) is Ok
            &&& seeing(u, name, later)->Ok_0.1 == id
            &&& seeing(u, name, later)->Ok_0.0.next_agent == u.next_agent
        }),
{
    let u = t.with_agent(name, now);
    lemma_with_agent(t, name, now);
    lemma_with_agent(u, name, later);
}

/// Joining a channel twice is joining it once: nothing is added the second time.
pub proof fn law_joining_twice(
    t: TablesView,
    name: Seq<char>,
    channel: Seq<char>,
    now: Timestamp,
    later: Timestamp,
)
    requires
        t.valid(),
        joining(t, name, channel, now) is Ok,
    ensures
        ({
            let u = joining(t, name, channel, now)->Ok_0.0;
            &&& joining(u, name, channel, later) is Ok
            &&& joining(u, name, channel, later)->Ok_0.0.members == u.members
            &&& joining(u, name, channel, later)->Ok_0.0.channels == u.channels
            &&& joining(u, name, channel, later)->Ok_0.0.agent_names() == u.agent_names()
        }),
{
    let a = t.with_agent(name, now);
    lemma_with_agent(t, name, now);
    assert(t.knows_channel(channel) ==> a.knows_channel(channel));
    let b = a.with_channel(channel, now);
    super::posting::lemma_with_channel(a, channel, now);
    assert(b.knows_agent(name));
    lemma_agent_named(b, name);
    lemma_channel_named(b, channel);
    let row = Membership {
        agent: b.agent_id(name),
        channel: b.channel_id(channel),
        joined_at: now,
    };
    super::keeping::lemma_add_member(b, row);
    let u = joining(t, name, channel, now)->Ok_0.0;
    super::keeping::lemma_same_people(b, u);
    assert(u.agents == b.agents && u.channels == b.channels);
    assert(u.knows_agent(name) && u.knows_channel(channel));
    assert(u.agent_id(name) == row.agent && u.channel_id(channel) == row.channel);
    let c = u.with_agent(name, later);
    lemma_with_agent(u, name, later);
    assert(c.agent_id(name) == row.agent);
    assert(c.knows_channel(channel) && c.channel_id(channel) == row.channel);
    assert(c.agent_names() =~= u.agent_names());
    assert(c.is_member(row.agent, row.channel));
}

/// Whoever left a channel is no member of it, and leaving it again changes nothing.
pub proof fn law_leaving_twice(t: TablesView, name: Seq<char>, channel: Seq<char>)
    requires
        t.valid(),
    ensures
        left(left(t, name, channel), name, channel) == left(t, name, channel),
        t.knows_agent(name) && t.knows_channel(channel) ==> !left(t, name, channel).is_member(
            t.agent_id(name),
            t.channel_id(channel),
        ),
{
    let u = left(t, name, channel);
    if t.knows_agent(name) && t.knows_channel(channel) {
        let agent = t.agent_id(name);
        let id = t.channel_id(channel);
        super::keeping::lemma_drop_member(t, agent, id);
        assert(u.agents == t.agents && u.channels == t.channels);
        assert(u.agent_id(name) == agent && u.channel_id(channel) == id);
        let pred = |m: Membership| !(m.agent == agent && m.channel == id);
        lemma_filter_order(t.members, pred);
        lemma_filter_all(u.members, pred);
        assert(left(u, name, channel).members == u.members);
    }
}

/// A condition that every item meets selects all.
pub proof fn lemma_filter_all<T>(s: Seq<T>, pred: spec_fn(T) -> bool)
    requires
        forall|i: int| 0 <= i < s.len() ==> pred(#[trigger] s[i]),
    ensures
        s.filter(pred) == s,
    decreases s.len(),
{
    reveal(Seq::filter);
    if s.len() > 0 {
        let front = s.drop_last();
        assert forall|i: int| 0 <= i < front.len() implies pred(#[trigger] front[i]) by {
            assert(front[i] == s[i]);
        }
        lemma_filter_all(front, pred);
        assert(pred(s[s.len() - 1]));
        assert(front.push(s.last()) =~= s);
    }
}

/// Bringing sender and recipient into the tables makes nobody a member who was known before.
proof fn lemma_ends_join_nobody(t: TablesView, d: Draft, now: Timestamp, a: i64, c: i64)
    requires
        t.valid(),
        t.postable(d),
        t.with_ends(d, now).next_agent <= i64::MAX,
        t.with_ends(d, now).next_channel <= i64::MAX,
        t.has_agent(a),
        t.with_ends(d, now).is_member(a, c),
    ensures
        t.is_member(a, c),
{
    let u = t.with_agent(d.from, now);
    let v = t.with_ends(d, now);
    lemma_with_agent(t, d.from, now);
    assert(u.has_agent(a));
    match d.to {
        RecipientView::Agent(name) => {
            lemma_seeing_joins_nobody(u, name, now, a, c);
        },
        RecipientView::Channel(name) => {
            assert(t.knows_channel(name) ==> u.knows_channel(name));
            super::posting::lemma_with_channel(u, name, now);
            let i = choose|i: int|
                0 <= i < v.members.len() && (#[trigger] v.members[i]).agent == a
                    && v.members[i].channel == c;
            assert(u.members[i].agent == a);
        },
        RecipientView::Broadcast => {},
    }
    lemma_seeing_joins_nobody(t, d.from, now, a, c);
}

/// Whoever joined a channel receives what others send to it.
pub proof fn law_member_receives(
    t: TablesView,
    name: Seq<char>,
    channel: Seq<char>,
    joined: Timestamp,
    d: Draft,
    now: Timestamp,
)
    requires
        t.valid(),
        joining(t, name, channel, joined) is Ok,
        joining(t, name, channel, joined)->Ok_0.0.postable(d),
        joining(t, name, channel, joined)->Ok_0.0.posted(d, now).fits(),
        d.to == RecipientView::Channel(channel),
        d.from != name,
    ensures
        ({
            let u = joining(t, name, channel, joined)->Ok_0.0;
            &&& u.valid()
            &&& u.knows_agent(name)
            &&& u.addressed(d, now).1.contains(u.agent_id(name))
        }),
{
    let a = t.with_agent(name, joined);
    lemma_with_agent(t, name, joined);
    assert(t.knows_channel(channel) ==> a.knows_channel(channel));
    let b = a.with_channel(channel, joined);
    super::posting::lemma_with_channel(a, channel, joined);
    assert(b.knows_agent(name));
    lemma_agent_named(b, name);
    lemma_channel_named(b, channel);
    let row = Membership {
        agent: b.agent_id(name),
        channel: b.channel_id(channel),
        joined_at: joined,
    };
    super::keeping::lemma_add_member(b, row);
    let u = joining(t, name, channel, joined)->Ok_0.0;
    assert(u == b.add_member(row));
    super::keeping::lemma_same_people(b, u);
    assert(u.agents == b.agents && u.channels == b.channels);
    assert(u.knows_agent(name) && u.knows_channel(channel));
    assert(u.agent_id(name) == row.agent && u.channel_id(channel) == row.channel);
    let ends = u.with_ends(d, now);
    lemma_addressed(u, d, now);
    lemma_with_ends(u, d, now);
    assert(ends.is_member(row.agent, row.channel));
    assert(ends.knows_agent(name));
    assert(ends.agent_id(name) == row.agent);
    assert(ends.channel_id(channel) == row.channel) by {
        assert(u.knows_channel(channel));
    }
    lemma_agent_named(ends, name);
    lemma_agent_named(ends, d.from);
    law_channel_recipients(u, d, now, channel, row.agent);
}

/// Whoever left a channel no longer receives what is sent to it, unless called by name.
pub proof fn law_leaver_receives_nothing(
    t: TablesView,
    name: Seq<char>,
    channel: Seq<char>,
    d: Draft,
    now: Timestamp,
)
    requires
        t.valid(),
        t.knows_agent(name),
        t.knows_channel(channel),
        left(t, name, channel).postable(d),
        left(t, name, channel).posted(d, now).fits(),
        d.to == RecipientView::Channel(channel),
        !called_names(d.body).contains(name),
    ensures
        left(t, name, channel).valid(),
        !left(t, name, channel).addressed(d, now).1.contains(t.agent_id(name)),
{
    let u = left(t, name, channel);
    let agent = t.agent_id(name);
    let id = t.channel_id(channel);
    super::keeping::lemma_drop_member(t, agent, id);
    super::keeping::lemma_same_people(t, u);
    lemma_agent_named(t, name);
    assert(u.agents == t.agents && u.channels == t.channels);
    assert(u.agent_id(name) == agent && u.channel_id(channel) == id);
    assert(u.knows_agent(name) && u.knows_channel(channel));
    assert(u.has_agent(agent));
    assert(!u.is_member(agent, id));
    law_channel_recipients(u, d, now, channel, agent);
    lemma_addressed(u, d, now);
    lemma_with_ends(u, d, now);
    let ends = u.with_ends(d, now);
    let (v, ids) = u.addressed(d, now);
    assert(ends.channel_id(channel) == id);
    if ids.contains(agent) {
        if ends.is_member(agent, id) {
            lemma_ends_join_nobody(u, d, now, agent, id);
        } else {
            let names = called_names(d.body);
            let i = choose|i: int|
                0 <= i < names.len() && v.agent_id(#[trigger] names[i]) == agent;
            law_mention_reaches(u, d, now, i);
            lemma_agent_named(v, names[i]);
            assert(v.knows_agent(name));
            lemma_agent_named(v, name);
            assert(v.agent_id(name) == agent);
            assert(names[i] == name);
        }
    }
}

// ---- scheduled messages ----

/// Nothing is delivered before its time, and nothing that does not wait.
pub proof fn law_not_before_its_time(t: TablesView, now: Timestamp, i: int)
    requires
        0 <= i < due_rows(t, now).len(),
    ensures
        t.scheduled.contains(due_rows(t, now)[i]),
        due_rows(t, now)[i].status == ScheduledStatus::Pending,
        due_rows(t, now)[i].deliver_at.at() <= now.at(),
{
    let pred = is_due(now);
    let rows = t.scheduled.filter(pred);
    let sorted = sorted_by(rows, due_time());
    law_sorted(rows, due_time());
    assert(due_rows(t, now)[i] == sorted[i]);
    assert(sorted.contains(sorted[i]));
    lemma_filter_contains(t.scheduled, pred, sorted[i]);
}

/// A scheduled row once its time has come: it is delivered if its payload can be read, and
/// has failed otherwise.
pub open spec fn settled(s: ScheduledView) -> ScheduledView {
    ScheduledView {
        status: if s.payload is Some {
            ScheduledStatus::Delivered
        } else {
            ScheduledStatus::Failed
        },
        ..s
    }
}

/// Whether a row's payload can be read.
pub open spec fn readable() -> spec_fn(ScheduledView) -> bool {
    |s: ScheduledView| s.payload is Some
}

/// A pass settles every row that is due, each according to its payload, and leaves every other
/// row as it was.
pub proof fn law_pass_settles_what_is_due(t: TablesView, now: Timestamp, k: int)
    requires
        t.valid(),
        delivering_due(t, now) is Ok,
        0 <= k < t.scheduled.len(),
    ensures
        ({
            let u = delivering_due(t, now)->Ok_0.0;
            &&& u.scheduled.len() == t.scheduled.len()
            &&& u.scheduled[k] == if is_due(now)(t.scheduled[k]) {
                settled(t.scheduled[k])
            } else {
                t.scheduled[k]
            }
        }),
{
    let rows = due_rows(t, now);
    let before = t.scheduled[k];
    lemma_due_rows(t, now, before);
    assert(t.scheduled.contains(before));
    assert forall|i: int| 0 <= i < rows.len() && (#[trigger] rows[i]).id == before.id implies rows[i]
        == before by {
        law_not_before_its_time(t, now, i);
        let j = t.scheduled.index_of(rows[i]);
        assert(t.scheduled_ids()[j] == t.scheduled_ids()[k]);
        lemma_rising_unique(t.scheduled_ids(), t.next_scheduled, j);
        lemma_rising_unique(t.scheduled_ids(), t.next_scheduled, k);
    }
    lemma_settles(t, rows, now, k);
}

/// Nothing is delivered twice: after a pass nothing is due any longer, and one message was
/// posted for each row that was due and can be read.
pub proof fn law_delivered_once(t: TablesView, now: Timestamp)
    requires
        t.valid(),
        delivering_due(t, now) is Ok,
    ensures
        due_rows(delivering_due(t, now)->Ok_0.0, now).len() == 0,
        delivering_due(t, now)->Ok_0.1.len() == due_rows(t, now).filter(readable()).len(),
        delivering_due(t, now)->Ok_0.0.next_message == t.next_message + delivering_due(
            t,
            now,
        )->Ok_0.1.len(),
{
    let u = delivering_due(t, now)->Ok_0.0;
    let left = due_rows(u, now);
    if left.len() > 0 {
        law_not_before_its_time(u, now, 0);
        let k = u.scheduled.index_of(left[0]);
        if t.scheduled.len() > 0 {
            law_pass_settles_what_is_due(t, now, 0);
        } else {
            lemma_settles_none(t, due_rows(t, now), now);
        }
        law_pass_settles_what_is_due(t, now, k);
    }
    lemma_one_message_each(t, due_rows(t, now), now);
}

/// Whether a payload is among what was delivered: its sender, its recipient and its body.
pub open spec fn announces(done: Seq<DeliveredView>, p: PayloadView) -> bool {
    exists|i: int|
        0 <= i < done.len() && (#[trigger] done[i]).from == p.from && done[i].to == p.draft().to
            && done[i].body == p.body
}

/// Every row that is due and can be read is among what a pass delivered, with its sender, its
/// recipient and its body.
pub proof fn law_due_is_announced(t: TablesView, now: Timestamp, k: int)
    requires
        delivering_due(t, now) is Ok,
        0 <= k < t.scheduled.len(),
        is_due(now)(t.scheduled[k]),
        t.scheduled[k].payload is Some,
    ensures
        announces(delivering_due(t, now)->Ok_0.1, t.scheduled[k].payload->0),
{
    let rows = due_rows(t, now);
    let row = t.scheduled[k];
    assert(t.scheduled.contains(row));
    lemma_due_rows(t, now, row);
    lemma_announced(t, rows, now, rows.index_of(row));
}

proof fn lemma_announced(t: TablesView, rows: Seq<ScheduledView>, now: Timestamp, n: int)
    requires
        delivering(t, rows, now) is Ok,
        0 <= n < rows.len(),
        rows[n].payload is Some,
    ensures
        announces(delivering(t, rows, now)->Ok_0.1, rows[n].payload->0),
    decreases rows.len(),
{
    let front = rows.drop_last();
    let p = rows[n].payload->0;
    let before = delivering(t, front, now)->Ok_0.1;
    let done = delivering(t, rows, now)->Ok_0.1;
    if n < front.len() {
        assert(front[n] == rows[n]);
        lemma_announced(t, front, now, n);
        let i = choose|i: int|
            0 <= i < before.len() && (#[trigger] before[i]).from == p.from && before[i].to
                == p.draft().to && before[i].body == p.body;
        assert(done[i] == before[i]);
    } else {
        assert(rows.last() == rows[n]);
        let i = before.len() as int;
        assert(done[i].from == p.from && done[i].to == p.draft().to && done[i].body == p.body);
    }
}

/// However many rows are due, a pass delivers all of them, where each can be read and posted,
/// and ids are left for all.
pub proof fn law_all_due_is_delivered(t: TablesView, now: Timestamp)
    requires
        t.valid(),
        forall|k: int|
            0 <= k < t.scheduled.len() && is_due(now)(#[trigger] t.scheduled[k])
                ==> t.scheduled[k].payload is Some && t.postable(t.scheduled[k].payload->0.draft()),
        t.next_agent + (MAX_MENTIONS + 2) * t.scheduled.filter(is_due(now)).len() <= i64::MAX,
        t.next_channel + t.scheduled.filter(is_due(now)).len() <= i64::MAX,
        t.next_message + t.scheduled.filter(is_due(now)).len() <= i64::MAX,
        t.fits(),
    ensures
        delivering_due(t, now) is Ok,
        delivering_due(t, now)->Ok_0.1.len() == t.scheduled.filter(is_due(now)).len(),
        due_rows(delivering_due(t, now)->Ok_0.0, now).len() == 0,
{
    let rows = due_rows(t, now);
    law_sorted(t.scheduled.filter(is_due(now)), due_time());
    assert forall|i: int| 0 <= i < rows.len() implies (#[trigger] rows[i]).payload is Some
        && t.postable(rows[i].payload->0.draft()) by {
        law_not_before_its_time(t, now, i);
        let k = t.scheduled.index_of(rows[i]);
        assert(is_due(now)(t.scheduled[k]));
    }
    lemma_all_delivered(t, rows, now);
    law_delivered_once(t, now);
}

proof fn lemma_all_delivered(t: TablesView, rows: Seq<ScheduledView>, now: Timestamp)
    requires
        t.valid(),
        t.fits(),
        forall|i: int|
            0 <= i < rows.len() ==> (#[trigger] rows[i]).payload is Some && t.postable(
                rows[i].payload->0.draft(),
            ),
        t.next_agent + (MAX_MENTIONS + 2) * rows.len() <= i64::MAX,
        t.next_channel + rows.len() <= i64::MAX,
        t.next_message + rows.len() <= i64::MAX,
    ensures
        delivering(t, rows, now) is Ok,
        ({
            let (u, done) = delivering(t, rows, now)->Ok_0;
            &&& done.len() == rows.len()
            &&& u.valid()
            &&& u.fits()
            &&& u.next_agent <= t.next_agent + (MAX_MENTIONS + 2) * rows.len()
            &&& u.next_channel <= t.next_channel + rows.len()
            &&& u.next_message == t.next_message + rows.len()
            &&& forall|d: Draft| t.postable(d) ==> #[trigger] u.postable(d)
        }),
    decreases rows.len(),
{
    if rows.len() > 0 {
        let front = rows.drop_last();
        let row = rows.last();
        assert forall|i: int| 0 <= i < front.len() implies (#[trigger] front[i]).payload is Some
            && t.postable(front[i].payload->0.draft()) by {
            assert(front[i] == rows[i]);
        }
        assert((MAX_MENTIONS + 2) * rows.len() == (MAX_MENTIONS + 2) * front.len() + MAX_MENTIONS + 2)
            by (nonlinear_arith)
            requires
                rows.len() == front.len() + 1,
        ;
        lemma_all_delivered(t, front, now);
        let (v, done) = delivering(t, front, now)->Ok_0;
        let d = row.payload->0.draft();
        assert(rows[rows.len() - 1] == row);
        assert(v.postable(d));
        lemma_post_ids(v, d, now);
        let w = v.posted(d, now);
        lemma_posted(v, d, now);
        let u = w.set_scheduled(row.id, ScheduledStatus::Delivered);
        super::keeping::lemma_set_scheduled(w, row.id, ScheduledStatus::Delivered);
        super::keeping::lemma_same_people(w, u);
        assert forall|x: Draft| t.postable(x) implies #[trigger] u.postable(x) by {
            assert(v.postable(x));
            lemma_still_postable(v, d, now, x);
            lemma_marked_postable(w, row.id, x);
        }
    }
}

/// How many ids posting uses up at most.
proof fn lemma_post_ids(t: TablesView, d: Draft, now: Timestamp)
    ensures
        t.posted(d, now).next_agent <= t.next_agent + MAX_MENTIONS + 2,
        t.posted(d, now).next_channel <= t.next_channel + 1,
        t.posted(d, now).next_message == t.next_message + 1,
        t.posted(d, now).next_scheduled == t.next_scheduled,
        t.posted(d, now).next_session == t.next_session,
{
    let ends = t.with_ends(d, now);
    let from = ends.agent_id(d.from);
    let first = ends.direct_recipients(ends.target_of(d.to), from);
    lemma_called_names(d.body);
    lemma_called_ids(ends, called_names(d.body), from, first, now);
}

/// What could be posted before a message was posted can be posted after it.
proof fn lemma_still_postable(t: TablesView, d: Draft, now: Timestamp, x: Draft)
    requires
        t.valid(),
        t.postable(d),
        t.posted(d, now).fits(),
        t.postable(x),
    ensures
        t.posted(d, now).postable(x),
{
    lemma_posted(t, d, now);
    let w = t.posted(d, now);
    assert(w.accepts_agent(x.from));
    match x.to {
        RecipientView::Agent(name) => {
            assert(w.accepts_agent(name));
        },
        RecipientView::Channel(name) => {
            assert(w.accepts_channel(name));
        },
        RecipientView::Broadcast => {},
    }
    match x.reply_to {
        Some(m) => {
            assert(w.has_message(m));
        },
        None => {},
    }
}

/// What can be posted does not depend on scheduled rows.
proof fn lemma_marked_postable(t: TablesView, id: i64, x: Draft)
    requires
        t.postable(x),
    ensures
        t.set_scheduled(id, ScheduledStatus::Delivered).postable(x),
{
    let u = t.set_scheduled(id, ScheduledStatus::Delivered);
    assert(u.agent_names() == t.agent_names() && u.channel_names() == t.channel_names());
    assert(u.message_ids() == t.message_ids());
}

/// The rows of a pass are those that are due.
pub proof fn lemma_due_rows(t: TablesView, now: Timestamp, s: ScheduledView)
    ensures
        due_rows(t, now).contains(s) <==> t.scheduled.contains(s) && is_due(now)(s),
{
    law_sorted(t.scheduled.filter(is_due(now)), due_time());
    lemma_filter_contains(t.scheduled, is_due(now), s);
}

proof fn lemma_settles_none(t: TablesView, rows: Seq<ScheduledView>, now: Timestamp)
    requires
        delivering(t, rows, now) is Ok,
    ensures
        delivering(t, rows, now)->Ok_0.0.scheduled.len() == t.scheduled.len(),
    decreases rows.len(),
{
    if rows.len() > 0 {
        lemma_settles_none(t, rows.drop_last(), now);
        let (v, done) = delivering(t, rows.drop_last(), now)->Ok_0;
        lemma_posted_scheduled(v, rows.last(), done, now);
    }
}

proof fn lemma_settles(t: TablesView, rows: Seq<ScheduledView>, now: Timestamp, k: int)
    requires
        delivering(t, rows, now) is Ok,
        0 <= k < t.scheduled.len(),
        forall|i: int|
            0 <= i < rows.len() && (#[trigger] rows[i]).id == t.scheduled[k].id ==> rows[i]
                == t.scheduled[k],
    ensures
        delivering(t, rows, now)->Ok_0.0.scheduled.len() == t.scheduled.len(),
        delivering(t, rows, now)->Ok_0.0.scheduled[k] == if rows.contains(t.scheduled[k]) {
            settled(t.scheduled[k])
        } else {
            t.scheduled[k]
        },
    decreases rows.len(),
{
    let before = t.scheduled[k];
    if rows.len() > 0 {
        let front = rows.drop_last();
        let row = rows.last();
        assert forall|i: int| 0 <= i < front.len() && (#[trigger] front[i]).id == before.id implies front[i]
            == before by {
            assert(rows[i] == front[i]);
        }
        lemma_settles(t, front, now, k);
        let (v, done) = delivering(t, front, now)->Ok_0;
        lemma_posted_scheduled(v, row, done, now);
        assert(rows[rows.len() - 1] == row);
        assert(rows.contains(before) <==> front.contains(before) || row == before) by {
            if front.contains(before) {
                let i = front.index_of(before);
                assert(rows[i] == before);
            }
            if rows.contains(before) && row != before {
                let i = rows.index_of(before);
                assert(front[i] == before);
            }
        }
    }
}

proof fn lemma_one_message_each(t: TablesView, rows: Seq<ScheduledView>, now: Timestamp)
    requires
        delivering(t, rows, now) is Ok,
    ensures
        delivering(t, rows, now)->Ok_0.1.len() == rows.filter(readable()).len(),
        delivering(t, rows, now)->Ok_0.0.next_message == t.next_message + delivering(
            t,
            rows,
            now,
        )->Ok_0.1.len(),
    decreases rows.len(),
{
    reveal(Seq::filter);
    if rows.len() > 0 {
        let front = rows.drop_last();
        lemma_one_message_each(t, front, now);
        let (v, done) = delivering(t, front, now)->Ok_0;
        match rows.last().payload {
            None => {},
            Some(p) => {
                lemma_post_ids(v, p.draft(), now);
            },
        }
    }
}

/// Delivering one row touches no scheduled row but that one.
proof fn lemma_posted_scheduled(
    v: TablesView,
    row: ScheduledView,
    done: Seq<DeliveredView>,
    now: Timestamp,
)
    requires
        delivering_one(v, done, row, now) is Ok,
    ensures
        delivering_one(v, done, row, now)->Ok_0.0.scheduled == v.set_scheduled(
            row.id,
            if row.payload is Some {
                ScheduledStatus::Delivered
            } else {
                ScheduledStatus::Failed
            },
        ).scheduled,
{
    match row.payload {
        None => {},
        Some(p) => {
            let d = p.draft();
            lemma_ends_keep_scheduled(v, d, now);
        },
    }
}

/// Posting leaves the scheduled rows alone.
proof fn lemma_ends_keep_scheduled(v: TablesView, d: Draft, now: Timestamp)
    ensures
        v.posted(d, now).scheduled == v.scheduled,
{
    let ends = v.with_ends(d, now);
    assert(v.with_agent(d.from, now).scheduled == v.scheduled);
    assert(ends.scheduled == v.scheduled);
    let from = ends.agent_id(d.from);
    let first = ends.direct_recipients(ends.target_of(d.to), from);
    lemma_called_keep_scheduled(ends, called_names(d.body), from, first, now);
}

proof fn lemma_called_keep_scheduled(
    t: TablesView,
    names: Seq<Seq<char>>,
    from: i64,
    first: Seq<i64>,
    now: Timestamp,
)
    ensures
        t.with_called(names, from, first, now).0.scheduled == t.scheduled,
    decreases names.len(),
{
    if names.len() > 0 {
        lemma_called_keep_scheduled(t, names.drop_last(), from, first, now);
    }
}

/// A scheduled message that was cancelled is not delivered, then or ever.
pub proof fn law_cancelled_is_not_delivered(
    t: TablesView,
    id: i64,
    who: Seq<char>,
    now: Timestamp,
    i: int,
)
    requires
        cancelling(t, id, who) is Ok,
        0 <= i < due_rows(cancelling(t, id, who)->Ok_0.0, now).len(),
    ensures
        due_rows(cancelling(t, id, who)->Ok_0.0, now)[i].id != id,
{
    let u = cancelling(t, id, who)->Ok_0.0;
    law_not_before_its_time(u, now, i);
    let row = due_rows(u, now)[i];
    let k = u.scheduled.index_of(row);
    assert(u.scheduled[k] == row);
    assert(t.scheduled[k].id == row.id);
}

/// A message that was scheduled is listed, to whoever scheduled it and to the operator, until
/// it is settled or cancelled.
pub proof fn law_scheduled_is_listed(
    t: TablesView,
    payload: PayloadView,
    deliver_at: Timestamp,
    now: Timestamp,
    who: Seq<char>,
)
    requires
        scheduling(t, payload, deliver_at, now) is Ok,
        who == payload.from || who == MASTER@,
    ensures
        ({
            let (u, id) = scheduling(t, payload, deliver_at, now)->Ok_0;
            u.scheduled.filter(is_shown(who)).map_values(shown()) == t.scheduled.filter(
                is_shown(who),
            ).map_values(shown()).push(
                ScheduledRowView {
                    id,
                    from: payload.from,
                    to: payload.to,
                    body: payload.body,
                    deliver_at,
                    created_at: now,
                },
            )
        }),
{
    let (u, id) = scheduling(t, payload, deliver_at, now)->Ok_0;
    let row = u.scheduled.last();
    let pred = is_shown(who);
    assert(u.scheduled == t.scheduled.push(row));
    t.scheduled.lemma_filter_push(row, pred);
    assert(pred(row));
    let before = t.scheduled.filter(pred);
    assert(before.push(row).map_values(shown()) =~= before.map_values(shown()).push(
        shown()(row),
    ));
}

/// A scheduled message that was cancelled is listed no longer, and cannot be cancelled again.
pub proof fn law_cancelled_is_gone(
    t: TablesView,
    id: i64,
    who: Seq<char>,
    other: Seq<char>,
    i: int,
)
    requires
        cancelling(t, id, who) is Ok,
    ensures
        ({
            let u = cancelling(t, id, who)->Ok_0.0;
            let list = u.scheduled.filter(is_shown(other)).map_values(shown());
            &&& 0 <= i < list.len() ==> list[i].id != id
            &&& cancelling(u, id, other) == Err::<(TablesView, ()), StoreError>(
                StoreError::NoScheduled(id),
            )
        }),
{
    let u = cancelling(t, id, who)->Ok_0.0;
    let rows = u.scheduled.filter(is_shown(other));
    assert forall|k: int| 0 <= k < u.scheduled.len() && (#[trigger] u.scheduled[k]).id
        == id implies u.scheduled[k].status == ScheduledStatus::Cancelled by {
        assert(t.scheduled[k].id == id);
    }
    if 0 <= i < rows.len() {
        assert(rows.contains(rows[i]));
        lemma_filter_contains(u.scheduled, is_shown(other), rows[i]);
        let k = u.scheduled.index_of(rows[i]);
        assert(u.scheduled[k] == rows[i]);
    }
}

/// Nobody but the operator can cancel a message that another scheduled.
pub proof fn law_cancel_is_for_owners(t: TablesView, id: i64, who: Seq<char>)
    requires
        who != MASTER@,
        forall|i: int|
            0 <= i < t.scheduled.len() && (#[trigger] t.scheduled[i]).id == id ==> match t.scheduled[i].payload {
                Some(p) => p.from != who,
                None => true,
            },
    ensures
        cancelling(t, id, who) == Err::<(TablesView, ()), StoreError>(StoreError::NoScheduled(id)),
{
}

// ---- retention and pruning ----

/// Retention drops a message if and only if it is older than so many days and everyone to
/// whom it was delivered has read it.
pub proof fn law_retention(t: TablesView, now: Timestamp, days: i64, m: MessageRowView)
    requires
        t.valid(),
        t.messages.contains(m),
    ensures
        cleaned(t, now, days).has_message(m.id) <==> m.created_at.at() >= cutoff(now, days)
            || !all_read(t, m.id),
{
    let pred = is_past(t, now, days);
    let ids = past_messages(t, now, days);
    let rows = t.messages.filter(pred);
    super::keeping::lemma_drop_messages(t, ids);
    let u = t.drop_messages(ids);
    let v = cleaned(t, now, days);
    assert(v.messages == u.messages);
    assert(v.has_message(m.id) == u.has_message(m.id));
    let i = t.messages.index_of(m);
    assert(t.messages[i] == m);
    assert(t.message_ids()[i] == m.id);
    lemma_filter_contains(t.messages, pred, m);
    if ids.contains(m.id) {
        let k = ids.index_of(m.id);
        assert(rows[k].id == m.id);
        assert(rows.contains(rows[k]));
        lemma_filter_contains(t.messages, pred, rows[k]);
        let j = t.messages.index_of(rows[k]);
        assert(t.message_ids()[j] == m.id);
        lemma_rising_unique(t.message_ids(), t.next_message, i);
        lemma_rising_unique(t.message_ids(), t.next_message, j);
    }
    if pred(m) {
        let k = rows.index_of(m);
        assert(ids[k] == m.id);
    }
}

/// Retention keeps every scheduled message that waits, and every session that is open.
pub proof fn law_retention_keeps_what_lives(
    t: TablesView,
    now: Timestamp,
    days: i64,
    s: ScheduledView,
    session: Session,
)
    requires
        t.valid(),
    ensures
        t.scheduled.contains(s) && s.status == ScheduledStatus::Pending ==> cleaned(
            t,
            now,
            days,
        ).scheduled.contains(s),
        t.sessions.contains(session) && session.ended_at is None ==> cleaned(
            t,
            now,
            days,
        ).sessions.contains(session),
{
    if t.scheduled.contains(s) && s.status == ScheduledStatus::Pending {
        let pred = is_done(now, days);
        let ids = past_scheduled(t, now, days);
        let rows = t.scheduled.filter(pred);
        if ids.contains(s.id) {
            let k = ids.index_of(s.id);
            assert(rows[k].id == s.id);
            assert(rows.contains(rows[k]));
            lemma_filter_contains(t.scheduled, pred, rows[k]);
            let i = t.scheduled.index_of(s);
            let j = t.scheduled.index_of(rows[k]);
            assert(t.scheduled_ids()[i] == s.id && t.scheduled_ids()[j] == s.id);
            lemma_rising_unique(t.scheduled_ids(), t.next_scheduled, i);
            lemma_rising_unique(t.scheduled_ids(), t.next_scheduled, j);
        }
        lemma_filter_contains(t.scheduled, |x: ScheduledView| !ids.contains(x.id), s);
    }
    if t.sessions.contains(session) && session.ended_at is None {
        let pred = is_over(now, days);
        let ids = past_sessions(t, now, days);
        let rows = t.sessions.filter(pred);
        if ids.contains(session.id) {
            let k = ids.index_of(session.id);
            assert(rows[k].id == session.id);
            assert(rows.contains(rows[k]));
            lemma_filter_contains(t.sessions, pred, rows[k]);
            let i = t.sessions.index_of(session);
            let j = t.sessions.index_of(rows[k]);
            assert(t.session_ids()[i] == session.id && t.session_ids()[j] == session.id);
            lemma_rising_unique(t.session_ids(), t.next_session, i);
            lemma_rising_unique(t.session_ids(), t.next_session, j);
        }
        lemma_filter_contains(t.sessions, |x: Session| !ids.contains(x.id), session);
    }
}

/// Retention leaves nothing for a second pass at the same time.
pub proof fn law_retention_is_done_once(t: TablesView, now: Timestamp, days: i64)
    requires
        t.valid(),
    ensures
        past_messages(cleaned(t, now, days), now, days).len() == 0,
        past_scheduled(cleaned(t, now, days), now, days).len() == 0,
        past_sessions(cleaned(t, now, days), now, days).len() == 0,
{
    let u = cleaned(t, now, days);
    let ids = past_messages(t, now, days);
    let keep = |m: MessageRowView| !ids.contains(m.id);
    let kept = t.messages.filter(keep);
    let again = u.messages.filter(is_past(u, now, days));
    if again.len() > 0 {
        let m = again[0];
        assert(again.contains(m));
        lemma_filter_contains(u.messages, is_past(u, now, days), m);
        let k = u.messages.index_of(m);
        assert(u.messages[k] == m);
        let row = kept[k];
        assert(row.id == m.id && row.created_at == m.created_at);
        assert(kept.contains(row));
        lemma_filter_contains(t.messages, keep, row);
        let here = |d: Delivery| !ids.contains(d.message);
        assert(u.deliveries == t.deliveries.filter(here));
        assert(all_read(t, m.id)) by {
            assert forall|i: int| 0 <= i < t.deliveries.len() && (
            #[trigger] t.deliveries[i]).message == m.id implies t.deliveries[i].read_at is Some by {
                let d = t.deliveries[i];
                assert(t.deliveries.contains(d));
                lemma_filter_contains(t.deliveries, here, d);
                let j = u.deliveries.index_of(d);
                assert(u.deliveries[j] == d);
            }
        }
        let past = t.messages.filter(is_past(t, now, days));
        lemma_filter_contains(t.messages, is_past(t, now, days), row);
        let j = past.index_of(row);
        assert(ids[j] == row.id);
    }
    let done = past_scheduled(t, now, days);
    let later = u.scheduled.filter(is_done(now, days));
    if later.len() > 0 {
        let x = later[0];
        assert(later.contains(x));
        lemma_filter_contains(u.scheduled, is_done(now, days), x);
        lemma_filter_contains(t.scheduled, |y: ScheduledView| !done.contains(y.id), x);
        lemma_filter_contains(t.scheduled, is_done(now, days), x);
        let j = t.scheduled.filter(is_done(now, days)).index_of(x);
        assert(done[j] == x.id);
    }
    let over = past_sessions(t, now, days);
    let ended = u.sessions.filter(is_over(now, days));
    if ended.len() > 0 {
        let x = ended[0];
        assert(ended.contains(x));
        lemma_filter_contains(u.sessions, is_over(now, days), x);
        lemma_filter_contains(t.sessions, |y: Session| !over.contains(y.id), x);
        lemma_filter_contains(t.sessions, is_over(now, days), x);
        let j = t.sessions.filter(is_over(now, days)).index_of(x);
        assert(over[j] == x.id);
    }
}

/// Once every open session was ended, none is open.
pub proof fn law_no_session_stays_open(t: TablesView, now: Timestamp)
    ensures
        t.end_all_sessions(now).sessions.filter(is_open()).len() == 0,
{
    let u = t.end_all_sessions(now);
    let rows = u.sessions.filter(is_open());
    if rows.len() > 0 {
        assert(rows.contains(rows[0]));
        lemma_filter_contains(u.sessions, is_open(), rows[0]);
        let k = u.sessions.index_of(rows[0]);
        assert(u.sessions[k].ended_at is Some);
    }
}

/// Retention drops no delivery that is unread, and neither agents nor channels nor memberships:
/// what waits in an inbox still waits.
pub proof fn law_retention_touches_no_inbox(
    t: TablesView,
    now: Timestamp,
    days: i64,
    d: Delivery,
)
    requires
        t.valid(),
    ensures
        cleaned(t, now, days).agents == t.agents,
        cleaned(t, now, days).channels == t.channels,
        cleaned(t, now, days).members == t.members,
        t.deliveries.contains(d) && d.read_at is None ==> cleaned(t, now, days).deliveries.contains(
            d,
        ),
{
    let pred = is_past(t, now, days);
    let ids = past_messages(t, now, days);
    let rows = t.messages.filter(pred);
    if t.deliveries.contains(d) && d.read_at is None {
        if ids.contains(d.message) {
            let k = ids.index_of(d.message);
            assert(rows[k].id == d.message);
            assert(rows.contains(rows[k]));
            lemma_filter_contains(t.messages, pred, rows[k]);
            assert(all_read(t, d.message));
            let i = t.deliveries.index_of(d);
            assert(t.deliveries[i] == d);
        }
        lemma_filter_contains(t.deliveries, |x: Delivery| !ids.contains(x.message), d);
    }
}

/// A daemon that starts on the tables of another goes on where that one stopped: agents and
/// channels, unread deliveries, scheduled messages that wait, and all messages that are recent
/// or unread are still there.
pub proof fn law_restart_loses_nothing(
    t: TablesView,
    now: Timestamp,
    m: MessageRowView,
    d: Delivery,
    s: ScheduledView,
)
    requires
        t.valid(),
    ensures
        started(t, now).agents == t.agents,
        started(t, now).channels == t.channels,
        t.messages.contains(m) && (m.created_at.at() >= cutoff(now, DEFAULT_RETENTION_DAYS)
            || !all_read(t, m.id)) ==> started(t, now).has_message(m.id),
        t.deliveries.contains(d) && d.read_at is None ==> started(t, now).deliveries.contains(d),
        t.scheduled.contains(s) && s.status == ScheduledStatus::Pending ==> started(
            t,
            now,
        ).scheduled.contains(s),
{
    let v = seeded(t, now);
    let w = v.end_all_sessions(now);
    let row = Membership {
        agent: t.agent_id(MASTER@),
        channel: t.channel_id(DEFAULT_CHANNEL@),
        joined_at: now,
    };
    assert(v == t.add_member(row));
    lemma_agent_named(t, MASTER@);
    lemma_channel_named(t, DEFAULT_CHANNEL@);
    super::keeping::lemma_add_member(t, row);
    super::keeping::lemma_end_all_sessions(v, now);
    assert(w.agents == t.agents && w.channels == t.channels);
    assert(w.agent_names() == t.agent_names() && w.channel_names() == t.channel_names());
    assert(w.valid());
    assert(w.messages == t.messages && w.deliveries == t.deliveries && w.scheduled == t.scheduled);
    assert(all_read(w, m.id) == all_read(t, m.id));
    law_retention_touches_no_inbox(w, now, DEFAULT_RETENTION_DAYS, d);
    if t.messages.contains(m) {
        law_retention(w, now, DEFAULT_RETENTION_DAYS, m);
    }
    if t.scheduled.contains(s) {
        let session = Session { id: 0, agent: 0, started_at: now, ended_at: Some(now) };
        law_retention_keeps_what_lives(w, now, DEFAULT_RETENTION_DAYS, s, session);
    }
}

/// Pruning drops an agent if and only if it was not seen for so many days, has no messages,
/// and is not the operator.
pub proof fn law_pruning(t: TablesView, now: Timestamp, days: i64, a: AgentView)
    requires
        t.valid(),
        t.agents.contains(a),
    ensures
        pruned(t, now, days).agents.contains(a) <==> a.last_seen.at() >= cutoff(now, days) || a.name
            == MASTER@ || has_mail(t, a.id),
{
    let pred = is_idle(t, now, days);
    let rows = idle_agents(t, now, days);
    let ids = rows.map_values(|x: AgentView| x.id);
    let keep = |x: AgentView| !ids.contains(x.id);
    lemma_filter_contains(t.agents, pred, a);
    lemma_filter_contains(t.agents, keep, a);
    let i = t.agents.index_of(a);
    assert(t.agent_ids()[i] == a.id);
    if ids.contains(a.id) {
        let k = ids.index_of(a.id);
        assert(rows[k].id == a.id);
        assert(rows.contains(rows[k]));
        lemma_filter_contains(t.agents, pred, rows[k]);
        let j = t.agents.index_of(rows[k]);
        assert(t.agent_ids()[j] == a.id);
        lemma_rising_unique(t.agent_ids(), t.next_agent, i);
        lemma_rising_unique(t.agent_ids(), t.next_agent, j);
    }
    if pred(a) {
        let k = rows.index_of(a);
        assert(ids[k] == a.id);
    }
}

/// Pruning leaves nobody for a second pass at the same time.
pub proof fn law_pruning_is_done_once(t: TablesView, now: Timestamp, days: i64)
    ensures
        idle_agents(pruned(t, now, days), now, days).len() == 0,
{
    let u = pruned(t, now, days);
    let ids = idle_agents(t, now, days).map_values(|x: AgentView| x.id);
    let again = idle_agents(u, now, days);
    if again.len() > 0 {
        let a = again[0];
        assert(again.contains(a));
        lemma_filter_contains(u.agents, is_idle(u, now, days), a);
        lemma_filter_contains(t.agents, |x: AgentView| !ids.contains(x.id), a);
        assert(u.messages == t.messages);
        assert(has_mail(u, a.id) == has_mail(t, a.id));
        lemma_filter_contains(t.agents, is_idle(t, now, days), a);
        let j = idle_agents(t, now, days).index_of(a);
        assert(ids[j] == a.id);
    }
}

// ---- opening again ----

/// Opening a store on the tables of an opened one adds nothing: what was stored is what is
/// found.
pub proof fn law_reopening_changes_nothing(t: TablesView, first: Timestamp, second: Timestamp)
    ensures
        seeded(seeded(t, first), second) == seeded(t, first),
{
    let u = if t.knows_agent(MASTER@) {
        t
    } else {
        t.add_agent(super::store::opening::master_row(t.next_agent as i64, first))
    };
    let v = u.with_channel(DEFAULT_CHANNEL@, first);
    let w = seeded(t, first);
    assert(u.knows_agent(MASTER@)) by {
        if !t.knows_agent(MASTER@) {
            assert(u.agent_names()[t.agents.len() as int] == MASTER@);
        }
    }
    assert(v.agents == u.agents);
    assert(v.knows_agent(MASTER@));
    assert(v.knows_channel(DEFAULT_CHANNEL@)) by {
        if !u.knows_channel(DEFAULT_CHANNEL@) {
            assert(v.channel_names()[u.channels.len() as int] == DEFAULT_CHANNEL@);
        }
    }
    let m = Membership {
        agent: v.agent_id(MASTER@),
        channel: v.channel_id(DEFAULT_CHANNEL@),
        joined_at: first,
    };
    assert(w == v.add_member(m));
    assert(w.agents == v.agents && w.channels == v.channels);
    assert(w.knows_agent(MASTER@) && w.knows_channel(DEFAULT_CHANNEL@));
    assert(w.agent_id(MASTER@) == m.agent && w.channel_id(DEFAULT_CHANNEL@) == m.channel);
    assert(w.is_member(m.agent, m.channel)) by {
        if !v.is_member(m.agent, m.channel) {
            assert(w.members[v.members.len() as int] == m);
        }
    }
}

} // verus!
