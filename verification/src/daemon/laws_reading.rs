//! What requests that read promise, in terms of the rows of the tables.

use vstd::prelude::*;
use vstd::seq_lib::*;

use crate::mentions::mentions;
use crate::proto::{DataView, MessageDeliveryView, MessageDetailView, Op};
use crate::text::{has_part, lower_text};
use crate::types::{MessageView, RecipientView};

use super::keeping::lemma_rising_unique;
use super::laws::{
    exchanged, law_dm_history_is_the_newest, law_dm_history_is_theirs, law_history_is_the_newest,
    law_search, lemma_agent_known, lemma_filter_contains, lemma_message_id, lemma_same_waiting,
    lemma_waiting_distinct, lemma_waiting_row,
};
use super::order::{law_sorted, sorted_by};
use super::posting::{lemma_agent_named, lemma_channel_named, lemma_with_agent};
use super::server::{handling, DaemonView, Handled, Reply, Surroundings};
use super::store::browse::{
    addressed_to, channel_history, deliveries_of, delivers, delivery_agent, detail_of, found,
    reading_dms, timeline,
};
use super::store::inbox::{fetching, ids_of, message_time};
use super::tables::{Delivery, MessageRowView, TablesView, Target};

verus! {

// ---- rows and what is read of them ----

/// Whether an agent has this id and this name.
pub open spec fn is_called(t: TablesView, id: i64, name: Seq<char>) -> bool {
    exists|i: int|
        0 <= i < t.agents.len() && (#[trigger] t.agents[i]).id == id && t.agents[i].name == name
}

/// Whether a channel has this id and this name.
pub open spec fn is_channel(t: TablesView, id: i64, name: Seq<char>) -> bool {
    exists|i: int|
        0 <= i < t.channels.len() && (#[trigger] t.channels[i]).id == id && t.channels[i].name
            == name
}

/// Whether a message is what a row holds, with names in place of ids.
pub open spec fn reads(t: TablesView, row: MessageRowView, m: MessageView) -> bool {
    &&& m.id == row.id
    &&& m.body == row.body
    &&& m.intent == row.intent
    &&& m.reply_to == row.reply_to
    &&& m.created_at == row.created_at
    &&& is_called(t, row.from, m.from)
    &&& match (row.target, m.to) {
        (Target::Agent(a), RecipientView::Agent(name)) => is_called(t, a, name),
        (Target::Channel(c), RecipientView::Channel(name)) => is_channel(t, c, name),
        (Target::Broadcast, RecipientView::Broadcast) => true,
        _ => false,
    }
}

/// The messages that were replied, if any were.
pub open spec fn messages_in(h: Handled) -> Seq<MessageView> {
    match h.reply {
        Reply::Now(Ok(DataView::Messages(list))) => list,
        _ => seq![],
    }
}

/// Whether a list holds what a row holds.
pub open spec fn lists(t: TablesView, list: Seq<MessageView>, row: MessageRowView) -> bool {
    exists|j: int| 0 <= j < list.len() && reads(t, row, #[trigger] list[j])
}

/// Whether a list holds a message with this id.
pub open spec fn lists_id(list: Seq<MessageView>, id: i64) -> bool {
    exists|j: int| 0 <= j < list.len() && (#[trigger] list[j]).id == id
}

/// Names and ids belong together.
pub proof fn lemma_is_called(t: TablesView, id: i64, name: Seq<char>)
    requires
        t.consistent(),
    ensures
        is_called(t, id, name) <==> t.knows_agent(name) && t.agent_id(name) == id,
        is_called(t, id, name) <==> t.has_agent(id) && t.agent_name(id) == name,
{
    if is_called(t, id, name) {
        let i = choose|i: int|
            0 <= i < t.agents.len() && (#[trigger] t.agents[i]).id == id && t.agents[i].name
                == name;
        assert(t.agent_names()[i] == name && t.agent_ids()[i] == id);
        let k = t.agent_names().index_of(name);
        assert(t.agent_names()[k] == t.agent_names()[i]);
        lemma_agent_named(t, name);
    }
    if t.knows_agent(name) && t.agent_id(name) == id {
        let k = t.agent_names().index_of(name);
        assert(t.agent_names()[k] == name);
        assert(t.agents[k].id == id && t.agents[k].name == name);
    }
    if t.has_agent(id) && t.agent_name(id) == name {
        lemma_agent_known(t, id);
    }
}

/// Names and ids belong together.
pub proof fn lemma_is_channel(t: TablesView, id: i64, name: Seq<char>)
    requires
        t.consistent(),
    ensures
        is_channel(t, id, name) <==> t.knows_channel(name) && t.channel_id(name) == id,
        is_channel(t, id, name) <==> t.has_channel(id) && t.channel_name(id) == name,
{
    if is_channel(t, id, name) {
        let i = choose|i: int|
            0 <= i < t.channels.len() && (#[trigger] t.channels[i]).id == id && t.channels[i].name
                == name;
        assert(t.channel_names()[i] == name && t.channel_ids()[i] == id);
        let k = t.channel_names().index_of(name);
        assert(t.channel_names()[k] == t.channel_names()[i]);
        lemma_channel_named(t, name);
    }
    if t.knows_channel(name) && t.channel_id(name) == id {
        let k = t.channel_names().index_of(name);
        assert(t.channel_names()[k] == name);
        assert(t.channels[k].id == id && t.channels[k].name == name);
    }
    if t.has_channel(id) && t.channel_name(id) == name {
        let i = t.channel_ids().index_of(id);
        assert(t.channel_ids()[i] == id);
        assert(t.channels[i].id == id && t.channels[i].name == name);
        let k = t.channel_names().index_of(name);
        assert(t.channel_names()[i] == name);
        assert(t.channel_names()[k] == t.channel_names()[i]);
    }
}

/// A stored row reads as it should.
pub proof fn lemma_reads(t: TablesView, row: MessageRowView)
    requires
        t.consistent(),
        t.messages.contains(row),
    ensures
        reads(t, row, t.message_of(row)),
{
    let k = t.messages.index_of(row);
    assert(t.messages[k] == row);
    assert(t.has_agent(row.from) && t.has_target(row.target));
    lemma_is_called(t, row.from, t.agent_name(row.from));
    match row.target {
        Target::Agent(a) => {
            lemma_is_called(t, a, t.agent_name(a));
        },
        Target::Channel(c) => {
            lemma_is_channel(t, c, t.channel_name(c));
        },
        Target::Broadcast => {},
    }
}

/// The row with an id is the only one with it.
pub proof fn lemma_row(t: TablesView, k: int)
    requires
        t.consistent(),
        0 <= k < t.messages.len(),
    ensures
        t.has_message(t.messages[k].id),
        t.message(t.messages[k].id) == t.messages[k],
        forall|j: int|
            0 <= j < t.messages.len() && (#[trigger] t.messages[j]).id == t.messages[k].id ==> j
                == k,
{
    assert(t.message_ids()[k] == t.messages[k].id);
    lemma_rising_unique(t.message_ids(), t.next_message, k);
    assert forall|j: int|
        0 <= j < t.messages.len() && (#[trigger] t.messages[j]).id == t.messages[k].id implies j
        == k by {
        assert(t.message_ids()[j] == t.messages[j].id);
        lemma_rising_unique(t.message_ids(), t.next_message, j);
    }
}

/// Names that are known stay with their ids when an agent is seen.
proof fn lemma_still_called(t: TablesView, name: Seq<char>, now: crate::clock::Timestamp, m: MessageRowView)
    requires
        t.valid(),
        t.knows_agent(name),
        t.fits(),
        t.messages.contains(m),
    ensures
        t.with_agent(name, now).message_of(m) == t.message_of(m),
{
    let w = t.with_agent(name, now);
    lemma_with_agent(t, name, now);
    let k = t.messages.index_of(m);
    assert(t.messages[k] == m);
    assert(t.has_agent(m.from) && t.has_target(m.target));
    assert(w.agent_name(m.from) == t.agent_name(m.from));
    match m.target {
        Target::Agent(a) => {
            assert(w.agent_name(a) == t.agent_name(a));
        },
        Target::Channel(c) => {
            assert(w.channel_name(c) == t.channel_name(c));
        },
        Target::Broadcast => {},
    }
}

// ---- the inbox ----

/// Whether a delivery is one that an inbox call of this agent asks for: it is the agent's, it
/// is unread and, where only mentions are asked for, its message is sent to the agent, or is
/// sent to a channel or to everyone and mentions the agent's name.
pub open spec fn asked_for(
    t: TablesView,
    d: Delivery,
    row: MessageRowView,
    who: Seq<char>,
    mentions_only: bool,
) -> bool {
    &&& is_called(t, d.agent, who)
    &&& d.read_at is None
    &&& !mentions_only || match row.target {
        Target::Agent(a) => is_called(t, a, who),
        Target::Channel(_) => mentions(row.body).contains(who),
        Target::Broadcast => mentions(row.body).contains(who),
    }
}

/// An inbox call of a known agent succeeds and returns at most 500 messages. A delivery that it
/// asks for is among them, with everything that its row holds, unless the 500 are all at least
/// as old; no delivery of the agent that it does not ask for is. What is returned is read from
/// then on, and no other delivery changes.
pub proof fn law_inbox_request(
    d: DaemonView,
    s: Surroundings,
    who: Seq<char>,
    wait_ms: Option<u64>,
    mentions_only: bool,
    i: int,
    k: int,
)
    requires
        d.tables.valid(),
        d.tables.fits(),
        d.tables.knows_agent(who),
        0 <= i < d.tables.deliveries.len(),
        0 <= k < d.tables.messages.len(),
        d.tables.deliveries[i].message == d.tables.messages[k].id,
    ensures
        ({
            let t = d.tables;
            let h = handling(d, s, who, (Op::Inbox { wait_ms, mentions_only }));
            let list = messages_in(h);
            let one = t.deliveries[i];
            let row = t.messages[k];
            let asked = asked_for(t, one, row, who, mentions_only);
            &&& !(h.reply matches Reply::Now(Err(_)))
            &&& list.len() <= 500
            &&& asked && list.len() < 500 ==> lists(t, list, row)
            &&& asked && !lists(t, list, row) ==> forall|j: int|
                0 <= j < list.len() ==> (#[trigger] list[j]).created_at.at() <= row.created_at.at()
            &&& is_called(t, one.agent, who) && lists_id(list, row.id) ==> asked
            &&& h.tables.deliveries.len() == t.deliveries.len()
            &&& h.tables.deliveries[i] == if is_called(t, one.agent, who) && lists_id(list, row.id) {
                Delivery { read_at: Some(s.now), ..one }
            } else {
                one
            }
            &&& h.tables.messages == t.messages
        }),
{
    let t = d.tables;
    let w = t.with_agent(who, s.now);
    lemma_with_agent(t, who, s.now);
    let agent = t.agent_id(who);
    assert(w.agent_id(who) == agent);
    let rows = w.waiting(agent, who, mentions_only);
    let sorted = sorted_by(rows, message_time());
    let batch = w.inbox_batch(agent, who, mentions_only);
    let h = handling(d, s, who, (Op::Inbox { wait_ms, mentions_only }));
    let list = messages_in(h);
    assert(fetching(t, who, mentions_only, s.now) is Ok);
    let got = fetching(t, who, mentions_only, s.now)->Ok_0.1;
    assert(list =~= got);
    law_sorted(rows, message_time());
    lemma_same_waiting(t, w, agent, who, mentions_only);
    let one = t.deliveries[i];
    let row = t.messages[k];
    lemma_row(t, k);
    lemma_is_called(t, one.agent, who);
    match row.target {
        Target::Agent(a) => {
            lemma_is_called(t, a, who);
        },
        _ => {},
    }
    lemma_waiting_row(t, agent, who, mentions_only, row);
    let asked = asked_for(t, one, row, who, mentions_only);
    assert(asked <==> t.waits(agent, who, mentions_only)(one));
    assert(t.messages.contains(row));
    lemma_still_called(t, who, s.now, row);
    lemma_reads(t, row);
    if asked {
        assert(rows.contains(row));
        assert(sorted.contains(row));
        let p = sorted.index_of(row);
        if p < batch.len() {
            assert(batch[p] == row);
            assert(list[p] == w.message_of(row));
        }
        if !lists(t, list, row) {
            assert forall|j: int| 0 <= j < list.len() implies (#[trigger] list[j]).created_at.at()
                <= row.created_at.at() by {
                assert(list[j] == w.message_of(batch[j]));
                assert(batch[j] == sorted[j]);
                assert(message_time()(sorted[j]) <= message_time()(sorted[p]));
            }
        }
    }
    assert(lists_id(list, row.id) <==> ids_of(batch).contains(row.id)) by {
        if lists_id(list, row.id) {
            let j = choose|j: int| 0 <= j < list.len() && (#[trigger] list[j]).id == row.id;
            assert(ids_of(batch)[j] == row.id);
        }
        if ids_of(batch).contains(row.id) {
            let j = ids_of(batch).index_of(row.id);
            assert(list[j].id == row.id);
        }
    }
    if is_called(t, one.agent, who) && lists_id(list, row.id) {
        let j = ids_of(batch).index_of(row.id);
        let m = batch[j];
        assert(m.id == row.id);
        assert(m == sorted[j] && sorted.contains(m));
        lemma_waiting_row(t, agent, who, mentions_only, m);
        assert(m == row);
        let q = choose|q: int|
            0 <= q < t.deliveries.len() && t.waits(agent, who, mentions_only)(
                #[trigger] t.deliveries[q],
            ) && t.message(t.deliveries[q].message) == m;
        assert(t.has_message(t.deliveries[q].message));
        lemma_message_id(t, t.deliveries[q].message);
        assert(t.deliveries[q].message == row.id && t.deliveries[q].agent == one.agent);
        assert(q == i) by {
            if q < i {
                assert(t.deliveries[q].message != t.deliveries[i].message || t.deliveries[q].agent
                    != t.deliveries[i].agent);
            } else if i < q {
                assert(t.deliveries[i].message != t.deliveries[q].message || t.deliveries[i].agent
                    != t.deliveries[q].agent);
            }
        }
    }
    assert(w.deliveries[i] == one);
}

/// Whatever an inbox call returns is an unread delivery of the agent, as its row holds it; each
/// message comes once, and the oldest comes first.
pub proof fn law_inbox_items(
    d: DaemonView,
    s: Surroundings,
    who: Seq<char>,
    wait_ms: Option<u64>,
    mentions_only: bool,
    j: int,
)
    requires
        d.tables.valid(),
        d.tables.fits(),
        d.tables.knows_agent(who),
        0 <= j < messages_in(handling(d, s, who, (Op::Inbox { wait_ms, mentions_only }))).len(),
    ensures
        ({
            let t = d.tables;
            let list = messages_in(handling(d, s, who, (Op::Inbox { wait_ms, mentions_only })));
            &&& exists|i: int, k: int|
                0 <= i < t.deliveries.len() && 0 <= k < t.messages.len() && (
                #[trigger] t.deliveries[i]).message == (#[trigger] t.messages[k]).id && asked_for(
                    t,
                    t.deliveries[i],
                    t.messages[k],
                    who,
                    mentions_only,
                ) && reads(t, t.messages[k], list[j])
            &&& forall|b: int|
                j < b < list.len() ==> (#[trigger] list[b]).id != list[j].id
                    && list[j].created_at.at() <= list[b].created_at.at()
        }),
{
    let t = d.tables;
    let w = t.with_agent(who, s.now);
    lemma_with_agent(t, who, s.now);
    let agent = t.agent_id(who);
    assert(w.agent_id(who) == agent);
    let rows = w.waiting(agent, who, mentions_only);
    let sorted = sorted_by(rows, message_time());
    let batch = w.inbox_batch(agent, who, mentions_only);
    let list = messages_in(handling(d, s, who, (Op::Inbox { wait_ms, mentions_only })));
    assert(list =~= fetching(t, who, mentions_only, s.now)->Ok_0.1);
    law_sorted(rows, message_time());
    lemma_same_waiting(t, w, agent, who, mentions_only);
    lemma_waiting_distinct(w, agent, who, mentions_only);
    let row = batch[j];
    assert(row == sorted[j] && sorted.contains(row));
    lemma_waiting_row(t, agent, who, mentions_only, row);
    let i = choose|i: int|
        0 <= i < t.deliveries.len() && t.waits(agent, who, mentions_only)(
            #[trigger] t.deliveries[i],
        ) && t.message(t.deliveries[i].message) == row;
    assert(t.has_message(t.deliveries[i].message));
    lemma_message_id(t, t.deliveries[i].message);
    let k = t.message_ids().index_of(row.id);
    assert(t.message_ids()[k] == row.id);
    assert(t.messages[k] == row);
    lemma_is_called(t, t.deliveries[i].agent, who);
    match row.target {
        Target::Agent(a) => {
            lemma_is_called(t, a, who);
        },
        _ => {},
    }
    assert(t.messages.contains(row));
    lemma_still_called(t, who, s.now, row);
    lemma_reads(t, row);
    assert(list[j] == w.message_of(row));
    assert(t.deliveries[i].message == t.messages[k].id);
    assert(asked_for(t, t.deliveries[i], t.messages[k], who, mentions_only));
    assert forall|b: int| j < b < list.len() implies (#[trigger] list[b]).id != list[j].id
        && list[j].created_at.at() <= list[b].created_at.at() by {
        assert(list[b] == w.message_of(batch[b]));
        assert(batch[b] == sorted[b]);
        assert(message_time()(sorted[j]) <= message_time()(sorted[b]));
        assert(sorted.contains(sorted[b]));
        lemma_waiting_row(t, agent, who, mentions_only, sorted[b]);
        lemma_waiting_row(t, agent, who, mentions_only, sorted[j]);
        if sorted[b].id == sorted[j].id {
            assert(sorted[b] == sorted[j]);
            lemma_sorted_distinct(rows);
        }
    }
}

/// Distinct rows stay distinct when they are sorted.
proof fn lemma_sorted_distinct(rows: Seq<MessageRowView>)
    requires
        rows.no_duplicates(),
    ensures
        sorted_by(rows, message_time()).no_duplicates(),
{
    broadcast use group_to_multiset_ensures;

    let sorted = sorted_by(rows, message_time());
    law_sorted(rows, message_time());
    rows.lemma_multiset_has_no_duplicates();
    sorted.lemma_multiset_has_no_duplicates_conv();
}

/// An empty inbox is waited for as long as was asked, up to five minutes; one that holds
/// something is answered at once.
pub proof fn law_inbox_wait(
    d: DaemonView,
    s: Surroundings,
    who: Seq<char>,
    wait_ms: Option<u64>,
    mentions_only: bool,
)
    requires
        d.tables.valid(),
        d.tables.fits(),
        d.tables.knows_agent(who),
    ensures
        ({
            let h = handling(d, s, who, (Op::Inbox { wait_ms, mentions_only }));
            let g = handling(d, s, who, (Op::Inbox { wait_ms: None, mentions_only }));
            &&& g.reply is Now
            &&& h.tables == g.tables
            &&& messages_in(h) == messages_in(g)
            &&& match (h.reply, wait_ms) {
                (Reply::Later(ms), Some(asked)) => messages_in(g).len() == 0 && 0 < ms <= asked
                    && ms <= 300000 && (ms == asked || ms == 300000),
                (Reply::Later(_), None) => false,
                (Reply::Now(_), Some(asked)) => messages_in(g).len() > 0 || asked == 0,
                (Reply::Now(_), None) => true,
            }
        }),
{
    lemma_with_agent(d.tables, who, s.now);
    assert(messages_in(handling(d, s, who, (Op::Inbox { wait_ms, mentions_only })))
        =~= messages_in(handling(d, s, who, (Op::Inbox { wait_ms: None, mentions_only }))));
}

// ---- search ----

/// A search within the limits succeeds and changes nothing. A stored message, whoever it is
/// addressed to, is found if and only if the query stands in its body, ASCII letters taken
/// without their case; where the limit is reached, what is left out is no newer than what is
/// found.
pub proof fn law_search_request(
    d: DaemonView,
    s: Surroundings,
    who: Seq<char>,
    query: String,
    limit: usize,
    k: int,
)
    requires
        d.tables.valid(),
        query@.len() <= 256,
        limit <= 1000,
        0 <= k < d.tables.messages.len(),
    ensures
        ({
            let t = d.tables;
            let h = handling(d, s, who, (Op::Search { query, limit }));
            let list = messages_in(h);
            let row = t.messages[k];
            let holds = has_part(lower_text(row.body), lower_text(query@));
            &&& h.reply matches Reply::Now(Ok(DataView::Messages(_)))
            &&& h.tables == t && h.event is None
            &&& list.len() <= limit
            &&& holds && list.len() < limit ==> lists(t, list, row)
            &&& holds && !lists(t, list, row) ==> forall|j: int|
                0 <= j < list.len() ==> (#[trigger] list[j]).created_at.at() >= row.created_at.at()
            &&& lists_id(list, row.id) ==> holds
        }),
{
    let t = d.tables;
    let rows = found(t, query@, limit as int);
    let list = messages_in(handling(d, s, who, (Op::Search { query, limit })));
    let row = t.messages[k];
    assert(list =~= t.messages_of(rows));
    assert(t.messages.contains(row));
    law_search(t, query@, limit as int, row, 0, 0);
    lemma_reads(t, row);
    lemma_row(t, k);
    if rows.contains(row) {
        let j = rows.index_of(row);
        assert(list[j] == t.message_of(row));
    } else if has_part(lower_text(row.body), lower_text(query@)) {
        assert forall|j: int| 0 <= j < list.len() implies (#[trigger] list[j]).created_at.at()
            >= row.created_at.at() by {
            assert(list[j] == t.message_of(rows[j]));
        }
    }
    if lists_id(list, row.id) {
        let j = choose|j: int| 0 <= j < list.len() && (#[trigger] list[j]).id == row.id;
        assert(list[j] == t.message_of(rows[j]));
        assert(rows.contains(rows[j]));
        law_search(t, query@, limit as int, rows[j], 0, 0);
        let q = t.messages.index_of(rows[j]);
        assert(t.messages[q].id == row.id);
        assert(q == k);
    }
}

/// Whatever a search finds is stored, and the newest comes first.
pub proof fn law_search_items(
    d: DaemonView,
    s: Surroundings,
    who: Seq<char>,
    query: String,
    limit: usize,
    j: int,
)
    requires
        d.tables.valid(),
        0 <= j < messages_in(handling(d, s, who, (Op::Search { query, limit }))).len(),
    ensures
        ({
            let t = d.tables;
            let list = messages_in(handling(d, s, who, (Op::Search { query, limit })));
            &&& exists|k: int|
                0 <= k < t.messages.len() && reads(t, #[trigger] t.messages[k], list[j])
            &&& forall|b: int|
                j <= b < list.len() ==> list[j].created_at.at() >= (
                #[trigger] list[b]).created_at.at()
        }),
{
    let t = d.tables;
    let rows = found(t, query@, limit as int);
    let list = messages_in(handling(d, s, who, (Op::Search { query, limit })));
    assert(list =~= t.messages_of(rows));
    assert(rows.contains(rows[j]));
    law_search(t, query@, limit as int, rows[j], 0, 0);
    lemma_reads(t, rows[j]);
    let k = t.messages.index_of(rows[j]);
    assert(reads(t, t.messages[k], list[j]));
    assert forall|b: int| j <= b < list.len() implies list[j].created_at.at() >= (
    #[trigger] list[b]).created_at.at() by {
        law_search(t, query@, limit as int, rows[j], j, b);
        assert(list[b] == t.message_of(rows[b]));
    }
}

/// A query of more than 256 characters and a limit over 1000 are refused.
pub proof fn law_search_limits(
    d: DaemonView,
    s: Surroundings,
    who: Seq<char>,
    query: String,
    limit: usize,
)
    ensures
        handling(d, s, who, (Op::Search { query, limit })).reply matches Reply::Now(Err(_)) <==>
            query@.len() > 256 || limit > 1000,
{
}

// ---- histories ----

/// Whether a row is a message to the channel of this name.
pub open spec fn goes_to(t: TablesView, row: MessageRowView, channel: Seq<char>) -> bool {
    row.target matches Target::Channel(c) && is_channel(t, c, channel)
}

/// The history of a channel is answered with the messages to it, and with no others: all of
/// them, or where the limit is reached those that are no older than the rest.
pub proof fn law_history_request(
    d: DaemonView,
    s: Surroundings,
    who: Seq<char>,
    channel: String,
    with: Option<String>,
    limit: usize,
    k: int,
)
    requires
        d.tables.valid(),
        limit <= 1000,
        0 <= k < d.tables.messages.len(),
    ensures
        ({
            let t = d.tables;
            let h = handling(d, s, who, (Op::History { channel: Some(channel), with, limit }));
            let list = messages_in(h);
            let row = t.messages[k];
            &&& h.reply matches Reply::Now(Ok(DataView::Messages(_)))
            &&& h.tables == t && h.event is None
            &&& list.len() <= limit
            &&& goes_to(t, row, channel@) && list.len() < limit ==> lists(t, list, row)
            &&& goes_to(t, row, channel@) && !lists(t, list, row) ==> forall|j: int|
                0 <= j < list.len() ==> (#[trigger] list[j]).created_at.at() >= row.created_at.at()
            &&& lists_id(list, row.id) ==> goes_to(t, row, channel@)
        }),
{
    let t = d.tables;
    let rows = channel_history(t, channel@, limit as int);
    let list = messages_in(
        handling(d, s, who, (Op::History { channel: Some(channel), with, limit })),
    );
    let row = t.messages[k];
    assert(list =~= t.messages_of(rows));
    assert(t.messages.contains(row));
    lemma_reads(t, row);
    lemma_row(t, k);
    match row.target {
        Target::Channel(c) => {
            lemma_is_channel(t, c, channel@);
        },
        _ => {},
    }
    if goes_to(t, row, channel@) {
        law_history_is_the_newest(t, channel@, limit as int, row);
        if rows.contains(row) {
            let j = rows.index_of(row);
            assert(list[j] == t.message_of(row));
        } else {
            assert forall|j: int| 0 <= j < list.len() implies (#[trigger] list[j]).created_at.at()
                >= row.created_at.at() by {
                assert(list[j] == t.message_of(rows[j]));
            }
        }
    }
    if lists_id(list, row.id) {
        let j = choose|j: int| 0 <= j < list.len() && (#[trigger] list[j]).id == row.id;
        lemma_history_row(t, channel@, limit as int, j);
        assert(list[j] == t.message_of(rows[j]));
        let q = t.messages.index_of(rows[j]);
        assert(t.messages[q].id == row.id);
        assert(q == k);
        lemma_is_channel(t, t.channel_id(channel@), channel@);
    }
}

proof fn lemma_history_row(t: TablesView, channel: Seq<char>, limit: int, j: int)
    requires
        limit >= 0,
        0 <= j < channel_history(t, channel, limit).len(),
    ensures
        t.knows_channel(channel),
        t.messages.contains(channel_history(t, channel, limit)[j]),
        channel_history(t, channel, limit)[j].target == Target::Channel(t.channel_id(channel)),
        channel_history(t, channel, limit).len() <= limit,
        forall|b: int|
            j <= b < channel_history(t, channel, limit).len() ==> channel_history(
                t,
                channel,
                limit,
            )[j].created_at.at() <= (#[trigger] channel_history(
                t,
                channel,
                limit,
            )[b]).created_at.at(),
{
    let pred = addressed_to(Target::Channel(t.channel_id(channel)));
    let all = timeline(t, pred);
    let rows = channel_history(t, channel, limit);
    law_sorted(t.messages.filter(pred), message_time());
    let start = all.len() - rows.len();
    assert(rows[j] == all[start + j]);
    assert(all.contains(rows[j]));
    lemma_filter_contains(t.messages, pred, rows[j]);
    assert forall|b: int| j <= b < rows.len() implies rows[j].created_at.at() <= (
    #[trigger] rows[b]).created_at.at() by {
        assert(rows[b] == all[start + b]);
        assert(message_time()(all[start + j]) <= message_time()(all[start + b]));
    }
}

/// Whatever is in the history of a channel is stored, and the oldest comes first.
pub proof fn law_history_items(
    d: DaemonView,
    s: Surroundings,
    who: Seq<char>,
    channel: String,
    with: Option<String>,
    limit: usize,
    j: int,
)
    requires
        d.tables.valid(),
        0 <= j < messages_in(
            handling(d, s, who, (Op::History { channel: Some(channel), with, limit })),
        ).len(),
    ensures
        ({
            let t = d.tables;
            let list = messages_in(
                handling(d, s, who, (Op::History { channel: Some(channel), with, limit })),
            );
            &&& exists|k: int|
                0 <= k < t.messages.len() && reads(t, #[trigger] t.messages[k], list[j])
            &&& forall|b: int|
                j <= b < list.len() ==> list[j].created_at.at() <= (
                #[trigger] list[b]).created_at.at()
        }),
{
    let t = d.tables;
    let rows = channel_history(t, channel@, limit as int);
    let list = messages_in(
        handling(d, s, who, (Op::History { channel: Some(channel), with, limit })),
    );
    assert(list =~= t.messages_of(rows));
    lemma_history_row(t, channel@, limit as int, j);
    lemma_reads(t, rows[j]);
    let k = t.messages.index_of(rows[j]);
    assert(reads(t, t.messages[k], list[j]));
    assert forall|b: int| j <= b < list.len() implies list[j].created_at.at() <= (
    #[trigger] list[b]).created_at.at() by {
        assert(list[b] == t.message_of(rows[b]));
    }
}

/// Whether a row is a message from one of two agents to the other.
pub open spec fn goes_between(
    t: TablesView,
    row: MessageRowView,
    a: Seq<char>,
    b: Seq<char>,
) -> bool {
    row.target matches Target::Agent(x) && ((is_called(t, row.from, a) && is_called(t, x, b)) || (
    is_called(t, row.from, b) && is_called(t, x, a)))
}

/// The history with an agent is answered with the messages between the caller and that agent,
/// and with no others: all of them, or where the limit is reached those that are no older than
/// the rest.
pub proof fn law_dm_history_request(
    d: DaemonView,
    s: Surroundings,
    who: Seq<char>,
    with: String,
    limit: usize,
    k: int,
)
    requires
        d.tables.valid(),
        d.tables.fits(),
        limit <= 1000,
        d.tables.knows_agent(who),
        d.tables.knows_agent(with@),
        0 <= k < d.tables.messages.len(),
    ensures
        ({
            let t = d.tables;
            let h = handling(d, s, who, (Op::History { channel: None, with: Some(with), limit }));
            let list = messages_in(h);
            let row = t.messages[k];
            &&& h.reply matches Reply::Now(Ok(DataView::Messages(_)))
            &&& list.len() <= limit
            &&& goes_between(t, row, who, with@) && list.len() < limit ==> lists(t, list, row)
            &&& goes_between(t, row, who, with@) && !lists(t, list, row) ==> forall|j: int|
                0 <= j < list.len() ==> (#[trigger] list[j]).created_at.at() >= row.created_at.at()
            &&& lists_id(list, row.id) ==> goes_between(t, row, who, with@)
            &&& forall|j: int, b: int|
                0 <= j <= b < list.len() ==> (#[trigger] list[j]).created_at.at() <= (
                #[trigger] list[b]).created_at.at()
        }),
{
    let t = d.tables;
    let b = with@;
    let list = messages_in(
        handling(d, s, who, (Op::History { channel: None, with: Some(with), limit })),
    );
    let u = t.with_agent(who, s.now).with_agent(b, s.now);
    let mid = t.with_agent(who, s.now);
    lemma_with_agent(t, who, s.now);
    assert(mid.knows_agent(b));
    lemma_with_agent(mid, b, s.now);
    assert(u.fits());
    assert(reading_dms(t, who, b, limit as int, s.now) is Ok);
    assert(list =~= reading_dms(t, who, b, limit as int, s.now)->Ok_0.1);
    let row = t.messages[k];
    assert(t.messages.contains(row));
    assert(t.has_agent(row.from) && t.has_target(row.target));
    lemma_reads(t, row);
    lemma_row(t, k);
    lemma_is_called(t, row.from, who);
    lemma_is_called(t, row.from, b);
    match row.target {
        Target::Agent(x) => {
            lemma_is_called(t, x, who);
            lemma_is_called(t, x, b);
        },
        _ => {},
    }
    assert(goes_between(t, row, who, b) <==> exchanged(t.message_of(row), who, b));
    if goes_between(t, row, who, b) {
        law_dm_history_is_the_newest(t, who, b, limit as int, s.now, row);
        if list.contains(t.message_of(row)) {
            let j = list.index_of(t.message_of(row));
            assert(reads(t, row, list[j]));
        }
    }
    if list.len() > 0 {
        law_dm_history_is_theirs(t, who, b, limit as int, s.now, 0);
    }
    if lists_id(list, row.id) {
        let j = choose|j: int| 0 <= j < list.len() && (#[trigger] list[j]).id == row.id;
        law_dm_history_is_theirs(t, who, b, limit as int, s.now, j);
        let all = t.messages_of(t.messages);
        let q = all.index_of(list[j]);
        assert(all[q] == t.message_of(t.messages[q]));
        assert(t.messages[q].id == row.id);
        assert(q == k);
    }
    assert forall|j: int, c: int| 0 <= j <= c < list.len() implies (
    #[trigger] list[j]).created_at.at() <= (#[trigger] list[c]).created_at.at() by {
        law_dm_history_is_theirs(t, who, b, limit as int, s.now, j);
    }
}

/// A history of neither a channel nor an agent, and a limit over 1000, are refused.
pub proof fn law_history_limits(
    d: DaemonView,
    s: Surroundings,
    who: Seq<char>,
    channel: Option<String>,
    limit: usize,
)
    ensures
        handling(d, s, who, (Op::History { channel, with: None, limit })).reply matches Reply::Now(
            Err(_),
        ) <==> limit > 1000 || channel is None,
{
}

// ---- one message ----

/// What is told of one message: what its row holds, and one item for each of its deliveries,
/// with the agent's name and the times of delivery and reading.
pub open spec fn details(t: TablesView, row: MessageRowView, m: MessageDetailView) -> bool {
    &&& reads(t, row, m.message)
    &&& m.deliveries.len() == t.deliveries.filter(|x: Delivery| x.message == row.id).len()
    &&& forall|i: int|
        0 <= i < t.deliveries.len() && (#[trigger] t.deliveries[i]).message == row.id ==> tells(
            t,
            m.deliveries,
            t.deliveries[i],
        )
    &&& forall|j: int|
        0 <= j < m.deliveries.len() ==> told_of(t, row.id, #[trigger] m.deliveries[j])
}

/// Whether an item tells of a delivery.
pub open spec fn item_of(t: TablesView, x: Delivery, item: MessageDeliveryView) -> bool {
    is_called(t, x.agent, item.agent) && item.delivered_at == x.delivered_at && item.read_at
        == x.read_at
}

pub open spec fn tells(t: TablesView, list: Seq<MessageDeliveryView>, x: Delivery) -> bool {
    exists|j: int| 0 <= j < list.len() && item_of(t, x, #[trigger] list[j])
}

pub open spec fn told_of(t: TablesView, id: i64, item: MessageDeliveryView) -> bool {
    exists|i: int|
        0 <= i < t.deliveries.len() && (#[trigger] t.deliveries[i]).message == id && item_of(
            t,
            t.deliveries[i],
            item,
        )
}

proof fn lemma_details(t: TablesView, row: MessageRowView)
    requires
        t.consistent(),
        t.messages.contains(row),
    ensures
        details(t, row, detail_of(t, row)),
{
    let m = detail_of(t, row);
    lemma_reads(t, row);
    let pred = delivers(row.id);
    assert(pred =~= |x: Delivery| x.message == row.id);
    let rows = t.deliveries.filter(pred);
    let sorted = sorted_by(rows, delivery_agent());
    law_sorted(rows, delivery_agent());
    assert(m.deliveries == deliveries_of(t, row.id));
    assert forall|i: int| 0 <= i < t.deliveries.len() && (#[trigger] t.deliveries[i]).message
        == row.id implies tells(t, m.deliveries, t.deliveries[i]) by {
        let x = t.deliveries[i];
        assert(t.deliveries.contains(x));
        lemma_filter_contains(t.deliveries, pred, x);
        assert(sorted.contains(x));
        let j = sorted.index_of(x);
        assert(t.has_agent(x.agent));
        lemma_is_called(t, x.agent, t.agent_name(x.agent));
        assert(item_of(t, x, m.deliveries[j]));
    }
    assert forall|j: int| 0 <= j < m.deliveries.len() implies told_of(
        t,
        row.id,
        #[trigger] m.deliveries[j],
    ) by {
        let x = sorted[j];
        assert(sorted.contains(x));
        lemma_filter_contains(t.deliveries, pred, x);
        let i = t.deliveries.index_of(x);
        assert(t.deliveries[i] == x);
        assert(t.has_agent(x.agent));
        lemma_is_called(t, x.agent, t.agent_name(x.agent));
        assert(item_of(t, t.deliveries[i], m.deliveries[j]));
    }
}

/// A message that is stored can be inspected: everything that its row and its deliveries hold
/// is told. One that is not stored cannot.
pub proof fn law_inspect_request(
    d: DaemonView,
    s: Surroundings,
    who: Seq<char>,
    message_id: i64,
)
    requires
        d.tables.valid(),
    ensures
        ({
            let t = d.tables;
            let h = handling(d, s, who, (Op::Inspect { message_id }));
            &&& h.tables == t && h.event is None
            &&& match h.reply {
                Reply::Now(Ok(DataView::MessageDetail(m))) => exists|k: int|
                    0 <= k < t.messages.len() && (#[trigger] t.messages[k]).id == message_id
                        && details(t, t.messages[k], m),
                Reply::Now(Err(_)) => forall|k: int|
                    0 <= k < t.messages.len() ==> (#[trigger] t.messages[k]).id != message_id,
                _ => false,
            }
        }),
{
    let t = d.tables;
    if t.has_message(message_id) {
        let k = t.message_ids().index_of(message_id);
        assert(t.message_ids()[k] == message_id);
        assert(t.messages[k].id == message_id);
        assert(t.messages.contains(t.messages[k]));
        lemma_details(t, t.messages[k]);
        assert(t.message(message_id) == t.messages[k]);
    } else {
        assert forall|k: int| 0 <= k < t.messages.len() implies (#[trigger] t.messages[k]).id
            != message_id by {
            assert(t.message_ids()[k] == t.messages[k].id);
        }
    }
}

/// The detailed history of a channel tells of the same messages as the plain one, in the same
/// order, with all their deliveries.
pub proof fn law_detailed_history_request(
    d: DaemonView,
    s: Surroundings,
    who: Seq<char>,
    channel: String,
    limit: usize,
)
    requires
        d.tables.valid(),
        limit <= 1000,
    ensures
        ({
            let t = d.tables;
            let plain = messages_in(
                handling(d, s, who, (Op::History { channel: Some(channel), with: None, limit })),
            );
            let h = handling(d, s, who, (Op::HistoryDetailed { channel, limit }));
            &&& h.tables == t
            &&& h.reply matches Reply::Now(Ok(DataView::MessagesDetailed(list))) && list.len()
                == plain.len() && forall|j: int|
                0 <= j < list.len() ==> (#[trigger] list[j]).message == plain[j] && exists|k: int|
                    0 <= k < t.messages.len() && details(t, #[trigger] t.messages[k], list[j])
        }),
{
    let t = d.tables;
    let rows = channel_history(t, channel@, limit as int);
    let plain = messages_in(
        handling(d, s, who, (Op::History { channel: Some(channel), with: None, limit })),
    );
    let list = rows.map_values(|m: MessageRowView| detail_of(t, m));
    assert(plain =~= t.messages_of(rows));
    assert forall|j: int| 0 <= j < list.len() implies (#[trigger] list[j]).message == plain[j]
        && exists|k: int| 0 <= k < t.messages.len() && details(t, #[trigger] t.messages[k], list[j]) by {
        lemma_history_row(t, channel@, limit as int, j);
        lemma_details(t, rows[j]);
        let k = t.messages.index_of(rows[j]);
        assert(details(t, t.messages[k], list[j]));
    }
}

} // verus!
