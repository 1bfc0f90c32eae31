//! Reading messages without marking them: histories, search and inspection.

use vstd::prelude::*;
use vstd::seq_lib::*;

use crate::clock::Timestamp;
use crate::proto::{MessageDelivery, MessageDeliveryView, MessageDetail, MessageDetailView,
    MessageWithDelivery};
use crate::text::{contains_part, has_part, lower_chars, lower_text, same};
use crate::types::{views, Message, MessageView};

use super::super::order::{
    at_most, by_key, last_of, law_sorted, lemma_sorted_map, sort_keyed, sorted_by, Keyed,
};
use super::super::posting::lemma_with_agent;
use super::super::tables::{Delivery, MessageRowView, TablesView, Target};
use super::inbox::{first_keyed, message_time};
use super::post::agent_fault;
use super::growth::lemma_seen;
use super::{kept, Store, StoreError};

verus! {

/// Whether a message is addressed to a target.
pub open spec fn addressed_to(target: Target) -> spec_fn(MessageRowView) -> bool {
    |m: MessageRowView| m.target == target
}

/// Whether one of two agents sent a message to the other.
pub open spec fn between(a: i64, b: i64) -> spec_fn(MessageRowView) -> bool {
    |m: MessageRowView|
        (m.from == a && m.target == Target::Agent(b)) || (m.from == b && m.target == Target::Agent(
            a,
        ))
}

/// Whether a message's body holds the query, ASCII letters taken without their case.
pub open spec fn matching(query: Seq<char>) -> spec_fn(MessageRowView) -> bool {
    |m: MessageRowView| has_part(lower_text(m.body), lower_text(query))
}

/// The messages that meet a condition, oldest first.
pub open spec fn timeline(t: TablesView, pred: spec_fn(MessageRowView) -> bool) -> Seq<
    MessageRowView,
> {
    sorted_by(t.messages.filter(pred), message_time())
}

/// The last messages to a channel, oldest first. A channel that is not known has none.
pub open spec fn channel_history(t: TablesView, channel: Seq<char>, limit: int) -> Seq<
    MessageRowView,
> {
    if t.knows_channel(channel) {
        last_of(timeline(t, addressed_to(Target::Channel(t.channel_id(channel)))), limit)
    } else {
        seq![]
    }
}

/// What the history of two agents gives: the last messages between them, oldest first. Both
/// count as seen.
pub open spec fn reading_dms(
    t: TablesView,
    a: Seq<char>,
    b: Seq<char>,
    limit: int,
    now: Timestamp,
) -> Result<(TablesView, Seq<MessageView>), StoreError> {
    match agent_fault(t, a) {
        Some(e) => Err(e),
        None => match agent_fault(t, b) {
            Some(e) => Err(e),
            None => {
                let u = t.with_agent(a, now).with_agent(b, now);
                let rows = last_of(timeline(u, between(u.agent_id(a), u.agent_id(b))), limit);
                kept(u, u.messages_of(rows))
            },
        },
    }
}

/// The messages that hold the query, newest first, up to the limit.
pub open spec fn found(t: TablesView, query: Seq<char>, limit: int) -> Seq<MessageRowView> {
    at_most(timeline(t, matching(query)).reverse(), limit)
}

/// Whom a delivery is for, in the order in which deliveries are shown.
pub open spec fn delivery_agent() -> spec_fn(Delivery) -> int {
    |d: Delivery| d.agent as int
}

/// Whether a delivery is one of this message.
pub open spec fn delivers(id: i64) -> spec_fn(Delivery) -> bool {
    |d: Delivery| d.message == id
}

/// The deliveries of a message as its readers see them, by ascending agent id.
pub open spec fn deliveries_of(t: TablesView, id: i64) -> Seq<MessageDeliveryView> {
    sorted_by(t.deliveries.filter(delivers(id)), delivery_agent()).map_values(
        |d: Delivery| delivery_of(t, d),
    )
}

/// A delivery as its readers see it.
pub open spec fn delivery_of(t: TablesView, d: Delivery) -> MessageDeliveryView {
    MessageDeliveryView {
        agent: t.agent_name(d.agent),
        delivered_at: d.delivered_at,
        read_at: d.read_at,
    }
}

/// A message with its deliveries.
pub open spec fn detail_of(t: TablesView, m: MessageRowView) -> MessageDetailView {
    MessageDetailView { message: t.message_of(m), deliveries: deliveries_of(t, m.id) }
}

impl Store {
    /// Sorts the places of messages by the messages' times.
    fn in_order(&self, keyed: &Vec<Keyed>) -> (out: Vec<Keyed>)
        requires
            forall|j: int|
                0 <= j < keyed@.len() ==> (#[trigger] keyed@[j]).at < self@.messages.len()
                    && keyed@[j].key == self@.messages[keyed@[j].at as int].created_at.at(),
        ensures
            out@.map_values(self.place()) == sorted_by(
                keyed@.map_values(self.place()),
                message_time(),
            ),
            forall|j: int|
                0 <= j < out@.len() ==> (#[trigger] out@[j]).at < self@.messages.len(),
    {
        let out = sort_keyed(keyed);
        proof {
            law_sorted(keyed@, by_key());
            lemma_sorted_map(keyed@, by_key(), self.place(), message_time());
            assert forall|j: int| 0 <= j < out@.len() implies (#[trigger] out@[j]).at
                < self@.messages.len() by {
                assert(out@.contains(out@[j]));
                let p = keyed@.index_of(out@[j]);
                assert(keyed@[p] == out@[j]);
            }
        }
        out
    }

    /// Where the messages to a target are, oldest first.
    fn places_to(&self, target: Target) -> (out: Vec<Keyed>)
        ensures
            out@.map_values(self.place()) == timeline(self@, addressed_to(target)),
            forall|j: int|
                0 <= j < out@.len() ==> (#[trigger] out@[j]).at < self@.messages.len(),
    {
        let ghost rows = self@.messages;
        let ghost pred = addressed_to(target);
        let mut keyed: Vec<Keyed> = Vec::new();
        let mut i: usize = 0;
        assert(rows.take(0).filter(pred) =~= seq![]) by {
            reveal(Seq::filter);
        }
        assert(keyed@.map_values(self.place()) =~= rows.take(0).filter(pred));
        while i < self.tables.messages.len()
            invariant
                rows == self@.messages,
                rows.len() == self.tables.messages@.len(),
                pred == addressed_to(target),
                i <= rows.len(),
                keyed@.map_values(self.place()) == rows.take(i as int).filter(pred),
                forall|j: int|
                    0 <= j < keyed@.len() ==> (#[trigger] keyed@[j]).at < rows.len()
                        && keyed@[j].key == rows[keyed@[j].at as int].created_at.at(),
            decreases rows.len() - i,
        {
            let m = &self.tables.messages[i];
            proof {
                assert(rows[i as int] == m@);
                rows.take(i as int).lemma_filter_push(m@, pred);
                assert(rows.take(i + 1) =~= rows.take(i as int).push(m@));
            }
            if m.target == target {
                let k = Keyed { key: m.created_at.instant(), at: i };
                let ghost done = keyed@;
                keyed.push(k);
                assert(keyed@.map_values(self.place()) =~= done.map_values(self.place()).push(m@));
            }
            i = i + 1;
        }
        assert(rows.take(i as int) =~= rows);
        self.in_order(&keyed)
    }

    /// Where the messages between two agents are, oldest first.
    fn places_between(&self, a: i64, b: i64) -> (out: Vec<Keyed>)
        ensures
            out@.map_values(self.place()) == timeline(self@, between(a, b)),
            forall|j: int|
                0 <= j < out@.len() ==> (#[trigger] out@[j]).at < self@.messages.len(),
    {
        let ghost rows = self@.messages;
        let ghost pred = between(a, b);
        let mut keyed: Vec<Keyed> = Vec::new();
        let mut i: usize = 0;
        assert(rows.take(0).filter(pred) =~= seq![]) by {
            reveal(Seq::filter);
        }
        assert(keyed@.map_values(self.place()) =~= rows.take(0).filter(pred));
        while i < self.tables.messages.len()
            invariant
                rows == self@.messages,
                rows.len() == self.tables.messages@.len(),
                pred == between(a, b),
                i <= rows.len(),
                keyed@.map_values(self.place()) == rows.take(i as int).filter(pred),
                forall|j: int|
                    0 <= j < keyed@.len() ==> (#[trigger] keyed@[j]).at < rows.len()
                        && keyed@[j].key == rows[keyed@[j].at as int].created_at.at(),
            decreases rows.len() - i,
        {
            let m = &self.tables.messages[i];
            proof {
                assert(rows[i as int] == m@);
                rows.take(i as int).lemma_filter_push(m@, pred);
                assert(rows.take(i + 1) =~= rows.take(i as int).push(m@));
            }
            if (m.from == a && m.target == Target::Agent(b)) || (m.from == b && m.target
                == Target::Agent(a)) {
                let k = Keyed { key: m.created_at.instant(), at: i };
                let ghost done = keyed@;
                keyed.push(k);
                assert(keyed@.map_values(self.place()) =~= done.map_values(self.place()).push(m@));
            }
            i = i + 1;
        }
        assert(rows.take(i as int) =~= rows);
        self.in_order(&keyed)
    }

    /// Where the messages that hold the query are, oldest first.
    fn places_matching(&self, query: &str) -> (out: Vec<Keyed>)
        ensures
            out@.map_values(self.place()) == timeline(self@, matching(query@)),
            forall|j: int|
                0 <= j < out@.len() ==> (#[trigger] out@[j]).at < self@.messages.len(),
    {
        let ghost rows = self@.messages;
        let ghost pred = matching(query@);
        let part = lower_chars(query);
        let mut keyed: Vec<Keyed> = Vec::new();
        let mut i: usize = 0;
        assert(rows.take(0).filter(pred) =~= seq![]) by {
            reveal(Seq::filter);
        }
        assert(keyed@.map_values(self.place()) =~= rows.take(0).filter(pred));
        while i < self.tables.messages.len()
            invariant
                rows == self@.messages,
                rows.len() == self.tables.messages@.len(),
                pred == matching(query@),
                part@ == lower_text(query@),
                i <= rows.len(),
                keyed@.map_values(self.place()) == rows.take(i as int).filter(pred),
                forall|j: int|
                    0 <= j < keyed@.len() ==> (#[trigger] keyed@[j]).at < rows.len()
                        && keyed@[j].key == rows[keyed@[j].at as int].created_at.at(),
            decreases rows.len() - i,
        {
            let m = &self.tables.messages[i];
            proof {
                assert(rows[i as int] == m@);
                rows.take(i as int).lemma_filter_push(m@, pred);
                assert(rows.take(i + 1) =~= rows.take(i as int).push(m@));
            }
            let body = lower_chars(m.body.as_str());
            if contains_part(&body, &part) {
                let k = Keyed { key: m.created_at.instant(), at: i };
                let ghost done = keyed@;
                keyed.push(k);
                assert(keyed@.map_values(self.place()) =~= done.map_values(self.place()).push(m@));
            }
            i = i + 1;
        }
        assert(rows.take(i as int) =~= rows);
        self.in_order(&keyed)
    }

    /// Where the last messages to a channel are, oldest first.
    fn channel_places(&self, channel: &str, limit: usize) -> (out: Vec<Keyed>)
        requires
            self@.consistent(),
        ensures
            out@.map_values(self.place()) == channel_history(self@, channel@, limit as int),
            forall|j: int|
                0 <= j < out@.len() ==> (#[trigger] out@[j]).at < self@.messages.len(),
    {
        match self.find_channel(channel) {
            Some(c) => {
                let all = self.places_to(Target::Channel(c));
                let out = last_keyed(&all, limit);
                assert(out@.map_values(self.place()) =~= last_of(
                    all@.map_values(self.place()),
                    limit as int,
                ));
                out
            },
            None => {
                let out: Vec<Keyed> = Vec::new();
                assert(out@.map_values(self.place()) =~= seq![]);
                out
            },
        }
    }

    /// The last messages to a channel, oldest first.
    pub fn history_channel(&self, channel_name: &str, limit: usize) -> (r: Vec<Message>)
        requires
            self.wf(),
        ensures
            views(r@) == self@.messages_of(
                channel_history(self@, channel_name@, limit as int),
            ),
    {
        let places = self.channel_places(channel_name, limit);
        self.messages_at(&places)
    }

    /// The last messages to a channel with their deliveries, oldest first.
    pub fn history_detailed(&self, channel_name: &str, limit: usize) -> (r: Vec<
        MessageWithDelivery,
    >)
        requires
            self.wf(),
        ensures
            views(r@) == channel_history(self@, channel_name@, limit as int).map_values(
                |m: MessageRowView| detail_of(self@, m),
            ),
    {
        let places = self.channel_places(channel_name, limit);
        let ghost rows = channel_history(self@, channel_name@, limit as int);
        let ghost detail = |m: MessageRowView| detail_of(self@, m);
        let ghost all = rows.map_values(detail);
        let mut r: Vec<MessageWithDelivery> = Vec::new();
        let mut i: usize = 0;
        assert(views(r@) =~= all.take(0));
        while i < places.len()
            invariant
                self.wf(),
                detail == (|m: MessageRowView| detail_of(self@, m)),
                rows == places@.map_values(self.place()),
                all == rows.map_values(detail),
                forall|j: int|
                    0 <= j < places@.len() ==> (#[trigger] places@[j]).at < self@.messages.len(),
                i <= places@.len(),
                views(r@) == all.take(i as int),
            decreases places@.len() - i,
        {
            let at = places[i].at;
            assert(places@[i as int].at < self@.messages.len());
            assert(rows[i as int] == self@.messages[at as int]);
            let message = self.message_at(at);
            let deliveries = self.deliveries_at(message.id);
            let item = MessageWithDelivery { message, deliveries };
            assert(item@ == all[i as int]);
            let ghost done = r@;
            r.push(item);
            i = i + 1;
            assert(views(r@) =~= views(done).push(item@));
            assert(views(r@) =~= all.take(i as int));
        }
        assert(all.take(i as int) =~= all);
        r
    }

    /// The deliveries of a message, by ascending agent id.
    fn deliveries_at(&self, id: i64) -> (r: Vec<MessageDelivery>)
        requires
            self@.consistent(),
        ensures
            views(r@) == deliveries_of(self@, id),
    {
        let ghost rows = self@.deliveries;
        let ghost pred = delivers(id);
        let ghost at = |k: Keyed| rows[k.at as int];
        let mut keyed: Vec<Keyed> = Vec::new();
        let mut i: usize = 0;
        assert(rows.take(0).filter(pred) =~= seq![]) by {
            reveal(Seq::filter);
        }
        assert(keyed@.map_values(at) =~= rows.take(0).filter(pred));
        while i < self.tables.deliveries.len()
            invariant
                rows == self.tables.deliveries@,
                pred == delivers(id),
                at == (|k: Keyed| rows[k.at as int]),
                i <= rows.len(),
                keyed@.map_values(at) == rows.take(i as int).filter(pred),
                forall|j: int|
                    0 <= j < keyed@.len() ==> (#[trigger] keyed@[j]).at < rows.len()
                        && keyed@[j].key == rows[keyed@[j].at as int].agent,
            decreases rows.len() - i,
        {
            let d = self.tables.deliveries[i];
            proof {
                rows.take(i as int).lemma_filter_push(d, pred);
                assert(rows.take(i + 1) =~= rows.take(i as int).push(d));
            }
            if d.message == id {
                let k = Keyed { key: d.agent as i128, at: i };
                let ghost done = keyed@;
                keyed.push(k);
                assert(keyed@.map_values(at) =~= done.map_values(at).push(d));
            }
            i = i + 1;
        }
        assert(rows.take(i as int) =~= rows);
        let sorted = sort_keyed(&keyed);
        proof {
            law_sorted(keyed@, by_key());
            lemma_sorted_map(keyed@, by_key(), at, delivery_agent());
            assert forall|j: int| 0 <= j < sorted@.len() implies (#[trigger] sorted@[j]).at
                < rows.len() by {
                assert(sorted@.contains(sorted@[j]));
                let p = keyed@.index_of(sorted@[j]);
                assert(keyed@[p] == sorted@[j]);
            }
        }
        let ghost all = deliveries_of(self@, id);
        let ghost list = sorted_by(rows.filter(pred), delivery_agent());
        assert(list == sorted@.map_values(at));
        let mut r: Vec<MessageDelivery> = Vec::new();
        let mut n: usize = 0;
        assert(views(r@) =~= all.take(0));
        while n < sorted.len()
            invariant
                self@.consistent(),
                rows == self@.deliveries,
                rows == self.tables.deliveries@,
                at == (|k: Keyed| rows[k.at as int]),
                list == sorted@.map_values(at),
                all == list.map_values(|d: Delivery| delivery_of(self@, d)),
                n <= sorted@.len(),
                views(r@) == all.take(n as int),
                forall|j: int| 0 <= j < sorted@.len() ==> (#[trigger] sorted@[j]).at < rows.len(),
            decreases sorted@.len() - n,
        {
            let k = sorted[n];
            let d = self.tables.deliveries[k.at];
            assert(self@.has_agent(rows[k.at as int].agent));
            let item = MessageDelivery {
                agent: self.name_of_agent(d.agent),
                delivered_at: d.delivered_at,
                read_at: d.read_at,
            };
            assert(list[n as int] == d);
            assert(all[n as int] == item@);
            let ghost done = r@;
            r.push(item);
            n = n + 1;
            assert(views(r@) =~= views(done).push(item@));
            assert(views(r@) =~= all.take(n as int));
        }
        assert(all.take(n as int) =~= all);
        r
    }

    /// The last messages between two agents, oldest first. Both count as seen.
    pub fn history_dm(&mut self, a: &str, b: &str, limit: usize, now: Timestamp) -> (r: Result<
        Vec<Message>,
        StoreError,
    >)
        requires
            old(self).wf(),
        ensures
            final(self).wf(),
            final(self).saved() == old(self).saved(),
            match r {
                Ok(messages) => reading_dms(old(self)@, a@, b@, limit as int, now) == Ok::<
                    (TablesView, Seq<MessageView>),
                    StoreError,
                >((final(self)@, views(messages@))),
                Err(e) => reading_dms(old(self)@, a@, b@, limit as int, now) == Err::<
                    (TablesView, Seq<MessageView>),
                    StoreError,
                >(e),
            },
            r is Err ==> *final(self) == *old(self),
    {
        match self.check_agent(a) {
            Some(e) => {
                return Err(e);
            },
            None => {},
        }
        match self.check_agent(b) {
            Some(e) => {
                return Err(e);
            },
            None => {},
        }
        let ghost t = self@;
        let one: bool = self.find_agent(a).is_none();
        let two: bool = self.find_agent(b).is_none() && !same(a, b);
        if (one || two) && self.tables.next_agent == i64::MAX || (one && two
            && self.tables.next_agent == i64::MAX - 1) {
            proof {
                lemma_both_seen(t, a@, b@, now);
            }
            return Err(StoreError::Full);
        }
        proof {
            lemma_both_seen(t, a@, b@, now);
            lemma_with_agent(t, a@, now);
        }
        let aid = self.see(a, now);
        let ghost u = self@;
        proof {
            assert(t.knows_agent(b@) ==> u.knows_agent(b@));
            lemma_with_agent(u, b@, now);
            assert(self@.knows_agent(a@));
        }
        let bid = self.see(b, now);
        assert(self@.agent_id(a@) == aid);
        let all = self.places_between(aid, bid);
        let places = last_keyed(&all, limit);
        assert(places@.map_values(self.place()) =~= last_of(
            all@.map_values(self.place()),
            limit as int,
        ));
        Ok(self.messages_at(&places))
    }

    /// The messages whose bodies hold the query, newest first.
    pub fn search_messages(&self, query: &str, limit: usize) -> (r: Vec<Message>)
        requires
            self.wf(),
        ensures
            views(r@) == self@.messages_of(found(self@, query@, limit as int)),
    {
        let all = self.places_matching(query);
        let back = reversed(&all);
        let places = first_keyed(&back, limit);
        proof {
            let rows = all@.map_values(self.place());
            assert(back@.map_values(self.place()) =~= rows.reverse());
            assert(places@.map_values(self.place()) =~= at_most(rows.reverse(), limit as int));
        }
        self.messages_at(&places)
    }

    /// A message with its deliveries.
    pub fn inspect(&self, message_id: i64) -> (r: Result<MessageDetail, StoreError>)
        requires
            self.wf(),
        ensures
            match r {
                Ok(detail) => self@.has_message(message_id) && detail@ == detail_of(
                    self@,
                    self@.message(message_id),
                ),
                Err(e) => !self@.has_message(message_id) && e == StoreError::NoMessage(message_id),
            },
    {
        match self.find_message(message_id) {
            Some(at) => {
                let message = self.message_at(at);
                let deliveries = self.deliveries_at(message_id);
                Ok(MessageDetail { message, deliveries })
            },
            None => Err(StoreError::NoMessage(message_id)),
        }
    }
}

/// How many ids seeing two agents uses up.
pub proof fn lemma_both_seen(t: TablesView, a: Seq<char>, b: Seq<char>, now: Timestamp)
    ensures
        t.with_agent(a, now).with_agent(b, now).next_agent == t.next_agent + (if t.knows_agent(a) {
            0int
        } else {
            1
        }) + (if t.knows_agent(b) || a == b {
            0int
        } else {
            1
        }),
{
    lemma_seen(t, a, now);
    assert(t.with_agent(a, now).knows_agent(b) <==> t.knows_agent(b) || a == b);
}

/// The last keyed positions, at most so many.
fn last_keyed(items: &Vec<Keyed>, n: usize) -> (out: Vec<Keyed>)
    ensures
        out@ == last_of(items@, n as int),
{
    let start: usize = if items.len() <= n {
        0
    } else {
        items.len() - n
    };
    let mut out: Vec<Keyed> = Vec::new();
    let mut i: usize = start;
    while i < items.len()
        invariant
            start <= i <= items@.len(),
            out@ == items@.subrange(start as int, i as int),
        decreases items@.len() - i,
    {
        out.push(items[i]);
        i = i + 1;
        assert(out@ =~= items@.subrange(start as int, i as int));
    }
    assert(out@ =~= last_of(items@, n as int));
    out
}

/// Keyed positions from the last to the first.
fn reversed(items: &Vec<Keyed>) -> (out: Vec<Keyed>)
    ensures
        out@ == items@.reverse(),
{
    let mut out: Vec<Keyed> = Vec::new();
    let mut i: usize = items.len();
    while i > 0
        invariant
            i <= items@.len(),
            out@ == items@.skip(i as int).reverse(),
        decreases i,
    {
        i = i - 1;
        out.push(items[i]);
        assert(out@ =~= items@.skip(i as int).reverse());
    }
    assert(items@.skip(0) =~= items@);
    out
}

} // verus!
