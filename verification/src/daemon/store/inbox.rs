//! Messages as their readers see them, and the inbox.

use vstd::prelude::*;
use vstd::seq_lib::*;

use crate::clock::Timestamp;
use crate::limits::INBOX_BATCH;
use crate::mentions::{extract_mentions, has_text, mentions};
use crate::types::{views, Message, MessageView, Recipient, RecipientView};

use super::super::keeping::{lemma_mark_read, lemma_same_people};
use super::super::order::{
    at_most, by_key, law_sorted, lemma_sorted_map, sort_keyed, sorted_by, Keyed,
};
use super::super::posting::lemma_with_agent;
use super::super::tables::{Delivery, MessageRowView, TablesView, Target};
use super::post::agent_fault;
use super::{kept, Store, StoreError};

verus! {

impl TablesView {
    /// The recipient that a target is.
    pub open spec fn recipient_of(self, target: Target) -> RecipientView {
        match target {
            Target::Agent(a) => RecipientView::Agent(self.agent_name(a)),
            Target::Channel(c) => RecipientView::Channel(self.channel_name(c)),
            Target::Broadcast => RecipientView::Broadcast,
        }
    }

    /// A message as its readers see it.
    pub open spec fn message_of(self, m: MessageRowView) -> MessageView {
        MessageView {
            id: m.id,
            from: self.agent_name(m.from),
            to: self.recipient_of(m.target),
            body: m.body,
            intent: m.intent,
            reply_to: m.reply_to,
            created_at: m.created_at,
        }
    }

    /// Messages as their readers see them.
    pub open spec fn messages_of(self, rows: Seq<MessageRowView>) -> Seq<MessageView> {
        rows.map_values(|m: MessageRowView| self.message_of(m))
    }

    /// Whether a message calls on an agent: it is sent to it, or mentions it and is sent to a
    /// channel or to everyone.
    pub open spec fn calls_on(self, m: MessageRowView, agent: i64, name: Seq<char>) -> bool {
        match m.target {
            Target::Agent(a) => a == agent,
            _ => mentions(m.body).contains(name),
        }
    }

    /// Whether a delivery waits in the agent's inbox.
    pub open spec fn waits(self, agent: i64, name: Seq<char>, mentions_only: bool) -> spec_fn(
        Delivery,
    ) -> bool {
        |d: Delivery|
            d.agent == agent && d.read_at is None && (!mentions_only || self.calls_on(
                self.message(d.message),
                agent,
                name,
            ))
    }

    /// The messages that wait in the agent's inbox, by ascending id.
    pub open spec fn waiting(self, agent: i64, name: Seq<char>, mentions_only: bool) -> Seq<
        MessageRowView,
    > {
        self.deliveries.filter(self.waits(agent, name, mentions_only)).map_values(
            |d: Delivery| self.message(d.message),
        )
    }

    /// The messages that one inbox call returns: the oldest of those that wait, up to the
    /// limit.
    pub open spec fn inbox_batch(self, agent: i64, name: Seq<char>, mentions_only: bool) -> Seq<
        MessageRowView,
    > {
        at_most(
            sorted_by(self.waiting(agent, name, mentions_only), message_time()),
            INBOX_BATCH as int,
        )
    }
}

/// When a message was sent.
pub open spec fn message_time() -> spec_fn(MessageRowView) -> int {
    |m: MessageRowView| m.created_at.at()
}

/// The ids of messages.
pub open spec fn ids_of(rows: Seq<MessageRowView>) -> Seq<i64> {
    rows.map_values(|m: MessageRowView| m.id)
}

/// What fetching an inbox gives: the tables with the messages that it returns read, and
/// these messages.
pub open spec fn fetching(
    t: TablesView,
    name: Seq<char>,
    mentions_only: bool,
    now: Timestamp,
) -> Result<(TablesView, Seq<MessageView>), StoreError> {
    match agent_fault(t, name) {
        Some(e) => Err(e),
        None => {
            let u = t.with_agent(name, now);
            let agent = u.agent_id(name);
            let batch = u.inbox_batch(agent, name, mentions_only);
            kept(u.mark_read(agent, ids_of(batch), now), u.messages_of(batch))
        },
    }
}

impl Store {
    /// The message at a position, as its readers see it.
    pub(super) fn message_at(&self, i: usize) -> (r: Message)
        requires
            self@.consistent(),
            i < self.tables.messages@.len(),
        ensures
            r@ == self@.message_of(self@.messages[i as int]),
    {
        let m = &self.tables.messages[i];
        assert(self@.messages[i as int] == m@);
        assert(self@.has_agent(m@.from) && self@.has_target(m@.target));
        let to = match m.target {
            Target::Agent(a) => Recipient::Agent(self.name_of_agent(a)),
            Target::Channel(c) => Recipient::Channel(self.name_of_channel(c)),
            Target::Broadcast => Recipient::Broadcast,
        };
        Message {
            id: m.id,
            from: self.name_of_agent(m.from),
            to,
            body: m.body.clone(),
            intent: m.intent,
            reply_to: m.reply_to,
            created_at: m.created_at,
        }
    }

    /// The messages at some positions, as their readers see them.
    pub(super) fn messages_at(&self, places: &Vec<Keyed>) -> (r: Vec<Message>)
        requires
            self@.consistent(),
            forall|j: int|
                0 <= j < places@.len() ==> (#[trigger] places@[j]).at < self@.messages.len(),
        ensures
            views(r@) == self@.messages_of(places@.map_values(self.place())),
    {
        let ghost rows = places@.map_values(self.place());
        let ghost all = self@.messages_of(rows);
        let mut r: Vec<Message> = Vec::new();
        let mut i: usize = 0;
        assert(views(r@) =~= all.take(0));
        while i < places.len()
            invariant
                self@.consistent(),
                forall|j: int|
                    0 <= j < places@.len() ==> (#[trigger] places@[j]).at < self@.messages.len(),
                rows == places@.map_values(self.place()),
                all == self@.messages_of(rows),
                i <= places@.len(),
                views(r@) == all.take(i as int),
            decreases places@.len() - i,
        {
            let at = places[i].at;
            assert(places@[i as int].at < self@.messages.len());
            let m = self.message_at(at);
            assert(rows[i as int] == self@.messages[at as int]);
            assert(all[i as int] == m@);
            let ghost done = r@;
            r.push(m);
            i = i + 1;
            assert(views(r@) =~= views(done).push(m@));
            assert(views(r@) =~= all.take(i as int));
        }
        assert(all.take(i as int) =~= all);
        r
    }

    /// The message at a keyed position.
    pub(super) open spec fn place(&self) -> spec_fn(Keyed) -> MessageRowView {
        let rows = self@.messages;
        |k: Keyed| rows[k.at as int]
    }

    /// Where the messages of the inbox batch are.
    fn batch_places(&self, agent: i64, name: &str, mentions_only: bool) -> (out: Vec<Keyed>)
        requires
            self@.consistent(),
        ensures
            out@.map_values(self.place()) == self@.inbox_batch(agent, name@, mentions_only),
            forall|j: int|
                0 <= j < out@.len() ==> (#[trigger] out@[j]).at < self@.messages.len(),
    {
        let ghost rows = self@.deliveries;
        let ghost pred = self@.waits(agent, name@, mentions_only);
        let ghost message = |d: Delivery| self@.message(d.message);
        let mut keyed: Vec<Keyed> = Vec::new();
        let mut i: usize = 0;
        assert(rows.take(0).filter(pred) =~= seq![]) by {
            reveal(Seq::filter);
        }
        assert(keyed@.map_values(self.place()) =~= rows.take(0).filter(pred).map_values(message));
        while i < self.tables.deliveries.len()
            invariant
                self@.consistent(),
                rows == self@.deliveries,
                rows == self.tables.deliveries@,
                pred == self@.waits(agent, name@, mentions_only),
                message == (|d: Delivery| self@.message(d.message)),
                i <= rows.len(),
                keyed@.map_values(self.place()) == rows.take(i as int).filter(pred).map_values(
                    message,
                ),
                forall|j: int|
                    0 <= j < keyed@.len() ==> (#[trigger] keyed@[j]).at < self@.messages.len()
                        && keyed@[j].key == self@.messages[keyed@[j].at as int].created_at.at(),
            decreases rows.len() - i,
        {
            let d = self.tables.deliveries[i];
            let ghost before = rows.take(i as int).filter(pred);
            proof {
                assert(self@.has_message(rows[i as int].message));
                rows.take(i as int).lemma_filter_push(d, pred);
                assert(rows.take(i + 1) =~= rows.take(i as int).push(d));
                assert(before.push(d).map_values(message) =~= before.map_values(message).push(
                    message(d),
                ));
            }
            if d.agent == agent && d.read_at.is_none() {
                match self.find_message(d.message) {
                    Some(at) => {
                        let m = &self.tables.messages[at];
                        assert(self@.messages[at as int] == m@);
                        let called: bool = if mentions_only {
                            match m.target {
                                Target::Agent(a) => a == agent,
                                _ => {
                                    let names = extract_mentions(m.body.as_str());
                                    has_text(&names, name)
                                },
                            }
                        } else {
                            true
                        };
                        if called {
                            let k = Keyed { key: m.created_at.instant(), at };
                            let ghost done = keyed@;
                            keyed.push(k);
                            assert(keyed@.map_values(self.place()) =~= done.map_values(
                                self.place(),
                            ).push(m@));
                        }
                    },
                    None => {},
                }
            }
            i = i + 1;
        }
        assert(rows.take(i as int) =~= rows);
        let sorted = sort_keyed(&keyed);
        proof {
            law_sorted(keyed@, by_key());
            lemma_sorted_map(keyed@, by_key(), self.place(), message_time());
            assert forall|j: int| 0 <= j < sorted@.len() implies (#[trigger] sorted@[j]).at
                < self@.messages.len() by {
                assert(sorted@.contains(sorted@[j]));
                let p = keyed@.index_of(sorted@[j]);
                assert(keyed@[p] == sorted@[j]);
            }
        }
        let out = first_keyed(&sorted, INBOX_BATCH);
        proof {
            let all = sorted@.map_values(self.place());
            assert(out@.map_values(self.place()) =~= at_most(all, INBOX_BATCH as int));
        }
        out
    }

    /// Returns the oldest messages that wait in the agent's inbox, oldest first, and marks
    /// exactly these as read. The rest waits for the next call.
    pub fn fetch_inbox(&mut self, agent_name: &str, mentions_only: bool, now: Timestamp) -> (r:
        Result<Vec<Message>, StoreError>)
        requires
            old(self).wf(),
        ensures
            final(self).wf(),
            final(self).saved() == old(self).saved(),
            match r {
                Ok(messages) => fetching(old(self)@, agent_name@, mentions_only, now) == Ok::<
                    (TablesView, Seq<MessageView>),
                    StoreError,
                >((final(self)@, views(messages@))),
                Err(e) => fetching(old(self)@, agent_name@, mentions_only, now) == Err::<
                    (TablesView, Seq<MessageView>),
                    StoreError,
                >(e),
            },
            r is Err ==> *final(self) == *old(self),
    {
        match self.check_agent(agent_name) {
            Some(e) => {
                return Err(e);
            },
            None => {},
        }
        if !self.has_agent_id(agent_name) {
            return Err(StoreError::Full);
        }
        proof {
            lemma_with_agent(self@, agent_name@, now);
        }
        let agent = self.see(agent_name, now);
        let ghost u = self@;
        let places = self.batch_places(agent, agent_name, mentions_only);
        let messages = self.messages_at(&places);
        let ghost batch = u.inbox_batch(agent, agent_name@, mentions_only);
        let mut ids: Vec<i64> = Vec::new();
        let mut i: usize = 0;
        assert(ids@ =~= ids_of(batch).take(0));
        while i < messages.len()
            invariant
                views(messages@) == u.messages_of(batch),
                i <= messages@.len(),
                ids@ == ids_of(batch).take(i as int),
            decreases messages@.len() - i,
        {
            assert(messages@.len() == views(messages@).len() == batch.len());
            assert(messages@[i as int]@ == views(messages@)[i as int]);
            assert(u.messages_of(batch)[i as int] == u.message_of(batch[i as int]));
            assert(ids_of(batch)[i as int] == messages@[i as int].id);
            ids.push(messages[i].id);
            i = i + 1;
            assert(ids@ =~= ids_of(batch).take(i as int));
        }
        assert(views(messages@).len() == batch.len());
        assert(ids_of(batch).take(i as int) =~= ids_of(batch));
        proof {
            lemma_mark_read(u, agent, ids@, now);
        }
        self.mark_read(agent, &ids, now);
        proof {
            lemma_same_people(u, self@);
        }
        Ok(messages)
    }
}

/// The first keyed positions, at most so many.
pub(super) fn first_keyed(items: &Vec<Keyed>, n: usize) -> (out: Vec<Keyed>)
    ensures
        out@ == at_most(items@, n as int),
{
    let mut out: Vec<Keyed> = Vec::new();
    let mut i: usize = 0;
    while i < items.len() && i < n
        invariant
            i <= items@.len(),
            i <= n,
            out@ == items@.take(i as int),
        decreases items@.len() - i,
    {
        out.push(items[i]);
        i = i + 1;
        assert(out@ =~= items@.take(i as int));
    }
    assert(out@ =~= at_most(items@, n as int));
    out
}

} // verus!
