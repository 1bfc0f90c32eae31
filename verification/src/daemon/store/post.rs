//! Seeing agents, opening channels, sending and scheduling.

use vstd::prelude::*;
use vstd::seq_lib::*;

use crate::clock::Timestamp;
use crate::limits::{name_fault, valid_name, validate_name, DEFAULT_CHANNEL, MAX_MENTIONS};
use crate::mentions::{extract_mentions, mentions};
use crate::types::{texts, Intent, Recipient, RecipientView};

use super::super::keeping::lemma_add_agent;
use super::super::posting::{
    called_names, grown, lemma_addressed, lemma_called_names, lemma_direct_recipients, lemma_posted,
    lemma_with_agent, lemma_with_called, lemma_with_channel, lemma_with_ends, other_than, Draft,
};
use super::super::tables::{
    AgentRow, ChannelRow, Membership, MessageRow, TablesView, Target,
};
use super::growth::Growth;
use super::{beside, has_id, kept, Store, StoreError};

verus! {

/// Why an agent of this name is refused, if it is.
pub open spec fn agent_fault(t: TablesView, name: Seq<char>) -> Option<StoreError> {
    if t.knows_agent(name) {
        None
    } else {
        match name_fault(name) {
            Some(e) => Some(StoreError::Name(e)),
            None => None,
        }
    }
}

/// Why a channel of this name is refused, if it is.
pub open spec fn channel_fault(t: TablesView, name: Seq<char>) -> Option<StoreError> {
    if t.knows_channel(name) {
        None
    } else {
        match name_fault(name) {
            Some(e) => Some(StoreError::Name(e)),
            None => None,
        }
    }
}

/// Why a draft is refused, if it is.
pub open spec fn draft_fault(t: TablesView, d: Draft) -> Option<StoreError> {
    match agent_fault(t, d.from) {
        Some(e) => Some(e),
        None => match recipient_fault(t, d.to) {
            Some(e) => Some(e),
            None => if t.has_reply(d.reply_to) {
                None
            } else {
                Some(StoreError::UnknownReply)
            },
        },
    }
}

/// Why a recipient is refused, if it is.
pub open spec fn recipient_fault(t: TablesView, to: RecipientView) -> Option<StoreError> {
    match to {
        RecipientView::Agent(name) => agent_fault(t, name),
        RecipientView::Channel(name) => channel_fault(t, name),
        RecipientView::Broadcast => None,
    }
}

impl Store {
    /// Sees the agent of this name, and gives its id.
    pub(super) fn see(&mut self, name: &str, now: Timestamp) -> (id: i64)
        requires
            old(self).wf(),
            old(self)@.accepts_agent(name@),
            old(self)@.with_agent(name@, now).next_agent <= i64::MAX,
        ensures
            final(self).wf(),
            final(self)@ == old(self)@.with_agent(name@, now),
            final(self).saved() == old(self).saved(),
            id == final(self)@.agent_id(name@),
    {
        proof {
            lemma_with_agent(self@, name@, now);
        }
        match self.find_agent(name) {
            Some(id) => {
                self.see_agent(id, now);
                proof {
                    assert(grown(old(self)@, self@));
                }
                id
            },
            None => {
                let id = self.tables.next_agent;
                let general = self.find_channel(DEFAULT_CHANNEL);
                let row = AgentRow {
                    id,
                    name: name.to_owned(),
                    display_name: None,
                    first_seen: now,
                    last_seen: now,
                };
                proof {
                    lemma_add_agent(self@, row@);
                }
                self.add_agent(row);
                match general {
                    Some(channel) => {
                        self.add_member(Membership { agent: id, channel, joined_at: now });
                    },
                    None => {},
                }
                assert(self@ == old(self)@.with_agent(name@, now));
                assert(self@.agents == old(self)@.add_agent(row@).agents);
                id
            },
        }
    }

    /// Opens the channel of this name, and gives its id.
    pub(super) fn open_channel(&mut self, name: &str, now: Timestamp) -> (id: i64)
        requires
            old(self).wf(),
            old(self)@.accepts_channel(name@),
            old(self)@.with_channel(name@, now).next_channel <= i64::MAX,
        ensures
            final(self).wf(),
            final(self)@ == old(self)@.with_channel(name@, now),
            final(self).saved() == old(self).saved(),
            id == final(self)@.channel_id(name@),
    {
        proof {
            lemma_with_channel(self@, name@, now);
        }
        match self.find_channel(name) {
            Some(id) => id,
            None => {
                let id = self.tables.next_channel;
                let row = ChannelRow { id, name: name.to_owned(), created_at: now };
                proof {
                    super::super::keeping::lemma_add_channel(self@, row@);
                }
                self.add_channel(row);
                id
            },
        }
    }

    /// Why an agent of this name is refused, if it is.
    pub(super) fn check_agent(&self, name: &str) -> (r: Option<StoreError>)
        requires
            self@.consistent(),
        ensures
            r == agent_fault(self@, name@),
            r is None <==> self@.accepts_agent(name@),
    {
        match self.find_agent(name) {
            Some(_) => None,
            None => match validate_name(name) {
                Ok(_) => None,
                Err(e) => Some(StoreError::Name(e)),
            },
        }
    }

    /// Why a channel of this name is refused, if it is.
    pub(super) fn check_channel(&self, name: &str) -> (r: Option<StoreError>)
        requires
            self@.consistent(),
        ensures
            r == channel_fault(self@, name@),
            r is None <==> self@.accepts_channel(name@),
    {
        match self.find_channel(name) {
            Some(_) => None,
            None => match validate_name(name) {
                Ok(_) => None,
                Err(e) => Some(StoreError::Name(e)),
            },
        }
    }

    /// Makes sure that there is an agent of this name, and gives its id. It counts as seen
    /// now. One that was not known joins the default channel.
    pub fn ensure_agent(&mut self, name: &str, now: Timestamp) -> (r: Result<i64, StoreError>)
        requires
            old(self).wf(),
        ensures
            final(self).wf(),
            final(self).saved() == old(self).saved(),
            beside(final(self)@, r) == seeing(old(self)@, name@, now),
            r is Err ==> *final(self) == *old(self),
    {
        match self.check_agent(name) {
            Some(e) => Err(e),
            None => if self.has_agent_id(name) {
                Ok(self.see(name, now))
            } else {
                Err(StoreError::Full)
            },
        }
    }
}

/// The mentions of a body that become recipients.
pub fn called(body: &str) -> (names: Vec<String>)
    ensures
        texts(names@) == called_names(body@),
{
    let all = extract_mentions(body);
    let ghost pred = |n: Seq<char>| valid_name(n);
    let ghost list = mentions(body@);
    let mut names: Vec<String> = Vec::new();
    let mut i: usize = 0;
    assert(list.take(0).filter(pred) =~= seq![]) by {
        reveal(Seq::filter);
    }
    assert(texts(names@) =~= list.take(0).filter(pred));
    while i < all.len() && names.len() < MAX_MENTIONS
        invariant
            texts(all@) == list,
            i <= all@.len(),
            texts(names@) == list.take(i as int).filter(pred),
            names@.len() <= MAX_MENTIONS,
            pred == (|n: Seq<char>| valid_name(n)),
        decreases all@.len() - i,
    {
        let name = &all[i];
        proof {
            assert(texts(all@)[i as int] == name@);
            list.take(i as int).lemma_filter_push(name@, pred);
            assert(list.take(i + 1) =~= list.take(i as int).push(name@));
        }
        let ok = validate_name(name.as_str());
        if ok.is_ok() {
            let ghost done = names@;
            names.push(name.clone());
            assert(texts(names@) =~= texts(done).push(name@));
        }
        i = i + 1;
    }
    proof {
        let front = list.take(i as int);
        let back = list.skip(i as int);
        assert(front + back =~= list);
        Seq::filter_distributes_over_add(front, back, pred);
        if i == all@.len() {
            assert(front =~= list);
        } else {
            assert(list.filter(pred).take(MAX_MENTIONS as int) =~= front.filter(pred));
            if list.filter(pred).len() <= MAX_MENTIONS {
                assert(list.filter(pred) =~= front.filter(pred));
            }
        }
    }
    names
}

impl Store {
    /// Who receives a message to this target, mentions aside.
    fn recipients(&self, target: Target, from: i64) -> (ids: Vec<i64>)
        ensures
            ids@ == self@.direct_recipients(target, from),
    {
        let mut ids: Vec<i64> = Vec::new();
        match target {
            Target::Agent(a) => {
                ids.push(a);
                assert(ids@ =~= seq![a]);
            },
            Target::Channel(c) => {
                let ghost pred = |m: Membership| m.channel == c && m.agent != from;
                let ghost agent = |m: Membership| m.agent;
                let ghost rows = self.tables.members@;
                let mut i: usize = 0;
                assert(rows.take(0).filter(pred) =~= seq![]) by {
                    reveal(Seq::filter);
                }
                assert(ids@ =~= rows.take(0).filter(pred).map_values(agent));
                while i < self.tables.members.len()
                    invariant
                        rows == self.tables.members@,
                        i <= rows.len(),
                        ids@ == rows.take(i as int).filter(pred).map_values(agent),
                        pred == (|m: Membership| m.channel == c && m.agent != from),
                        agent == (|m: Membership| m.agent),
                    decreases rows.len() - i,
                {
                    let m = self.tables.members[i];
                    let ghost before = rows.take(i as int).filter(pred);
                    proof {
                        rows.take(i as int).lemma_filter_push(m, pred);
                        assert(rows.take(i + 1) =~= rows.take(i as int).push(m));
                        assert(before.push(m).map_values(agent) =~= before.map_values(agent).push(
                            m.agent,
                        ));
                    }
                    if m.channel == c && m.agent != from {
                        ids.push(m.agent);
                    }
                    i = i + 1;
                }
                assert(rows.take(i as int) =~= rows);
            },
            Target::Broadcast => {
                let ghost pred = other_than(from);
                let ghost all = self@.agent_ids();
                let mut i: usize = 0;
                assert(all.take(0).filter(pred) =~= seq![]) by {
                    reveal(Seq::filter);
                }
                while i < self.tables.agents.len()
                    invariant
                        all == self@.agent_ids(),
                        i <= all.len(),
                        all.len() == self.tables.agents@.len(),
                        ids@ == all.take(i as int).filter(pred),
                        pred == other_than(from),
                    decreases all.len() - i,
                {
                    let id = self.tables.agents[i].id;
                    proof {
                        assert(all[i as int] == id);
                        all.take(i as int).lemma_filter_push(id, pred);
                        assert(all.take(i + 1) =~= all.take(i as int).push(id));
                    }
                    if id != from {
                        ids.push(id);
                    }
                    i = i + 1;
                }
                assert(all.take(i as int) =~= all);
            },
        }
        ids
    }

    /// Calls each of the names, and adds those who answer to the recipients.
    fn call_out(&mut self, names: &Vec<String>, from: i64, ids: &mut Vec<i64>, now: Timestamp)
        requires
            old(self).wf(),
            old(self)@.with_called(texts(names@), from, old(ids)@, now).0.next_agent <= i64::MAX,
            forall|i: int| 0 <= i < names@.len() ==> valid_name(#[trigger] texts(names@)[i]),
            old(ids)@.no_duplicates(),
            forall|i: int|
                0 <= i < old(ids)@.len() ==> old(self)@.has_agent(#[trigger] old(ids)@[i]),
        ensures
            final(self).wf(),
            final(self).saved() == old(self).saved(),
            (final(self)@, final(ids)@) == old(self)@.with_called(
                texts(names@),
                from,
                old(ids)@,
                now,
            ),
    {
        let ghost all = texts(names@);
        let ghost t = self@;
        let ghost first = ids@;
        let mut i: usize = 0;
        assert(all.take(0) =~= seq![]);
        while i < names.len()
            invariant
                self.wf(),
                self.saved() == old(self).saved(),
                all == texts(names@),
                i <= names@.len(),
                t == old(self)@,
                first == old(ids)@,
                t.valid(),
                (self@, ids@) == t.with_called(all.take(i as int), from, first, now),
                t.with_called(all, from, first, now).0.next_agent <= i64::MAX,
                forall|i: int| 0 <= i < names@.len() ==> valid_name(#[trigger] all[i]),
                first.no_duplicates(),
                forall|i: int| 0 <= i < first.len() ==> t.has_agent(#[trigger] first[i]),
            decreases names@.len() - i,
        {
            let name = &names[i];
            proof {
                let done = all.take(i as int);
                assert forall|k: int| 0 <= k < done.len() implies valid_name(
                    #[trigger] done[k],
                ) by {
                    assert(done[k] == all[k]);
                }
                lemma_called_more(t, all, i + 1, from, first, now);
                lemma_with_called(t, done, from, first, now);
                assert(all.take(i + 1).drop_last() =~= done);
                assert(all[i as int] == name@);
                assert(all.take(i + 1).last() == name@);
            }
            let id = self.see(name.as_str(), now);
            if id != from && !has_id(ids, id) {
                ids.push(id);
            }
            i = i + 1;
        }
        assert(all.take(i as int) =~= all);
    }

    /// Posts a draft.
    pub(super) fn post(
        &mut self,
        from: &str,
        to: &Recipient,
        body: &str,
        intent: Option<Intent>,
        reply_to: Option<i64>,
        now: Timestamp,
    ) -> (id: i64)
        requires
            old(self).wf(),
            old(self)@.postable((Draft { from: from@, to: to@, body: body@, intent, reply_to })),
            old(self)@.posted(
                (Draft { from: from@, to: to@, body: body@, intent, reply_to }),
                now,
            ).fits(),
        ensures
            final(self).wf(),
            final(self).saved() == old(self).saved(),
            id == old(self)@.next_message,
            final(self)@ == old(self)@.posted(
                (Draft { from: from@, to: to@, body: body@, intent, reply_to }),
                now,
            ),
    {
        let ghost d = Draft { from: from@, to: to@, body: body@, intent, reply_to };
        let ghost t = self@;
        proof {
            lemma_posted(t, d, now);
            lemma_addressed(t, d, now);
            lemma_with_ends(t, d, now);
            lemma_with_agent(t, from@, now);
        }
        let from_id = self.see(from, now);
        let ghost seen = self@;
        let target: Target = match to {
            Recipient::Agent(name) => {
                proof {
                    lemma_with_agent(seen, name@, now);
                }
                Target::Agent(self.see(name.as_str(), now))
            },
            Recipient::Channel(name) => Target::Channel(self.open_channel(name.as_str(), now)),
            Recipient::Broadcast => Target::Broadcast,
        };
        let ghost u = self@;
        assert(u == t.with_ends(d, now));
        assert(target == u.target_of(to@));
        assert(from_id == u.agent_id(from@));
        let mut ids = self.recipients(target, from_id);
        proof {
            lemma_direct_recipients(u, target, from_id);
            lemma_called_names(body@);
        }
        let dm: bool = match to {
            Recipient::Agent(_) => true,
            _ => false,
        };
        if !dm {
            let names = called(body);
            self.call_out(&names, from_id, &mut ids, now);
        }
        assert((self@, ids@) == t.addressed(d, now));
        let id = self.tables.next_message;
        let row = MessageRow {
            id,
            from: from_id,
            target,
            body: body.to_owned(),
            intent,
            reply_to,
            created_at: now,
        };
        assert(row@ == t.row_of(d, now));
        self.add_message(row);
        self.add_deliveries(id, &ids, now);
        id
    }

    /// Sends a message: a row, and one unread delivery for each of its recipients. Gives the
    /// id of the message. A message that is refused changes nothing.
    pub fn send_message(
        &mut self,
        from_name: &str,
        to: &Recipient,
        body: &str,
        intent: Option<Intent>,
        reply_to: Option<i64>,
        now: Timestamp,
    ) -> (r: Result<i64, StoreError>)
        requires
            old(self).wf(),
        ensures
            final(self).wf(),
            final(self).saved() == old(self).saved(),
            beside(final(self)@, r) == sending(
                old(self)@,
                (Draft { from: from_name@, to: to@, body: body@, intent, reply_to }),
                now,
            ),
            r is Err ==> *final(self) == *old(self),
    {
        let mut g = Growth::none();
        let fault = self.foresee(
            &mut g,
            from_name,
            to,
            body,
            reply_to,
            Ghost(self@),
            Ghost(Draft { from: from_name@, to: to@, body: body@, intent, reply_to }),
            Ghost(now),
        );
        match fault {
            Some(e) => Err(e),
            None => Ok(self.post(from_name, to, body, intent, reply_to, now)),
        }
    }
}

/// What seeing an agent gives: the tables and the agent's id, or the reason why it is refused.
pub open spec fn seeing(t: TablesView, name: Seq<char>, now: Timestamp) -> Result<
    (TablesView, i64),
    StoreError,
> {
    match agent_fault(t, name) {
        Some(e) => Err(e),
        None => {
            let u = t.with_agent(name, now);
            kept(u, u.agent_id(name))
        },
    }
}

/// What sending a draft gives: the tables and the message's id, or the reason why it is
/// refused.
pub open spec fn sending(t: TablesView, d: Draft, now: Timestamp) -> Result<
    (TablesView, i64),
    StoreError,
> {
    match draft_fault(t, d) {
        Some(e) => Err(e),
        None => kept(t.posted(d, now), t.next_message as i64),
    }
}

/// Calling more names uses up no fewer ids.
proof fn lemma_called_more(
    t: TablesView,
    names: Seq<Seq<char>>,
    n: int,
    from: i64,
    first: Seq<i64>,
    now: Timestamp,
)
    requires
        0 <= n <= names.len(),
    ensures
        t.with_called(names.take(n), from, first, now).0.next_agent <= t.with_called(
            names,
            from,
            first,
            now,
        ).0.next_agent,
    decreases names.len() - n,
{
    if n == names.len() {
        assert(names.take(n) =~= names);
    } else {
        assert(names.take(n + 1).drop_last() =~= names.take(n));
        lemma_called_more(t, names, n + 1, from, first, now);
    }
}

} // verus!
