//! What it means to see an agent, to open a channel and to post a message.

use vstd::prelude::*;
use vstd::seq_lib::*;

use crate::clock::Timestamp;
use crate::limits::{valid_name, DEFAULT_CHANNEL, MASTER, MAX_MENTIONS};
use crate::mentions::mentions;
use crate::types::{parsed_recipient, Intent, RecipientView};

use super::keeping::{
    lemma_add_agent, lemma_add_channel, lemma_add_deliveries, lemma_add_member, lemma_add_message,
    lemma_filter_order, lemma_rising_unique, lemma_see_agent,
};
use super::tables::{
    AgentView, ChannelView, Membership, MessageRowView, PayloadView, TablesView, Target,
};

verus! {

/// A message before it is posted.
pub struct Draft {
    pub from: Seq<char>,
    pub to: RecipientView,
    pub body: Seq<char>,
    pub intent: Option<Intent>,
    pub reply_to: Option<i64>,
}

impl PayloadView {
    /// The message that a scheduled send posts.
    pub open spec fn draft(self) -> Draft {
        Draft {
            from: self.from,
            to: parsed_recipient(self.to),
            body: self.body,
            intent: self.intent,
            reply_to: self.reply_to,
        }
    }
}

/// The mentions of a body that become recipients: those that are valid names, up to the
/// limit, in the order of their first mention.
pub open spec fn called_names(body: Seq<char>) -> Seq<Seq<char>> {
    let names = mentions(body).filter(|n: Seq<char>| valid_name(n));
    if names.len() <= MAX_MENTIONS {
        names
    } else {
        names.take(MAX_MENTIONS as int)
    }
}

/// Every id but this one.
pub open spec fn other_than(id: i64) -> spec_fn(i64) -> bool {
    |a: i64| a != id
}

impl TablesView {
    /// Whether an agent of this name is known or may be added.
    pub open spec fn accepts_agent(self, name: Seq<char>) -> bool {
        self.knows_agent(name) || valid_name(name)
    }

    /// Whether a channel of this name is known or may be added.
    pub open spec fn accepts_channel(self, name: Seq<char>) -> bool {
        self.knows_channel(name) || valid_name(name)
    }

    /// Whether a message can be addressed to this recipient.
    pub open spec fn accepts_recipient(self, to: RecipientView) -> bool {
        match to {
            RecipientView::Agent(name) => self.accepts_agent(name),
            RecipientView::Channel(name) => self.accepts_channel(name),
            RecipientView::Broadcast => true,
        }
    }

    /// The tables once the agent of this name was seen. One that was not known is added, and
    /// joins the default channel.
    pub open spec fn with_agent(self, name: Seq<char>, now: Timestamp) -> TablesView {
        if self.knows_agent(name) {
            self.see_agent(self.agent_id(name), now)
        } else {
            let id = self.next_agent as i64;
            self.add_agent(
                AgentView { id, name, display_name: None, first_seen: now, last_seen: now },
            ).add_member(
                Membership {
                    agent: id,
                    channel: self.channel_id(DEFAULT_CHANNEL@),
                    joined_at: now,
                },
            )
        }
    }

    /// The tables with the channel of this name in them.
    pub open spec fn with_channel(self, name: Seq<char>, now: Timestamp) -> TablesView {
        if self.knows_channel(name) {
            self
        } else {
            self.add_channel(ChannelView { id: self.next_channel as i64, name, created_at: now })
        }
    }

    /// The tables with the recipient in them.
    pub open spec fn with_recipient(self, to: RecipientView, now: Timestamp) -> TablesView {
        match to {
            RecipientView::Agent(name) => self.with_agent(name, now),
            RecipientView::Channel(name) => self.with_channel(name, now),
            RecipientView::Broadcast => self,
        }
    }

    /// The target that a recipient in the tables is.
    pub open spec fn target_of(self, to: RecipientView) -> Target {
        match to {
            RecipientView::Agent(name) => Target::Agent(self.agent_id(name)),
            RecipientView::Channel(name) => Target::Channel(self.channel_id(name)),
            RecipientView::Broadcast => Target::Broadcast,
        }
    }

    /// Who receives a message to this target, mentions aside: the agent itself, the members
    /// of the channel but for the sender, or everyone but for the sender.
    pub open spec fn direct_recipients(self, target: Target, from: i64) -> Seq<i64> {
        match target {
            Target::Agent(a) => seq![a],
            Target::Channel(c) => self.members.filter(
                |m: Membership| m.channel == c && m.agent != from,
            ).map_values(|m: Membership| m.agent),
            Target::Broadcast => self.agent_ids().filter(other_than(from)),
        }
    }

    /// The tables and the recipients once each of the names was called: its agent is seen,
    /// and receives the message unless it sent it or receives it already.
    pub open spec fn with_called(
        self,
        names: Seq<Seq<char>>,
        from: i64,
        first: Seq<i64>,
        now: Timestamp,
    ) -> (TablesView, Seq<i64>)
        decreases names.len(),
    {
        if names.len() == 0 {
            (self, first)
        } else {
            let (t, ids) = self.with_called(names.drop_last(), from, first, now);
            let u = t.with_agent(names.last(), now);
            let id = u.agent_id(names.last());
            (
                u,
                if id != from && !ids.contains(id) {
                    ids.push(id)
                } else {
                    ids
                },
            )
        }
    }

    /// The tables with sender and recipient in them.
    pub open spec fn with_ends(self, d: Draft, now: Timestamp) -> TablesView {
        self.with_agent(d.from, now).with_recipient(d.to, now)
    }

    /// The tables with everyone in them whom a draft concerns, and the ids of those who will
    /// receive it. Mentions count in messages to channels and to everyone.
    pub open spec fn addressed(self, d: Draft, now: Timestamp) -> (TablesView, Seq<i64>) {
        let t = self.with_ends(d, now);
        let from = t.agent_id(d.from);
        let first = t.direct_recipients(t.target_of(d.to), from);
        if d.to is Agent {
            (t, first)
        } else {
            t.with_called(called_names(d.body), from, first, now)
        }
    }

    /// The row that a draft becomes.
    pub open spec fn row_of(self, d: Draft, now: Timestamp) -> MessageRowView {
        let t = self.addressed(d, now).0;
        MessageRowView {
            id: self.next_message as i64,
            from: t.agent_id(d.from),
            target: t.target_of(d.to),
            body: d.body,
            intent: d.intent,
            reply_to: d.reply_to,
            created_at: now,
        }
    }

    /// The tables with a message posted, and one unread delivery for each of its recipients.
    pub open spec fn posted(self, d: Draft, now: Timestamp) -> TablesView {
        let (t, ids) = self.addressed(d, now);
        t.add_message(self.row_of(d, now)).add_deliveries(self.next_message as i64, ids, now)
    }

    /// Whether a draft can be posted.
    pub open spec fn postable(self, d: Draft) -> bool {
        &&& self.accepts_agent(d.from)
        &&& self.accepts_recipient(d.to)
        &&& self.has_reply(d.reply_to)
    }
}

/// Whether `u` is `t` with nothing but agents, channels and memberships added, and agents
/// seen.
pub open spec fn grown(t: TablesView, u: TablesView) -> bool {
    &&& u.messages == t.messages && u.next_message == t.next_message
    &&& u.deliveries == t.deliveries
    &&& u.scheduled == t.scheduled && u.next_scheduled == t.next_scheduled
    &&& u.sessions == t.sessions && u.next_session == t.next_session
    &&& forall|id: i64|
        #![trigger u.has_agent(id)]
        t.has_agent(id) ==> u.has_agent(id)
    &&& forall|id: i64|
        #![trigger u.agent_name(id)]
        t.has_agent(id) ==> u.agent_name(id) == t.agent_name(id)
    &&& forall|id: i64|
        #![trigger u.has_channel(id)]
        t.has_channel(id) ==> u.has_channel(id)
    &&& forall|id: i64|
        #![trigger u.channel_name(id)]
        t.has_channel(id) ==> u.channel_name(id) == t.channel_name(id)
    &&& forall|name: Seq<char>|
        #![trigger u.knows_agent(name)]
        t.knows_agent(name) ==> u.knows_agent(name)
    &&& forall|name: Seq<char>|
        #![trigger u.agent_id(name)]
        t.knows_agent(name) ==> u.agent_id(name) == t.agent_id(name)
    &&& forall|name: Seq<char>|
        #![trigger u.knows_channel(name)]
        t.knows_channel(name) ==> u.knows_channel(name)
    &&& forall|name: Seq<char>|
        #![trigger u.channel_id(name)]
        t.knows_channel(name) ==> u.channel_id(name) == t.channel_id(name)
    &&& forall|a: i64, c: i64|
        #![trigger u.is_member(a, c)]
        t.is_member(a, c) ==> u.is_member(a, c)
    &&& forall|name: Seq<char>|
        #![trigger u.knows_agent(name)]
        u.knows_agent(name) ==> t.accepts_agent(name)
    &&& forall|name: Seq<char>|
        #![trigger u.knows_channel(name)]
        u.knows_channel(name) ==> t.accepts_channel(name)
}

/// The ids and names of a known agent belong together.
pub proof fn lemma_agent_named(t: TablesView, name: Seq<char>)
    requires
        t.consistent(),
        t.knows_agent(name),
    ensures
        t.has_agent(t.agent_id(name)),
        t.agent_name(t.agent_id(name)) == name,
{
    let i = t.agent_names().index_of(name);
    assert(t.agent_names()[i] == name);
    assert(t.agent_ids()[i] == t.agents[i].id);
    lemma_rising_unique(t.agent_ids(), t.next_agent, i);
}

/// The ids and names of a known channel belong together.
pub proof fn lemma_channel_named(t: TablesView, name: Seq<char>)
    requires
        t.consistent(),
        t.knows_channel(name),
    ensures
        t.has_channel(t.channel_id(name)),
        t.channel_name(t.channel_id(name)) == name,
{
    let i = t.channel_names().index_of(name);
    assert(t.channel_names()[i] == name);
    assert(t.channel_ids()[i] == t.channels[i].id);
    lemma_rising_unique(t.channel_ids(), t.next_channel, i);
}

/// Seeing an agent.
pub proof fn lemma_with_agent(t: TablesView, name: Seq<char>, now: Timestamp)
    requires
        t.valid(),
        t.accepts_agent(name),
        t.with_agent(name, now).next_agent <= i64::MAX,
    ensures
        t.with_agent(name, now).valid(),
        grown(t, t.with_agent(name, now)),
        t.with_agent(name, now).knows_agent(name),
        t.with_agent(name, now).has_agent(t.with_agent(name, now).agent_id(name)),
        t.with_agent(name, now).agent_name(t.with_agent(name, now).agent_id(name)) == name,
        t.next_agent <= t.with_agent(name, now).next_agent <= t.next_agent + 1,
        t.with_agent(name, now).next_channel == t.next_channel,
        t.with_agent(name, now).channels == t.channels,
{
    let u = t.with_agent(name, now);
    if t.knows_agent(name) {
        let id = t.agent_id(name);
        lemma_see_agent(t, id, now);
        assert forall|n: Seq<char>| #[trigger] u.knows_agent(n) == t.knows_agent(n) by {}
        assert forall|i: i64| #[trigger] u.has_agent(i) == t.has_agent(i) by {}
        assert forall|n: Seq<char>| #[trigger] u.knows_channel(n) == t.knows_channel(n) by {}
        assert forall|i: i64| #[trigger] u.has_channel(i) == t.has_channel(i) by {}
        assert(u.members == t.members);
        assert forall|a: i64, c: i64| t.is_member(a, c) implies #[trigger] u.is_member(a, c) by {
            let i = choose|i: int|
                0 <= i < t.members.len() && (#[trigger] t.members[i]).agent == a
                    && t.members[i].channel == c;
            assert(u.members[i].agent == a);
        }
    } else {
        let id = t.next_agent as i64;
        let row = AgentView { id, name, display_name: None, first_seen: now, last_seen: now };
        lemma_add_agent(t, row);
        let v = t.add_agent(row);
        let general = t.channel_id(DEFAULT_CHANNEL@);
        lemma_channel_named(t, DEFAULT_CHANNEL@);
        assert(v.has_channel(general));
        let m = Membership { agent: id, channel: general, joined_at: now };
        lemma_add_member(v, m);
        assert(u == v.add_member(m));
        assert(u.agents == v.agents && v.channels == t.channels && u.channels == v.channels);
        assert forall|n: Seq<char>| #[trigger] u.knows_agent(n) == v.knows_agent(n) by {}
        assert forall|i: i64| #[trigger] u.has_agent(i) == v.has_agent(i) by {}
        assert forall|n: Seq<char>| #[trigger] u.agent_id(n) == v.agent_id(n) by {}
        assert forall|n: Seq<char>| #[trigger] u.knows_channel(n) == t.knows_channel(n) by {}
        assert forall|i: i64| #[trigger] u.has_channel(i) == t.has_channel(i) by {}
        assert forall|a: i64, c: i64| t.is_member(a, c) implies #[trigger] u.is_member(a, c) by {
            assert(v.members == t.members);
            assert(v.is_member(a, c));
        }
        assert(t.knows_agent(MASTER@) && v.knows_agent(MASTER@));
    }
    lemma_agent_named(u, name);
    assert forall|id: i64| t.has_agent(id) implies #[trigger] u.agent_name(id) == t.agent_name(
        id,
    ) by {
        let i = t.agent_ids().index_of(id);
        assert(t.agent_ids()[i] == id);
        assert(u.agent_ids()[i] == id);
        lemma_rising_unique(u.agent_ids(), u.next_agent, i);
    }
}

/// Opening a channel.
pub proof fn lemma_with_channel(t: TablesView, name: Seq<char>, now: Timestamp)
    requires
        t.valid(),
        t.accepts_channel(name),
        t.with_channel(name, now).next_channel <= i64::MAX,
    ensures
        t.with_channel(name, now).valid(),
        grown(t, t.with_channel(name, now)),
        t.with_channel(name, now).knows_channel(name),
        t.with_channel(name, now).has_channel(t.with_channel(name, now).channel_id(name)),
        t.with_channel(name, now).channel_name(t.with_channel(name, now).channel_id(name)) == name,
        t.next_channel <= t.with_channel(name, now).next_channel <= t.next_channel + 1,
        t.with_channel(name, now).next_agent == t.next_agent,
        t.with_channel(name, now).agents == t.agents,
        t.with_channel(name, now).members == t.members,
{
    let u = t.with_channel(name, now);
    if !t.knows_channel(name) {
        let row = ChannelView { id: t.next_channel as i64, name, created_at: now };
        lemma_add_channel(t, row);
        assert(u == t.add_channel(row));
        assert forall|n: Seq<char>| #[trigger] u.knows_agent(n) == t.knows_agent(n) by {}
        assert forall|i: i64| #[trigger] u.has_agent(i) == t.has_agent(i) by {}
        assert forall|n: Seq<char>| #[trigger] u.agent_id(n) == t.agent_id(n) by {}
        assert forall|i: i64| #[trigger] u.agent_name(i) == t.agent_name(i) by {}
        assert forall|a: i64, c: i64| t.is_member(a, c) implies #[trigger] u.is_member(a, c) by {
            let i = choose|i: int|
                0 <= i < t.members.len() && (#[trigger] t.members[i]).agent == a
                    && t.members[i].channel == c;
            assert(u.members[i].agent == a);
        }
    }
    lemma_channel_named(u, name);
    assert forall|id: i64| t.has_channel(id) implies #[trigger] u.channel_name(id)
        == t.channel_name(id) by {
        let i = t.channel_ids().index_of(id);
        assert(t.channel_ids()[i] == id);
        assert(u.channel_ids()[i] == id);
        lemma_rising_unique(u.channel_ids(), u.next_channel, i);
    }
}

/// Growing twice is growing.
pub proof fn lemma_grown_twice(t: TablesView, u: TablesView, v: TablesView)
    requires
        grown(t, u),
        grown(u, v),
    ensures
        grown(t, v),
{
    assert forall|id: i64| #![trigger v.has_agent(id)] t.has_agent(id) implies v.has_agent(id) by {
        assert(u.has_agent(id));
    }
    assert forall|id: i64| #![trigger v.agent_name(id)] t.has_agent(id) implies v.agent_name(id)
        == t.agent_name(id) by {
        assert(u.has_agent(id));
        assert(u.agent_name(id) == t.agent_name(id));
    }
    assert forall|id: i64| #![trigger v.has_channel(id)] t.has_channel(id) implies v.has_channel(
        id,
    ) by {
        assert(u.has_channel(id));
    }
    assert forall|id: i64|
        #![trigger v.channel_name(id)]
        t.has_channel(id) implies v.channel_name(id) == t.channel_name(id) by {
        assert(u.has_channel(id));
        assert(u.channel_name(id) == t.channel_name(id));
    }
    assert forall|name: Seq<char>|
        #![trigger v.knows_agent(name)]
        (t.knows_agent(name) ==> v.knows_agent(name)) && (v.knows_agent(name) ==> t.accepts_agent(
            name,
        )) by {
        assert(u.knows_agent(name) || !u.knows_agent(name));
    }
    assert forall|name: Seq<char>|
        #![trigger v.agent_id(name)]
        t.knows_agent(name) implies v.agent_id(name) == t.agent_id(name) by {
        assert(u.knows_agent(name));
        assert(u.agent_id(name) == t.agent_id(name));
    }
    assert forall|name: Seq<char>|
        #![trigger v.knows_channel(name)]
        (t.knows_channel(name) ==> v.knows_channel(name)) && (v.knows_channel(name)
            ==> t.accepts_channel(name)) by {
        assert(u.knows_channel(name) || !u.knows_channel(name));
    }
    assert forall|name: Seq<char>|
        #![trigger v.channel_id(name)]
        t.knows_channel(name) implies v.channel_id(name) == t.channel_id(name) by {
        assert(u.knows_channel(name));
        assert(u.channel_id(name) == t.channel_id(name));
    }
    assert forall|a: i64, c: i64| #![trigger v.is_member(a, c)] t.is_member(a, c) implies v.is_member(
        a,
        c,
    ) by {
        assert(u.is_member(a, c));
    }
}

/// Bringing sender and recipient into the tables.
pub proof fn lemma_with_ends(t: TablesView, d: Draft, now: Timestamp)
    requires
        t.valid(),
        t.accepts_agent(d.from),
        t.accepts_recipient(d.to),
        t.with_ends(d, now).next_agent <= i64::MAX,
        t.with_ends(d, now).next_channel <= i64::MAX,
    ensures
        t.with_ends(d, now).valid(),
        grown(t, t.with_ends(d, now)),
        t.with_ends(d, now).knows_agent(d.from),
        t.with_ends(d, now).has_agent(t.with_ends(d, now).agent_id(d.from)),
        t.with_ends(d, now).has_target(t.with_ends(d, now).target_of(d.to)),
        match d.to {
            RecipientView::Agent(name) => t.with_ends(d, now).knows_agent(name),
            RecipientView::Channel(name) => t.with_ends(d, now).knows_channel(name),
            RecipientView::Broadcast => true,
        },
{
    let u = t.with_agent(d.from, now);
    let v = t.with_ends(d, now);
    lemma_with_agent(t, d.from, now);
    match d.to {
        RecipientView::Agent(name) => {
            assert(t.knows_agent(name) ==> u.knows_agent(name));
            lemma_with_agent(u, name, now);
        },
        RecipientView::Channel(name) => {
            assert(t.knows_channel(name) ==> u.knows_channel(name));
            lemma_with_channel(u, name, now);
        },
        RecipientView::Broadcast => {},
    }
    lemma_grown_twice(t, u, v);
    assert(v.knows_agent(d.from));
    lemma_agent_named(v, d.from);
}

/// The direct recipients are known agents, each once; the sender is among them only in a
/// message to itself.
pub proof fn lemma_direct_recipients(t: TablesView, target: Target, from: i64)
    requires
        t.consistent(),
        t.has_target(target),
    ensures
        t.direct_recipients(target, from).no_duplicates(),
        forall|i: int|
            0 <= i < t.direct_recipients(target, from).len() ==> t.has_agent(
                #[trigger] t.direct_recipients(target, from)[i],
            ),
        match target {
            Target::Agent(a) => true,
            _ => !t.direct_recipients(target, from).contains(from),
        },
        match target {
            Target::Agent(a) => t.direct_recipients(target, from).contains(a),
            Target::Channel(c) => forall|a: i64| #[trigger]
                t.direct_recipients(target, from).contains(a) <==> a != from && t.is_member(a, c),
            Target::Broadcast => forall|a: i64| #[trigger]
                t.direct_recipients(target, from).contains(a) <==> a != from && t.has_agent(a),
        },
{
    let ids = t.direct_recipients(target, from);
    match target {
        Target::Agent(a) => {
            assert(ids[0] == a);
        },
        Target::Channel(c) => {
            let pred = |m: Membership| m.channel == c && m.agent != from;
            let rows = t.members.filter(pred);
            lemma_filter_order(t.members, pred);
            assert(ids == rows.map_values(|m: Membership| m.agent));
            assert forall|i: int| 0 <= i < ids.len() implies t.has_agent(#[trigger] ids[i])
                && ids[i] != from && t.is_member(ids[i], c) by {
                assert(pred(rows[i]));
                let p = choose|p: int| 0 <= p < t.members.len() && t.members[p] == rows[i];
                assert(t.has_agent(t.members[p].agent));
            }
            assert forall|i: int, j: int|
                0 <= i < ids.len() && 0 <= j < ids.len() && i != j implies ids[i] != ids[j] by {
                let (a, b) = if i < j {
                    (i, j)
                } else {
                    (j, i)
                };
                assert(pred(rows[a]) && pred(rows[b]));
                let (p, q) = choose|p: int, q: int|
                    0 <= p < q < t.members.len() && #[trigger] t.members[p] == rows[a]
                        && #[trigger] t.members[q] == rows[b];
            }
            assert forall|a: i64| #[trigger] ids.contains(a) <==> a != from && t.is_member(a, c) by {
                if a != from && t.is_member(a, c) {
                    let i = choose|i: int|
                        0 <= i < t.members.len() && (#[trigger] t.members[i]).agent == a
                            && t.members[i].channel == c;
                    assert(pred(t.members[i]));
                    let k = rows.index_of(t.members[i]);
                    assert(ids[k] == a);
                }
            }
        },
        Target::Broadcast => {
            let pred = other_than(from);
            lemma_filter_order(t.agent_ids(), pred);
            let all = t.agent_ids();
            assert(ids == all.filter(pred));
            assert forall|i: int| 0 <= i < ids.len() implies t.has_agent(#[trigger] ids[i])
                && ids[i] != from by {
                assert(pred(all.filter(pred)[i]));
            }
            assert forall|i: int, j: int|
                0 <= i < ids.len() && 0 <= j < ids.len() && i != j implies ids[i] != ids[j] by {
                let (a, b) = if i < j {
                    (i, j)
                } else {
                    (j, i)
                };
                let (p, q) = choose|p: int, q: int|
                    0 <= p < q < all.len() && #[trigger] all[p] == all.filter(pred)[a]
                        && #[trigger] all[q] == all.filter(pred)[b];
                assert(all[p] < all[q]);
            }
            assert forall|a: i64| #[trigger] ids.contains(a) <==> a != from && t.has_agent(a) by {
                if a != from && t.has_agent(a) {
                    let i = all.index_of(a);
                    assert(pred(all[i]));
                }
            }
        },
    }
}

/// Calling names uses up ids of agents only.
pub proof fn lemma_called_ids(
    t: TablesView,
    names: Seq<Seq<char>>,
    from: i64,
    first: Seq<i64>,
    now: Timestamp,
)
    ensures
        t.next_agent <= t.with_called(names, from, first, now).0.next_agent <= t.next_agent
            + names.len(),
        t.with_called(names, from, first, now).0.next_channel == t.next_channel,
        t.with_called(names, from, first, now).0.next_message == t.next_message,
        t.with_called(names, from, first, now).0.next_scheduled == t.next_scheduled,
        t.with_called(names, from, first, now).0.next_session == t.next_session,
    decreases names.len(),
{
    if names.len() > 0 {
        lemma_called_ids(t, names.drop_last(), from, first, now);
    }
}

/// Calling names.
pub proof fn lemma_with_called(
    t: TablesView,
    names: Seq<Seq<char>>,
    from: i64,
    first: Seq<i64>,
    now: Timestamp,
)
    requires
        t.valid(),
        t.with_called(names, from, first, now).0.next_agent <= i64::MAX,
        forall|i: int| 0 <= i < names.len() ==> valid_name(#[trigger] names[i]),
        first.no_duplicates(),
        forall|i: int| 0 <= i < first.len() ==> t.has_agent(#[trigger] first[i]),
    ensures
        t.with_called(names, from, first, now).0.valid(),
        grown(t, t.with_called(names, from, first, now).0),
        t.with_called(names, from, first, now).1.no_duplicates(),
        forall|i: int|
            0 <= i < t.with_called(names, from, first, now).1.len() ==> t.with_called(
                names,
                from,
                first,
                now,
            ).0.has_agent(#[trigger] t.with_called(names, from, first, now).1[i]),
        t.with_called(names, from, first, now).0.channels == t.channels,
        forall|a: i64|
            first.contains(a) ==> #[trigger] t.with_called(names, from, first, now).1.contains(a),
        forall|i: int|
            0 <= i < names.len() ==> t.with_called(names, from, first, now).0.knows_agent(
                #[trigger] names[i],
            ),
        forall|i: int|
            0 <= i < names.len() ==> t.with_called(names, from, first, now).0.agent_id(
                #[trigger] names[i],
            ) == from || t.with_called(names, from, first, now).1.contains(
                t.with_called(names, from, first, now).0.agent_id(names[i]),
            ),
        !first.contains(from) ==> !t.with_called(names, from, first, now).1.contains(from),
        forall|a: i64| #[trigger]
            t.with_called(names, from, first, now).1.contains(a) ==> first.contains(a) || exists|
                i: int,
            |
                0 <= i < names.len() && t.with_called(names, from, first, now).0.agent_id(
                    #[trigger] names[i],
                ) == a,
    decreases names.len(),
{
    let (w, out) = t.with_called(names, from, first, now);
    if names.len() == 0 {
    } else {
        let rest = names.drop_last();
        let (u, ids) = t.with_called(rest, from, first, now);
        assert forall|i: int| 0 <= i < rest.len() implies valid_name(#[trigger] rest[i]) by {
            assert(rest[i] == names[i]);
        }
        lemma_with_called(t, rest, from, first, now);
        let name = names.last();
        assert(valid_name(names[names.len() - 1]));
        lemma_with_agent(u, name, now);
        lemma_grown_twice(t, u, w);
        let id = w.agent_id(name);
        assert forall|i: int| 0 <= i < out.len() implies w.has_agent(#[trigger] out[i]) by {
            if i < ids.len() {
                assert(out[i] == ids[i]);
                assert(u.has_agent(ids[i]));
            }
        }
        assert forall|a: i64| ids.contains(a) implies #[trigger] out.contains(a) by {
            let i = ids.index_of(a);
            assert(out[i] == a);
        }
        if id != from && !ids.contains(id) {
            assert(out[ids.len() as int] == id);
        }
        assert forall|i: int| 0 <= i < names.len() implies w.knows_agent(#[trigger] names[i]) && (
        w.agent_id(names[i]) == from || out.contains(w.agent_id(names[i]))) by {
            if i < rest.len() {
                assert(rest[i] == names[i]);
                assert(u.knows_agent(rest[i]));
                assert(w.agent_id(names[i]) == u.agent_id(rest[i]));
            }
        }
        assert forall|a: i64| #[trigger] out.contains(a) implies first.contains(a) || exists|
            i: int,
        |
            0 <= i < names.len() && w.agent_id(#[trigger] names[i]) == a by {
            if ids.contains(a) {
                if !first.contains(a) {
                    let i = choose|i: int|
                        0 <= i < rest.len() && u.agent_id(#[trigger] rest[i]) == a;
                    assert(rest[i] == names[i]);
                    assert(u.knows_agent(rest[i]));
                    assert(w.agent_id(names[i]) == a);
                }
            } else {
                let k = out.index_of(a);
                assert(k == ids.len()) by {
                    if k < ids.len() {
                        assert(ids[k] == a);
                    }
                }
                assert(w.agent_id(names[names.len() - 1]) == a);
            }
        }
    }
}

/// The called names are valid, each occurs once, and there are at most so many.
pub proof fn lemma_called_names(body: Seq<char>)
    ensures
        called_names(body).len() <= MAX_MENTIONS,
        forall|i: int|
            0 <= i < called_names(body).len() ==> valid_name(#[trigger] called_names(body)[i]),
{
    let pred = |n: Seq<char>| valid_name(n);
    lemma_filter_order(mentions(body), pred);
    let names = mentions(body).filter(pred);
    assert forall|i: int| 0 <= i < called_names(body).len() implies valid_name(
        #[trigger] called_names(body)[i],
    ) by {
        assert(called_names(body)[i] == names[i]);
        assert(pred(names[i]));
    }
}

/// Bringing everyone whom a draft concerns into the tables.
pub proof fn lemma_addressed(t: TablesView, d: Draft, now: Timestamp)
    requires
        t.valid(),
        t.postable(d),
        t.addressed(d, now).0.next_agent <= i64::MAX,
        t.addressed(d, now).0.next_channel <= i64::MAX,
    ensures
        t.addressed(d, now).0.valid(),
        grown(t, t.addressed(d, now).0),
        grown(t.with_ends(d, now), t.addressed(d, now).0),
        t.addressed(d, now).1.no_duplicates(),
        forall|i: int|
            0 <= i < t.addressed(d, now).1.len() ==> t.addressed(d, now).0.has_agent(
                #[trigger] t.addressed(d, now).1[i],
            ),
        t.addressed(d, now).0.knows_agent(d.from),
        t.addressed(d, now).0.has_agent(t.addressed(d, now).0.agent_id(d.from)),
        t.addressed(d, now).0.agent_id(d.from) == t.with_ends(d, now).agent_id(d.from),
        t.addressed(d, now).0.has_target(t.addressed(d, now).0.target_of(d.to)),
        t.addressed(d, now).0.target_of(d.to) == t.with_ends(d, now).target_of(d.to),
        t.with_ends(d, now).next_agent <= i64::MAX,
        t.with_ends(d, now).next_channel <= i64::MAX,
{
    let u = t.with_ends(d, now);
    let (v, ids) = t.addressed(d, now);
    let from = u.agent_id(d.from);
    let target = u.target_of(d.to);
    let first = u.direct_recipients(target, from);
    lemma_called_ids(u, called_names(d.body), from, first, now);
    lemma_with_ends(t, d, now);
    lemma_direct_recipients(u, target, from);
    if d.to is Agent {
    } else {
        lemma_called_names(d.body);
        lemma_with_called(u, called_names(d.body), from, first, now);
    }
    lemma_grown_twice(t, u, v);
    assert(u.knows_agent(d.from));
    assert(v.knows_agent(d.from));
    assert(v.agent_id(d.from) == from);
    assert(v.has_agent(from));
    match d.to {
        RecipientView::Agent(name) => {},
        RecipientView::Channel(name) => {
            assert(u.knows_channel(name));
            assert(v.channel_id(name) == u.channel_id(name));
            assert(v.has_channel(u.channel_id(name)));
        },
        RecipientView::Broadcast => {},
    }
}

/// Posting keeps the tables valid.
pub proof fn lemma_posted(t: TablesView, d: Draft, now: Timestamp)
    requires
        t.valid(),
        t.postable(d),
        t.posted(d, now).fits(),
    ensures
        t.posted(d, now).valid(),
        t.addressed(d, now).0.next_agent <= i64::MAX,
        t.addressed(d, now).0.next_channel <= i64::MAX,
        t.posted(d, now).next_message == t.next_message + 1,
        t.posted(d, now).scheduled == t.scheduled,
        t.posted(d, now).next_scheduled == t.next_scheduled,
        t.posted(d, now).sessions == t.sessions,
        t.posted(d, now).next_session == t.next_session,
        t.posted(d, now).messages == t.messages.push(t.row_of(d, now)),
        forall|id: i64| #[trigger]
            t.posted(d, now).has_message(id) <==> t.has_message(id) || id == t.next_message,
        forall|name: Seq<char>|
            t.knows_agent(name) ==> #[trigger] t.posted(d, now).knows_agent(name),
        forall|name: Seq<char>|
            t.knows_channel(name) ==> #[trigger] t.posted(d, now).knows_channel(name),
        forall|name: Seq<char>|
            t.accepts_agent(name) <==> #[trigger] t.posted(d, now).accepts_agent(name),
        forall|name: Seq<char>|
            t.accepts_channel(name) <==> #[trigger] t.posted(d, now).accepts_channel(name),
{
    let (u, ids) = t.addressed(d, now);
    lemma_addressed(t, d, now);
    let row = t.row_of(d, now);
    match d.reply_to {
        Some(r) => {
            assert(t.has_message(r));
            assert(u.messages == t.messages);
            assert(u.has_message(r));
        },
        None => {},
    }
    lemma_add_message(u, row);
    let v = u.add_message(row);
    assert forall|i: int| 0 <= i < v.deliveries.len() implies (#[trigger] v.deliveries[i]).message
        < t.next_message by {
        assert(t.has_message(t.deliveries[i].message));
        let k = t.message_ids().index_of(t.deliveries[i].message);
        assert(t.message_ids()[k] < t.next_message);
    }
    assert forall|i: int| 0 <= i < ids.len() implies v.has_agent(#[trigger] ids[i]) by {
        assert(u.has_agent(ids[i]));
    }
    assert(v.has_message(row.id));
    lemma_add_deliveries(v, row.id, ids, now);
    let w = t.posted(d, now);
    assert(w.agents == u.agents && w.channels == u.channels && w.messages == v.messages);
    assert forall|id: i64| #[trigger] w.has_message(id) <==> t.has_message(id) || id
        == t.next_message by {
        assert(w.has_message(id) == v.has_message(id));
        assert(u.has_message(id) == t.has_message(id));
    }
    assert forall|name: Seq<char>| #[trigger] w.knows_agent(name) == u.knows_agent(name) by {}
    assert forall|name: Seq<char>| #[trigger] w.knows_channel(name) == u.knows_channel(name) by {}
    assert(u.knows_agent(MASTER@) && u.knows_channel(DEFAULT_CHANNEL@));
}

} // verus!
