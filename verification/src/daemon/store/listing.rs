//! Lists of agents and channels, and counts.

use vstd::prelude::*;
use vstd::seq_lib::*;

use crate::clock::Timestamp;
use crate::proto::{AgentDetails, AgentDetailsView, ChannelDetails, ChannelDetailsView};
use crate::types::{texts, views};

use super::super::order::{by_key, law_sorted, lemma_sorted_map, sort_keyed, sorted_by, Keyed};
use super::super::tables::{
    AgentRow, AgentView, ChannelView, Delivery, Membership, MessageRowView, ScheduledStatus,
    ScheduledView, Session, TablesView, Target,
};
use super::Store;

verus! {

/// A count as it is reported.
pub open spec fn reported(n: nat) -> i64 {
    if n <= i64::MAX {
        n as i64
    } else {
        i64::MAX
    }
}

fn report(n: usize) -> (r: i64)
    ensures
        r == reported(n as nat),
{
    if n as u128 <= i64::MAX as u128 {
        n as i64
    } else {
        i64::MAX
    }
}

/// Whether an agent was seen within so many days.
pub open spec fn is_fresh(now: Timestamp, days: i64) -> spec_fn(AgentView) -> bool {
    |a: AgentView| a.last_seen.at() >= now.at() - days * 86400 * 1000000000
}

/// Any agent.
pub open spec fn any_agent() -> spec_fn(AgentView) -> bool {
    |a: AgentView| true
}

/// The order of agents from the one seen last to the one seen first.
pub open spec fn latest_first() -> spec_fn(AgentView) -> int {
    |a: AgentView| -a.last_seen.at()
}

/// Whether a session of the agent is open.
pub open spec fn open_for(agent: i64) -> spec_fn(Session) -> bool {
    |s: Session| s.agent == agent && s.ended_at is None
}

/// An agent's details.
pub open spec fn agent_details(t: TablesView, a: AgentView) -> AgentDetailsView {
    AgentDetailsView {
        name: a.name,
        first_seen: a.first_seen,
        last_seen: a.last_seen,
        active_sessions: reported(t.sessions.filter(open_for(a.id)).len()),
    }
}

/// The agents with their details, the one seen last first. Unless stale ones are included,
/// those that were not seen within so many days are left out.
pub open spec fn agents_detailed(
    t: TablesView,
    include_stale: bool,
    now: Timestamp,
    days: i64,
) -> Seq<AgentDetailsView> {
    let pred = if include_stale {
        any_agent()
    } else {
        is_fresh(now, days)
    };
    sorted_by(t.agents.filter(pred), latest_first()).map_values(
        |a: AgentView| agent_details(t, a),
    )
}

/// Whether a membership is one of this channel.
pub open spec fn membership_of(channel: i64) -> spec_fn(Membership) -> bool {
    |m: Membership| m.channel == channel
}

/// The later of two times, where there are any.
pub open spec fn later(a: Option<Timestamp>, b: Timestamp) -> Timestamp {
    match a {
        Some(t) => if t.at() < b.at() {
            b
        } else {
            t
        },
        None => b,
    }
}

/// The time of the latest of the messages to a channel, if there is one.
pub open spec fn latest_to(rows: Seq<MessageRowView>, channel: i64) -> Option<Timestamp>
    decreases rows.len(),
{
    if rows.len() == 0 {
        None
    } else {
        let earlier = latest_to(rows.drop_last(), channel);
        if rows.last().target == Target::Channel(channel) {
            Some(later(earlier, rows.last().created_at))
        } else {
            earlier
        }
    }
}

/// A channel's details.
pub open spec fn channel_details(t: TablesView, c: ChannelView) -> ChannelDetailsView {
    ChannelDetailsView {
        name: c.name,
        created_at: c.created_at,
        member_count: reported(t.members.filter(membership_of(c.id)).len()),
        last_message_at: latest_to(t.messages, c.id),
    }
}

/// Whether a delivery is unread.
pub open spec fn is_unread() -> spec_fn(Delivery) -> bool {
    |d: Delivery| d.read_at is None
}

/// Whether a scheduled send waits.
pub open spec fn is_pending() -> spec_fn(ScheduledView) -> bool {
    |s: ScheduledView| s.status == ScheduledStatus::Pending
}

/// No message of the channel is later than the latest, and one is as late.
pub proof fn law_latest(rows: Seq<MessageRowView>, channel: i64)
    ensures
        match latest_to(rows, channel) {
            Some(t) => (forall|i: int|
                0 <= i < rows.len() && (#[trigger] rows[i]).target == Target::Channel(channel)
                    ==> rows[i].created_at.at() <= t.at()) && exists|i: int|
                0 <= i < rows.len() && (#[trigger] rows[i]).target == Target::Channel(channel)
                    && rows[i].created_at == t,
            None => forall|i: int|
                0 <= i < rows.len() ==> (#[trigger] rows[i]).target != Target::Channel(channel),
        },
    decreases rows.len(),
{
    if rows.len() > 0 {
        let front = rows.drop_last();
        law_latest(front, channel);
        assert forall|i: int| 0 <= i < rows.len() && i != rows.len() - 1 implies rows[i]
            == #[trigger] front[i] by {}
        match latest_to(rows, channel) {
            Some(t) => {
                assert forall|i: int|
                    0 <= i < rows.len() && (#[trigger] rows[i]).target == Target::Channel(
                        channel,
                    ) implies rows[i].created_at.at() <= t.at() by {
                    if i < front.len() {
                        assert(front[i] == rows[i]);
                    }
                }
                if rows.last().target == Target::Channel(channel) && t == rows.last().created_at {
                    assert(rows[rows.len() - 1].created_at == t);
                } else {
                    let i = choose|i: int|
                        0 <= i < front.len() && (#[trigger] front[i]).target == Target::Channel(
                            channel,
                        ) && front[i].created_at == t;
                    assert(rows[i].created_at == t);
                }
            },
            None => {
                assert forall|i: int| 0 <= i < rows.len() implies (#[trigger] rows[i]).target
                    != Target::Channel(channel) by {
                    if i < front.len() {
                        assert(front[i] == rows[i]);
                    }
                }
            },
        }
    }
}

impl Store {
    /// The agents, by ascending id.
    pub fn list_agents(&self) -> (r: Vec<AgentRow>)
        ensures
            views(r@) == self@.agents,
    {
        let ghost all = self@.agents;
        let mut r: Vec<AgentRow> = Vec::new();
        let mut i: usize = 0;
        assert(views(r@) =~= all.take(0));
        while i < self.tables.agents.len()
            invariant
                all == self@.agents,
                all.len() == self.tables.agents@.len(),
                i <= all.len(),
                views(r@) == all.take(i as int),
            decreases all.len() - i,
        {
            let row = self.tables.agents[i].copied();
            assert(all[i as int] == row@);
            let ghost done = r@;
            r.push(row);
            i = i + 1;
            assert(views(r@) =~= views(done).push(row@));
            assert(views(r@) =~= all.take(i as int));
        }
        assert(all.take(i as int) =~= all);
        r
    }

    /// The names of the agents, by ascending id.
    pub fn agent_names(&self) -> (r: Vec<String>)
        ensures
            texts(r@) == self@.agent_names(),
    {
        let ghost all = self@.agent_names();
        let mut r: Vec<String> = Vec::new();
        let mut i: usize = 0;
        assert(texts(r@) =~= all.take(0));
        while i < self.tables.agents.len()
            invariant
                all == self@.agent_names(),
                all.len() == self.tables.agents@.len(),
                i <= all.len(),
                texts(r@) == all.take(i as int),
            decreases all.len() - i,
        {
            let name = self.tables.agents[i].name.clone();
            assert(all[i as int] == name@);
            let ghost done = r@;
            r.push(name);
            i = i + 1;
            assert(texts(r@) =~= texts(done).push(name@));
            assert(texts(r@) =~= all.take(i as int));
        }
        assert(all.take(i as int) =~= all);
        r
    }

    /// The names of the channels, by ascending id.
    pub fn list_channels(&self) -> (r: Vec<String>)
        ensures
            texts(r@) == self@.channel_names(),
    {
        let ghost all = self@.channel_names();
        let mut r: Vec<String> = Vec::new();
        let mut i: usize = 0;
        assert(texts(r@) =~= all.take(0));
        while i < self.tables.channels.len()
            invariant
                all == self@.channel_names(),
                all.len() == self.tables.channels@.len(),
                i <= all.len(),
                texts(r@) == all.take(i as int),
            decreases all.len() - i,
        {
            let name = self.tables.channels[i].name.clone();
            assert(all[i as int] == name@);
            let ghost done = r@;
            r.push(name);
            i = i + 1;
            assert(texts(r@) =~= texts(done).push(name@));
            assert(texts(r@) =~= all.take(i as int));
        }
        assert(all.take(i as int) =~= all);
        r
    }

    /// How many sessions the agent has open.
    fn open_sessions(&self, agent: i64) -> (n: i64)
        ensures
            n == reported(self@.sessions.filter(open_for(agent)).len()),
    {
        let ghost rows = self.tables.sessions@;
        let ghost pred = open_for(agent);
        let mut n: usize = 0;
        let mut i: usize = 0;
        assert(rows.take(0).filter(pred) =~= seq![]) by {
            reveal(Seq::filter);
        }
        while i < self.tables.sessions.len()
            invariant
                rows == self.tables.sessions@,
                rows.len() == self.tables.sessions.len(),
                pred == open_for(agent),
                i <= rows.len(),
                n <= i,
                n == rows.take(i as int).filter(pred).len(),
            decreases rows.len() - i,
        {
            let s = self.tables.sessions[i];
            proof {
                rows.take(i as int).lemma_filter_push(s, pred);
                assert(rows.take(i + 1) =~= rows.take(i as int).push(s));
            }
            if s.agent == agent && s.ended_at.is_none() {
                n = n + 1;
            }
            i = i + 1;
        }
        assert(rows.take(i as int) =~= rows);
        report(n)
    }

    /// The agents with their details, the one seen last first. Unless `include_stale`, those
    /// that were not seen within `stale_after_days` are left out.
    pub fn list_agents_detailed(
        &self,
        include_stale: bool,
        stale_after_days: i64,
        now: Timestamp,
    ) -> (r: Vec<AgentDetails>)
        ensures
            views(r@) == agents_detailed(self@, include_stale, now, stale_after_days),
    {
        let ghost rows = self@.agents;
        let ghost pred = if include_stale {
            any_agent()
        } else {
            is_fresh(now, stale_after_days)
        };
        let ghost at = |k: Keyed| rows[k.at as int];
        let mut keyed: Vec<Keyed> = Vec::new();
        let mut i: usize = 0;
        assert(rows.take(0).filter(pred) =~= seq![]) by {
            reveal(Seq::filter);
        }
        assert(keyed@.map_values(at) =~= rows.take(0).filter(pred));
        while i < self.tables.agents.len()
            invariant
                rows == self@.agents,
                rows.len() == self.tables.agents@.len(),
                pred == (if include_stale {
                    any_agent()
                } else {
                    is_fresh(now, stale_after_days)
                }),
                at == (|k: Keyed| rows[k.at as int]),
                i <= rows.len(),
                keyed@.map_values(at) == rows.take(i as int).filter(pred),
                forall|j: int|
                    0 <= j < keyed@.len() ==> (#[trigger] keyed@[j]).at < rows.len()
                        && keyed@[j].key == -rows[keyed@[j].at as int].last_seen.at(),
            decreases rows.len() - i,
        {
            let row = &self.tables.agents[i];
            proof {
                assert(rows[i as int] == row@);
                rows.take(i as int).lemma_filter_push(row@, pred);
                assert(rows.take(i + 1) =~= rows.take(i as int).push(row@));
            }
            if include_stale || !row.last_seen.older_than_days(&now, stale_after_days) {
                let k = Keyed { key: -row.last_seen.instant(), at: i };
                let ghost done = keyed@;
                keyed.push(k);
                assert(keyed@.map_values(at) =~= done.map_values(at).push(row@));
            }
            i = i + 1;
        }
        assert(rows.take(i as int) =~= rows);
        let sorted = sort_keyed(&keyed);
        proof {
            law_sorted(keyed@, by_key());
            lemma_sorted_map(keyed@, by_key(), at, latest_first());
            assert forall|j: int| 0 <= j < sorted@.len() implies (#[trigger] sorted@[j]).at
                < rows.len() by {
                assert(sorted@.contains(sorted@[j]));
                let p = keyed@.index_of(sorted@[j]);
                assert(keyed@[p] == sorted@[j]);
            }
        }
        let ghost list = sorted_by(rows.filter(pred), latest_first());
        let ghost all = agents_detailed(self@, include_stale, now, stale_after_days);
        assert(list == sorted@.map_values(at));
        let mut r: Vec<AgentDetails> = Vec::new();
        let mut n: usize = 0;
        assert(views(r@) =~= all.take(0));
        while n < sorted.len()
            invariant
                rows == self@.agents,
                rows.len() == self.tables.agents@.len(),
                at == (|k: Keyed| rows[k.at as int]),
                list == sorted@.map_values(at),
                all == list.map_values(|a: AgentView| agent_details(self@, a)),
                n <= sorted@.len(),
                views(r@) == all.take(n as int),
                forall|j: int| 0 <= j < sorted@.len() ==> (#[trigger] sorted@[j]).at < rows.len(),
            decreases sorted@.len() - n,
        {
            let k = sorted[n];
            let row = &self.tables.agents[k.at];
            assert(rows[k.at as int] == row@);
            let item = AgentDetails {
                name: row.name.clone(),
                first_seen: row.first_seen,
                last_seen: row.last_seen,
                active_sessions: self.open_sessions(row.id),
            };
            assert(list[n as int] == row@);
            assert(all[n as int] == item@);
            let ghost done = r@;
            r.push(item);
            n = n + 1;
            assert(views(r@) =~= views(done).push(item@));
            assert(views(r@) =~= all.take(n as int));
        }
        assert(all.take(n as int) =~= all);
        r
    }

    /// How many members a channel has.
    fn count_members(&self, channel: i64) -> (n: i64)
        ensures
            n == reported(self@.members.filter(membership_of(channel)).len()),
    {
        let ghost rows = self.tables.members@;
        let ghost pred = membership_of(channel);
        let mut n: usize = 0;
        let mut i: usize = 0;
        assert(rows.take(0).filter(pred) =~= seq![]) by {
            reveal(Seq::filter);
        }
        while i < self.tables.members.len()
            invariant
                rows == self.tables.members@,
                rows.len() == self.tables.members.len(),
                pred == membership_of(channel),
                i <= rows.len(),
                n <= i,
                n == rows.take(i as int).filter(pred).len(),
            decreases rows.len() - i,
        {
            let m = self.tables.members[i];
            proof {
                rows.take(i as int).lemma_filter_push(m, pred);
                assert(rows.take(i + 1) =~= rows.take(i as int).push(m));
            }
            if m.channel == channel {
                n = n + 1;
            }
            i = i + 1;
        }
        assert(rows.take(i as int) =~= rows);
        report(n)
    }

    /// The time of the latest message to a channel, if there is one.
    fn last_message_to(&self, channel: i64) -> (r: Option<Timestamp>)
        ensures
            r == latest_to(self@.messages, channel),
    {
        let ghost rows = self@.messages;
        let mut r: Option<Timestamp> = None;
        let mut i: usize = 0;
        while i < self.tables.messages.len()
            invariant
                rows == self@.messages,
                rows.len() == self.tables.messages@.len(),
                i <= rows.len(),
                r == latest_to(rows.take(i as int), channel),
            decreases rows.len() - i,
        {
            let m = &self.tables.messages[i];
            proof {
                assert(rows[i as int] == m@);
                assert(rows.take(i + 1).drop_last() =~= rows.take(i as int));
                assert(rows.take(i + 1).last() == m@);
            }
            if m.target == Target::Channel(channel) {
                r = match r {
                    Some(t) => if t.before(&m.created_at) {
                        Some(m.created_at)
                    } else {
                        Some(t)
                    },
                    None => Some(m.created_at),
                };
            }
            i = i + 1;
        }
        assert(rows.take(i as int) =~= rows);
        r
    }

    /// The channels with their details, by ascending id.
    pub fn channels_detailed(&self) -> (r: Vec<ChannelDetails>)
        ensures
            views(r@) == self@.channels.map_values(|c: ChannelView| channel_details(self@, c)),
    {
        let ghost all = self@.channels.map_values(|c: ChannelView| channel_details(self@, c));
        let mut r: Vec<ChannelDetails> = Vec::new();
        let mut i: usize = 0;
        assert(views(r@) =~= all.take(0));
        while i < self.tables.channels.len()
            invariant
                all == self@.channels.map_values(|c: ChannelView| channel_details(self@, c)),
                all.len() == self.tables.channels@.len(),
                i <= all.len(),
                views(r@) == all.take(i as int),
            decreases all.len() - i,
        {
            let row = &self.tables.channels[i];
            assert(self@.channels[i as int] == row@);
            let item = ChannelDetails {
                name: row.name.clone(),
                created_at: row.created_at,
                member_count: self.count_members(row.id),
                last_message_at: self.last_message_to(row.id),
            };
            assert(all[i as int] == item@);
            let ghost done = r@;
            r.push(item);
            i = i + 1;
            assert(views(r@) =~= views(done).push(item@));
            assert(views(r@) =~= all.take(i as int));
        }
        assert(all.take(i as int) =~= all);
        r
    }

    /// The numbers of agents, channels, unread deliveries and pending scheduled sends.
    pub fn status_counts(&self) -> (r: (i64, i64, i64, i64))
        ensures
            r.0 == reported(self@.agents.len()),
            r.1 == reported(self@.channels.len()),
            r.2 == reported(self@.deliveries.filter(is_unread()).len()),
            r.3 == reported(self@.scheduled.filter(is_pending()).len()),
    {
        let ghost rows = self.tables.deliveries@;
        let mut unread: usize = 0;
        let mut i: usize = 0;
        assert(rows.take(0).filter(is_unread()) =~= seq![]) by {
            reveal(Seq::filter);
        }
        while i < self.tables.deliveries.len()
            invariant
                rows == self.tables.deliveries@,
                rows.len() == self.tables.deliveries.len(),
                i <= rows.len(),
                unread <= i,
                unread == rows.take(i as int).filter(is_unread()).len(),
            decreases rows.len() - i,
        {
            let d = self.tables.deliveries[i];
            proof {
                rows.take(i as int).lemma_filter_push(d, is_unread());
                assert(rows.take(i + 1) =~= rows.take(i as int).push(d));
            }
            if d.read_at.is_none() {
                unread = unread + 1;
            }
            i = i + 1;
        }
        assert(rows.take(i as int) =~= rows);
        let ghost list = self@.scheduled;
        let mut waiting: usize = 0;
        let mut k: usize = 0;
        assert(list.take(0).filter(is_pending()) =~= seq![]) by {
            reveal(Seq::filter);
        }
        while k < self.tables.scheduled.len()
            invariant
                list == self@.scheduled,
                list.len() == self.tables.scheduled.len(),
                k <= list.len(),
                waiting <= k,
                waiting == list.take(k as int).filter(is_pending()).len(),
            decreases list.len() - k,
        {
            let s = &self.tables.scheduled[k];
            proof {
                assert(list[k as int] == s@);
                list.take(k as int).lemma_filter_push(s@, is_pending());
                assert(list.take(k + 1) =~= list.take(k as int).push(s@));
            }
            if s.status == ScheduledStatus::Pending {
                waiting = waiting + 1;
            }
            k = k + 1;
        }
        assert(list.take(k as int) =~= list);
        (
            report(self.tables.agents.len()),
            report(self.tables.channels.len()),
            report(unread),
            report(waiting),
        )
    }
}

} // verus!
