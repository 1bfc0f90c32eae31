//! Retention and pruning.

use vstd::prelude::*;
use vstd::seq_lib::*;

use crate::clock::Timestamp;
use crate::limits::MASTER;
use crate::text::same;
use crate::types::texts;

use super::super::keeping::{
    lemma_drop_agents, lemma_drop_messages, lemma_drop_scheduled, lemma_drop_sessions,
    lemma_filter_order, lemma_same_people,
};
use super::super::tables::{
    AgentView, MessageRowView, ScheduledStatus, ScheduledView, Session, TablesView, Target,
};
use super::inbox::ids_of;
use super::Store;

verus! {

/// The moment so many days before `now`, in nanoseconds.
pub open spec fn cutoff(now: Timestamp, days: i64) -> int {
    now.at() - days * 86400 * 1000000000
}

/// Whether a message was read by all to whom it was delivered.
pub open spec fn all_read(t: TablesView, id: i64) -> bool {
    forall|i: int|
        0 <= i < t.deliveries.len() && (#[trigger] t.deliveries[i]).message == id
            ==> t.deliveries[i].read_at is Some
}

/// Whether a message is past its retention: it is older than so many days, and all read it.
pub open spec fn is_past(t: TablesView, now: Timestamp, days: i64) -> spec_fn(
    MessageRowView,
) -> bool {
    |m: MessageRowView| m.created_at.at() < cutoff(now, days) && all_read(t, m.id)
}

/// Whether a scheduled send is past its retention: it was delivered or failed, and was due
/// more than so many days ago.
pub open spec fn is_done(now: Timestamp, days: i64) -> spec_fn(ScheduledView) -> bool {
    |s: ScheduledView|
        (s.status == ScheduledStatus::Delivered || s.status == ScheduledStatus::Failed)
            && s.deliver_at.at() < cutoff(now, days)
}

/// Whether a session is past its retention: it ended more than so many days ago.
pub open spec fn is_over(now: Timestamp, days: i64) -> spec_fn(Session) -> bool {
    |s: Session|
        match s.ended_at {
            Some(t) => t.at() < cutoff(now, days),
            None => false,
        }
}

/// The ids of the messages that are past their retention.
pub open spec fn past_messages(t: TablesView, now: Timestamp, days: i64) -> Seq<i64> {
    ids_of(t.messages.filter(is_past(t, now, days)))
}

/// The ids of the scheduled sends that are past their retention.
pub open spec fn past_scheduled(t: TablesView, now: Timestamp, days: i64) -> Seq<i64> {
    t.scheduled.filter(is_done(now, days)).map_values(|s: ScheduledView| s.id)
}

/// The ids of the sessions that are past their retention.
pub open spec fn past_sessions(t: TablesView, now: Timestamp, days: i64) -> Seq<i64> {
    t.sessions.filter(is_over(now, days)).map_values(|s: Session| s.id)
}

/// The tables without what is past its retention.
pub open spec fn cleaned(t: TablesView, now: Timestamp, days: i64) -> TablesView {
    t.drop_messages(past_messages(t, now, days)).drop_scheduled(
        past_scheduled(t, now, days),
    ).drop_sessions(past_sessions(t, now, days))
}

/// Whether there is a message from or to an agent.
pub open spec fn has_mail(t: TablesView, agent: i64) -> bool {
    exists|i: int|
        0 <= i < t.messages.len() && ((#[trigger] t.messages[i]).from == agent
            || t.messages[i].target == Target::Agent(agent))
}

/// Whether an agent is pruned: it was not seen for so many days, there is no message from or
/// to it, and it is not the operator.
pub open spec fn is_idle(t: TablesView, now: Timestamp, days: i64) -> spec_fn(AgentView) -> bool {
    |a: AgentView|
        a.last_seen.at() < cutoff(now, days) && a.name != MASTER@ && !has_mail(t, a.id)
}

/// The agents that are pruned.
pub open spec fn idle_agents(t: TablesView, now: Timestamp, days: i64) -> Seq<AgentView> {
    t.agents.filter(is_idle(t, now, days))
}

/// The tables without the agents that are pruned.
pub open spec fn pruned(t: TablesView, now: Timestamp, days: i64) -> TablesView {
    t.drop_agents(idle_agents(t, now, days).map_values(|a: AgentView| a.id))
}

impl Store {
    /// Whether a message was read by all to whom it was delivered.
    fn read_by_all(&self, id: i64) -> (r: bool)
        ensures
            r == all_read(self@, id),
    {
        let mut i: usize = 0;
        while i < self.tables.deliveries.len()
            invariant
                i <= self.tables.deliveries@.len(),
                forall|j: int|
                    0 <= j < i && (#[trigger] self.tables.deliveries@[j]).message == id
                        ==> self.tables.deliveries@[j].read_at is Some,
            decreases self.tables.deliveries@.len() - i,
        {
            let d = self.tables.deliveries[i];
            if d.message == id && d.read_at.is_none() {
                assert(self@.deliveries[i as int] == d);
                return false;
            }
            i = i + 1;
        }
        assert(self@.deliveries == self.tables.deliveries@);
        true
    }

    fn past_message_ids(&self, now: Timestamp, days: i64) -> (ids: Vec<i64>)
        ensures
            ids@ == past_messages(self@, now, days),
    {
        let ghost rows = self@.messages;
        let ghost pred = is_past(self@, now, days);
        let mut ids: Vec<i64> = Vec::new();
        let mut i: usize = 0;
        assert(rows.take(0).filter(pred) =~= seq![]) by {
            reveal(Seq::filter);
        }
        assert(ids@ =~= ids_of(rows.take(0).filter(pred)));
        while i < self.tables.messages.len()
            invariant
                rows == self@.messages,
                rows.len() == self.tables.messages@.len(),
                pred == is_past(self@, now, days),
                i <= rows.len(),
                ids@ == ids_of(rows.take(i as int).filter(pred)),
            decreases rows.len() - i,
        {
            let m = &self.tables.messages[i];
            let ghost before = rows.take(i as int).filter(pred);
            proof {
                assert(rows[i as int] == m@);
                rows.take(i as int).lemma_filter_push(m@, pred);
                assert(rows.take(i + 1) =~= rows.take(i as int).push(m@));
                assert(ids_of(before.push(m@)) =~= ids_of(before).push(m.id));
            }
            if m.created_at.older_than_days(&now, days) && self.read_by_all(m.id) {
                ids.push(m.id);
            }
            i = i + 1;
        }
        assert(rows.take(i as int) =~= rows);
        ids
    }

    fn past_scheduled_ids(&self, now: Timestamp, days: i64) -> (ids: Vec<i64>)
        ensures
            ids@ == past_scheduled(self@, now, days),
    {
        let ghost rows = self@.scheduled;
        let ghost pred = is_done(now, days);
        let ghost id = |s: ScheduledView| s.id;
        let mut ids: Vec<i64> = Vec::new();
        let mut i: usize = 0;
        assert(rows.take(0).filter(pred) =~= seq![]) by {
            reveal(Seq::filter);
        }
        assert(ids@ =~= rows.take(0).filter(pred).map_values(id));
        while i < self.tables.scheduled.len()
            invariant
                rows == self@.scheduled,
                rows.len() == self.tables.scheduled@.len(),
                pred == is_done(now, days),
                id == (|s: ScheduledView| s.id),
                i <= rows.len(),
                ids@ == rows.take(i as int).filter(pred).map_values(id),
            decreases rows.len() - i,
        {
            let s = &self.tables.scheduled[i];
            let ghost before = rows.take(i as int).filter(pred);
            proof {
                assert(rows[i as int] == s@);
                rows.take(i as int).lemma_filter_push(s@, pred);
                assert(rows.take(i + 1) =~= rows.take(i as int).push(s@));
                assert(before.push(s@).map_values(id) =~= before.map_values(id).push(s.id));
            }
            if (s.status == ScheduledStatus::Delivered || s.status == ScheduledStatus::Failed)
                && s.deliver_at.older_than_days(&now, days) {
                ids.push(s.id);
            }
            i = i + 1;
        }
        assert(rows.take(i as int) =~= rows);
        ids
    }

    fn past_session_ids(&self, now: Timestamp, days: i64) -> (ids: Vec<i64>)
        ensures
            ids@ == past_sessions(self@, now, days),
    {
        let ghost rows = self.tables.sessions@;
        let ghost pred = is_over(now, days);
        let ghost id = |s: Session| s.id;
        let mut ids: Vec<i64> = Vec::new();
        let mut i: usize = 0;
        assert(rows.take(0).filter(pred) =~= seq![]) by {
            reveal(Seq::filter);
        }
        assert(ids@ =~= rows.take(0).filter(pred).map_values(id));
        while i < self.tables.sessions.len()
            invariant
                rows == self.tables.sessions@,
                pred == is_over(now, days),
                id == (|s: Session| s.id),
                i <= rows.len(),
                ids@ == rows.take(i as int).filter(pred).map_values(id),
            decreases rows.len() - i,
        {
            let s = self.tables.sessions[i];
            let ghost before = rows.take(i as int).filter(pred);
            proof {
                rows.take(i as int).lemma_filter_push(s, pred);
                assert(rows.take(i + 1) =~= rows.take(i as int).push(s));
                assert(before.push(s).map_values(id) =~= before.map_values(id).push(s.id));
            }
            let over: bool = match s.ended_at {
                Some(t) => t.older_than_days(&now, days),
                None => false,
            };
            if over {
                ids.push(s.id);
            }
            i = i + 1;
        }
        assert(rows.take(i as int) =~= rows);
        ids
    }

    /// Drops messages that are older than so many days and that all have read, scheduled
    /// sends that were delivered or failed longer ago, and sessions that ended longer ago.
    /// Gives the number of messages dropped.
    pub fn cleanup_old(&mut self, retention_days: i64, now: Timestamp) -> (n: usize)
        requires
            old(self).wf(),
        ensures
            final(self).wf(),
            final(self).saved() == old(self).saved(),
            final(self)@ == cleaned(old(self)@, now, retention_days),
            n == past_messages(old(self)@, now, retention_days).len(),
    {
        let ghost t = self@;
        let messages = self.past_message_ids(now, retention_days);
        let scheduled = self.past_scheduled_ids(now, retention_days);
        let sessions = self.past_session_ids(now, retention_days);
        proof {
            lemma_drop_messages(t, messages@);
        }
        self.drop_messages(&messages);
        proof {
            lemma_drop_scheduled(self@, scheduled@);
        }
        self.drop_scheduled(&scheduled);
        proof {
            lemma_drop_sessions(self@, sessions@);
        }
        self.drop_sessions(&sessions);
        proof {
            lemma_same_people(t, self@);
        }
        messages.len()
    }

    /// Whether there is a message from or to an agent.
    fn any_mail(&self, agent: i64) -> (r: bool)
        ensures
            r == has_mail(self@, agent),
    {
        let mut i: usize = 0;
        while i < self.tables.messages.len()
            invariant
                i <= self.tables.messages@.len(),
                forall|j: int|
                    0 <= j < i ==> (#[trigger] self@.messages[j]).from != agent
                        && self@.messages[j].target != Target::Agent(agent),
            decreases self.tables.messages@.len() - i,
        {
            let m = &self.tables.messages[i];
            assert(self@.messages[i as int] == m@);
            if m.from == agent || m.target == Target::Agent(agent) {
                return true;
            }
            i = i + 1;
        }
        false
    }

    /// Drops the agents that were not seen for so many days and have no messages; never the
    /// operator. A dry run drops nobody. Gives the names of those that are dropped, or would
    /// be.
    pub fn prune(&mut self, inactive_days: i64, dry_run: bool, now: Timestamp) -> (names: Vec<
        String,
    >)
        requires
            old(self).wf(),
        ensures
            final(self).wf(),
            final(self).saved() == old(self).saved(),
            texts(names@) == idle_agents(old(self)@, now, inactive_days).map_values(
                |a: AgentView| a.name,
            ),
            final(self)@ == (if dry_run {
                old(self)@
            } else {
                pruned(old(self)@, now, inactive_days)
            }),
            dry_run ==> *final(self) == *old(self),
    {
        let ghost t = self@;
        let ghost rows = t.agents;
        let ghost pred = is_idle(t, now, inactive_days);
        let ghost id = |a: AgentView| a.id;
        let ghost name = |a: AgentView| a.name;
        let mut ids: Vec<i64> = Vec::new();
        let mut names: Vec<String> = Vec::new();
        let mut i: usize = 0;
        assert(rows.take(0).filter(pred) =~= seq![]) by {
            reveal(Seq::filter);
        }
        assert(ids@ =~= rows.take(0).filter(pred).map_values(id));
        assert(texts(names@) =~= rows.take(0).filter(pred).map_values(name));
        while i < self.tables.agents.len()
            invariant
                *self == *old(self),
                t == self@,
                rows == t.agents,
                rows.len() == self.tables.agents@.len(),
                pred == is_idle(t, now, inactive_days),
                id == (|a: AgentView| a.id),
                name == (|a: AgentView| a.name),
                i <= rows.len(),
                ids@ == rows.take(i as int).filter(pred).map_values(id),
                texts(names@) == rows.take(i as int).filter(pred).map_values(name),
            decreases rows.len() - i,
        {
            let a = &self.tables.agents[i];
            let ghost before = rows.take(i as int).filter(pred);
            proof {
                assert(rows[i as int] == a@);
                rows.take(i as int).lemma_filter_push(a@, pred);
                assert(rows.take(i + 1) =~= rows.take(i as int).push(a@));
                assert(before.push(a@).map_values(id) =~= before.map_values(id).push(a.id));
                assert(before.push(a@).map_values(name) =~= before.map_values(name).push(a.name@));
            }
            if a.last_seen.older_than_days(&now, inactive_days) && !same(a.name.as_str(), MASTER)
                && !self.any_mail(a.id) {
                ids.push(a.id);
                let ghost done = names@;
                let copy = a.name.clone();
                names.push(copy);
                assert(texts(names@) =~= texts(done).push(copy@));
            }
            i = i + 1;
        }
        assert(rows.take(i as int) =~= rows);
        if !dry_run {
            proof {
                let idle = idle_agents(t, now, inactive_days);
                lemma_filter_order(rows, pred);
                assert forall|k: i64| ids@.contains(k) implies !has_mail(t, k) && k != t.agent_id(
                    MASTER@,
                ) by {
                    let p = ids@.index_of(k);
                    assert(ids@[p] == idle[p].id);
                    assert(pred(rows.filter(pred)[p]));
                    let q = choose|q: int| 0 <= q < rows.len() && rows[q] == idle[p];
                    let m = t.agent_names().index_of(MASTER@);
                    assert(t.agent_names()[m] == MASTER@);
                    assert(t.agents[m].name == MASTER@);
                    assert(t.agent_ids()[q] == k);
                    if k == t.agent_id(MASTER@) {
                        assert(t.agent_ids()[m] == k);
                        assert(q == m);
                    }
                }
                assert forall|j: int| 0 <= j < t.messages.len() implies !ids@.contains(
                    (#[trigger] t.messages[j]).from,
                ) by {
                    if ids@.contains(t.messages[j].from) {
                        assert(has_mail(t, t.messages[j].from));
                    }
                }
                assert forall|j: int| 0 <= j < t.messages.len() implies match (
                #[trigger] t.messages[j]).target {
                    Target::Agent(a) => !ids@.contains(a),
                    _ => true,
                } by {
                    match t.messages[j].target {
                        Target::Agent(a) => {
                            if ids@.contains(a) {
                                assert(has_mail(t, a));
                            }
                        },
                        _ => {},
                    }
                }
                lemma_drop_agents(t, ids@);
            }
            self.drop_agents(&ids);
            proof {
                assert(self@.knows_agent(MASTER@));
                assert(t.knows_channel(crate::limits::DEFAULT_CHANNEL@));
                assert(self@.knows_channel(crate::limits::DEFAULT_CHANNEL@));
            }
        }
        names
    }
}

} // verus!
