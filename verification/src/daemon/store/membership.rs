//! Joining and leaving channels, and the sessions of connected clients.

use vstd::prelude::*;
use vstd::seq_lib::*;

use crate::clock::Timestamp;

use super::super::keeping::{
    lemma_add_member, lemma_add_session, lemma_drop_member, lemma_end_all_sessions,
    lemma_end_session, lemma_same_people,
};
use super::super::posting::{
    lemma_agent_named, lemma_channel_named, lemma_with_agent, lemma_with_channel,
};
use super::super::tables::{Membership, Session, TablesView};
use super::post::{agent_fault, channel_fault};
use super::{beside, kept, Store, StoreError};

verus! {

/// What joining a channel gives.
pub open spec fn joining(
    t: TablesView,
    agent: Seq<char>,
    channel: Seq<char>,
    now: Timestamp,
) -> Result<(TablesView, ()), StoreError> {
    match agent_fault(t, agent) {
        Some(e) => Err(e),
        None => match channel_fault(t, channel) {
            Some(e) => Err(e),
            None => {
                let u = t.with_agent(agent, now).with_channel(channel, now);
                kept(
                    u.add_member(
                        Membership {
                            agent: u.agent_id(agent),
                            channel: u.channel_id(channel),
                            joined_at: now,
                        },
                    ),
                    (),
                )
            },
        },
    }
}

/// The tables once the agent left the channel. Where one of them is not known, or the agent
/// is no member, nothing changes.
pub open spec fn left(t: TablesView, agent: Seq<char>, channel: Seq<char>) -> TablesView {
    if t.knows_agent(agent) && t.knows_channel(channel) {
        t.drop_member(t.agent_id(agent), t.channel_id(channel))
    } else {
        t
    }
}

/// What opening a session gives: the tables and the session's id.
pub open spec fn opening(t: TablesView, agent: Seq<char>, now: Timestamp) -> Result<
    (TablesView, i64),
    StoreError,
> {
    match agent_fault(t, agent) {
        Some(e) => Err(e),
        None => {
            let u = t.with_agent(agent, now);
            let id = t.next_session as i64;
            kept(
                u.add_session(
                    Session { id, agent: u.agent_id(agent), started_at: now, ended_at: None },
                ),
                id,
            )
        },
    }
}

/// Whether a session is open.
pub open spec fn is_open() -> spec_fn(Session) -> bool {
    |s: Session| s.ended_at is None
}

impl Store {
    /// Makes the agent a member of the channel. Both are added where they are not known.
    pub fn join_channel(&mut self, agent_name: &str, channel: &str, now: Timestamp) -> (r: Result<
        (),
        StoreError,
    >)
        requires
            old(self).wf(),
        ensures
            final(self).wf(),
            final(self).saved() == old(self).saved(),
            beside(final(self)@, r) == joining(old(self)@, agent_name@, channel@, now),
            r is Err ==> *final(self) == *old(self),
    {
        match self.check_agent(agent_name) {
            Some(e) => {
                return Err(e);
            },
            None => {},
        }
        match self.check_channel(channel) {
            Some(e) => {
                return Err(e);
            },
            None => {},
        }
        if !self.has_agent_id(agent_name) || !self.has_channel_id(channel) {
            return Err(StoreError::Full);
        }
        let ghost t = self@;
        proof {
            lemma_with_agent(t, agent_name@, now);
        }
        let agent = self.see(agent_name, now);
        proof {
            assert(t.knows_channel(channel@) ==> self@.knows_channel(channel@));
            lemma_with_channel(self@, channel@, now);
        }
        let id = self.open_channel(channel, now);
        let row = Membership { agent, channel: id, joined_at: now };
        proof {
            assert(self@.knows_agent(agent_name@));
            lemma_agent_named(self@, agent_name@);
            lemma_channel_named(self@, channel@);
            lemma_add_member(self@, row);
        }
        let ghost u = self@;
        self.add_member(row);
        proof {
            lemma_same_people(u, self@);
        }
        Ok(())
    }

    /// Ends the agent's membership of the channel, if there is one.
    pub fn leave_channel(&mut self, agent_name: &str, channel: &str)
        requires
            old(self).wf(),
        ensures
            final(self).wf(),
            final(self).saved() == old(self).saved(),
            final(self)@ == left(old(self)@, agent_name@, channel@),
    {
        let agent = self.find_agent(agent_name);
        let id = self.find_channel(channel);
        match (agent, id) {
            (Some(a), Some(c)) => {
                proof {
                    lemma_drop_member(self@, a, c);
                }
                let ghost t = self@;
                self.drop_member(a, c);
                proof {
                    lemma_same_people(t, self@);
                }
            },
            _ => {},
        }
    }

    /// Opens a session of the agent, and gives its id.
    pub fn open_session(&mut self, agent_name: &str, now: Timestamp) -> (r: Result<
        i64,
        StoreError,
    >)
        requires
            old(self).wf(),
        ensures
            final(self).wf(),
            final(self).saved() == old(self).saved(),
            beside(final(self)@, r) == opening(old(self)@, agent_name@, now),
            r is Err ==> *final(self) == *old(self),
    {
        match self.check_agent(agent_name) {
            Some(e) => {
                return Err(e);
            },
            None => {},
        }
        if !self.has_agent_id(agent_name) || self.tables.next_session == i64::MAX {
            return Err(StoreError::Full);
        }
        proof {
            lemma_with_agent(self@, agent_name@, now);
        }
        let agent = self.see(agent_name, now);
        let ghost t = self@;
        let id = self.tables.next_session;
        let row = Session { id, agent, started_at: now, ended_at: None };
        proof {
            lemma_add_session(t, row);
        }
        self.add_session(row);
        proof {
            lemma_same_people(t, self@);
        }
        Ok(id)
    }

    /// Ends a session, if it is open.
    pub fn close_session(&mut self, session_id: i64, now: Timestamp)
        requires
            old(self).wf(),
        ensures
            final(self).wf(),
            final(self).saved() == old(self).saved(),
            final(self)@ == old(self)@.end_session(session_id, now),
    {
        let ghost t = self@;
        proof {
            lemma_end_session(t, session_id, now);
        }
        self.end_session(session_id, now);
        proof {
            lemma_same_people(t, self@);
        }
    }

    /// Ends every open session, and gives their number.
    pub fn close_dangling_sessions(&mut self, now: Timestamp) -> (n: usize)
        requires
            old(self).wf(),
        ensures
            final(self).wf(),
            final(self).saved() == old(self).saved(),
            final(self)@ == old(self)@.end_all_sessions(now),
            n == old(self)@.sessions.filter(is_open()).len(),
    {
        let ghost t = self@;
        let ghost rows = self.tables.sessions@;
        let mut n: usize = 0;
        let mut i: usize = 0;
        assert(rows.take(0).filter(is_open()) =~= seq![]) by {
            reveal(Seq::filter);
        }
        while i < self.tables.sessions.len()
            invariant
                rows == self.tables.sessions@,
                self.tables.sessions.len() == rows.len(),
                i <= rows.len(),
                n <= i,
                n == rows.take(i as int).filter(is_open()).len(),
            decreases rows.len() - i,
        {
            let s = self.tables.sessions[i];
            proof {
                rows.take(i as int).lemma_filter_push(s, is_open());
                assert(rows.take(i + 1) =~= rows.take(i as int).push(s));
            }
            if s.ended_at.is_none() {
                n = n + 1;
            }
            i = i + 1;
        }
        proof {
            assert(rows.take(i as int) =~= rows);
            lemma_end_all_sessions(t, now);
        }
        self.end_all_sessions(now);
        proof {
            lemma_same_people(t, self@);
        }
        n
    }
}

} // verus!
