//! Opening a store on tables.

use vstd::prelude::*;

use crate::clock::Timestamp;
use crate::limits::{DEFAULT_CHANNEL, MASTER};

use super::super::journal::ChangeView;
use super::super::keeping::{lemma_add_agent, lemma_add_channel, lemma_add_member};
use super::super::posting::{lemma_agent_named, lemma_channel_named};
use super::super::tables::{AgentRow, AgentView, ChannelRow, Membership, Tables, TablesView};
use super::Store;

verus! {

/// Why tables cannot be opened.
#[derive(Clone, Copy, Debug, PartialEq, Eq, Structural)]
pub enum OpenError {
    /// They contradict themselves.
    Inconsistent,
    /// There is no id left for the operator or the default channel.
    Full,
}

/// The operator, as it is first added.
pub open spec fn master_row(id: i64, now: Timestamp) -> AgentView {
    AgentView { id, name: MASTER@, display_name: Some(MASTER@), first_seen: now, last_seen: now }
}

/// The tables with the operator and the default channel in them, and the operator a member
/// of it. What is there already stays as it is.
pub open spec fn seeded(t: TablesView, now: Timestamp) -> TablesView {
    let u = if t.knows_agent(MASTER@) {
        t
    } else {
        t.add_agent(master_row(t.next_agent as i64, now))
    };
    let v = u.with_channel(DEFAULT_CHANNEL@, now);
    v.add_member(
        Membership {
            agent: v.agent_id(MASTER@),
            channel: v.channel_id(DEFAULT_CHANNEL@),
            joined_at: now,
        },
    )
}

impl Tables {
    /// Tables without any rows.
    pub fn empty() -> (t: Tables)
        ensures
            t@.agents.len() == 0,
            t@.channels.len() == 0,
            t@.members.len() == 0,
            t@.messages.len() == 0,
            t@.deliveries.len() == 0,
            t@.scheduled.len() == 0,
            t@.sessions.len() == 0,
            t.next_agent == 1,
            t.next_channel == 1,
            t.next_message == 1,
            t.next_scheduled == 1,
            t.next_session == 1,
            t@.consistent(),
    {
        Tables {
            agents: Vec::new(),
            channels: Vec::new(),
            members: Vec::new(),
            messages: Vec::new(),
            deliveries: Vec::new(),
            scheduled: Vec::new(),
            sessions: Vec::new(),
            next_agent: 1,
            next_channel: 1,
            next_message: 1,
            next_scheduled: 1,
            next_session: 1,
        }
    }
}

impl Store {
    /// Opens a store on tables, and sees to it that the operator and the default channel are
    /// in them.
    pub fn open(tables: Tables, now: Timestamp) -> (r: Result<Store, OpenError>)
        ensures
            match r {
                Ok(store) => tables@.consistent() && seeded(tables@, now).fits() && store.wf()
                    && store@ == seeded(tables@, now) && store.saved() == tables@,
                Err(OpenError::Inconsistent) => !tables@.consistent(),
                Err(OpenError::Full) => tables@.consistent() && !seeded(tables@, now).fits(),
            },
    {
        if !tables.is_consistent() {
            return Err(OpenError::Inconsistent);
        }
        let ghost t = tables@;
        let mut store = Store { tables, journal: Vec::new(), base: Ghost(t) };
        assert(store.pending() =~= Seq::<ChangeView>::empty());
        if !store.has_agent_id(MASTER) || !store.has_channel_id(DEFAULT_CHANNEL) {
            return Err(OpenError::Full);
        }
        let master: i64 = match store.find_agent(MASTER) {
            Some(id) => id,
            None => {
                let id = store.tables.next_agent;
                let row = AgentRow {
                    id,
                    name: MASTER.to_owned(),
                    display_name: Some(MASTER.to_owned()),
                    first_seen: now,
                    last_seen: now,
                };
                proof {
                    lemma_add_agent(t, row@);
                }
                store.add_agent(row);
                id
            },
        };
        let ghost u = store@;
        let general: i64 = match store.find_channel(DEFAULT_CHANNEL) {
            Some(id) => id,
            None => {
                let id = store.tables.next_channel;
                let row = ChannelRow { id, name: DEFAULT_CHANNEL.to_owned(), created_at: now };
                proof {
                    lemma_add_channel(u, row@);
                }
                store.add_channel(row);
                id
            },
        };
        let ghost v = store@;
        let row = Membership { agent: master, channel: general, joined_at: now };
        proof {
            assert(u.knows_agent(MASTER@));
            assert(v.agents == u.agents);
            assert(v.knows_agent(MASTER@));
            assert(v.agent_id(MASTER@) == u.agent_id(MASTER@));
            assert(v.knows_channel(DEFAULT_CHANNEL@));
            lemma_agent_named(v, MASTER@);
            lemma_channel_named(v, DEFAULT_CHANNEL@);
            lemma_add_member(v, row);
        }
        store.add_member(row);
        proof {
            assert(store@.agents == v.agents && store@.channels == v.channels);
            assert(store@.knows_agent(MASTER@));
            assert(store@.knows_channel(DEFAULT_CHANNEL@));
        }
        Ok(store)
    }
}

} // verus!
