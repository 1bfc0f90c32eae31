//! The tables that the daemon keeps: their rows, what holds of them, and the changes that
//! they undergo.

use vstd::prelude::*;
use vstd::seq_lib::*;

use crate::clock::Timestamp;
use crate::limits::{DEFAULT_CHANNEL, MASTER};
use crate::types::{opt_text, views, Intent};

verus! {

// ---- rows ----

/// An agent.
#[derive(Clone, Debug)]
pub struct AgentRow {
    pub id: i64,
    pub name: String,
    pub display_name: Option<String>,
    pub first_seen: Timestamp,
    pub last_seen: Timestamp,
}

/// An agent, with its texts as sequences of characters.
pub struct AgentView {
    pub id: i64,
    pub name: Seq<char>,
    pub display_name: Option<Seq<char>>,
    pub first_seen: Timestamp,
    pub last_seen: Timestamp,
}

impl View for AgentRow {
    type V = AgentView;

    open spec fn view(&self) -> AgentView {
        AgentView {
            id: self.id,
            name: self.name@,
            display_name: opt_text(self.display_name),
            first_seen: self.first_seen,
            last_seen: self.last_seen,
        }
    }
}

/// A channel.
#[derive(Clone, Debug)]
pub struct ChannelRow {
    pub id: i64,
    pub name: String,
    pub created_at: Timestamp,
}

/// A channel, with its name as a sequence of characters.
pub struct ChannelView {
    pub id: i64,
    pub name: Seq<char>,
    pub created_at: Timestamp,
}

impl View for ChannelRow {
    type V = ChannelView;

    open spec fn view(&self) -> ChannelView {
        ChannelView { id: self.id, name: self.name@, created_at: self.created_at }
    }
}

/// An agent's membership of a channel.
#[derive(Clone, Copy, Debug, PartialEq, Eq, Structural)]
pub struct Membership {
    pub agent: i64,
    pub channel: i64,
    pub joined_at: Timestamp,
}

/// Whom a stored message is addressed to, by id.
#[derive(Clone, Copy, Debug, PartialEq, Eq, Structural)]
pub enum Target {
    Agent(i64),
    Channel(i64),
    Broadcast,
}

/// A message.
#[derive(Clone, Debug)]
pub struct MessageRow {
    pub id: i64,
    pub from: i64,
    pub target: Target,
    pub body: String,
    pub intent: Option<Intent>,
    pub reply_to: Option<i64>,
    pub created_at: Timestamp,
}

/// A stored message, with its body as a sequence of characters.
pub struct MessageRowView {
    pub id: i64,
    pub from: i64,
    pub target: Target,
    pub body: Seq<char>,
    pub intent: Option<Intent>,
    pub reply_to: Option<i64>,
    pub created_at: Timestamp,
}

impl View for MessageRow {
    type V = MessageRowView;

    open spec fn view(&self) -> MessageRowView {
        MessageRowView {
            id: self.id,
            from: self.from,
            target: self.target,
            body: self.body@,
            intent: self.intent,
            reply_to: self.reply_to,
            created_at: self.created_at,
        }
    }
}

/// The delivery of a message to one agent.
#[derive(Clone, Copy, Debug, PartialEq, Eq, Structural)]
pub struct Delivery {
    pub message: i64,
    pub agent: i64,
    pub delivered_at: Option<Timestamp>,
    pub read_at: Option<Timestamp>,
}

/// What a scheduled send will send.
#[derive(Clone, Debug)]
pub struct ScheduledPayload {
    pub from: String,
    pub to: String,
    pub body: String,
    pub intent: Option<Intent>,
    pub reply_to: Option<i64>,
}

/// A scheduled send, with its texts as sequences of characters.
pub struct PayloadView {
    pub from: Seq<char>,
    pub to: Seq<char>,
    pub body: Seq<char>,
    pub intent: Option<Intent>,
    pub reply_to: Option<i64>,
}

impl View for ScheduledPayload {
    type V = PayloadView;

    open spec fn view(&self) -> PayloadView {
        PayloadView {
            from: self.from@,
            to: self.to@,
            body: self.body@,
            intent: self.intent,
            reply_to: self.reply_to,
        }
    }
}

/// What has become of a scheduled send.
#[derive(Clone, Copy, Debug, PartialEq, Eq, Structural)]
pub enum ScheduledStatus {
    Pending,
    Delivered,
    Failed,
    Cancelled,
}

/// A scheduled send. One whose stored payload cannot be read has none.
#[derive(Clone, Debug)]
pub struct ScheduledEntry {
    pub id: i64,
    pub payload: Option<ScheduledPayload>,
    pub deliver_at: Timestamp,
    pub created_at: Timestamp,
    pub status: ScheduledStatus,
}

/// A scheduled send, with its payload's view.
pub struct ScheduledView {
    pub id: i64,
    pub payload: Option<PayloadView>,
    pub deliver_at: Timestamp,
    pub created_at: Timestamp,
    pub status: ScheduledStatus,
}

/// The view of an optional payload.
pub open spec fn payload_view(p: Option<ScheduledPayload>) -> Option<PayloadView> {
    match p {
        Some(p) => Some(p@),
        None => None,
    }
}

impl View for ScheduledEntry {
    type V = ScheduledView;

    open spec fn view(&self) -> ScheduledView {
        ScheduledView {
            id: self.id,
            payload: payload_view(self.payload),
            deliver_at: self.deliver_at,
            created_at: self.created_at,
            status: self.status,
        }
    }
}

/// A client's session. One that is still open has no end.
#[derive(Clone, Copy, Debug, PartialEq, Eq, Structural)]
pub struct Session {
    pub id: i64,
    pub agent: i64,
    pub started_at: Timestamp,
    pub ended_at: Option<Timestamp>,
}

// ---- the tables ----

/// All tables. Ids are given out in ascending order and never twice: each `next_..` is the
/// id that the next row of its table gets.
#[derive(Clone, Debug)]
pub struct Tables {
    pub agents: Vec<AgentRow>,
    pub channels: Vec<ChannelRow>,
    pub members: Vec<Membership>,
    pub messages: Vec<MessageRow>,
    pub deliveries: Vec<Delivery>,
    pub scheduled: Vec<ScheduledEntry>,
    pub sessions: Vec<Session>,
    pub next_agent: i64,
    pub next_channel: i64,
    pub next_message: i64,
    pub next_scheduled: i64,
    pub next_session: i64,
}

/// All tables, as sequences of row views. The next ids are counted on without end.
#[verifier::ext_equal]
pub struct TablesView {
    pub agents: Seq<AgentView>,
    pub channels: Seq<ChannelView>,
    pub members: Seq<Membership>,
    pub messages: Seq<MessageRowView>,
    pub deliveries: Seq<Delivery>,
    pub scheduled: Seq<ScheduledView>,
    pub sessions: Seq<Session>,
    pub next_agent: int,
    pub next_channel: int,
    pub next_message: int,
    pub next_scheduled: int,
    pub next_session: int,
}

impl View for Tables {
    type V = TablesView;

    open spec fn view(&self) -> TablesView {
        TablesView {
            agents: views(self.agents@),
            channels: views(self.channels@),
            members: self.members@,
            messages: views(self.messages@),
            deliveries: self.deliveries@,
            scheduled: views(self.scheduled@),
            sessions: self.sessions@,
            next_agent: self.next_agent as int,
            next_channel: self.next_channel as int,
            next_message: self.next_message as int,
            next_scheduled: self.next_scheduled as int,
            next_session: self.next_session as int,
        }
    }
}

/// Whether ids ascend, all of them below the next one, which is not below every id.
pub open spec fn rising(ids: Seq<i64>, next: int) -> bool {
    &&& i64::MIN <= next
    &&& forall|i: int, j: int| 0 <= i < j < ids.len() ==> #[trigger] ids[i] < #[trigger] ids[j]
    &&& forall|i: int| 0 <= i < ids.len() ==> #[trigger] ids[i] < next
}

impl TablesView {
    pub open spec fn agent_ids(self) -> Seq<i64> {
        self.agents.map_values(|a: AgentView| a.id)
    }

    pub open spec fn agent_names(self) -> Seq<Seq<char>> {
        self.agents.map_values(|a: AgentView| a.name)
    }

    pub open spec fn channel_ids(self) -> Seq<i64> {
        self.channels.map_values(|c: ChannelView| c.id)
    }

    pub open spec fn channel_names(self) -> Seq<Seq<char>> {
        self.channels.map_values(|c: ChannelView| c.name)
    }

    pub open spec fn message_ids(self) -> Seq<i64> {
        self.messages.map_values(|m: MessageRowView| m.id)
    }

    pub open spec fn scheduled_ids(self) -> Seq<i64> {
        self.scheduled.map_values(|s: ScheduledView| s.id)
    }

    pub open spec fn session_ids(self) -> Seq<i64> {
        self.sessions.map_values(|s: Session| s.id)
    }

    pub open spec fn has_agent(self, id: i64) -> bool {
        self.agent_ids().contains(id)
    }

    pub open spec fn has_channel(self, id: i64) -> bool {
        self.channel_ids().contains(id)
    }

    pub open spec fn has_message(self, id: i64) -> bool {
        self.message_ids().contains(id)
    }

    /// Whether an agent of this name is known.
    pub open spec fn knows_agent(self, name: Seq<char>) -> bool {
        self.agent_names().contains(name)
    }

    /// Whether a channel of this name is known.
    pub open spec fn knows_channel(self, name: Seq<char>) -> bool {
        self.channel_names().contains(name)
    }

    /// The id of the agent of this name.
    pub open spec fn agent_id(self, name: Seq<char>) -> i64 {
        self.agents[self.agent_names().index_of(name)].id
    }

    /// The id of the channel of this name.
    pub open spec fn channel_id(self, name: Seq<char>) -> i64 {
        self.channels[self.channel_names().index_of(name)].id
    }

    /// The name of the agent with this id.
    pub open spec fn agent_name(self, id: i64) -> Seq<char> {
        self.agents[self.agent_ids().index_of(id)].name
    }

    /// The name of the channel with this id.
    pub open spec fn channel_name(self, id: i64) -> Seq<char> {
        self.channels[self.channel_ids().index_of(id)].name
    }

    /// The message with this id.
    pub open spec fn message(self, id: i64) -> MessageRowView {
        self.messages[self.message_ids().index_of(id)]
    }

    /// Whether `agent` is a member of `channel`.
    pub open spec fn is_member(self, agent: i64, channel: i64) -> bool {
        exists|i: int|
            0 <= i < self.members.len() && (#[trigger] self.members[i]).agent == agent
                && self.members[i].channel == channel
    }

    /// Whether a target exists.
    pub open spec fn has_target(self, target: Target) -> bool {
        match target {
            Target::Agent(a) => self.has_agent(a),
            Target::Channel(c) => self.has_channel(c),
            Target::Broadcast => true,
        }
    }

    /// Whether the message replied to exists, where there is one.
    pub open spec fn has_reply(self, reply_to: Option<i64>) -> bool {
        match reply_to {
            Some(m) => self.has_message(m),
            None => true,
        }
    }

    pub open spec fn agents_ok(self) -> bool {
        rising(self.agent_ids(), self.next_agent) && self.agent_names().no_duplicates()
    }

    pub open spec fn channels_ok(self) -> bool {
        rising(self.channel_ids(), self.next_channel) && self.channel_names().no_duplicates()
    }

    pub open spec fn members_ok(self) -> bool {
        &&& forall|i: int|
            0 <= i < self.members.len() ==> self.has_agent((#[trigger] self.members[i]).agent)
                && self.has_channel(self.members[i].channel)
        &&& forall|i: int, j: int|
            0 <= i < j < self.members.len() ==> (#[trigger] self.members[i]).agent != (
            #[trigger] self.members[j]).agent || self.members[i].channel != self.members[j].channel
    }

    pub open spec fn messages_ok(self) -> bool {
        &&& rising(self.message_ids(), self.next_message)
        &&& forall|i: int|
            0 <= i < self.messages.len() ==> self.has_agent((#[trigger] self.messages[i]).from)
                && self.has_target(self.messages[i].target) && self.has_reply(
                self.messages[i].reply_to,
            )
    }

    pub open spec fn deliveries_ok(self) -> bool {
        &&& forall|i: int|
            0 <= i < self.deliveries.len() ==> self.has_message(
                (#[trigger] self.deliveries[i]).message,
            ) && self.has_agent(self.deliveries[i].agent)
        &&& forall|i: int, j: int|
            0 <= i < j < self.deliveries.len() ==> (#[trigger] self.deliveries[i]).message <= (
            #[trigger] self.deliveries[j]).message
        &&& forall|i: int, j: int|
            0 <= i < j < self.deliveries.len() ==> (#[trigger] self.deliveries[i]).message != (
            #[trigger] self.deliveries[j]).message || self.deliveries[i].agent
                != self.deliveries[j].agent
    }

    pub open spec fn sessions_ok(self) -> bool {
        &&& rising(self.session_ids(), self.next_session)
        &&& forall|i: int|
            0 <= i < self.sessions.len() ==> self.has_agent((#[trigger] self.sessions[i]).agent)
    }

    /// What holds of the tables between operations, seeding aside: ids ascend, names occur
    /// once, every row that a row refers to exists, nobody is twice a member of a channel,
    /// and no message is delivered twice to one agent.
    pub open spec fn consistent(self) -> bool {
        &&& self.agents_ok()
        &&& self.channels_ok()
        &&& self.members_ok()
        &&& self.messages_ok()
        &&& self.deliveries_ok()
        &&& rising(self.scheduled_ids(), self.next_scheduled)
        &&& self.sessions_ok()
    }

    /// What holds of the tables between operations: they are consistent, and the operator
    /// and the default channel are there.
    pub open spec fn valid(self) -> bool {
        &&& self.consistent()
        &&& self.knows_agent(MASTER@)
        &&& self.knows_channel(DEFAULT_CHANNEL@)
    }

    /// Whether there was an id for every row: each next id is one, so that the largest is
    /// never given out. An operation that would lead to other tables lacks an id.
    pub open spec fn fits(self) -> bool {
        &&& self.next_agent <= i64::MAX
        &&& self.next_channel <= i64::MAX
        &&& self.next_message <= i64::MAX
        &&& self.next_scheduled <= i64::MAX
        &&& self.next_session <= i64::MAX
    }

    // ---- changes ----

    /// The tables with one more agent.
    pub open spec fn add_agent(self, row: AgentView) -> TablesView {
        TablesView {
            agents: self.agents.push(row),
            next_agent: self.next_agent + 1,
            ..self
        }
    }

    /// The tables with the agent last seen at `at`.
    pub open spec fn see_agent(self, id: i64, at: Timestamp) -> TablesView {
        TablesView {
            agents: self.agents.map_values(
                |a: AgentView|
                    if a.id == id {
                        AgentView { last_seen: at, ..a }
                    } else {
                        a
                    },
            ),
            ..self
        }
    }

    /// The tables with one more channel.
    pub open spec fn add_channel(self, row: ChannelView) -> TablesView {
        TablesView {
            channels: self.channels.push(row),
            next_channel: self.next_channel + 1,
            ..self
        }
    }

    /// The tables with the membership; one that is there already stays as it is.
    pub open spec fn add_member(self, row: Membership) -> TablesView {
        if self.is_member(row.agent, row.channel) {
            self
        } else {
            TablesView { members: self.members.push(row), ..self }
        }
    }

    /// The tables without the membership.
    pub open spec fn drop_member(self, agent: i64, channel: i64) -> TablesView {
        TablesView {
            members: self.members.filter(
                |m: Membership| !(m.agent == agent && m.channel == channel),
            ),
            ..self
        }
    }

    /// The tables with one more message.
    pub open spec fn add_message(self, row: MessageRowView) -> TablesView {
        TablesView {
            messages: self.messages.push(row),
            next_message: self.next_message + 1,
            ..self
        }
    }

    /// The tables with one unread delivery of the message for each of the agents.
    pub open spec fn add_deliveries(
        self,
        message: i64,
        agents: Seq<i64>,
        at: Timestamp,
    ) -> TablesView {
        TablesView {
            deliveries: self.deliveries + agents.map_values(
                |a: i64|
                    Delivery { message, agent: a, delivered_at: Some(at), read_at: None },
            ),
            ..self
        }
    }

    /// The tables with the agent's deliveries of these messages read at `at`.
    pub open spec fn mark_read(self, agent: i64, messages: Seq<i64>, at: Timestamp) -> TablesView {
        TablesView {
            deliveries: self.deliveries.map_values(
                |d: Delivery|
                    if d.agent == agent && messages.contains(d.message) {
                        Delivery { read_at: Some(at), ..d }
                    } else {
                        d
                    },
            ),
            ..self
        }
    }

    /// The tables with one more scheduled send.
    pub open spec fn add_scheduled(self, row: ScheduledView) -> TablesView {
        TablesView {
            scheduled: self.scheduled.push(row),
            next_scheduled: self.next_scheduled + 1,
            ..self
        }
    }

    /// The tables with the scheduled send in this state.
    pub open spec fn set_scheduled(self, id: i64, status: ScheduledStatus) -> TablesView {
        TablesView {
            scheduled: self.scheduled.map_values(
                |s: ScheduledView|
                    if s.id == id {
                        ScheduledView { status, ..s }
                    } else {
                        s
                    },
            ),
            ..self
        }
    }

    /// The tables with one more session.
    pub open spec fn add_session(self, row: Session) -> TablesView {
        TablesView {
            sessions: self.sessions.push(row),
            next_session: self.next_session + 1,
            ..self
        }
    }

    /// The tables with the session ended at `at`, if it was open.
    pub open spec fn end_session(self, id: i64, at: Timestamp) -> TablesView {
        TablesView {
            sessions: self.sessions.map_values(
                |s: Session|
                    if s.id == id && s.ended_at is None {
                        Session { ended_at: Some(at), ..s }
                    } else {
                        s
                    },
            ),
            ..self
        }
    }

    /// The tables with every open session ended at `at`.
    pub open spec fn end_all_sessions(self, at: Timestamp) -> TablesView {
        TablesView {
            sessions: self.sessions.map_values(
                |s: Session|
                    if s.ended_at is None {
                        Session { ended_at: Some(at), ..s }
                    } else {
                        s
                    },
            ),
            ..self
        }
    }

    /// The tables without these messages and their deliveries. A reply to one of them stays,
    /// as a message that replies to none.
    pub open spec fn drop_messages(self, ids: Seq<i64>) -> TablesView {
        TablesView {
            messages: self.messages.filter(
                |m: MessageRowView| !ids.contains(m.id),
            ).map_values(|m: MessageRowView| without_reply(m, ids)),
            deliveries: self.deliveries.filter(|d: Delivery| !ids.contains(d.message)),
            ..self
        }
    }

    /// The tables without these scheduled sends.
    pub open spec fn drop_scheduled(self, ids: Seq<i64>) -> TablesView {
        TablesView {
            scheduled: self.scheduled.filter(|s: ScheduledView| !ids.contains(s.id)),
            ..self
        }
    }

    /// The tables without these sessions.
    pub open spec fn drop_sessions(self, ids: Seq<i64>) -> TablesView {
        TablesView { sessions: self.sessions.filter(|s: Session| !ids.contains(s.id)), ..self }
    }

    /// The tables without these agents, their memberships, deliveries and sessions.
    pub open spec fn drop_agents(self, ids: Seq<i64>) -> TablesView {
        TablesView {
            agents: self.agents.filter(|a: AgentView| !ids.contains(a.id)),
            members: self.members.filter(|m: Membership| !ids.contains(m.agent)),
            deliveries: self.deliveries.filter(|d: Delivery| !ids.contains(d.agent)),
            sessions: self.sessions.filter(|s: Session| !ids.contains(s.agent)),
            ..self
        }
    }
}

/// A message that no longer replies to a message with one of these ids.
pub open spec fn without_reply(m: MessageRowView, ids: Seq<i64>) -> MessageRowView {
    match m.reply_to {
        Some(r) => if ids.contains(r) {
            MessageRowView { reply_to: None, ..m }
        } else {
            m
        },
        None => m,
    }
}

} // verus!
