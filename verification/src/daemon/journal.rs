//! The journal: the changes that the tables underwent, for whoever writes them to disk.

use vstd::prelude::*;

use crate::clock::Timestamp;

use super::tables::{
    AgentRow, AgentView, ChannelRow, ChannelView, Membership, MessageRow, MessageRowView,
    ScheduledEntry, ScheduledStatus, ScheduledView, Session, TablesView,
};

verus! {

/// One change of the tables.
#[derive(Clone, Debug)]
pub enum Change {
    AddAgent(AgentRow),
    SeeAgent { id: i64, at: Timestamp },
    AddChannel(ChannelRow),
    AddMember(Membership),
    DropMember { agent: i64, channel: i64 },
    AddMessage(MessageRow),
    AddDeliveries { message: i64, agents: Vec<i64>, at: Timestamp },
    MarkRead { agent: i64, messages: Vec<i64>, at: Timestamp },
    AddScheduled(ScheduledEntry),
    SetScheduled { id: i64, status: ScheduledStatus },
    AddSession(Session),
    EndSession { id: i64, at: Timestamp },
    EndAllSessions { at: Timestamp },
    DropMessages { ids: Vec<i64> },
    DropScheduled { ids: Vec<i64> },
    DropSessions { ids: Vec<i64> },
    DropAgents { ids: Vec<i64> },
}

/// One change, with its rows' views.
pub enum ChangeView {
    AddAgent(AgentView),
    SeeAgent(i64, Timestamp),
    AddChannel(ChannelView),
    AddMember(Membership),
    DropMember(i64, i64),
    AddMessage(MessageRowView),
    AddDeliveries(i64, Seq<i64>, Timestamp),
    MarkRead(i64, Seq<i64>, Timestamp),
    AddScheduled(ScheduledView),
    SetScheduled(i64, ScheduledStatus),
    AddSession(Session),
    EndSession(i64, Timestamp),
    EndAllSessions(Timestamp),
    DropMessages(Seq<i64>),
    DropScheduled(Seq<i64>),
    DropSessions(Seq<i64>),
    DropAgents(Seq<i64>),
}

impl View for Change {
    type V = ChangeView;

    open spec fn view(&self) -> ChangeView {
        match *self {
            Change::AddAgent(row) => ChangeView::AddAgent(row@),
            Change::SeeAgent { id, at } => ChangeView::SeeAgent(id, at),
            Change::AddChannel(row) => ChangeView::AddChannel(row@),
            Change::AddMember(row) => ChangeView::AddMember(row),
            Change::DropMember { agent, channel } => ChangeView::DropMember(agent, channel),
            Change::AddMessage(row) => ChangeView::AddMessage(row@),
            Change::AddDeliveries { message, agents, at } => ChangeView::AddDeliveries(
                message,
                agents@,
                at,
            ),
            Change::MarkRead { agent, messages, at } => ChangeView::MarkRead(agent, messages@, at),
            Change::AddScheduled(row) => ChangeView::AddScheduled(row@),
            Change::SetScheduled { id, status } => ChangeView::SetScheduled(id, status),
            Change::AddSession(row) => ChangeView::AddSession(row),
            Change::EndSession { id, at } => ChangeView::EndSession(id, at),
            Change::EndAllSessions { at } => ChangeView::EndAllSessions(at),
            Change::DropMessages { ids } => ChangeView::DropMessages(ids@),
            Change::DropScheduled { ids } => ChangeView::DropScheduled(ids@),
            Change::DropSessions { ids } => ChangeView::DropSessions(ids@),
            Change::DropAgents { ids } => ChangeView::DropAgents(ids@),
        }
    }
}

impl TablesView {
    /// The tables after a change.
    pub open spec fn apply(self, change: ChangeView) -> TablesView {
        match change {
            ChangeView::AddAgent(row) => self.add_agent(row),
            ChangeView::SeeAgent(id, at) => self.see_agent(id, at),
            ChangeView::AddChannel(row) => self.add_channel(row),
            ChangeView::AddMember(row) => self.add_member(row),
            ChangeView::DropMember(agent, channel) => self.drop_member(agent, channel),
            ChangeView::AddMessage(row) => self.add_message(row),
            ChangeView::AddDeliveries(message, agents, at) => self.add_deliveries(
                message,
                agents,
                at,
            ),
            ChangeView::MarkRead(agent, messages, at) => self.mark_read(agent, messages, at),
            ChangeView::AddScheduled(row) => self.add_scheduled(row),
            ChangeView::SetScheduled(id, status) => self.set_scheduled(id, status),
            ChangeView::AddSession(row) => self.add_session(row),
            ChangeView::EndSession(id, at) => self.end_session(id, at),
            ChangeView::EndAllSessions(at) => self.end_all_sessions(at),
            ChangeView::DropMessages(ids) => self.drop_messages(ids),
            ChangeView::DropScheduled(ids) => self.drop_scheduled(ids),
            ChangeView::DropSessions(ids) => self.drop_sessions(ids),
            ChangeView::DropAgents(ids) => self.drop_agents(ids),
        }
    }

    /// The tables after a series of changes.
    pub open spec fn replay(self, changes: Seq<ChangeView>) -> TablesView
        decreases changes.len(),
    {
        if changes.len() == 0 {
            self
        } else {
            self.replay(changes.drop_last()).apply(changes.last())
        }
    }
}

/// Replaying one series and then another is replaying the two in a row: it does not matter
/// where the journal is cut.
pub proof fn law_replay_in_parts(t: TablesView, a: Seq<ChangeView>, b: Seq<ChangeView>)
    ensures
        t.replay(a).replay(b) == t.replay(a + b),
    decreases b.len(),
{
    if b.len() == 0 {
        assert(a + b =~= a);
    } else {
        law_replay_in_parts(t, a, b.drop_last());
        assert((a + b).drop_last() =~= a + b.drop_last());
    }
}

} // verus!
