//! The store: the tables in memory, with a journal of their changes.

use vstd::prelude::*;
use vstd::seq_lib::*;
use vstd::string::*;

use crate::clock::Timestamp;
use crate::types::views;

pub mod lookup;
pub mod membership;
pub mod opening;
pub mod browse;
pub mod growth;
pub mod inbox;
pub mod listing;
pub mod post;
pub mod schedule;
pub mod upkeep;

use crate::limits::NameError;
use crate::text::{push_i64, signed};

use super::journal::{Change, ChangeView};
use super::tables::{
    rising, without_reply, AgentRow, AgentView, ChannelRow, Delivery, Membership, MessageRow,
    MessageRowView, ScheduledEntry, ScheduledPayload, ScheduledStatus, ScheduledView, Session,
    Tables, TablesView,
};

verus! {

/// Why an operation was refused.
#[derive(Clone, Copy, Debug, PartialEq, Eq, Structural)]
pub enum StoreError {
    /// A name that is not known and may not be added.
    Name(NameError),
    /// A reply to a message that does not exist.
    UnknownReply,
    /// An id is missing: they are used up.
    Full,
    /// There is no message with this id.
    NoMessage(i64),
    /// There is no pending scheduled message with this id that the caller may cancel.
    NoScheduled(i64),
}

impl StoreError {
    /// The words for this error.
    pub open spec fn words(self) -> Seq<char> {
        match self {
            StoreError::Name(e) => e.words(),
            StoreError::UnknownReply => "FOREIGN KEY constraint failed"@,
            StoreError::Full => "database or disk is full"@,
            StoreError::NoMessage(id) => "no message with id "@ + signed(id as int),
            StoreError::NoScheduled(id) => "pending scheduled message "@ + signed(id as int)
                + " not found"@,
        }
    }

    /// The words for this error.
    pub fn message(self) -> (r: String)
        ensures
            r@ == self.words(),
    {
        let mut out = String::new();
        match self {
            StoreError::Name(e) => {
                out.append(e.message());
            },
            StoreError::UnknownReply => {
                out.append("FOREIGN KEY constraint failed");
            },
            StoreError::Full => {
                out.append("database or disk is full");
            },
            StoreError::NoMessage(id) => {
                out.append("no message with id ");
                push_i64(&mut out, id);
            },
            StoreError::NoScheduled(id) => {
                out.append("pending scheduled message ");
                push_i64(&mut out, id);
                out.append(" not found");
            },
        }
        assert(out@ =~= self.words());
        out
    }
}

/// A result, with the tables beside it where it is one.
pub open spec fn beside<T>(t: TablesView, r: Result<T, StoreError>) -> Result<
    (TablesView, T),
    StoreError,
> {
    match r {
        Ok(v) => Ok((t, v)),
        Err(e) => Err(e),
    }
}

/// The result of an operation that leads to these tables, as long as there are ids for it.
pub open spec fn kept<T>(t: TablesView, v: T) -> Result<(TablesView, T), StoreError> {
    if t.fits() {
        Ok((t, v))
    } else {
        Err(StoreError::Full)
    }
}

/// The tables, and the changes that were made since the journal was last taken.
pub struct Store {
    tables: Tables,
    journal: Vec<Change>,
    base: Ghost<TablesView>,
}

impl View for Store {
    type V = TablesView;

    closed spec fn view(&self) -> TablesView {
        self.tables@
    }
}

impl Store {
    /// The tables as they were when the journal was last taken.
    pub closed spec fn saved(&self) -> TablesView {
        self.base@
    }

    /// The changes since then.
    pub closed spec fn pending(&self) -> Seq<ChangeView> {
        views(self.journal@)
    }

    /// Whether replaying the pending changes on the saved tables gives the tables.
    pub open spec fn logged(&self) -> bool {
        self@ == self.saved().replay(self.pending())
    }

    /// What holds of a store between operations: its tables are valid, there was an id for
    /// every row, and its journal accounts for the tables.
    pub open spec fn wf(&self) -> bool {
        self@.valid() && self@.fits() && self.logged()
    }

    fn note(&mut self, change: Change)
        ensures
            final(self).tables == old(self).tables,
            final(self).base == old(self).base,
            final(self).pending() == old(self).pending().push(change@),
            final(self).saved() == old(self).saved(),
            old(self).logged() ==> old(self)@.apply(change@) == final(self).saved().replay(
                final(self).pending(),
            ),
    {
        self.journal.push(change);
        assert(self.pending() =~= old(self).pending().push(change@));
        assert(self.pending().drop_last() =~= old(self).pending());
    }

    /// Hands out the changes since the journal was last taken. Replaying them on the tables
    /// as they were then gives the tables as they are now.
    pub fn take_journal(&mut self) -> (changes: Vec<Change>)
        requires
            old(self).wf(),
        ensures
            final(self).wf(),
            final(self)@ == old(self)@,
            final(self).saved() == old(self)@,
            final(self).pending() == Seq::<ChangeView>::empty(),
            views(changes@) == old(self).pending(),
            old(self).saved().replay(views(changes@)) == final(self)@,
    {
        let mut changes: Vec<Change> = Vec::new();
        std::mem::swap(&mut changes, &mut self.journal);
        let ghost now = self.tables@;
        self.base = Ghost(now);
        assert(self.pending() =~= Seq::<ChangeView>::empty());
        changes
    }
}

// ---- copies of rows ----

impl AgentRow {
    /// A copy.
    pub fn copied(&self) -> (r: AgentRow)
        ensures
            r@ == self@,
    {
        AgentRow {
            id: self.id,
            name: self.name.clone(),
            display_name: copied_text(&self.display_name),
            first_seen: self.first_seen,
            last_seen: self.last_seen,
        }
    }
}

/// A copy of an optional text.
pub fn copied_text(s: &Option<String>) -> (r: Option<String>)
    ensures
        crate::types::opt_text(r) == crate::types::opt_text(*s),
{
    match s {
        Some(t) => Some(t.clone()),
        None => None,
    }
}

impl ChannelRow {
    /// A copy.
    pub fn copied(&self) -> (r: ChannelRow)
        ensures
            r@ == self@,
    {
        ChannelRow { id: self.id, name: self.name.clone(), created_at: self.created_at }
    }
}

impl MessageRow {
    /// A copy.
    pub fn copied(&self) -> (r: MessageRow)
        ensures
            r@ == self@,
    {
        MessageRow {
            id: self.id,
            from: self.from,
            target: self.target,
            body: self.body.clone(),
            intent: self.intent,
            reply_to: self.reply_to,
            created_at: self.created_at,
        }
    }
}

impl ScheduledPayload {
    /// A copy.
    pub fn copied(&self) -> (r: ScheduledPayload)
        ensures
            r@ == self@,
    {
        ScheduledPayload {
            from: self.from.clone(),
            to: self.to.clone(),
            body: self.body.clone(),
            intent: self.intent,
            reply_to: self.reply_to,
        }
    }
}

impl ScheduledEntry {
    /// A copy.
    pub fn copied(&self) -> (r: ScheduledEntry)
        ensures
            r@ == self@,
    {
        ScheduledEntry {
            id: self.id,
            payload: match &self.payload {
                Some(p) => Some(p.copied()),
                None => None,
            },
            deliver_at: self.deliver_at,
            created_at: self.created_at,
            status: self.status,
        }
    }
}

/// Whether `ids` holds `id`.
pub fn has_id(ids: &Vec<i64>, id: i64) -> (r: bool)
    ensures
        r == ids@.contains(id),
{
    let mut i: usize = 0;
    while i < ids.len()
        invariant
            i <= ids@.len(),
            forall|j: int| 0 <= j < i ==> ids@[j] != id,
        decreases ids@.len() - i,
    {
        if ids[i] == id {
            return true;
        }
        i = i + 1;
    }
    false
}

/// A copy of a list of ids.
pub fn copied_ids(ids: &Vec<i64>) -> (r: Vec<i64>)
    ensures
        r@ == ids@,
{
    let mut r: Vec<i64> = Vec::new();
    let mut i: usize = 0;
    while i < ids.len()
        invariant
            i <= ids@.len(),
            r@ == ids@.take(i as int),
        decreases ids@.len() - i,
    {
        r.push(ids[i]);
        i = i + 1;
        assert(r@ =~= ids@.take(i as int));
    }
    assert(r@ =~= ids@);
    r
}

// ---- the changes ----

impl Store {
    fn add_agent(&mut self, row: AgentRow)
        requires
            row.id == old(self)@.next_agent,
            row.id < i64::MAX,
        ensures
            final(self)@ == old(self)@.add_agent(row@),
            final(self).saved() == old(self).saved(),
            final(self).pending() == old(self).pending().push(ChangeView::AddAgent(row@)),
            old(self).logged() ==> final(self).logged(),
    {
        let copy = row.copied();
        self.note(Change::AddAgent(copy));
        self.tables.next_agent = row.id + 1;
        self.tables.agents.push(row);
        assert(self@ =~= old(self)@.add_agent(row@));
    }

    fn see_agent(&mut self, id: i64, at: Timestamp)
        requires
            rising(old(self)@.agent_ids(), old(self)@.next_agent),
        ensures
            final(self)@ == old(self)@.see_agent(id, at),
            final(self).saved() == old(self).saved(),
            final(self).pending() == old(self).pending().push(ChangeView::SeeAgent(id, at)),
            old(self).logged() ==> final(self).logged(),
    {
        self.note(Change::SeeAgent { id, at });
        let mut i: usize = 0;
        while i < self.tables.agents.len()
            invariant
                self@ == old(self)@,
                self.saved() == old(self).saved(),
                self.pending() == old(self).pending().push(ChangeView::SeeAgent(id, at)),
                i <= self.tables.agents@.len(),
                forall|j: int| 0 <= j < i ==> self.tables.agents@[j].id != id,
                old(self).logged() ==> old(self)@.see_agent(id, at) == self.saved().replay(
                    self.pending(),
                ),
                rising(old(self)@.agent_ids(), old(self)@.next_agent),
            decreases self.tables.agents@.len() - i,
        {
            if self.tables.agents[i].id == id {
                self.tables.agents[i].last_seen = at;
                proof {
                    let t = old(self)@;
                    assert forall|j: int| 0 <= j < t.agents.len() && j != i implies (
                    #[trigger] t.agents[j]).id != id by {
                        assert(t.agent_ids()[j] == t.agents[j].id);
                        assert(t.agent_ids()[i as int] == id);
                    }
                    assert(self@.agents =~= t.see_agent(id, at).agents);
                }
                return;
            }
            i = i + 1;
        }
        assert(self@.agents =~= old(self)@.see_agent(id, at).agents);
    }

    fn add_channel(&mut self, row: ChannelRow)
        requires
            row.id == old(self)@.next_channel,
            row.id < i64::MAX,
        ensures
            final(self)@ == old(self)@.add_channel(row@),
            final(self).saved() == old(self).saved(),
            final(self).pending() == old(self).pending().push(ChangeView::AddChannel(row@)),
            old(self).logged() ==> final(self).logged(),
    {
        let copy = row.copied();
        self.note(Change::AddChannel(copy));
        self.tables.next_channel = row.id + 1;
        self.tables.channels.push(row);
        assert(self@ =~= old(self)@.add_channel(row@));
    }

    /// Whether `agent` is a member of `channel`.
    fn is_member(&self, agent: i64, channel: i64) -> (r: bool)
        ensures
            r == self@.is_member(agent, channel),
    {
        let mut i: usize = 0;
        while i < self.tables.members.len()
            invariant
                i <= self.tables.members@.len(),
                forall|j: int|
                    0 <= j < i ==> !((#[trigger] self.tables.members@[j]).agent == agent
                        && self.tables.members@[j].channel == channel),
            decreases self.tables.members@.len() - i,
        {
            let m = self.tables.members[i];
            if m.agent == agent && m.channel == channel {
                assert(self@.members[i as int] == m);
                return true;
            }
            i = i + 1;
        }
        assert(self@.members == self.tables.members@);
        false
    }

    fn add_member(&mut self, row: Membership)
        ensures
            final(self)@ == old(self)@.add_member(row),
            final(self).saved() == old(self).saved(),
            final(self).pending() == old(self).pending().push(ChangeView::AddMember(row)),
            old(self).logged() ==> final(self).logged(),
    {
        let there = self.is_member(row.agent, row.channel);
        self.note(Change::AddMember(row));
        if !there {
            self.tables.members.push(row);
        }
    }

    fn drop_member(&mut self, agent: i64, channel: i64)
        ensures
            final(self)@ == old(self)@.drop_member(agent, channel),
            final(self).saved() == old(self).saved(),
            final(self).pending() == old(self).pending().push(
                ChangeView::DropMember(agent, channel),
            ),
            old(self).logged() ==> final(self).logged(),
    {
        self.note(Change::DropMember { agent, channel });
        let ghost pred = |m: Membership| !(m.agent == agent && m.channel == channel);
        let ghost rows = self.tables.members@;
        let mut kept: Vec<Membership> = Vec::new();
        let mut i: usize = 0;
        assert(rows.take(0).filter(pred) =~= seq![]) by {
            reveal(Seq::filter);
        }
        while i < self.tables.members.len()
            invariant
                self.tables.members@ == rows,
                i <= rows.len(),
                kept@ == rows.take(i as int).filter(pred),
                pred == (|m: Membership| !(m.agent == agent && m.channel == channel)),
            decreases rows.len() - i,
        {
            let m = self.tables.members[i];
            proof {
                rows.take(i as int).lemma_filter_push(m, pred);
                assert(rows.take(i + 1) =~= rows.take(i as int).push(m));
            }
            if !(m.agent == agent && m.channel == channel) {
                kept.push(m);
            }
            i = i + 1;
        }
        assert(rows.take(i as int) =~= rows);
        self.tables.members = kept;
        assert(self@ =~= old(self)@.drop_member(agent, channel));
    }
}

impl Store {
    fn add_message(&mut self, row: MessageRow)
        requires
            row.id == old(self)@.next_message,
            row.id < i64::MAX,
        ensures
            final(self)@ == old(self)@.add_message(row@),
            final(self).saved() == old(self).saved(),
            final(self).pending() == old(self).pending().push(ChangeView::AddMessage(row@)),
            old(self).logged() ==> final(self).logged(),
    {
        let copy = row.copied();
        self.note(Change::AddMessage(copy));
        self.tables.next_message = row.id + 1;
        self.tables.messages.push(row);
        assert(self@ =~= old(self)@.add_message(row@));
    }

    fn add_deliveries(&mut self, message: i64, agents: &Vec<i64>, at: Timestamp)
        ensures
            final(self)@ == old(self)@.add_deliveries(message, agents@, at),
            final(self).saved() == old(self).saved(),
            final(self).pending() == old(self).pending().push(
                ChangeView::AddDeliveries(message, agents@, at),
            ),
            old(self).logged() ==> final(self).logged(),
    {
        let copy = copied_ids(agents);
        self.note(Change::AddDeliveries { message, agents: copy, at });
        let ghost new = |a: i64|
            Delivery { message, agent: a, delivered_at: Some(at), read_at: None };
        let ghost rows = self.tables.deliveries@;
        let mut i: usize = 0;
        assert(rows + agents@.take(0).map_values(new) =~= rows);
        while i < agents.len()
            invariant
                i <= agents@.len(),
                self.tables.deliveries@ == rows + agents@.take(i as int).map_values(new),
                new == (|a: i64|
                    Delivery { message, agent: a, delivered_at: Some(at), read_at: None }),
                self@ == (TablesView { deliveries: self.tables.deliveries@, ..old(self)@ }),
                self.saved() == old(self).saved(),
                self.pending() == old(self).pending().push(
                    ChangeView::AddDeliveries(message, agents@, at),
                ),
            decreases agents@.len() - i,
        {
            self.tables.deliveries.push(
                Delivery { message, agent: agents[i], delivered_at: Some(at), read_at: None },
            );
            i = i + 1;
            assert(self.tables.deliveries@ =~= rows + agents@.take(i as int).map_values(new));
        }
        assert(agents@.take(i as int) =~= agents@);
    }

    fn mark_read(&mut self, agent: i64, messages: &Vec<i64>, at: Timestamp)
        ensures
            final(self)@ == old(self)@.mark_read(agent, messages@, at),
            final(self).saved() == old(self).saved(),
            final(self).pending() == old(self).pending().push(
                ChangeView::MarkRead(agent, messages@, at),
            ),
            old(self).logged() ==> final(self).logged(),
    {
        let copy = copied_ids(messages);
        self.note(Change::MarkRead { agent, messages: copy, at });
        let ghost rows = self.tables.deliveries@;
        let ghost read = |d: Delivery|
            if d.agent == agent && messages@.contains(d.message) {
                Delivery { read_at: Some(at), ..d }
            } else {
                d
            };
        let mut out: Vec<Delivery> = Vec::new();
        let mut i: usize = 0;
        while i < self.tables.deliveries.len()
            invariant
                self.tables.deliveries@ == rows,
                i <= rows.len(),
                out@ == rows.take(i as int).map_values(read),
                read == (|d: Delivery|
                    if d.agent == agent && messages@.contains(d.message) {
                        Delivery { read_at: Some(at), ..d }
                    } else {
                        d
                    }),
            decreases rows.len() - i,
        {
            let d = self.tables.deliveries[i];
            if d.agent == agent && has_id(messages, d.message) {
                out.push(
                    Delivery {
                        message: d.message,
                        agent: d.agent,
                        delivered_at: d.delivered_at,
                        read_at: Some(at),
                    },
                );
            } else {
                out.push(d);
            }
            i = i + 1;
            assert(out@ =~= rows.take(i as int).map_values(read));
        }
        assert(rows.take(i as int) =~= rows);
        self.tables.deliveries = out;
        assert(self@ =~= old(self)@.mark_read(agent, messages@, at));
    }

    fn add_scheduled(&mut self, row: ScheduledEntry)
        requires
            row.id == old(self)@.next_scheduled,
            row.id < i64::MAX,
        ensures
            final(self)@ == old(self)@.add_scheduled(row@),
            final(self).saved() == old(self).saved(),
            final(self).pending() == old(self).pending().push(ChangeView::AddScheduled(row@)),
            old(self).logged() ==> final(self).logged(),
    {
        let copy = row.copied();
        self.note(Change::AddScheduled(copy));
        self.tables.next_scheduled = row.id + 1;
        self.tables.scheduled.push(row);
        assert(self@ =~= old(self)@.add_scheduled(row@));
    }

    fn set_scheduled(&mut self, id: i64, status: ScheduledStatus)
        requires
            rising(old(self)@.scheduled_ids(), old(self)@.next_scheduled),
        ensures
            final(self)@ == old(self)@.set_scheduled(id, status),
            final(self).saved() == old(self).saved(),
            final(self).pending() == old(self).pending().push(ChangeView::SetScheduled(id, status)),
            old(self).logged() ==> final(self).logged(),
    {
        self.note(Change::SetScheduled { id, status });
        let mut i: usize = 0;
        while i < self.tables.scheduled.len()
            invariant
                self@ == old(self)@,
                self.saved() == old(self).saved(),
                self.pending() == old(self).pending().push(ChangeView::SetScheduled(id, status)),
                i <= self.tables.scheduled@.len(),
                forall|j: int| 0 <= j < i ==> self.tables.scheduled@[j].id != id,
                old(self).logged() ==> old(self)@.set_scheduled(id, status)
                    == self.saved().replay(self.pending()),
                rising(old(self)@.scheduled_ids(), old(self)@.next_scheduled),
            decreases self.tables.scheduled@.len() - i,
        {
            if self.tables.scheduled[i].id == id {
                self.tables.scheduled[i].status = status;
                proof {
                    let t = old(self)@;
                    assert forall|j: int| 0 <= j < t.scheduled.len() && j != i implies (
                    #[trigger] t.scheduled[j]).id != id by {
                        assert(t.scheduled_ids()[j] == t.scheduled[j].id);
                        assert(t.scheduled_ids()[i as int] == id);
                    }
                    assert(self@.scheduled =~= t.set_scheduled(id, status).scheduled);
                }
                return;
            }
            i = i + 1;
        }
        assert(self@.scheduled =~= old(self)@.set_scheduled(id, status).scheduled);
    }

    fn add_session(&mut self, row: Session)
        requires
            row.id == old(self)@.next_session,
            row.id < i64::MAX,
        ensures
            final(self)@ == old(self)@.add_session(row),
            final(self).saved() == old(self).saved(),
            final(self).pending() == old(self).pending().push(ChangeView::AddSession(row)),
            old(self).logged() ==> final(self).logged(),
    {
        self.note(Change::AddSession(row));
        self.tables.next_session = row.id + 1;
        self.tables.sessions.push(row);
    }

    fn end_session(&mut self, id: i64, at: Timestamp)
        ensures
            final(self)@ == old(self)@.end_session(id, at),
            final(self).saved() == old(self).saved(),
            final(self).pending() == old(self).pending().push(ChangeView::EndSession(id, at)),
            old(self).logged() ==> final(self).logged(),
    {
        self.note(Change::EndSession { id, at });
        let ghost rows = self.tables.sessions@;
        let ghost ended = |s: Session|
            if s.id == id && s.ended_at is None {
                Session { ended_at: Some(at), ..s }
            } else {
                s
            };
        let mut out: Vec<Session> = Vec::new();
        let mut i: usize = 0;
        while i < self.tables.sessions.len()
            invariant
                self.tables.sessions@ == rows,
                i <= rows.len(),
                out@ == rows.take(i as int).map_values(ended),
                ended == (|s: Session|
                    if s.id == id && s.ended_at is None {
                        Session { ended_at: Some(at), ..s }
                    } else {
                        s
                    }),
            decreases rows.len() - i,
        {
            let s = self.tables.sessions[i];
            if s.id == id && s.ended_at.is_none() {
                out.push(
                    Session {
                        id: s.id,
                        agent: s.agent,
                        started_at: s.started_at,
                        ended_at: Some(at),
                    },
                );
            } else {
                out.push(s);
            }
            i = i + 1;
            assert(out@ =~= rows.take(i as int).map_values(ended));
        }
        assert(rows.take(i as int) =~= rows);
        self.tables.sessions = out;
        assert(self@ =~= old(self)@.end_session(id, at));
    }

    fn end_all_sessions(&mut self, at: Timestamp)
        ensures
            final(self)@ == old(self)@.end_all_sessions(at),
            final(self).saved() == old(self).saved(),
            final(self).pending() == old(self).pending().push(ChangeView::EndAllSessions(at)),
            old(self).logged() ==> final(self).logged(),
    {
        self.note(Change::EndAllSessions { at });
        let ghost rows = self.tables.sessions@;
        let ghost ended = |s: Session|
            if s.ended_at is None {
                Session { ended_at: Some(at), ..s }
            } else {
                s
            };
        let mut out: Vec<Session> = Vec::new();
        let mut i: usize = 0;
        while i < self.tables.sessions.len()
            invariant
                self.tables.sessions@ == rows,
                i <= rows.len(),
                out@ == rows.take(i as int).map_values(ended),
                ended == (|s: Session|
                    if s.ended_at is None {
                        Session { ended_at: Some(at), ..s }
                    } else {
                        s
                    }),
            decreases rows.len() - i,
        {
            let s = self.tables.sessions[i];
            if s.ended_at.is_none() {
                out.push(
                    Session {
                        id: s.id,
                        agent: s.agent,
                        started_at: s.started_at,
                        ended_at: Some(at),
                    },
                );
            } else {
                out.push(s);
            }
            i = i + 1;
            assert(out@ =~= rows.take(i as int).map_values(ended));
        }
        assert(rows.take(i as int) =~= rows);
        self.tables.sessions = out;
        assert(self@ =~= old(self)@.end_all_sessions(at));
    }

    fn drop_deliveries_of(&mut self, ids: &Vec<i64>)
        ensures
            final(self)@ == (TablesView {
                deliveries: old(self)@.deliveries.filter(
                    |d: Delivery| !ids@.contains(d.message),
                ),
                ..old(self)@
            }),
            final(self).saved() == old(self).saved(),
            final(self).pending() == old(self).pending(),
    {
        let ghost pred = |d: Delivery| !ids@.contains(d.message);
        let ghost rows = self.tables.deliveries@;
        let mut kept: Vec<Delivery> = Vec::new();
        let mut i: usize = 0;
        assert(rows.take(0).filter(pred) =~= seq![]) by {
            reveal(Seq::filter);
        }
        while i < self.tables.deliveries.len()
            invariant
                self.tables.deliveries@ == rows,
                i <= rows.len(),
                kept@ == rows.take(i as int).filter(pred),
                pred == (|d: Delivery| !ids@.contains(d.message)),
            decreases rows.len() - i,
        {
            let d = self.tables.deliveries[i];
            proof {
                rows.take(i as int).lemma_filter_push(d, pred);
                assert(rows.take(i + 1) =~= rows.take(i as int).push(d));
            }
            if !has_id(ids, d.message) {
                kept.push(d);
            }
            i = i + 1;
        }
        assert(rows.take(i as int) =~= rows);
        self.tables.deliveries = kept;
    }

    fn drop_messages(&mut self, ids: &Vec<i64>)
        ensures
            final(self)@ == old(self)@.drop_messages(ids@),
            final(self).saved() == old(self).saved(),
            final(self).pending() == old(self).pending().push(ChangeView::DropMessages(ids@)),
            old(self).logged() ==> final(self).logged(),
    {
        let copy = copied_ids(ids);
        self.note(Change::DropMessages { ids: copy });
        self.drop_deliveries_of(ids);
        let ghost pred = |m: MessageRowView| !ids@.contains(m.id);
        let ghost cut = |m: MessageRowView| without_reply(m, ids@);
        let ghost rows = self@.messages;
        let mut kept: Vec<MessageRow> = Vec::new();
        let mut i: usize = 0;
        assert(rows.take(0).filter(pred) =~= seq![]) by {
            reveal(Seq::filter);
        }
        assert(views(kept@) =~= rows.take(0).filter(pred).map_values(cut));
        while i < self.tables.messages.len()
            invariant
                self@.messages == rows,
                i <= rows.len(),
                views(kept@) == rows.take(i as int).filter(pred).map_values(cut),
                pred == (|m: MessageRowView| !ids@.contains(m.id)),
                cut == (|m: MessageRowView| without_reply(m, ids@)),
            decreases rows.len() - i,
        {
            let mut m = self.tables.messages[i].copied();
            let ghost row = m@;
            let ghost before = rows.take(i as int).filter(pred);
            proof {
                assert(row == rows[i as int]);
                rows.take(i as int).lemma_filter_push(row, pred);
                assert(rows.take(i + 1) =~= rows.take(i as int).push(row));
            }
            if !has_id(ids, m.id) {
                let gone: bool = match m.reply_to {
                    Some(r) => has_id(ids, r),
                    None => false,
                };
                if gone {
                    m.reply_to = None;
                }
                assert(m@ == cut(row));
                let ghost done = kept@;
                kept.push(m);
                assert(before.push(row).map_values(cut) =~= before.map_values(cut).push(cut(row)));
                assert(views(kept@) =~= views(done).push(m@));
            }
            i = i + 1;
        }
        assert(rows.take(i as int) =~= rows);
        self.tables.messages = kept;
        assert(self@ =~= old(self)@.drop_messages(ids@));
    }

    fn drop_scheduled(&mut self, ids: &Vec<i64>)
        ensures
            final(self)@ == old(self)@.drop_scheduled(ids@),
            final(self).saved() == old(self).saved(),
            final(self).pending() == old(self).pending().push(ChangeView::DropScheduled(ids@)),
            old(self).logged() ==> final(self).logged(),
    {
        let copy = copied_ids(ids);
        self.note(Change::DropScheduled { ids: copy });
        let ghost pred = |s: ScheduledView| !ids@.contains(s.id);
        let ghost rows = self@.scheduled;
        let mut kept: Vec<ScheduledEntry> = Vec::new();
        let mut i: usize = 0;
        assert(rows.take(0).filter(pred) =~= seq![]) by {
            reveal(Seq::filter);
        }
        assert(views(kept@) =~= rows.take(0).filter(pred));
        while i < self.tables.scheduled.len()
            invariant
                self@.scheduled == rows,
                i <= rows.len(),
                views(kept@) == rows.take(i as int).filter(pred),
                pred == (|s: ScheduledView| !ids@.contains(s.id)),
            decreases rows.len() - i,
        {
            let row = &self.tables.scheduled[i];
            proof {
                assert(row@ == rows[i as int]);
                rows.take(i as int).lemma_filter_push(row@, pred);
                assert(rows.take(i + 1) =~= rows.take(i as int).push(row@));
            }
            if !has_id(ids, row.id) {
                let ghost done = kept@;
                let copy = row.copied();
                kept.push(copy);
                assert(views(kept@) =~= views(done).push(row@));
            }
            i = i + 1;
        }
        assert(rows.take(i as int) =~= rows);
        self.tables.scheduled = kept;
        assert(self@ =~= old(self)@.drop_scheduled(ids@));
    }

    fn drop_sessions(&mut self, ids: &Vec<i64>)
        ensures
            final(self)@ == old(self)@.drop_sessions(ids@),
            final(self).saved() == old(self).saved(),
            final(self).pending() == old(self).pending().push(ChangeView::DropSessions(ids@)),
            old(self).logged() ==> final(self).logged(),
    {
        let copy = copied_ids(ids);
        self.note(Change::DropSessions { ids: copy });
        let ghost pred = |s: Session| !ids@.contains(s.id);
        let ghost rows = self.tables.sessions@;
        let mut kept: Vec<Session> = Vec::new();
        let mut i: usize = 0;
        assert(rows.take(0).filter(pred) =~= seq![]) by {
            reveal(Seq::filter);
        }
        while i < self.tables.sessions.len()
            invariant
                self.tables.sessions@ == rows,
                i <= rows.len(),
                kept@ == rows.take(i as int).filter(pred),
                pred == (|s: Session| !ids@.contains(s.id)),
            decreases rows.len() - i,
        {
            let s = self.tables.sessions[i];
            proof {
                rows.take(i as int).lemma_filter_push(s, pred);
                assert(rows.take(i + 1) =~= rows.take(i as int).push(s));
            }
            if !has_id(ids, s.id) {
                kept.push(s);
            }
            i = i + 1;
        }
        assert(rows.take(i as int) =~= rows);
        self.tables.sessions = kept;
        assert(self@ =~= old(self)@.drop_sessions(ids@));
    }

    fn drop_agents(&mut self, ids: &Vec<i64>)
        ensures
            final(self)@ == old(self)@.drop_agents(ids@),
            final(self).saved() == old(self).saved(),
            final(self).pending() == old(self).pending().push(ChangeView::DropAgents(ids@)),
            old(self).logged() ==> final(self).logged(),
    {
        let copy = copied_ids(ids);
        self.note(Change::DropAgents { ids: copy });
        let agents = kept_agents(&self.tables.agents, ids);
        let members = kept_members(&self.tables.members, ids);
        let deliveries = kept_deliveries(&self.tables.deliveries, ids);
        let sessions = kept_sessions(&self.tables.sessions, ids);
        self.tables.agents = agents;
        self.tables.members = members;
        self.tables.deliveries = deliveries;
        self.tables.sessions = sessions;
        assert(self@ =~= old(self)@.drop_agents(ids@));
    }
}

fn kept_agents(rows: &Vec<AgentRow>, ids: &Vec<i64>) -> (kept: Vec<AgentRow>)
    ensures
        views(kept@) == views(rows@).filter(|a: AgentView| !ids@.contains(a.id)),
{
    let ghost pred = |a: AgentView| !ids@.contains(a.id);
    let ghost all = views(rows@);
    let mut kept: Vec<AgentRow> = Vec::new();
    let mut i: usize = 0;
    assert(all.take(0).filter(pred) =~= seq![]) by {
        reveal(Seq::filter);
    }
    assert(views(kept@) =~= all.take(0).filter(pred));
    while i < rows.len()
        invariant
            all == views(rows@),
            i <= all.len(),
            views(kept@) == all.take(i as int).filter(pred),
            pred == (|a: AgentView| !ids@.contains(a.id)),
        decreases all.len() - i,
    {
        let row = &rows[i];
        proof {
            assert(row@ == all[i as int]);
            all.take(i as int).lemma_filter_push(row@, pred);
            assert(all.take(i + 1) =~= all.take(i as int).push(row@));
        }
        if !has_id(ids, row.id) {
            let ghost done = kept@;
            let copy = row.copied();
            kept.push(copy);
            assert(views(kept@) =~= views(done).push(row@));
        }
        i = i + 1;
    }
    assert(all.take(i as int) =~= all);
    kept
}

fn kept_members(rows: &Vec<Membership>, ids: &Vec<i64>) -> (kept: Vec<Membership>)
    ensures
        kept@ == rows@.filter(|m: Membership| !ids@.contains(m.agent)),
{
    let ghost pred = |m: Membership| !ids@.contains(m.agent);
    let mut kept: Vec<Membership> = Vec::new();
    let mut i: usize = 0;
    assert(rows@.take(0).filter(pred) =~= seq![]) by {
        reveal(Seq::filter);
    }
    while i < rows.len()
        invariant
            i <= rows@.len(),
            kept@ == rows@.take(i as int).filter(pred),
            pred == (|m: Membership| !ids@.contains(m.agent)),
        decreases rows@.len() - i,
    {
        let row = rows[i];
        proof {
            rows@.take(i as int).lemma_filter_push(row, pred);
            assert(rows@.take(i + 1) =~= rows@.take(i as int).push(row));
        }
        if !has_id(ids, row.agent) {
            kept.push(row);
        }
        i = i + 1;
    }
    assert(rows@.take(i as int) =~= rows@);
    kept
}

fn kept_deliveries(rows: &Vec<Delivery>, ids: &Vec<i64>) -> (kept: Vec<Delivery>)
    ensures
        kept@ == rows@.filter(|d: Delivery| !ids@.contains(d.agent)),
{
    let ghost pred = |d: Delivery| !ids@.contains(d.agent);
    let mut kept: Vec<Delivery> = Vec::new();
    let mut i: usize = 0;
    assert(rows@.take(0).filter(pred) =~= seq![]) by {
        reveal(Seq::filter);
    }
    while i < rows.len()
        invariant
            i <= rows@.len(),
            kept@ == rows@.take(i as int).filter(pred),
            pred == (|d: Delivery| !ids@.contains(d.agent)),
        decreases rows@.len() - i,
    {
        let row = rows[i];
        proof {
            rows@.take(i as int).lemma_filter_push(row, pred);
            assert(rows@.take(i + 1) =~= rows@.take(i as int).push(row));
        }
        if !has_id(ids, row.agent) {
            kept.push(row);
        }
        i = i + 1;
    }
    assert(rows@.take(i as int) =~= rows@);
    kept
}

fn kept_sessions(rows: &Vec<Session>, ids: &Vec<i64>) -> (kept: Vec<Session>)
    ensures
        kept@ == rows@.filter(|s: Session| !ids@.contains(s.agent)),
{
    let ghost pred = |s: Session| !ids@.contains(s.agent);
    let mut kept: Vec<Session> = Vec::new();
    let mut i: usize = 0;
    assert(rows@.take(0).filter(pred) =~= seq![]) by {
        reveal(Seq::filter);
    }
    while i < rows.len()
        invariant
            i <= rows@.len(),
            kept@ == rows@.take(i as int).filter(pred),
            pred == (|s: Session| !ids@.contains(s.agent)),
        decreases rows@.len() - i,
    {
        let row = rows[i];
        proof {
            rows@.take(i as int).lemma_filter_push(row, pred);
            assert(rows@.take(i + 1) =~= rows@.take(i as int).push(row));
        }
        if !has_id(ids, row.agent) {
            kept.push(row);
        }
        i = i + 1;
    }
    assert(rows@.take(i as int) =~= rows@);
    kept
}

} // verus!
