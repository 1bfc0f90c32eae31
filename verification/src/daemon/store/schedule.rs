//! Scheduled sends.

use vstd::prelude::*;
use vstd::seq_lib::*;

use crate::clock::Timestamp;
use crate::limits::MASTER;
use crate::proto::{ScheduledRow, ScheduledRowView};
use crate::text::same;
use crate::types::{views, Intent, Recipient, RecipientView};

use super::super::keeping::{lemma_add_scheduled, lemma_same_people, lemma_set_scheduled};
use super::super::order::{
    by_key, law_sorted, lemma_sorted_map, sort_keyed, sorted_by, Keyed,
};
use super::super::posting::lemma_posted;
use super::super::tables::{
    PayloadView, ScheduledEntry, ScheduledPayload, ScheduledStatus, ScheduledView, TablesView,
};
use super::growth::Growth;
use super::post::draft_fault;
use super::{beside, kept, Store, StoreError};

verus! {

/// A scheduled send that was delivered.
#[derive(Clone, Debug)]
pub struct DeliveredScheduled {
    pub message_id: i64,
    pub from: String,
    pub to: Recipient,
    pub body: String,
}

/// A delivered send, with its texts as sequences of characters.
pub struct DeliveredView {
    pub message_id: i64,
    pub from: Seq<char>,
    pub to: RecipientView,
    pub body: Seq<char>,
}

impl View for DeliveredScheduled {
    type V = DeliveredView;

    open spec fn view(&self) -> DeliveredView {
        DeliveredView {
            message_id: self.message_id,
            from: self.from@,
            to: self.to@,
            body: self.body@,
        }
    }
}

/// What scheduling a send gives: the tables and the id of the scheduled row.
pub open spec fn scheduling(
    t: TablesView,
    payload: PayloadView,
    deliver_at: Timestamp,
    now: Timestamp,
) -> Result<(TablesView, i64), StoreError> {
    let id = t.next_scheduled as i64;
    kept(
        t.add_scheduled(
            ScheduledView {
                id,
                payload: Some(payload),
                deliver_at,
                created_at: now,
                status: ScheduledStatus::Pending,
            },
        ),
        id,
    )
}

/// Whether a row waits and its time has come.
pub open spec fn is_due(now: Timestamp) -> spec_fn(ScheduledView) -> bool {
    |s: ScheduledView| s.status == ScheduledStatus::Pending && s.deliver_at.at() <= now.at()
}

/// When a row is to be delivered.
pub open spec fn due_time() -> spec_fn(ScheduledView) -> int {
    |s: ScheduledView| s.deliver_at.at()
}

/// The rows that one pass delivers: all that are due, earliest first.
pub open spec fn due_rows(t: TablesView, now: Timestamp) -> Seq<ScheduledView> {
    sorted_by(t.scheduled.filter(is_due(now)), due_time())
}

/// What delivering rows in turn gives: the tables and what was delivered. Each row is posted
/// as a message of its own and is delivered then; one without a readable payload has failed.
/// Where one is refused, or an id is missing for it, none is delivered.
pub open spec fn delivering(t: TablesView, rows: Seq<ScheduledView>, now: Timestamp) -> Result<
    (TablesView, Seq<DeliveredView>),
    StoreError,
>
    decreases rows.len(),
{
    if rows.len() == 0 {
        Ok((t, seq![]))
    } else {
        match delivering(t, rows.drop_last(), now) {
            Err(e) => Err(e),
            Ok((u, done)) => delivering_one(u, done, rows.last(), now),
        }
    }
}

/// One step of [`delivering`].
pub open spec fn delivering_one(
    u: TablesView,
    done: Seq<DeliveredView>,
    row: ScheduledView,
    now: Timestamp,
) -> Result<(TablesView, Seq<DeliveredView>), StoreError> {
    match row.payload {
        None => Ok((u.set_scheduled(row.id, ScheduledStatus::Failed), done)),
        Some(p) => match draft_fault(u, p.draft()) {
            Some(e) => Err(e),
            None => kept(
                u.posted(p.draft(), now).set_scheduled(row.id, ScheduledStatus::Delivered),
                done.push(
                    DeliveredView {
                        message_id: u.next_message as i64,
                        from: p.from,
                        to: p.draft().to,
                        body: p.body,
                    },
                ),
            ),
        },
    }
}

/// What one pass of the scheduler gives.
pub open spec fn delivering_due(t: TablesView, now: Timestamp) -> Result<
    (TablesView, Seq<DeliveredView>),
    StoreError,
> {
    delivering(t, due_rows(t, now), now)
}

/// Whether the caller may see and cancel a scheduled send: the operator may with any, others
/// with their own.
pub open spec fn may_handle(who: Seq<char>, row: ScheduledView) -> bool {
    who == MASTER@ || match row.payload {
        Some(p) => p.from == who,
        None => false,
    }
}

/// Whether a caller can cancel the row with this id: it waits, and is the caller's to handle.
pub open spec fn can_cancel(t: TablesView, id: i64, who: Seq<char>) -> bool {
    exists|i: int|
        0 <= i < t.scheduled.len() && (#[trigger] t.scheduled[i]).id == id && t.scheduled[i].status
            == ScheduledStatus::Pending && may_handle(who, t.scheduled[i])
}

/// What cancelling gives.
pub open spec fn cancelling(t: TablesView, id: i64, who: Seq<char>) -> Result<
    (TablesView, ()),
    StoreError,
> {
    if can_cancel(t, id, who) {
        Ok((t.set_scheduled(id, ScheduledStatus::Cancelled), ()))
    } else {
        Err(StoreError::NoScheduled(id))
    }
}

/// One step of a pass keeps the tables valid.
proof fn lemma_step(u: TablesView, done: Seq<DeliveredView>, row: ScheduledView, now: Timestamp)
    requires
        u.valid(),
        u.fits(),
        delivering_one(u, done, row, now) is Ok,
    ensures
        delivering_one(u, done, row, now)->Ok_0.0.valid(),
        delivering_one(u, done, row, now)->Ok_0.0.fits(),
{
    let w = delivering_one(u, done, row, now)->Ok_0.0;
    match row.payload {
        None => {
            lemma_set_scheduled(u, row.id, ScheduledStatus::Failed);
            lemma_same_people(u, w);
        },
        Some(p) => {
            let d = p.draft();
            assert(u.postable(d));
            lemma_posted(u, d, now);
            let v = u.posted(d, now);
            lemma_set_scheduled(v, row.id, ScheduledStatus::Delivered);
            lemma_same_people(v, w);
        },
    }
}

/// Marking a scheduled send leaves everyone and every message where they are.
proof fn lemma_marked_ahead(
    t: TablesView,
    u: TablesView,
    g: Growth,
    id: i64,
    status: ScheduledStatus,
)
    requires
        g.leads(t, u),
    ensures
        g.leads(t, u.set_scheduled(id, status)),
{
    let w = u.set_scheduled(id, status);
    assert(w.agent_names() == u.agent_names() && w.channel_names() == u.channel_names());
    assert(w.message_ids() == u.message_ids());
    assert forall|n: Seq<char>| #[trigger] w.knows_agent(n) == u.knows_agent(n) by {}
    assert forall|n: Seq<char>| #[trigger] w.knows_channel(n) == u.knows_channel(n) by {}
    assert forall|i: i64| #[trigger] w.has_message(i) == u.has_message(i) by {}
}

proof fn lemma_fault_keeps(t: TablesView, rows: Seq<ScheduledView>, n: int, now: Timestamp)
    requires
        0 <= n <= rows.len(),
        delivering(t, rows.take(n), now) is Err,
    ensures
        delivering(t, rows, now) == delivering(t, rows.take(n), now),
    decreases rows.len() - n,
{
    if n == rows.len() {
        assert(rows.take(n) =~= rows);
    } else {
        assert(rows.take(n + 1).drop_last() =~= rows.take(n));
        lemma_fault_keeps(t, rows, n + 1, now);
    }
}

impl Store {
    /// Schedules a send, and gives the id of its row.
    pub fn schedule(
        &mut self,
        from_name: &str,
        to: &str,
        body: &str,
        intent: Option<Intent>,
        reply_to: Option<i64>,
        deliver_at: Timestamp,
        now: Timestamp,
    ) -> (r: Result<i64, StoreError>)
        requires
            old(self).wf(),
        ensures
            final(self).wf(),
            final(self).saved() == old(self).saved(),
            beside(final(self)@, r) == scheduling(
                old(self)@,
                (PayloadView { from: from_name@, to: to@, body: body@, intent, reply_to }),
                deliver_at,
                now,
            ),
            r is Err ==> *final(self) == *old(self),
    {
        if self.tables.next_scheduled == i64::MAX {
            return Err(StoreError::Full);
        }
        let ghost t = self@;
        let id = self.tables.next_scheduled;
        let row = ScheduledEntry {
            id,
            payload: Some(
                ScheduledPayload {
                    from: from_name.to_owned(),
                    to: to.to_owned(),
                    body: body.to_owned(),
                    intent,
                    reply_to,
                },
            ),
            deliver_at,
            created_at: now,
            status: ScheduledStatus::Pending,
        };
        proof {
            lemma_add_scheduled(t, row@);
        }
        self.add_scheduled(row);
        proof {
            lemma_same_people(t, self@);
        }
        Ok(id)
    }

    /// The rows that one pass delivers.
    fn due(&self, now: Timestamp) -> (out: Vec<ScheduledEntry>)
        ensures
            views(out@) == due_rows(self@, now),
    {
        let ghost rows = self@.scheduled;
        let ghost at = |k: Keyed| rows[k.at as int];
        let mut keyed: Vec<Keyed> = Vec::new();
        let mut i: usize = 0;
        assert(rows.take(0).filter(is_due(now)) =~= seq![]) by {
            reveal(Seq::filter);
        }
        assert(keyed@.map_values(at) =~= rows.take(0).filter(is_due(now)));
        while i < self.tables.scheduled.len()
            invariant
                rows == self@.scheduled,
                rows.len() == self.tables.scheduled@.len(),
                i <= rows.len(),
                at == (|k: Keyed| rows[k.at as int]),
                keyed@.map_values(at) == rows.take(i as int).filter(is_due(now)),
                forall|j: int|
                    0 <= j < keyed@.len() ==> (#[trigger] keyed@[j]).at < rows.len()
                        && keyed@[j].key == rows[keyed@[j].at as int].deliver_at.at(),
            decreases rows.len() - i,
        {
            let row = &self.tables.scheduled[i];
            proof {
                assert(rows[i as int] == row@);
                rows.take(i as int).lemma_filter_push(row@, is_due(now));
                assert(rows.take(i + 1) =~= rows.take(i as int).push(row@));
            }
            if row.status == ScheduledStatus::Pending && !now.before(&row.deliver_at) {
                let k = Keyed { key: row.deliver_at.instant(), at: i };
                let ghost done = keyed@;
                keyed.push(k);
                assert(keyed@.map_values(at) =~= done.map_values(at).push(row@));
            }
            i = i + 1;
        }
        assert(rows.take(i as int) =~= rows);
        let sorted = sort_keyed(&keyed);
        proof {
            law_sorted(keyed@, by_key());
            lemma_sorted_map(keyed@, by_key(), at, due_time());
            assert forall|j: int| 0 <= j < sorted@.len() implies (#[trigger] sorted@[j]).at
                < rows.len() by {
                assert(sorted@.contains(sorted@[j]));
                let p = keyed@.index_of(sorted@[j]);
                assert(keyed@[p] == sorted@[j]);
            }
        }
        let ghost all = sorted_by(rows.filter(is_due(now)), due_time());
        assert(all == sorted@.map_values(at));
        let mut out: Vec<ScheduledEntry> = Vec::new();
        let mut n: usize = 0;
        assert(views(out@) =~= all.take(0));
        while n < sorted.len()
            invariant
                rows == self@.scheduled,
                rows.len() == self.tables.scheduled@.len(),
                n <= sorted@.len(),
                out@.len() == n,
                at == (|k: Keyed| rows[k.at as int]),
                all == sorted@.map_values(at),
                views(out@) == all.take(n as int),
                forall|j: int| 0 <= j < sorted@.len() ==> (#[trigger] sorted@[j]).at < rows.len(),
            decreases sorted@.len() - n,
        {
            let k = sorted[n];
            let ghost done = out@;
            let copy = self.tables.scheduled[k.at].copied();
            assert(copy@ == rows[k.at as int]);
            assert(all[n as int] == copy@);
            out.push(copy);
            n = n + 1;
            assert(views(out@) =~= views(done).push(copy@));
            assert(views(out@) =~= all.take(n as int));
        }
        assert(all.take(n as int) =~= all);
        out
    }
}

/// Whether the caller is shown a row: it waits, it can be read, and it is the caller's to
/// handle.
pub open spec fn is_shown(who: Seq<char>) -> spec_fn(ScheduledView) -> bool {
    |s: ScheduledView|
        s.status == ScheduledStatus::Pending && s.payload is Some && may_handle(who, s)
}

/// A row as its callers see it.
pub open spec fn shown() -> spec_fn(ScheduledView) -> ScheduledRowView {
    |s: ScheduledView|
        ScheduledRowView {
            id: s.id,
            from: s.payload->0.from,
            to: s.payload->0.to,
            body: s.payload->0.body,
            deliver_at: s.deliver_at,
            created_at: s.created_at,
        }
}

impl Store {
    /// Delivers the scheduled sends that are due. They are delivered as messages of their
    /// senders are, mentions included. Gives what was delivered. Where one of them is
    /// refused, nothing changes.
    pub fn deliver_due(&mut self, now: Timestamp) -> (r: Result<
        Vec<DeliveredScheduled>,
        StoreError,
    >)
        requires
            old(self).wf(),
        ensures
            final(self).wf(),
            final(self).saved() == old(self).saved(),
            match r {
                Ok(done) => delivering_due(old(self)@, now) == Ok::<
                    (TablesView, Seq<DeliveredView>),
                    StoreError,
                >((final(self)@, views(done@))),
                Err(e) => delivering_due(old(self)@, now) == Err::<
                    (TablesView, Seq<DeliveredView>),
                    StoreError,
                >(e),
            },
            r is Err ==> *final(self) == *old(self),
    {
        let due = self.due(now);
        let fault = self.check_due(&due, now);
        if let Some(e) = fault {
            return Err(e);
        }
        let ghost t = self@;
        let ghost rows = views(due@);
        let mut done: Vec<DeliveredScheduled> = Vec::new();
        let mut i: usize = 0;
        assert(rows.take(0) =~= seq![]);
        assert(views(done@) =~= seq![]);
        while i < due.len()
            invariant
                self.wf(),
                self.saved() == old(self).saved(),
                t == old(self)@,
                rows == views(due@),
                i <= due@.len(),
                delivering(t, rows, now) is Ok,
                delivering(t, rows.take(i as int), now) == Ok::<
                    (TablesView, Seq<DeliveredView>),
                    StoreError,
                >((self@, views(done@))),
            decreases due@.len() - i,
        {
            let row = &due[i];
            let ghost u = self@;
            proof {
                assert(rows[i as int] == row@);
                assert(rows.take(i + 1).drop_last() =~= rows.take(i as int));
                assert(rows.take(i + 1).last() == row@);
                if delivering(t, rows.take(i + 1), now) is Err {
                    lemma_fault_keeps(t, rows, i + 1, now);
                }
                lemma_step(u, views(done@), row@, now);
            }
            match &row.payload {
                None => {
                    self.set_scheduled(row.id, ScheduledStatus::Failed);
                },
                Some(p) => {
                    let to = Recipient::parse(p.to.as_str());
                    let ghost before = done@;
                    assert(u.postable(p@.draft()));
                    let id = self.post(
                        p.from.as_str(),
                        &to,
                        p.body.as_str(),
                        p.intent,
                        p.reply_to,
                        now,
                    );
                    self.set_scheduled(row.id, ScheduledStatus::Delivered);
                    let item = DeliveredScheduled {
                        message_id: id,
                        from: p.from.clone(),
                        to,
                        body: p.body.clone(),
                    };
                    done.push(item);
                    assert(views(done@) =~= views(before).push(item@));
                },
            }
            i = i + 1;
        }
        assert(rows.take(i as int) =~= rows);
        Ok(done)
    }

    /// Why a pass is refused, if it is.
    fn check_due(&self, due: &Vec<ScheduledEntry>, now: Timestamp) -> (r: Option<StoreError>)
        requires
            self.wf(),
        ensures
            match r {
                Some(e) => delivering(self@, views(due@), now) == Err::<
                    (TablesView, Seq<DeliveredView>),
                    StoreError,
                >(e),
                None => delivering(self@, views(due@), now) is Ok,
            },
    {
        let ghost t = self@;
        let ghost rows = views(due@);
        let mut g = Growth::none();
        let mut i: usize = 0;
        assert(rows.take(0) =~= seq![]);
        while i < due.len()
            invariant
                self.wf(),
                t == self@,
                rows == views(due@),
                i <= due@.len(),
                g.posts() <= i,
                delivering(t, rows.take(i as int), now) is Ok,
                delivering(t, rows.take(i as int), now)->Ok_0.0.valid(),
                delivering(t, rows.take(i as int), now)->Ok_0.0.fits(),
                g.leads(t, delivering(t, rows.take(i as int), now)->Ok_0.0),
            decreases due@.len() - i,
        {
            let row = &due[i];
            let ghost (u, done) = delivering(t, rows.take(i as int), now)->Ok_0;
            proof {
                assert(rows[i as int] == row@);
                assert(rows.take(i + 1).drop_last() =~= rows.take(i as int));
                assert(rows.take(i + 1).last() == row@);
            }
            match &row.payload {
                None => {
                    proof {
                        lemma_marked_ahead(t, u, g, row.id, ScheduledStatus::Failed);
                    }
                },
                Some(p) => {
                    let to = Recipient::parse(p.to.as_str());
                    let fault = self.foresee(
                        &mut g,
                        p.from.as_str(),
                        &to,
                        p.body.as_str(),
                        p.reply_to,
                        Ghost(u),
                        Ghost(p@.draft()),
                        Ghost(now),
                    );
                    if let Some(e) = fault {
                        proof {
                            lemma_fault_keeps(t, rows, i + 1, now);
                        }
                        return Some(e);
                    }
                    proof {
                        lemma_marked_ahead(
                            t,
                            u.posted(p@.draft(), now),
                            g,
                            row.id,
                            ScheduledStatus::Delivered,
                        );
                    }
                },
            }
            proof {
                lemma_step(u, done, row@, now);
            }
            i = i + 1;
        }
        assert(rows.take(i as int) =~= rows);
        None
    }

    /// The pending scheduled sends that the caller may handle, by ascending id.
    pub fn list_scheduled(&self, who: &str) -> (out: Vec<ScheduledRow>)
        ensures
            views(out@) == self@.scheduled.filter(is_shown(who@)).map_values(shown()),
    {
        let ghost rows = self@.scheduled;
        let ghost pred = is_shown(who@);
        let mut out: Vec<ScheduledRow> = Vec::new();
        let mut i: usize = 0;
        assert(rows.take(0).filter(pred) =~= seq![]) by {
            reveal(Seq::filter);
        }
        assert(views(out@) =~= rows.take(0).filter(pred).map_values(shown()));
        while i < self.tables.scheduled.len()
            invariant
                rows == self@.scheduled,
                rows.len() == self.tables.scheduled@.len(),
                pred == is_shown(who@),
                i <= rows.len(),
                views(out@) == rows.take(i as int).filter(pred).map_values(shown()),
            decreases rows.len() - i,
        {
            let row = &self.tables.scheduled[i];
            let ghost before = rows.take(i as int).filter(pred);
            proof {
                assert(rows[i as int] == row@);
                rows.take(i as int).lemma_filter_push(row@, pred);
                assert(rows.take(i + 1) =~= rows.take(i as int).push(row@));
                assert(before.push(row@).map_values(shown()) =~= before.map_values(shown()).push(
                    shown()(row@),
                ));
            }
            if row.status == ScheduledStatus::Pending {
                match &row.payload {
                    Some(p) => {
                        if same(who, MASTER) || same(p.from.as_str(), who) {
                            let item = ScheduledRow {
                                id: row.id,
                                from: p.from.clone(),
                                to: p.to.clone(),
                                body: p.body.clone(),
                                deliver_at: row.deliver_at,
                                created_at: row.created_at,
                            };
                            let ghost done = out@;
                            assert(item@ == shown()(row@));
                            out.push(item);
                            assert(views(out@) =~= views(done).push(item@));
                        }
                    },
                    None => {},
                }
            }
            i = i + 1;
        }
        assert(rows.take(i as int) =~= rows);
        out
    }

    /// Cancels a pending scheduled send that the caller may handle.
    pub fn cancel(&mut self, scheduled_id: i64, who: &str) -> (r: Result<(), StoreError>)
        requires
            old(self).wf(),
        ensures
            final(self).wf(),
            final(self).saved() == old(self).saved(),
            beside(final(self)@, r) == cancelling(old(self)@, scheduled_id, who@),
            r is Err ==> *final(self) == *old(self),
    {
        let ghost t = self@;
        let mut i: usize = 0;
        while i < self.tables.scheduled.len()
            invariant
                self.wf(),
                *self == *old(self),
                t == self@,
                i <= self.tables.scheduled@.len(),
                forall|j: int|
                    0 <= j < i ==> !((#[trigger] t.scheduled[j]).id == scheduled_id
                        && t.scheduled[j].status == ScheduledStatus::Pending && may_handle(
                        who@,
                        t.scheduled[j],
                    )),
            decreases self.tables.scheduled@.len() - i,
        {
            let row = &self.tables.scheduled[i];
            assert(t.scheduled[i as int] == row@);
            let own: bool = match &row.payload {
                Some(p) => same(p.from.as_str(), who),
                None => false,
            };
            if row.id == scheduled_id && row.status == ScheduledStatus::Pending && (same(
                who,
                MASTER,
            ) || own) {
                assert(may_handle(who@, t.scheduled[i as int]));
                proof {
                    lemma_set_scheduled(t, scheduled_id, ScheduledStatus::Cancelled);
                }
                self.set_scheduled(scheduled_id, ScheduledStatus::Cancelled);
                proof {
                    lemma_same_people(t, self@);
                }
                return Ok(());
            }
            i = i + 1;
        }
        Err(StoreError::NoScheduled(scheduled_id))
    }
}

} // verus!
