//! What scheduling promises, in terms of the rows of the tables.

use vstd::prelude::*;
use vstd::seq_lib::*;

use crate::clock::Timestamp;
use crate::proto::{DataView, EventView, Op, ScheduledRowView, When};
use crate::types::{parsed_recipient, RecipientView};

use super::keeping::{lemma_rising_unique, lemma_same_people, lemma_set_scheduled};
use super::laws::{
    law_all_due_is_delivered, law_pass_settles_what_is_due, lemma_due_rows, lemma_filter_contains,
};
use super::laws_reading::{is_called, is_channel, lemma_is_channel};
use super::laws_sending::{
    belongs, gets, handed, lemma_plain, lemma_post_done, row_holds, well_addressed,
};
use super::order::{ascending, law_sorted};
use super::posting::{lemma_posted, Draft};
use super::server::{delivered_event, handling, ticking, DaemonView, Reply, Surroundings};
use super::store::schedule::{
    delivering, delivering_due, due_rows, due_time, is_due, is_shown, shown, DeliveredView,
};
use super::store::StoreError;
use super::tables::{
    Delivery, MessageRowView, PayloadView, ScheduledStatus, ScheduledView, TablesView, Target,
};

verus! {

/// The rows of a pass are exactly the pending ones whose time has come, whatever they hold, and
/// the earliest comes first.
pub proof fn law_what_is_due(t: TablesView, now: Timestamp, row: ScheduledView, i: int, j: int)
    ensures
        due_rows(t, now).contains(row) <==> t.scheduled.contains(row) && row.status
            == ScheduledStatus::Pending && row.deliver_at.at() <= now.at(),
        0 <= i <= j < due_rows(t, now).len() ==> due_rows(t, now)[i].deliver_at.at() <= due_rows(
            t,
            now,
        )[j].deliver_at.at(),
{
    lemma_due_rows(t, now, row);
    law_sorted(t.scheduled.filter(is_due(now)), due_time());
    if 0 <= i <= j < due_rows(t, now).len() {
        let s = due_rows(t, now);
        assert(due_time()(s[i]) <= due_time()(s[j]));
    }
}

/// What a scheduled payload says, as a draft.
pub open spec fn draft_of(p: PayloadView) -> Draft {
    Draft {
        from: p.from,
        to: parsed_recipient(p.to),
        body: p.body,
        intent: p.intent,
        reply_to: p.reply_to,
    }
}

/// Whether the message of a payload stands in the tables: a row that is newer than those of
/// `t` holds it, and of the agents that `t` knows exactly those who are to receive it were
/// handed it.
pub open spec fn stands(t: TablesView, u: TablesView, p: PayloadView, now: Timestamp) -> bool {
    exists|k: int| t.messages.len() <= k < u.messages.len() && stands_as(t, u, p, now, #[trigger] u.messages[k])
}

pub open spec fn stands_as(
    t: TablesView,
    u: TablesView,
    p: PayloadView,
    now: Timestamp,
    row: MessageRowView,
) -> bool {
    &&& row_holds(u, row, draft_of(p), now)
    &&& forall|x: int|
        0 <= x < t.agents.len() ==> (handed(u, row.id, (#[trigger] t.agents[x]).id, now) <==> gets(
            t,
            t.agents[x].id,
            t.agents[x].name,
            row.from,
            parsed_recipient(p.to),
            p.body,
        ))
}

/// Whether tables are a later state of others: agents and channels keep their ids and names,
/// messages and deliveries stay, and of the agents that were known nobody joined or left.
pub open spec fn follows(t: TablesView, u: TablesView) -> bool {
    &&& t.agents.len() <= u.agents.len()
    &&& forall|x: int|
        0 <= x < t.agents.len() ==> (#[trigger] u.agents[x]).id == t.agents[x].id
            && u.agents[x].name == t.agents[x].name && u.agents[x].first_seen
            == t.agents[x].first_seen
    &&& t.channels.len() <= u.channels.len()
    &&& forall|x: int|
        0 <= x < t.channels.len() ==> #[trigger] u.channels[x] == t.channels[x]
    &&& t.messages.len() <= u.messages.len()
    &&& forall|k: int| 0 <= k < t.messages.len() ==> #[trigger] u.messages[k] == t.messages[k]
    &&& forall|k: int, j: int|
        0 <= k < t.messages.len() <= j < u.messages.len() ==> (#[trigger] u.messages[k]).id < (
        #[trigger] u.messages[j]).id
    &&& t.deliveries.len() <= u.deliveries.len()
    &&& forall|i: int| 0 <= i < t.deliveries.len() ==> #[trigger] u.deliveries[i] == t.deliveries[i]
    &&& forall|i: int|
        t.deliveries.len() <= i < u.deliveries.len() ==> is_newer(
            t,
            u,
            (#[trigger] u.deliveries[i]).message,
        )
    &&& t.members.len() <= u.members.len()
    &&& forall|i: int| 0 <= i < t.members.len() ==> #[trigger] u.members[i] == t.members[i]
    &&& forall|i: int, x: int|
        t.members.len() <= i < u.members.len() && 0 <= x < t.agents.len() ==> (
        #[trigger] u.members[i]).agent != (#[trigger] t.agents[x]).id
}

/// Whether an id is that of a message that `u` has and `t` has not.
pub open spec fn is_newer(t: TablesView, u: TablesView, id: i64) -> bool {
    exists|k: int| t.messages.len() <= k < u.messages.len() && (#[trigger] u.messages[k]).id == id
}

proof fn lemma_follows_itself(t: TablesView)
    ensures
        follows(t, t),
{
}

proof fn lemma_follows_twice(t: TablesView, u: TablesView, v: TablesView)
    requires
        follows(t, u),
        follows(u, v),
    ensures
        follows(t, v),
{
    assert forall|x: int| 0 <= x < t.agents.len() implies (#[trigger] v.agents[x]).id
        == t.agents[x].id && v.agents[x].name == t.agents[x].name && v.agents[x].first_seen
        == t.agents[x].first_seen by {
        assert(u.agents[x].id == t.agents[x].id);
    }
    assert forall|x: int| 0 <= x < t.channels.len() implies #[trigger] v.channels[x]
        == t.channels[x] by {
        assert(u.channels[x] == t.channels[x]);
    }
    assert forall|k: int| 0 <= k < t.messages.len() implies #[trigger] v.messages[k]
        == t.messages[k] by {
        assert(u.messages[k] == t.messages[k]);
    }
    assert forall|k: int, j: int|
        0 <= k < t.messages.len() <= j < v.messages.len() implies (#[trigger] v.messages[k]).id < (
    #[trigger] v.messages[j]).id by {
        if j < u.messages.len() {
            assert(u.messages[k] == v.messages[k] && u.messages[j] == v.messages[j]);
            assert(u.messages[k].id < u.messages[j].id);
        }
    }
    assert forall|i: int| 0 <= i < t.deliveries.len() implies #[trigger] v.deliveries[i]
        == t.deliveries[i] by {
        assert(u.deliveries[i] == t.deliveries[i]);
    }
    assert forall|i: int| t.deliveries.len() <= i < v.deliveries.len() implies is_newer(
        t,
        v,
        (#[trigger] v.deliveries[i]).message,
    ) by {
        let id = v.deliveries[i].message;
        if i < u.deliveries.len() {
            assert(u.deliveries[i] == v.deliveries[i]);
            let k = choose|k: int|
                t.messages.len() <= k < u.messages.len() && (#[trigger] u.messages[k]).id == id;
            assert(v.messages[k] == u.messages[k]);
        } else {
            assert(is_newer(u, v, id));
            let k = choose|k: int|
                u.messages.len() <= k < v.messages.len() && (#[trigger] v.messages[k]).id == id;
            assert(v.messages[k].id == id);
        }
    }
    assert forall|i: int| 0 <= i < t.members.len() implies #[trigger] v.members[i]
        == t.members[i] by {
        assert(u.members[i] == t.members[i]);
    }
    assert forall|i: int, x: int|
        t.members.len() <= i < v.members.len() && 0 <= x < t.agents.len() implies (
    #[trigger] v.members[i]).agent != (#[trigger] t.agents[x]).id by {
        assert(u.agents[x].id == t.agents[x].id);
        if i < u.members.len() {
            assert(u.members[i] == v.members[i]);
        } else {
            assert(v.members[i].agent != u.agents[x].id);
        }
    }
}

proof fn lemma_post_follows(t: TablesView, d: Draft, now: Timestamp)
    requires
        t.valid(),
        t.postable(d),
        t.posted(d, now).fits(),
    ensures
        follows(t, t.posted(d, now)),
{
    let u = t.posted(d, now);
    lemma_posted(t, d, now);
    lemma_post_done(t, d, now);
    lemma_channels_stay(t, d, now);
    let n = t.messages.len() as int;
    assert forall|k: int, j: int|
        0 <= k < t.messages.len() <= j < u.messages.len() implies (#[trigger] u.messages[k]).id < (
    #[trigger] u.messages[j]).id by {
        assert(j == n);
    }
    assert forall|i: int| t.deliveries.len() <= i < u.deliveries.len() implies is_newer(
        t,
        u,
        (#[trigger] u.deliveries[i]).message,
    ) by {
        assert(u.messages[n].id == u.deliveries[i].message);
    }
    assert forall|i: int, x: int|
        t.members.len() <= i < u.members.len() && 0 <= x < t.agents.len() implies (
    #[trigger] u.members[i]).agent != (#[trigger] t.agents[x]).id by {
        let y = t.agents.len() + i - t.members.len();
        assert(u.members[i].agent == u.agents[y].id);
        assert(u.agents[x].id == t.agents[x].id);
        assert(u.agent_ids()[x] < u.agent_ids()[y]);
    }
}

/// Posting leaves the channels where they are.
proof fn lemma_channels_stay(t: TablesView, d: Draft, now: Timestamp)
    ensures
        t.channels.len() <= t.posted(d, now).channels.len(),
        forall|x: int|
            0 <= x < t.channels.len() ==> #[trigger] t.posted(d, now).channels[x] == t.channels[x],
{
    let e = t.with_ends(d, now);
    let from = e.agent_id(d.from);
    let first = e.direct_recipients(e.target_of(d.to), from);
    lemma_called_channels(e, super::posting::called_names(d.body), from, first, now);
}

proof fn lemma_called_channels(
    t: TablesView,
    names: Seq<Seq<char>>,
    from: i64,
    first: Seq<i64>,
    now: Timestamp,
)
    ensures
        t.with_called(names, from, first, now).0.channels == t.channels,
    decreases names.len(),
{
    if names.len() > 0 {
        lemma_called_channels(t, names.drop_last(), from, first, now);
    }
}

/// Who is to receive a message does not change as long as nobody joins or leaves.
proof fn lemma_gets_same(
    t: TablesView,
    u: TablesView,
    x: int,
    sender: i64,
    to: RecipientView,
    body: Seq<char>,
)
    requires
        t.valid(),
        u.valid(),
        follows(t, u),
        0 <= x < t.agents.len(),
    ensures
        gets(t, t.agents[x].id, t.agents[x].name, sender, to, body) == gets(
            u,
            t.agents[x].id,
            t.agents[x].name,
            sender,
            to,
            body,
        ),
{
    let id = t.agents[x].id;
    match to {
        RecipientView::Channel(c) => {
            if belongs(t, id, c) {
                let i = choose|i: int|
                    0 <= i < t.members.len() && (#[trigger] t.members[i]).agent == id
                        && is_channel(t, t.members[i].channel, c);
                assert(u.members[i] == t.members[i]);
                lemma_channel_follows(t, u, t.members[i].channel, c);
            }
            if belongs(u, id, c) {
                let i = choose|i: int|
                    0 <= i < u.members.len() && (#[trigger] u.members[i]).agent == id
                        && is_channel(u, u.members[i].channel, c);
                if i >= t.members.len() {
                    assert(u.members[i].agent != t.agents[x].id);
                }
                assert(u.members[i] == t.members[i]);
                assert(t.has_channel(t.members[i].channel));
                let ch = t.members[i].channel;
                let q = t.channel_ids().index_of(ch);
                assert(t.channel_ids()[q] == ch);
                assert(u.channels[q] == t.channels[q]);
                lemma_is_channel(u, ch, c);
                assert(is_channel(u, ch, t.channels[q].name)) by {
                    assert(u.channels[q].id == ch);
                }
                lemma_is_channel(u, ch, t.channels[q].name);
                assert(t.channels[q].id == ch && t.channels[q].name == c);
                assert(t.members[i].agent == id);
            }
        },
        _ => {},
    }
}

proof fn lemma_channel_follows(t: TablesView, u: TablesView, id: i64, name: Seq<char>)
    requires
        follows(t, u),
        is_channel(t, id, name),
    ensures
        is_channel(u, id, name),
{
    let i = choose|i: int|
        0 <= i < t.channels.len() && (#[trigger] t.channels[i]).id == id && t.channels[i].name
            == name;
    assert(u.channels[i] == t.channels[i]);
}

proof fn lemma_called_follows(t: TablesView, u: TablesView, id: i64, name: Seq<char>)
    requires
        follows(t, u),
        is_called(t, id, name),
    ensures
        is_called(u, id, name),
{
    let i = choose|i: int|
        0 <= i < t.agents.len() && (#[trigger] t.agents[i]).id == id && t.agents[i].name == name;
    assert(u.agents[i].id == id && u.agents[i].name == name);
}

/// What stands goes on standing.
proof fn lemma_stands_on(
    t: TablesView,
    u: TablesView,
    v: TablesView,
    p: PayloadView,
    now: Timestamp,
)
    requires
        u.valid(),
        v.valid(),
        follows(t, u),
        follows(u, v),
        stands(t, u, p, now),
    ensures
        stands(t, v, p, now),
{
    let k = choose|k: int|
        t.messages.len() <= k < u.messages.len() && stands_as(t, u, p, now, #[trigger] u.messages[k]);
    let row = u.messages[k];
    assert(v.messages[k] == row);
    lemma_called_follows(u, v, row.from, p.from);
    match (row.target, draft_of(p).to) {
        (Target::Agent(a), RecipientView::Agent(name)) => {
            lemma_called_follows(u, v, a, name);
        },
        (Target::Channel(c), RecipientView::Channel(name)) => {
            lemma_channel_follows(u, v, c, name);
        },
        _ => {},
    }
    assert forall|x: int| 0 <= x < t.agents.len() implies handed(
        v,
        row.id,
        (#[trigger] t.agents[x]).id,
        now,
    ) == handed(u, row.id, t.agents[x].id, now) by {
        let item = Delivery {
            message: row.id,
            agent: t.agents[x].id,
            delivered_at: Some(now),
            read_at: None,
        };
        if handed(u, row.id, t.agents[x].id, now) {
            let i = choose|i: int|
                0 <= i < u.deliveries.len() && #[trigger] u.deliveries[i] == item;
            assert(v.deliveries[i] == item);
        }
        if handed(v, row.id, t.agents[x].id, now) {
            let i = choose|i: int|
                0 <= i < v.deliveries.len() && #[trigger] v.deliveries[i] == item;
            if i < u.deliveries.len() {
                assert(u.deliveries[i] == item);
            } else {
                assert(is_newer(u, v, v.deliveries[i].message));
                let j = choose|j: int|
                    u.messages.len() <= j < v.messages.len() && (#[trigger] v.messages[j]).id
                        == row.id;
                assert(v.messages[k].id < v.messages[j].id);
            }
        }
    }
    assert(stands_as(t, v, p, now, v.messages[k]));
}

proof fn lemma_pass(t: TablesView, rows: Seq<ScheduledView>, now: Timestamp)
    requires
        t.valid(),
        t.fits(),
        delivering(t, rows, now) is Ok,
    ensures
        delivering(t, rows, now)->Ok_0.0.valid(),
        delivering(t, rows, now)->Ok_0.0.fits(),
        follows(t, delivering(t, rows, now)->Ok_0.0),
        forall|n: int|
            0 <= n < rows.len() && (#[trigger] rows[n]).payload is Some ==> stands(
                t,
                delivering(t, rows, now)->Ok_0.0,
                rows[n].payload->0,
                now,
            ),
    decreases rows.len(),
{
    lemma_follows_itself(t);
    if rows.len() > 0 {
        let front = rows.drop_last();
        lemma_pass(t, front, now);
        let (v, done) = delivering(t, front, now)->Ok_0;
        let row = rows.last();
        let u = delivering(t, rows, now)->Ok_0.0;
        match row.payload {
            None => {
                lemma_set_scheduled(v, row.id, ScheduledStatus::Failed);
                lemma_same_people(v, u);
                assert(follows(v, u));
            },
            Some(p) => {
                let d = p.draft();
                assert(v.postable(d));
                let w = v.posted(d, now);
                lemma_posted(v, d, now);
                lemma_post_done(v, d, now);
                lemma_post_follows(v, d, now);
                lemma_set_scheduled(w, row.id, ScheduledStatus::Delivered);
                lemma_same_people(w, u);
                assert(follows(w, u));
                lemma_follows_twice(v, w, u);
                lemma_follows_twice(t, v, u);
                let k = v.messages.len() as int;
                let r = w.messages[k];
                assert(u.messages[k] == r);
                assert(row_holds(u, r, draft_of(p), now)) by {
                    lemma_called_follows(w, u, r.from, p.from);
                    match (r.target, d.to) {
                        (Target::Agent(a), RecipientView::Agent(name)) => {
                            lemma_called_follows(w, u, a, name);
                        },
                        (Target::Channel(c), RecipientView::Channel(name)) => {
                            lemma_channel_follows(w, u, c, name);
                        },
                        _ => {},
                    }
                }
                assert forall|x: int| 0 <= x < t.agents.len() implies (handed(
                    u,
                    r.id,
                    (#[trigger] t.agents[x]).id,
                    now,
                ) <==> gets(t, t.agents[x].id, t.agents[x].name, r.from, d.to, p.body)) by {
                    lemma_gets_same(t, v, x, r.from, d.to, p.body);
                    assert(v.agents[x].id == t.agents[x].id);
                    assert(w.agents[x].id == t.agents[x].id && w.agents[x].name == t.agents[x].name);
                    assert(handed(w, r.id, w.agents[x].id, now) <==> gets(
                        v,
                        w.agents[x].id,
                        w.agents[x].name,
                        r.from,
                        d.to,
                        d.body,
                    ));
                    assert(u.deliveries == w.deliveries);
                    let item = Delivery {
                        message: r.id,
                        agent: t.agents[x].id,
                        delivered_at: Some(now),
                        read_at: None,
                    };
                    if handed(w, r.id, t.agents[x].id, now) {
                        let i = choose|i: int|
                            0 <= i < w.deliveries.len() && #[trigger] w.deliveries[i] == item;
                        assert(u.deliveries[i] == item);
                    }
                    if handed(u, r.id, t.agents[x].id, now) {
                        let i = choose|i: int|
                            0 <= i < u.deliveries.len() && #[trigger] u.deliveries[i] == item;
                        assert(w.deliveries[i] == item);
                    }
                }
                assert(stands_as(t, u, p, now, u.messages[k]));
            },
        }
        lemma_follows_twice(t, v, u);
        assert forall|n: int| 0 <= n < rows.len() && (
        #[trigger] rows[n]).payload is Some implies stands(t, u, rows[n].payload->0, now) by {
            if n < front.len() {
                assert(front[n] == rows[n]);
                lemma_stands_on(t, v, u, rows[n].payload->0, now);
            }
        }
    }
}

/// Whether a payload is among what was delivered.
pub open spec fn announced(done: Seq<DeliveredView>, p: PayloadView) -> bool {
    exists|i: int| 0 <= i < done.len() && announces_it(#[trigger] done[i], p)
}

pub open spec fn announces_it(x: DeliveredView, p: PayloadView) -> bool {
    x.from == p.from && x.body == p.body && x.to == parsed_recipient(p.to)
}

/// A pass of the scheduler that succeeds, while the daemon is not paused, posts the message of
/// every pending row whose time has come and that can be read, whoever sends it to whomever; it
/// marks such a row as delivered, one that cannot be read as failed, and leaves all other rows
/// as they were. What was there before is still there.
pub proof fn law_scheduler_pass(d: DaemonView, now: Timestamp, k: int)
    requires
        d.tables.valid(),
        d.tables.fits(),
        !d.paused,
        ticking(d, now) is Ok,
        0 <= k < d.tables.scheduled.len(),
    ensures
        ({
            let t = d.tables;
            let (e, done) = ticking(d, now)->Ok_0;
            let before = t.scheduled[k];
            let due = before.status == ScheduledStatus::Pending && before.deliver_at.at() <= now.at();
            &&& !e.paused && e.active == d.active
            &&& follows(t, e.tables)
            &&& e.tables.scheduled.len() == t.scheduled.len()
            &&& e.tables.scheduled[k] == ScheduledView {
                status: if due && before.payload is Some {
                    ScheduledStatus::Delivered
                } else if due {
                    ScheduledStatus::Failed
                } else {
                    before.status
                },
                ..before
            }
            &&& due && before.payload is Some ==> stands(
                t,
                e.tables,
                before.payload->0,
                now,
            ) && announced(done, before.payload->0)
        }),
{
    let t = d.tables;
    let before = t.scheduled[k];
    let rows = due_rows(t, now);
    lemma_pass(t, rows, now);
    law_pass_settles_what_is_due(t, now, k);
    law_what_is_due(t, now, before, 0, 0);
    assert(t.scheduled.contains(before));
    lemma_due_rows(t, now, before);
    if rows.contains(before) {
        let n = rows.index_of(before);
        assert(rows[n] == before);
        if before.payload is Some {
            super::laws::law_due_is_announced(t, now, k);
            let done = delivering_due(t, now)->Ok_0.1;
            let p = before.payload->0;
            let i = choose|i: int|
                0 <= i < done.len() && (#[trigger] done[i]).from == p.from && done[i].to
                    == p.draft().to && done[i].body == p.body;
            assert(announces_it(done[i], p));
        }
    }
}

/// Whether what was delivered is stored under its id.
pub open spec fn stored_as(u: TablesView, x: DeliveredView) -> bool {
    exists|k: int|
        0 <= k < u.messages.len() && (#[trigger] u.messages[k]).id == x.message_id
            && u.messages[k].body == x.body
}

proof fn lemma_stored_as(t: TablesView, rows: Seq<ScheduledView>, now: Timestamp)
    requires
        t.valid(),
        t.fits(),
        delivering(t, rows, now) is Ok,
    ensures
        forall|i: int|
            0 <= i < delivering(t, rows, now)->Ok_0.1.len() ==> stored_as(
                delivering(t, rows, now)->Ok_0.0,
                #[trigger] delivering(t, rows, now)->Ok_0.1[i],
            ),
    decreases rows.len(),
{
    if rows.len() > 0 {
        let front = rows.drop_last();
        lemma_stored_as(t, front, now);
        lemma_pass(t, front, now);
        let (v, done) = delivering(t, front, now)->Ok_0;
        let (u, all) = delivering(t, rows, now)->Ok_0;
        let row = rows.last();
        match row.payload {
            None => {
                assert forall|i: int| 0 <= i < all.len() implies stored_as(u, #[trigger] all[i]) by {
                    assert(stored_as(v, done[i]));
                }
            },
            Some(p) => {
                let d = p.draft();
                let w = v.posted(d, now);
                lemma_post_done(v, d, now);
                assert(u.messages == w.messages);
                assert forall|i: int| 0 <= i < all.len() implies stored_as(u, #[trigger] all[i]) by {
                    if i < done.len() {
                        assert(all[i] == done[i] && stored_as(v, done[i]));
                        let k = choose|k: int|
                            0 <= k < v.messages.len() && (#[trigger] v.messages[k]).id
                                == done[i].message_id && v.messages[k].body == done[i].body;
                        assert(u.messages[k] == v.messages[k]);
                    } else {
                        let k = v.messages.len() as int;
                        assert(w.messages[k].id == v.next_message);
                        assert(u.messages[k].id == all[i].message_id);
                    }
                }
            },
        }
    }
}

/// A pass tells the subscribers of each message that it posts: under the id that it is stored
/// under, with its sender, its recipient and its body.
pub proof fn law_pass_tells(d: DaemonView, now: Timestamp, i: int)
    requires
        d.tables.valid(),
        d.tables.fits(),
        !d.paused,
        ticking(d, now) is Ok,
        0 <= i < ticking(d, now)->Ok_0.1.len(),
    ensures
        ({
            let (e, done) = ticking(d, now)->Ok_0;
            &&& stored_as(e.tables, done[i])
            &&& delivered_event(done[i]) == (EventView::Message {
                to: done[i].to,
                from: done[i].from,
                body: done[i].body,
                message_id: done[i].message_id,
            })
        }),
{
    lemma_stored_as(d.tables, due_rows(d.tables, now), now);
    let done = ticking(d, now)->Ok_0.1;
    assert(done == delivering(d.tables, due_rows(d.tables, now), now)->Ok_0.1);
    assert(stored_as(
        delivering(d.tables, due_rows(d.tables, now), now)->Ok_0.0,
        delivering(d.tables, due_rows(d.tables, now), now)->Ok_0.1[i],
    ));
}

/// While the daemon is paused, a pass changes nothing.
pub proof fn law_paused_pass(d: DaemonView, now: Timestamp)
    requires
        d.paused,
    ensures
        ticking(d, now) == Ok::<(DaemonView, Seq<DeliveredView>), StoreError>((d, seq![])),
{
}

/// A pass succeeds where every pending row whose time has come can be posted, and ids are left.
pub proof fn law_pass_succeeds(d: DaemonView, now: Timestamp)
    requires
        d.tables.valid(),
        d.tables.fits(),
        forall|k: int|
            0 <= k < d.tables.scheduled.len() && (#[trigger] d.tables.scheduled[k]).status
                == ScheduledStatus::Pending && d.tables.scheduled[k].deliver_at.at() <= now.at()
                ==> d.tables.scheduled[k].payload is Some && d.tables.postable(
                draft_of(d.tables.scheduled[k].payload->0),
            ),
        d.tables.next_agent + 34 * d.tables.scheduled.len() <= i64::MAX,
        d.tables.next_channel + d.tables.scheduled.len() <= i64::MAX,
        d.tables.next_message + d.tables.scheduled.len() <= i64::MAX,
    ensures
        ticking(d, now) is Ok,
{
    let t = d.tables;
    let n = t.scheduled.filter(is_due(now)).len();
    t.scheduled.lemma_filter_len(is_due(now));
    assert(34 * n <= 34 * t.scheduled.len());
    assert forall|k: int| 0 <= k < t.scheduled.len() && is_due(now)(
        #[trigger] t.scheduled[k],
    ) implies t.scheduled[k].payload is Some && t.postable(t.scheduled[k].payload->0.draft()) by {
        lemma_due_rows(t, now, t.scheduled[k]);
        law_what_is_due(t, now, t.scheduled[k], 0, 0);
        assert(t.scheduled.contains(t.scheduled[k]));
        assert(draft_of(t.scheduled[k].payload->0) == t.scheduled[k].payload->0.draft());
    }
    law_all_due_is_delivered(t, now);
}

// ---- requests ----

/// A request to schedule is accepted, paused or not, if the recipient has a name, the body has
/// at most 65536 bytes, and the time is at most 365 days ahead; past times are fine. It adds one
/// pending row, which holds what was asked for and is due when it was asked to be, and answers
/// with its id.
pub proof fn law_schedule_request(
    d: DaemonView,
    s: Surroundings,
    who: Seq<char>,
    to: String,
    body: String,
    when: When,
)
    requires
        d.tables.valid(),
    ensures
        ({
            let t = d.tables;
            let n = t.scheduled.len() as int;
            let h = handling(d, s, who, (Op::Schedule { to, body, when }));
            let near = match when {
                When::DelaySeconds { delay_seconds } => delay_seconds <= 365 * 86400 && s.now.secs
                    + delay_seconds <= i64::MAX,
                When::At { at } => at.at() <= s.now.at() + 365 * 86400 * 1000000000,
            };
            let ok = well_addressed(parsed_recipient(to@)) && vstd::utf8::encode_utf8(body@).len()
                <= 65536 && near;
            &&& h.paused == d.paused && h.event is None
            &&& ok && t.next_scheduled < i64::MAX && t.fits() ==> !(h.reply matches Reply::Now(
                Err(_),
            ))
            &&& match h.reply {
                Reply::Now(Ok(DataView::SendOk(id))) => {
                    let row = h.tables.scheduled[n];
                    &&& ok
                    &&& h.tables.scheduled == t.scheduled.push(row)
                    &&& row.id == id && row.status == ScheduledStatus::Pending
                    &&& row.created_at == s.now
                    &&& row.payload == Some(
                        PayloadView {
                            from: who,
                            to: to@,
                            body: body@,
                            intent: None,
                            reply_to: None,
                        },
                    )
                    &&& match when {
                        When::DelaySeconds { delay_seconds } => row.deliver_at.secs == s.now.secs
                            + delay_seconds && row.deliver_at.nanos == s.now.nanos,
                        When::At { at } => row.deliver_at == at,
                    }
                    &&& forall|k: int| 0 <= k < n ==> (#[trigger] t.scheduled[k]).id < id
                    &&& h.tables.messages == t.messages && h.tables.deliveries == t.deliveries
                    &&& h.tables.agents == t.agents && h.tables.members == t.members
                    &&& h.tables.channels == t.channels && h.tables.sessions == t.sessions
                },
                Reply::Now(Err(_)) => h.tables == t,
                _ => false,
            }
        }),
{
    let t = d.tables;
    let r = parsed_recipient(to@);
    match r {
        RecipientView::Agent(name) => {
            lemma_plain(name);
        },
        RecipientView::Channel(name) => {
            lemma_plain(name);
        },
        RecipientView::Broadcast => {},
    }
    assert forall|k: int| 0 <= k < t.scheduled.len() implies (#[trigger] t.scheduled[k]).id
        < t.next_scheduled by {
        assert(t.scheduled_ids()[k] == t.scheduled[k].id);
    }
}

/// Whether an item tells of a scheduled row.
pub open spec fn shows(row: ScheduledView, item: ScheduledRowView) -> bool {
    &&& row.payload matches Some(p) && item.from == p.from && item.to == p.to && item.body == p.body
    &&& item.id == row.id && item.deliver_at == row.deliver_at && item.created_at == row.created_at
}

/// Whether a list tells of a scheduled row.
pub open spec fn shown_in(list: Seq<ScheduledRowView>, row: ScheduledView) -> bool {
    exists|j: int| 0 <= j < list.len() && shows(row, #[trigger] list[j])
}

/// The operator is shown all pending rows that can be read, others those that they scheduled;
/// each with what it holds, by ascending id.
pub proof fn law_scheduled_request(d: DaemonView, s: Surroundings, who: Seq<char>, k: int)
    requires
        d.tables.valid(),
        0 <= k < d.tables.scheduled.len(),
    ensures
        ({
            let t = d.tables;
            let h = handling(d, s, who, Op::Scheduled);
            let row = t.scheduled[k];
            let mine = row.status == ScheduledStatus::Pending && (row.payload matches Some(p) && (
            who == "master"@ || p.from == who));
            &&& h.tables == t
            &&& h.reply matches Reply::Now(Ok(DataView::Scheduled(list))) && (mine <==> shown_in(
                list,
                row,
            )) && (forall|j: int|
                0 <= j < list.len() ==> comes_from(t, #[trigger] list[j])) && (forall|
                i: int,
                j: int,
            |
                0 <= i < j < list.len() ==> (#[trigger] list[i]).id < (#[trigger] list[j]).id)
        }),
{
    let t = d.tables;
    let pred = is_shown(who);
    let rows = t.scheduled.filter(pred);
    let list = rows.map_values(shown());
    let row = t.scheduled[k];
    assert(t.scheduled.contains(row));
    lemma_filter_contains(t.scheduled, pred, row);
    super::keeping::lemma_filter_order(t.scheduled, pred);
    if pred(row) {
        let j = rows.index_of(row);
        assert(shows(row, list[j]));
    }
    assert forall|j: int| 0 <= j < list.len() implies comes_from(t, #[trigger] list[j]) by {
        assert(pred(rows[j]));
        let p = choose|p: int| 0 <= p < t.scheduled.len() && t.scheduled[p] == rows[j];
        assert(shows(t.scheduled[p], list[j]));
    }
    assert forall|i: int, j: int| 0 <= i < j < list.len() implies (#[trigger] list[i]).id < (
    #[trigger] list[j]).id by {
        let (p, q) = choose|p: int, q: int|
            0 <= p < q < t.scheduled.len() && #[trigger] t.scheduled[p] == rows[i]
                && #[trigger] t.scheduled[q] == rows[j];
        assert(t.scheduled_ids()[p] < t.scheduled_ids()[q]);
    }
    if shown_in(list, row) {
        let j = choose|j: int| 0 <= j < list.len() && shows(row, #[trigger] list[j]);
        assert(pred(rows[j]));
        let p = choose|p: int| 0 <= p < t.scheduled.len() && t.scheduled[p] == rows[j];
        assert(t.scheduled_ids()[p] == t.scheduled_ids()[k]);
        lemma_rising_unique(t.scheduled_ids(), t.next_scheduled, p);
        lemma_rising_unique(t.scheduled_ids(), t.next_scheduled, k);
    }
}

/// Whether an item tells of some scheduled row.
pub open spec fn comes_from(t: TablesView, item: ScheduledRowView) -> bool {
    exists|p: int| 0 <= p < t.scheduled.len() && shows(#[trigger] t.scheduled[p], item)
}

/// The operator can cancel any pending row, others those that they scheduled; it is cancelled
/// then, and nothing else changes. Any other request to cancel is refused and changes nothing.
pub proof fn law_cancel_request(
    d: DaemonView,
    s: Surroundings,
    who: Seq<char>,
    scheduled_id: i64,
    k: int,
)
    requires
        d.tables.valid(),
        0 <= k < d.tables.scheduled.len(),
    ensures
        ({
            let t = d.tables;
            let h = handling(d, s, who, (Op::Cancel { scheduled_id }));
            let row = t.scheduled[k];
            let mine = row.status == ScheduledStatus::Pending && (who == "master"@ || (
            row.payload matches Some(p) && p.from == who));
            &&& h.event is None && h.paused == d.paused
            &&& row.id == scheduled_id ==> (h.reply matches Reply::Now(Ok(_)) <==> mine)
            &&& h.reply matches Reply::Now(Err(_)) ==> h.tables == t
            &&& h.tables.scheduled.len() == t.scheduled.len()
            &&& h.tables.scheduled[k] == if row.id == scheduled_id && mine {
                ScheduledView { status: ScheduledStatus::Cancelled, ..row }
            } else {
                row
            }
            &&& h.tables == (TablesView { scheduled: h.tables.scheduled, ..t })
        }),
{
    let t = d.tables;
    let row = t.scheduled[k];
    lemma_rising_unique(t.scheduled_ids(), t.next_scheduled, k);
    assert forall|i: int|
        0 <= i < t.scheduled.len() && (#[trigger] t.scheduled[i]).id == row.id implies i == k by {
        assert(t.scheduled_ids()[i] == t.scheduled_ids()[k]);
        lemma_rising_unique(t.scheduled_ids(), t.next_scheduled, i);
    }
}

/// A request to cancel a row that is not there is refused.
pub proof fn law_cancel_of_nothing(
    d: DaemonView,
    s: Surroundings,
    who: Seq<char>,
    scheduled_id: i64,
)
    requires
        forall|k: int|
            0 <= k < d.tables.scheduled.len() ==> (#[trigger] d.tables.scheduled[k]).id
                != scheduled_id,
    ensures
        handling(d, s, who, (Op::Cancel { scheduled_id })).reply matches Reply::Now(Err(_)),
        handling(d, s, who, (Op::Cancel { scheduled_id })).tables == d.tables,
{
}

} // verus!
