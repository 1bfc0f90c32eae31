//! What retention, pruning, starting and stopping promise, in terms of the rows of the tables.

use vstd::prelude::*;
use vstd::seq_lib::*;

use crate::clock::Timestamp;
use crate::limits::DEFAULT_RETENTION_DAYS;
use crate::proto::{DataView, Op};

use super::keeping::lemma_rising_unique;
use super::laws::{law_pruning, law_retention, lemma_filter_contains};
use super::laws_reading::lemma_row;
use super::server::{handling, started, DaemonView, Reply, Surroundings};
use super::store::opening::seeded;
use super::store::upkeep::{
    all_read, cleaned, has_mail, idle_agents, is_done, is_idle, is_over, is_past, past_messages,
    past_scheduled, past_sessions, pruned,
};
use super::tables::{
    without_reply, AgentView, Delivery, Membership, MessageRowView, ScheduledStatus, ScheduledView,
    Session, TablesView, Target,
};

verus! {

/// Whether a moment lies more than so many times 24 hours before another, in nanoseconds.
pub open spec fn is_older(then: Timestamp, now: Timestamp, days: int) -> bool {
    then.at() + days * 86400000000000 < now.at()
}

/// Whether there is an unread delivery of a message.
pub open spec fn awaits_reading(t: TablesView, id: i64) -> bool {
    exists|i: int|
        0 <= i < t.deliveries.len() && (#[trigger] t.deliveries[i]).message == id
            && t.deliveries[i].read_at is None
}

/// Whether a message is in the tables, as it was but perhaps for the message that it replied
/// to.
pub open spec fn remains(u: TablesView, row: MessageRowView) -> bool {
    exists|k: int| 0 <= k < u.messages.len() && same_message(#[trigger] u.messages[k], row)
}

pub open spec fn same_message(a: MessageRowView, b: MessageRowView) -> bool {
    &&& a.id == b.id && a.from == b.from && a.target == b.target
    &&& a.body == b.body && a.intent == b.intent && a.created_at == b.created_at
    &&& a.reply_to == b.reply_to || a.reply_to is None
}

/// The days are counted alike, in seconds and in nanoseconds.
proof fn lemma_older(t: TablesView, then: Timestamp, now: Timestamp, days: i64)
    ensures
        is_older(then, now, days as int) <==> then.at() < super::store::upkeep::cutoff(now, days),
{
    assert(days * 86400 * 1000000000 == days * 86400000000000) by (nonlinear_arith);
}

/// The clean-up drops a message if and only if it is older than so many times 24 hours and no
/// delivery of it is unread. What it keeps it keeps as it was, but that a reply to a message
/// that is dropped replies to none; and it adds nothing.
pub proof fn law_clean_up(t: TablesView, now: Timestamp, days: i64, k: int, j: int)
    requires
        t.valid(),
        0 <= k < t.messages.len(),
    ensures
        ({
            let u = cleaned(t, now, days);
            let row = t.messages[k];
            let old = is_older(row.created_at, now, days as int) && !awaits_reading(t, row.id);
            &&& remains(u, row) <==> !old
            &&& !old ==> u.has_message(row.id)
            &&& old ==> !u.has_message(row.id)
            &&& 0 <= j < u.messages.len() ==> exists|i: int|
                0 <= i < t.messages.len() && same_message(u.messages[j], #[trigger] t.messages[i])
        }),
{
    let u = cleaned(t, now, days);
    let row = t.messages[k];
    let ids = past_messages(t, now, days);
    let keep = |m: MessageRowView| !ids.contains(m.id);
    let kept = t.messages.filter(keep);
    lemma_older(t, row.created_at, now, days);
    assert(t.messages.contains(row));
    law_retention(t, now, days, row);
    assert(all_read(t, row.id) <==> !awaits_reading(t, row.id));
    assert(u.messages == kept.map_values(|m: MessageRowView| without_reply(m, ids)));
    lemma_filter_contains(t.messages, keep, row);
    if u.has_message(row.id) {
        let p = u.message_ids().index_of(row.id);
        assert(u.message_ids()[p] == row.id);
        assert(kept[p].id == row.id);
        assert(kept.contains(kept[p]));
        lemma_filter_contains(t.messages, keep, kept[p]);
        let q = t.messages.index_of(kept[p]);
        lemma_row(t, k);
        assert(t.messages[q].id == row.id);
        assert(kept[p] == row);
        assert(same_message(u.messages[p], row));
    }
    if remains(u, row) {
        let p = choose|p: int| 0 <= p < u.messages.len() && same_message(#[trigger] u.messages[p], row);
        assert(u.message_ids()[p] == row.id);
    }
    if 0 <= j < u.messages.len() {
        assert(kept.contains(kept[j]));
        lemma_filter_contains(t.messages, keep, kept[j]);
        let i = t.messages.index_of(kept[j]);
        assert(same_message(u.messages[j], t.messages[i]));
    }
}

/// The clean-up keeps a delivery if and only if it keeps its message; it drops a scheduled row
/// if and only if it was delivered or has failed and was due more than so many times 24 hours
/// ago, and a session if and only if it ended earlier than that. Agents, channels and
/// memberships stay.
pub proof fn law_clean_up_of_the_rest(
    t: TablesView,
    now: Timestamp,
    days: i64,
    d: Delivery,
    s: ScheduledView,
    session: Session,
)
    requires
        t.valid(),
    ensures
        ({
            let u = cleaned(t, now, days);
            &&& u.deliveries.contains(d) <==> t.deliveries.contains(d) && u.has_message(d.message)
            &&& u.scheduled.contains(s) <==> t.scheduled.contains(s) && !((s.status
                == ScheduledStatus::Delivered || s.status == ScheduledStatus::Failed) && is_older(
                s.deliver_at,
                now,
                days as int,
            ))
            &&& u.sessions.contains(session) <==> t.sessions.contains(session) && !(
            session.ended_at matches Some(ended) && is_older(ended, now, days as int))
            &&& u.agents == t.agents && u.channels == t.channels && u.members == t.members
        }),
{
    let u = cleaned(t, now, days);
    let ids = past_messages(t, now, days);
    super::keeping::lemma_drop_messages(t, ids);
    lemma_filter_contains(t.deliveries, |x: Delivery| !ids.contains(x.message), d);
    assert(u.messages == t.drop_messages(ids).messages);
    assert(u.has_message(d.message) == t.drop_messages(ids).has_message(d.message));
    if t.deliveries.contains(d) {
        let i = t.deliveries.index_of(d);
        assert(t.has_message(t.deliveries[i].message));
    }
    let done = past_scheduled(t, now, days);
    lemma_older(t, s.deliver_at, now, days);
    lemma_filter_contains(t.scheduled, |x: ScheduledView| !done.contains(x.id), s);
    if t.scheduled.contains(s) {
        let pred = is_done(now, days);
        let rows = t.scheduled.filter(pred);
        lemma_filter_contains(t.scheduled, pred, s);
        if pred(s) {
            let p = rows.index_of(s);
            assert(done[p] == s.id);
        }
        if done.contains(s.id) {
            let p = done.index_of(s.id);
            assert(rows[p].id == s.id);
            assert(rows.contains(rows[p]));
            lemma_filter_contains(t.scheduled, pred, rows[p]);
            let a = t.scheduled.index_of(s);
            let b = t.scheduled.index_of(rows[p]);
            assert(t.scheduled_ids()[a] == t.scheduled_ids()[b]);
            lemma_rising_unique(t.scheduled_ids(), t.next_scheduled, a);
            lemma_rising_unique(t.scheduled_ids(), t.next_scheduled, b);
        }
    }
    let over = past_sessions(t, now, days);
    match session.ended_at {
        Some(ended) => {
            lemma_older(t, ended, now, days);
        },
        None => {},
    }
    lemma_filter_contains(t.sessions, |x: Session| !over.contains(x.id), session);
    if t.sessions.contains(session) {
        let pred = is_over(now, days);
        let rows = t.sessions.filter(pred);
        lemma_filter_contains(t.sessions, pred, session);
        if pred(session) {
            let p = rows.index_of(session);
            assert(over[p] == session.id);
        }
        if over.contains(session.id) {
            let p = over.index_of(session.id);
            assert(rows[p].id == session.id);
            assert(rows.contains(rows[p]));
            lemma_filter_contains(t.sessions, pred, rows[p]);
            let a = t.sessions.index_of(session);
            let b = t.sessions.index_of(rows[p]);
            assert(t.session_ids()[a] == t.session_ids()[b]);
            lemma_rising_unique(t.session_ids(), t.next_session, a);
            lemma_rising_unique(t.session_ids(), t.next_session, b);
        }
    }
}

/// The number that a clean-up reports is the number of messages that it drops.
pub proof fn law_clean_up_counts(t: TablesView, now: Timestamp, days: i64)
    requires
        t.valid(),
    ensures
        past_messages(t, now, days).len() == t.messages.len() - cleaned(
            t,
            now,
            days,
        ).messages.len(),
{
    let pred = is_past(t, now, days);
    let ids = past_messages(t, now, days);
    let keep = |m: MessageRowView| !ids.contains(m.id);
    let rows = t.messages.filter(pred);
    assert forall|k: int| 0 <= k < t.messages.len() implies keep(#[trigger] t.messages[k]) == !pred(
        t.messages[k],
    ) by {
        let m = t.messages[k];
        assert(t.messages.contains(m));
        lemma_filter_contains(t.messages, pred, m);
        if pred(m) {
            let p = rows.index_of(m);
            assert(ids[p] == m.id);
        }
        if ids.contains(m.id) {
            let p = ids.index_of(m.id);
            assert(rows[p].id == m.id);
            assert(rows.contains(rows[p]));
            lemma_filter_contains(t.messages, pred, rows[p]);
            let q = t.messages.index_of(rows[p]);
            lemma_row(t, k);
            assert(t.messages[q].id == m.id);
        }
    }
    lemma_two_parts(t.messages, pred, keep);
}

/// A sequence splits into what meets a condition and what does not.
proof fn lemma_two_parts<T>(s: Seq<T>, p: spec_fn(T) -> bool, q: spec_fn(T) -> bool)
    requires
        forall|i: int| 0 <= i < s.len() ==> q(#[trigger] s[i]) == !p(s[i]),
    ensures
        s.filter(p).len() + s.filter(q).len() == s.len(),
    decreases s.len(),
{
    reveal(Seq::filter);
    if s.len() > 0 {
        let front = s.drop_last();
        assert forall|i: int| 0 <= i < front.len() implies q(#[trigger] front[i]) == !p(front[i]) by {
            assert(front[i] == s[i]);
        }
        lemma_two_parts(front, p, q);
        assert(q(s[s.len() - 1]) == !p(s[s.len() - 1]));
    }
}

/// The daemon's own clean-up keeps every message for 30 times 24 hours, and longer those that
/// someone has not read.
pub proof fn law_thirty_days(t: TablesView, now: Timestamp, k: int)
    requires
        t.valid(),
        0 <= k < t.messages.len(),
    ensures
        remains(cleaned(t, now, DEFAULT_RETENTION_DAYS), t.messages[k]) <==> now.at()
            - t.messages[k].created_at.at() <= 30 * 86400000000000 || awaits_reading(
            t,
            t.messages[k].id,
        ),
{
    law_clean_up(t, now, DEFAULT_RETENTION_DAYS, k, 0);
}

// ---- pruning ----

/// Whether a message was sent by an agent or to it.
pub open spec fn wrote_or_was_written(t: TablesView, agent: i64) -> bool {
    exists|k: int|
        0 <= k < t.messages.len() && ((#[trigger] t.messages[k]).from == agent
            || t.messages[k].target == Target::Agent(agent))
}

/// Whether an agent is to be pruned: it was not seen for so many times 24 hours, no message is
/// from it or to it, and it is not `master`.
pub open spec fn is_ghost(t: TablesView, a: AgentView, now: Timestamp, days: i64) -> bool {
    is_older(a.last_seen, now, days as int) && a.name != "master"@ && !wrote_or_was_written(t, a.id)
}

/// Pruning drops an agent if and only if it is to be pruned, with its memberships, deliveries
/// and sessions; everyone and everything else stays. A dry run changes nothing, and names those
/// whom the run would drop.
pub proof fn law_prune_request(
    d: DaemonView,
    s: Surroundings,
    who: Seq<char>,
    inactive_days: i64,
    x: int,
)
    requires
        d.tables.valid(),
        0 <= x < d.tables.agents.len(),
    ensures
        ({
            let t = d.tables;
            let dry = handling(d, s, who, (Op::Prune { inactive_days, dry_run: true }));
            let wet = handling(d, s, who, (Op::Prune { inactive_days, dry_run: false }));
            let a = t.agents[x];
            let ghost_agent = is_ghost(t, a, s.now, inactive_days);
            let u = wet.tables;
            &&& dry.tables == t && dry.event is None && wet.event is None
            &&& dry.reply matches Reply::Now(Ok(DataView::Agents(names))) && (names.contains(a.name)
                <==> ghost_agent) && names.len() == t.agents.len() - u.agents.len() && (
            wet.reply matches Reply::Now(Ok(DataView::SendOk(n))) && (names.len() <= i64::MAX ==> n
                == names.len()))
            &&& u.agents.contains(a) <==> !ghost_agent
            &&& u.messages == t.messages && u.channels == t.channels && u.scheduled == t.scheduled
        }),
{
    let t = d.tables;
    let a = t.agents[x];
    let pred = is_idle(t, s.now, inactive_days);
    let rows = idle_agents(t, s.now, inactive_days);
    let names = rows.map_values(|a: AgentView| a.name);
    let ids = rows.map_values(|a: AgentView| a.id);
    let keep = |a: AgentView| !ids.contains(a.id);
    lemma_older(t, a.last_seen, s.now, inactive_days);
    assert(t.agents.contains(a));
    law_pruning(t, s.now, inactive_days, a);
    assert(has_mail(t, a.id) == wrote_or_was_written(t, a.id));
    assert(pred(a) == is_ghost(t, a, s.now, inactive_days));
    lemma_filter_contains(t.agents, pred, a);
    if pred(a) {
        let p = rows.index_of(a);
        assert(names[p] == a.name);
    }
    if names.contains(a.name) {
        let p = names.index_of(a.name);
        assert(rows[p].name == a.name);
        assert(rows.contains(rows[p]));
        lemma_filter_contains(t.agents, pred, rows[p]);
        let q = t.agents.index_of(rows[p]);
        assert(t.agent_names()[q] == t.agent_names()[x]);
    }
    assert forall|k: int| 0 <= k < t.agents.len() implies keep(#[trigger] t.agents[k]) == !pred(
        t.agents[k],
    ) by {
        let b = t.agents[k];
        assert(t.agents.contains(b));
        law_pruning(t, s.now, inactive_days, b);
        lemma_filter_contains(t.agents, pred, b);
        lemma_filter_contains(t.agents, keep, b);
    }
    lemma_two_parts(t.agents, pred, keep);
}

/// With an agent that is pruned go its memberships, deliveries and sessions, and no others.
pub proof fn law_pruning_of_the_rest(
    t: TablesView,
    now: Timestamp,
    days: i64,
    m: Membership,
    d: Delivery,
    s: Session,
)
    requires
        t.valid(),
    ensures
        ({
            let u = pruned(t, now, days);
            &&& u.members.contains(m) <==> t.members.contains(m) && u.has_agent(m.agent)
            &&& u.deliveries.contains(d) <==> t.deliveries.contains(d) && u.has_agent(d.agent)
            &&& u.sessions.contains(s) <==> t.sessions.contains(s) && u.has_agent(s.agent)
        }),
{
    let u = pruned(t, now, days);
    let rows = idle_agents(t, now, days);
    let ids = rows.map_values(|a: AgentView| a.id);
    lemma_filter_contains(t.members, |x: Membership| !ids.contains(x.agent), m);
    lemma_filter_contains(t.deliveries, |x: Delivery| !ids.contains(x.agent), d);
    lemma_filter_contains(t.sessions, |x: Session| !ids.contains(x.agent), s);
    assert forall|id: i64| t.has_agent(id) implies (#[trigger] u.has_agent(id) <==> !ids.contains(
        id,
    )) by {
        let keep = |a: AgentView| !ids.contains(a.id);
        let k = t.agent_ids().index_of(id);
        assert(t.agent_ids()[k] == id);
        let a = t.agents[k];
        assert(t.agents.contains(a));
        lemma_filter_contains(t.agents, keep, a);
        if keep(a) {
            let p = u.agents.index_of(a);
            assert(u.agent_ids()[p] == id);
        }
        if u.has_agent(id) {
            let p = u.agent_ids().index_of(id);
            assert(u.agent_ids()[p] == id);
            assert(u.agents.contains(u.agents[p]));
            lemma_filter_contains(t.agents, keep, u.agents[p]);
        }
    }
    if t.members.contains(m) {
        let i = t.members.index_of(m);
        assert(t.has_agent(t.members[i].agent));
        assert(u.has_agent(m.agent) <==> !ids.contains(m.agent));
    }
    if t.deliveries.contains(d) {
        let i = t.deliveries.index_of(d);
        assert(t.has_agent(t.deliveries[i].agent));
        assert(u.has_agent(d.agent) <==> !ids.contains(d.agent));
    }
    if t.sessions.contains(s) {
        let i = t.sessions.index_of(s);
        assert(t.has_agent(t.sessions[i].agent));
        assert(u.has_agent(s.agent) <==> !ids.contains(s.agent));
    }
}

// ---- starting ----

/// A daemon that starts ends exactly the sessions that were open, at the time of its start, and
/// drops those that had ended more than 30 times 24 hours before.
pub proof fn law_start_ends_sessions(t: TablesView, now: Timestamp, k: int, session: Session)
    requires
        t.valid(),
        0 <= k < t.sessions.len(),
    ensures
        ({
            let u = started(t, now);
            let one = t.sessions[k];
            let ended = Session {
                ended_at: Some(match one.ended_at {
                    Some(at) => at,
                    None => now,
                }),
                ..one
            };
            &&& u.sessions.contains(ended) <==> now.at() - ended.ended_at->0.at() <= 30
                * 86400000000000
            &&& u.sessions.contains(session) ==> session.ended_at is Some
        }),
{
    let v = seeded(t, now);
    let w = v.end_all_sessions(now);
    let u = started(t, now);
    let one = t.sessions[k];
    let ended = w.sessions[k];
    assert(v.sessions == t.sessions);
    lemma_started_valid(t, now);
    let d = Delivery { message: 0, agent: 0, delivered_at: None, read_at: None };
    let row = ScheduledView {
        id: 0,
        payload: None,
        deliver_at: now,
        created_at: now,
        status: ScheduledStatus::Pending,
    };
    assert(w.sessions.contains(ended));
    law_clean_up_of_the_rest(w, now, DEFAULT_RETENTION_DAYS, d, row, ended);
    law_clean_up_of_the_rest(w, now, DEFAULT_RETENTION_DAYS, d, row, session);
    if u.sessions.contains(session) {
        let i = w.sessions.index_of(session);
        assert(w.sessions[i].ended_at is Some);
    }
}

proof fn lemma_started_valid(t: TablesView, now: Timestamp)
    requires
        t.valid(),
    ensures
        seeded(t, now).end_all_sessions(now).valid(),
{
    let v = seeded(t, now);
    let w = v.end_all_sessions(now);
    let row = Membership {
        agent: t.agent_id("master"@),
        channel: t.channel_id("general"@),
        joined_at: now,
    };
    assert(v == t.add_member(row));
    super::posting::lemma_agent_named(t, "master"@);
    super::posting::lemma_channel_named(t, "general"@);
    super::keeping::lemma_add_member(t, row);
    super::keeping::lemma_end_all_sessions(v, now);
    assert(w.agent_names() == t.agent_names() && w.channel_names() == t.channel_names());
}

/// Whatever tables a daemon is opened on, `master` and `#general` are there afterwards, and
/// `master` is a member; everyone and everything that was there is as it was, and no one and
/// nothing else is there.
pub proof fn law_opening_seeds(t: TablesView, now: Timestamp)
    requires
        t.consistent(),
        seeded(t, now).fits(),
    ensures
        ({
            let u = seeded(t, now);
            let n = t.agents.len() as int;
            let m = t.channels.len() as int;
            &&& u.agents.len() <= n + 1 && n <= u.agents.len()
            &&& forall|i: int| 0 <= i < n ==> #[trigger] u.agents[i] == t.agents[i]
            &&& u.agents.len() > n ==> u.agents[n].name == "master"@ && u.agents[n].first_seen
                == now && u.agents[n].last_seen == now
            &&& u.channels.len() <= m + 1 && m <= u.channels.len()
            &&& forall|i: int| 0 <= i < m ==> #[trigger] u.channels[i] == t.channels[i]
            &&& u.channels.len() > m ==> u.channels[m].name == "general"@
            &&& super::laws_sending::is_name(u, "master"@)
            &&& exists|i: int|
                0 <= i < u.members.len() && super::laws_reading::is_called(
                    u,
                    (#[trigger] u.members[i]).agent,
                    "master"@,
                ) && super::laws_reading::is_channel(u, u.members[i].channel, "general"@)
            &&& t.members.len() <= u.members.len() <= t.members.len() + 1
            &&& forall|i: int| 0 <= i < t.members.len() ==> #[trigger] u.members[i] == t.members[i]
            &&& u.messages == t.messages && u.deliveries == t.deliveries
            &&& u.scheduled == t.scheduled && u.sessions == t.sessions
        }),
{
    let a = if t.knows_agent("master"@) {
        t
    } else {
        t.add_agent(super::store::opening::master_row(t.next_agent as i64, now))
    };
    let v = a.with_channel("general"@, now);
    let u = seeded(t, now);
    if !t.knows_agent("master"@) {
        super::keeping::lemma_add_agent(
            t,
            super::store::opening::master_row(t.next_agent as i64, now),
        );
    }
    assert(a.consistent());
    if !a.knows_channel("general"@) {
        super::keeping::lemma_add_channel(
            a,
            super::tables::ChannelView {
                id: a.next_channel as i64,
                name: "general"@,
                created_at: now,
            },
        );
    }
    assert(v.consistent());
    assert(v.agent_names() == a.agent_names());
    if !t.knows_agent("master"@) {
        assert(a.agent_names()[t.agents.len() as int] == "master"@);
    }
    if !a.knows_channel("general"@) {
        assert(v.channel_names()[a.channels.len() as int] == "general"@);
    }
    assert(v.knows_agent("master"@) && v.knows_channel("general"@));
    let row = Membership {
        agent: v.agent_id("master"@),
        channel: v.channel_id("general"@),
        joined_at: now,
    };
    super::posting::lemma_agent_named(v, "master"@);
    super::posting::lemma_channel_named(v, "general"@);
    super::keeping::lemma_add_member(v, row);
    assert(u == v.add_member(row));
    assert(u.agent_names() == v.agent_names() && u.channel_names() == v.channel_names());
    super::laws_reading::lemma_is_called(u, row.agent, "master"@);
    super::laws_reading::lemma_is_channel(u, row.channel, "general"@);
    assert(u.agent_id("master"@) == row.agent && u.channel_id("general"@) == row.channel);
    let k = u.agent_names().index_of("master"@);
    assert(u.agent_names()[k] == "master"@);
    assert(u.agents[k].name == "master"@);
    assert(u.is_member(row.agent, row.channel));
    let i = choose|i: int|
        0 <= i < u.members.len() && (#[trigger] u.members[i]).agent == row.agent
            && u.members[i].channel == row.channel;
    assert(super::laws_reading::is_called(u, u.members[i].agent, "master"@));
}

} // verus!
