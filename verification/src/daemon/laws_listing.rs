//! What lists and counts, memberships, names and sessions promise, in terms of the rows of the
//! tables.

use vstd::prelude::*;
use vstd::seq_lib::*;

use crate::clock::Timestamp;
use crate::proto::{AgentDetailsView, DataView, EventView, Op};
use crate::text::decimal;

use super::keeping::lemma_filter_order;
use super::laws::{lemma_filter_contains, lemma_same_filter};
use super::laws_reading::{is_called, is_channel, lemma_is_called, lemma_is_channel};
use super::laws_sending::{
    is_name, lemma_is_name, lemma_plain, lemma_saw_nobody, lemma_saw_one, plain_name, saw,
};
use super::order::{law_sorted, sorted_by};
use super::posting::{
    lemma_agent_named, lemma_channel_named, lemma_with_agent, lemma_with_channel,
};
use super::server::{
    candidate, first_free, handling, other_name, DaemonView, Handled, Reply, Surroundings,
};
use super::store::listing::{
    agent_details, any_agent, is_fresh, is_pending, is_unread, latest_first, law_latest,
    membership_of, open_for,
};
use super::store::membership::{joining, left, opening};
use super::store::post::seeing;
use super::tables::{
    AgentView, Delivery, Membership, ScheduledStatus, ScheduledView, Session, TablesView, Target,
};

verus! {

// ---- agents ----

/// Whether an item of the list tells of an agent: its name, when it was first seen and when it
/// was last seen, and how many sessions of it have not ended.
pub open spec fn tells_of(t: TablesView, a: AgentView, item: AgentDetailsView) -> bool {
    let open = t.sessions.filter(|x: Session| x.agent == a.id && x.ended_at is None).len();
    &&& item.name == a.name
    &&& item.first_seen == a.first_seen
    &&& item.last_seen == a.last_seen
    &&& open <= i64::MAX ==> item.active_sessions == open
}

/// Whether a list tells of an agent.
pub open spec fn lists_agent(t: TablesView, list: Seq<AgentDetailsView>, a: AgentView) -> bool {
    exists|j: int| 0 <= j < list.len() && tells_of(t, a, #[trigger] list[j])
}

/// Whether an item tells of one of the agents.
pub open spec fn tells_of_some(t: TablesView, item: AgentDetailsView) -> bool {
    exists|i: int| 0 <= i < t.agents.len() && tells_of(t, #[trigger] t.agents[i], item)
}

proof fn lemma_tells(t: TablesView, a: AgentView)
    ensures
        tells_of(t, a, agent_details(t, a)),
{
    let p = |x: Session| x.agent == a.id && x.ended_at is None;
    lemma_same_filter(t.sessions, p, open_for(a.id));
}

/// The items that a sort gives are those that it was given, each once where each was given
/// once.
proof fn lemma_sorted_items<T>(s: Seq<T>, key: spec_fn(T) -> int, x: T)
    ensures
        sorted_by(s, key).contains(x) <==> s.contains(x),
        s.no_duplicates() ==> sorted_by(s, key).no_duplicates(),
{
    broadcast use group_to_multiset_ensures;

    law_sorted(s, key);
    let r = sorted_by(s, key);
    assert(s.contains(x) <==> s.to_multiset().count(x) > 0);
    assert(r.contains(x) <==> r.to_multiset().count(x) > 0);
    if s.no_duplicates() {
        s.lemma_multiset_has_no_duplicates();
        r.lemma_multiset_has_no_duplicates_conv();
    }
}

/// The detailed list tells of an agent if and only if stale ones are asked for too or it was
/// last seen at most 7 times 24 hours ago, and changes nothing.
pub proof fn law_agents_request(
    d: DaemonView,
    s: Surroundings,
    who: Seq<char>,
    include_stale: bool,
    x: int,
)
    requires
        d.tables.valid(),
        0 <= x < d.tables.agents.len(),
    ensures
        ({
            let t = d.tables;
            let a = t.agents[x];
            let h = handling(d, s, who, (Op::Agents { include_stale }));
            &&& h.tables == t && h.paused == d.paused && h.event is None
            &&& h.reply matches Reply::Now(Ok(DataView::AgentsDetailed(list))) && (lists_agent(
                t,
                list,
                a,
            ) <==> include_stale || s.now.at() - a.last_seen.at() <= 7 * 86400000000000)
        }),
{
    let t = d.tables;
    let a = t.agents[x];
    let h = handling(d, s, who, (Op::Agents { include_stale }));
    let pred = if include_stale {
        any_agent()
    } else {
        is_fresh(s.now, 7)
    };
    let rows = t.agents.filter(pred);
    let sorted = sorted_by(rows, latest_first());
    let list = h.reply->Now_0->Ok_0->AgentsDetailed_0;
    assert(list == sorted.map_values(|a: AgentView| agent_details(t, a)));
    assert(t.agents.contains(a));
    lemma_filter_contains(t.agents, pred, a);
    lemma_sorted_items(rows, latest_first(), a);
    lemma_tells(t, a);
    if pred(a) {
        let j = sorted.index_of(a);
        assert(list[j] == agent_details(t, a));
        assert(tells_of(t, a, list[j]));
    }
    if lists_agent(t, list, a) {
        let j = choose|j: int| 0 <= j < list.len() && tells_of(t, a, #[trigger] list[j]);
        let b = sorted[j];
        assert(list[j] == agent_details(t, b));
        assert(sorted.contains(b));
        lemma_sorted_items(rows, latest_first(), b);
        lemma_filter_contains(t.agents, pred, b);
        let y = t.agents.index_of(b);
        assert(t.agent_names()[x] == t.agent_names()[y]);
        assert(a == b);
    }
}

/// Each item of the detailed list tells of one of the agents, no two of the same, and no item
/// stands behind one of an agent that was seen earlier.
pub proof fn law_agents_items(
    d: DaemonView,
    s: Surroundings,
    who: Seq<char>,
    include_stale: bool,
    i: int,
    j: int,
)
    requires
        d.tables.valid(),
    ensures
        ({
            let h = handling(d, s, who, (Op::Agents { include_stale }));
            h.reply matches Reply::Now(Ok(DataView::AgentsDetailed(list))) && (0 <= i < j
                < list.len() ==> tells_of_some(d.tables, list[i]) && tells_of_some(
                d.tables,
                list[j],
            ) && list[i].name != list[j].name && list[i].last_seen.at() >= list[j].last_seen.at())
                && (list.len() == 1 ==> tells_of_some(d.tables, list[0]))
        }),
{
    let t = d.tables;
    let h = handling(d, s, who, (Op::Agents { include_stale }));
    let pred = if include_stale {
        any_agent()
    } else {
        is_fresh(s.now, 7)
    };
    let rows = t.agents.filter(pred);
    let key = latest_first();
    let sorted = sorted_by(rows, key);
    let list = h.reply->Now_0->Ok_0->AgentsDetailed_0;
    assert(list == sorted.map_values(|a: AgentView| agent_details(t, a)));
    assert forall|k: int| 0 <= k < list.len() implies tells_of_some(t, #[trigger] list[k])
        && t.agents.contains(sorted[k]) && list[k].name == sorted[k].name by {
        let a = sorted[k];
        assert(sorted.contains(a));
        lemma_sorted_items(rows, key, a);
        lemma_filter_contains(t.agents, pred, a);
        lemma_tells(t, a);
        let y = t.agents.index_of(a);
        assert(tells_of(t, t.agents[y], list[k]));
    }
    if 0 <= i < j < list.len() {
        law_sorted(rows, key);
        assert(key(sorted[i]) <= key(sorted[j]));
        assert(rows.no_duplicates()) by {
            lemma_filter_order(t.agents, pred);
            assert forall|a: int, b: int|
                0 <= a < rows.len() && 0 <= b < rows.len() && a != b implies rows[a] != rows[b] by {
                let (x, y) = if a < b {
                    (a, b)
                } else {
                    (b, a)
                };
                let (p, q) = choose|p: int, q: int|
                    0 <= p < q < t.agents.len() && #[trigger] t.agents[p] == t.agents.filter(
                        pred,
                    )[x] && #[trigger] t.agents[q] == t.agents.filter(pred)[y];
                assert(t.agent_names()[p] != t.agent_names()[q]);
            }
        }
        lemma_sorted_items(rows, key, sorted[i]);
        assert(sorted[i] != sorted[j]);
        assert(tells_of_some(t, list[i]) && tells_of_some(t, list[j]));
        let p = t.agents.index_of(sorted[i]);
        let q = t.agents.index_of(sorted[j]);
        assert(t.agents[p] == sorted[i] && t.agents[q] == sorted[j]);
        if sorted[i].name == sorted[j].name {
            assert(t.agent_names()[p] == t.agent_names()[q]);
        }
    }
    if list.len() == 1 {
        assert(tells_of_some(t, list[0]));
    }
}

/// An agent that is seen is listed from then on with the time at which it was seen, for as long
/// as it is not seen again.
pub proof fn law_seen_is_listed(
    d: DaemonView,
    s: Surroundings,
    who: Seq<char>,
    name: Seq<char>,
    at: Timestamp,
)
    requires
        d.tables.valid(),
        seeing(d.tables, name, at) is Ok,
    ensures
        ({
            let u = seeing(d.tables, name, at)->Ok_0.0;
            let after = DaemonView { tables: u, ..d };
            let h = handling(after, s, who, (Op::Agents { include_stale: true }));
            h.reply matches Reply::Now(Ok(DataView::AgentsDetailed(list))) && exists|j: int|
                0 <= j < list.len() && (#[trigger] list[j]).name == name && list[j].last_seen == at
        }),
{
    let t = d.tables;
    let u = seeing(t, name, at)->Ok_0.0;
    let after = DaemonView { tables: u, ..d };
    lemma_with_agent(t, name, at);
    law_hello_of_a_command_line(t, name, at);
    let x = choose|i: int| 0 <= i < u.agents.len() && (#[trigger] u.agents[i]).name == name;
    assert(is_name(u, seq![name][0]));
    assert(seq![name].contains(name)) by {
        assert(seq![name][0] == name);
    }
    assert(u.agents[x].last_seen == at);
    law_agents_request(after, s, who, true, x);
    let list = handling(
        after,
        s,
        who,
        (Op::Agents { include_stale: true }),
    ).reply->Now_0->Ok_0->AgentsDetailed_0;
    let j = choose|j: int| 0 <= j < list.len() && tells_of(u, u.agents[x], #[trigger] list[j]);
    assert(list[j].name == name && list[j].last_seen == at);
}

// ---- who is there ----

/// The participants are the names of the agents, in the order in which they were added; the
/// channels are listed alike.
pub proof fn law_participants_request(d: DaemonView, s: Surroundings, who: Seq<char>, i: int)
    ensures
        ({
            let t = d.tables;
            let h = handling(d, s, who, Op::Participants);
            let c = handling(d, s, who, Op::Channels);
            &&& h.tables == t && h.paused == d.paused && h.event is None
            &&& c.tables == t && c.paused == d.paused && c.event is None
            &&& h.reply matches Reply::Now(Ok(DataView::Agents(names))) && names.len()
                == t.agents.len() && (0 <= i < names.len() ==> names[i] == t.agents[i].name)
            &&& c.reply matches Reply::Now(Ok(DataView::Channels(names))) && names.len()
                == t.channels.len() && (0 <= i < names.len() ==> names[i] == t.channels[i].name)
        }),
{
}

/// Whether a time is that of the latest of the messages to a channel; none is, where there are
/// no messages to it.
pub open spec fn is_latest(t: TablesView, channel: i64, at: Option<Timestamp>) -> bool {
    match at {
        Some(at) => (exists|k: int|
            0 <= k < t.messages.len() && (#[trigger] t.messages[k]).target == Target::Channel(
                channel,
            ) && t.messages[k].created_at == at) && forall|k: int|
            0 <= k < t.messages.len() && (#[trigger] t.messages[k]).target == Target::Channel(
                channel,
            ) ==> t.messages[k].created_at.at() <= at.at(),
        None => forall|k: int|
            0 <= k < t.messages.len() ==> (#[trigger] t.messages[k]).target != Target::Channel(
                channel,
            ),
    }
}

/// The detailed list of channels has one item for each, in the order in which they were added:
/// its name, when it was created, how many members it has, and when the latest message to it
/// was sent.
pub proof fn law_channels_detailed_request(d: DaemonView, s: Surroundings, who: Seq<char>, i: int)
    ensures
        ({
            let t = d.tables;
            let h = handling(d, s, who, Op::ChannelsDetailed);
            &&& h.tables == t && h.paused == d.paused && h.event is None
            &&& h.reply matches Reply::Now(Ok(DataView::ChannelsDetailed(list))) && list.len()
                == t.channels.len() && (0 <= i < list.len() ==> {
                let c = t.channels[i];
                let members = t.members.filter(|m: Membership| m.channel == c.id).len();
                &&& list[i].name == c.name
                &&& list[i].created_at == c.created_at
                &&& members <= i64::MAX ==> list[i].member_count == members
                &&& is_latest(t, c.id, list[i].last_message_at)
            })
        }),
{
    let t = d.tables;
    if 0 <= i < t.channels.len() {
        let c = t.channels[i];
        lemma_same_filter(t.members, |m: Membership| m.channel == c.id, membership_of(c.id));
        law_latest(t.messages, c.id);
    }
}

/// The status tells whether the daemon is paused, how many agents, channels, unread deliveries
/// and waiting sends there are, how long the daemon has run, and where its files are.
pub proof fn law_status_request(d: DaemonView, s: Surroundings, who: Seq<char>)
    ensures
        ({
            let t = d.tables;
            let unread = t.deliveries.filter(|x: Delivery| x.read_at is None).len();
            let waiting = t.scheduled.filter(
                |x: ScheduledView| x.status == ScheduledStatus::Pending,
            ).len();
            let h = handling(d, s, who, Op::Status);
            &&& h.tables == t && h.paused == d.paused && h.event is None
            &&& h.reply matches Reply::Now(Ok(DataView::Status(r))) && r.paused == d.paused && (
            t.agents.len() <= i64::MAX ==> r.agent_count == t.agents.len()) && (t.channels.len()
                <= i64::MAX ==> r.channel_count == t.channels.len()) && (unread <= i64::MAX
                ==> r.unread_count == unread) && (waiting <= i64::MAX ==> r.pending_scheduled
                == waiting) && (s.uptime_seconds <= i64::MAX ==> r.uptime_seconds
                == s.uptime_seconds) && r.db_path == s.db_path@ && r.socket_path == s.socket_path@
        }),
{
    let t = d.tables;
    lemma_same_filter(t.deliveries, |x: Delivery| x.read_at is None, is_unread());
    lemma_same_filter(
        t.scheduled,
        |x: ScheduledView| x.status == ScheduledStatus::Pending,
        is_pending(),
    );
}

/// Pausing and resuming set whether the daemon is paused, change nothing else, and tell the
/// subscribers; a subscription changes nothing.
pub proof fn law_pause_requests(d: DaemonView, s: Surroundings, who: Seq<char>)
    ensures
        handling(d, s, who, Op::Pause) == (Handled {
            tables: d.tables,
            paused: true,
            reply: Reply::Now(Ok(DataView::SendOk(0))),
            event: Some(EventView::Paused),
        }),
        handling(d, s, who, Op::Resume) == (Handled {
            tables: d.tables,
            paused: false,
            reply: Reply::Now(Ok(DataView::SendOk(0))),
            event: Some(EventView::Resumed),
        }),
        handling(d, s, who, Op::Subscribe) == (Handled {
            tables: d.tables,
            paused: d.paused,
            reply: Reply::Now(Ok(DataView::SendOk(0))),
            event: None,
        }),
{
}

// ---- greetings and sessions ----

/// Whether nothing but agents, memberships, channels and sessions may differ.
pub open spec fn same_mail(t: TablesView, u: TablesView) -> bool {
    u.messages == t.messages && u.deliveries == t.deliveries && u.scheduled == t.scheduled
}

/// A command line that speaks as an agent makes it seen, and nothing else; it is refused if and
/// only if the agent is not known and its name is none, or there is no id left.
pub proof fn law_hello_of_a_command_line(t: TablesView, name: Seq<char>, now: Timestamp)
    requires
        t.valid(),
        t.fits(),
    ensures
        (is_name(t, name) || plain_name()(name)) && t.next_agent < i64::MAX ==> seeing(
            t,
            name,
            now,
        ) is Ok,
        seeing(t, name, now) matches Ok((u, id)) ==> {
            &&& is_name(t, name) || plain_name()(name)
            &&& saw(t, u, seq![name], now)
            &&& is_called(u, id, name)
            &&& same_mail(t, u) && u.channels == t.channels && u.sessions == t.sessions
        },
{
    lemma_is_name(t, name);
    lemma_plain(name);
    if t.knows_agent(name) || plain_name()(name) {
        if t.next_agent < i64::MAX {
            lemma_with_agent(t, name, now);
        }
    }
    if seeing(t, name, now) is Ok {
        let u = t.with_agent(name, now);
        lemma_with_agent(t, name, now);
        lemma_saw_nobody(t, now);
        lemma_saw_one(t, t, seq![], name, now);
        assert(Seq::<Seq<char>>::empty().push(name) =~= seq![name]);
        lemma_is_called(u, u.agent_id(name), name);
    }
}

/// A session that is opened makes its agent seen and adds one session of it, with a new id, that
/// began now and has not ended; and nothing else.
pub proof fn law_session_opens(t: TablesView, name: Seq<char>, now: Timestamp, k: int)
    requires
        t.valid(),
        t.fits(),
    ensures
        (is_name(t, name) || plain_name()(name)) && t.next_agent < i64::MAX && t.next_session
            < i64::MAX ==> opening(t, name, now) is Ok,
        opening(t, name, now) matches Ok((u, id)) ==> {
            let n = t.sessions.len() as int;
            &&& is_name(t, name) || plain_name()(name)
            &&& saw(t, u, seq![name], now)
            &&& u.sessions.len() == n + 1
            &&& u.sessions[n].id == id && is_called(u, u.sessions[n].agent, name)
            &&& u.sessions[n].started_at == now && u.sessions[n].ended_at is None
            &&& 0 <= k < n ==> u.sessions[k] == t.sessions[k] && t.sessions[k].id != id
            &&& same_mail(t, u) && u.channels == t.channels
        },
{
    lemma_is_name(t, name);
    lemma_plain(name);
    law_hello_of_a_command_line(t, name, now);
    if opening(t, name, now) is Ok {
        let u = opening(t, name, now)->Ok_0.0;
        let v = t.with_agent(name, now);
        assert(v.fits());
        assert(saw(t, v, seq![name], now));
        lemma_with_agent(t, name, now);
        lemma_is_called(v, v.agent_id(name), name);
        let i = choose|i: int|
            0 <= i < v.agents.len() && (#[trigger] v.agents[i]).id == v.agent_id(name)
                && v.agents[i].name == name;
        assert(u.agents[i].name == name);
        assert(is_name(v, seq![name][0]));
        assert forall|j: int| 0 <= j < seq![name].len() implies is_name(
            u,
            #[trigger] seq![name][j],
        ) by {
            assert(u.agents[i].name == seq![name][j]);
        }
        if 0 <= k < t.sessions.len() {
            assert(t.session_ids()[k] < t.next_session);
        }
    }
}

/// A session that is ended bears the time of its end, unless it had ended before; no other
/// session and nothing else is different.
pub proof fn law_session_ends(t: TablesView, id: i64, now: Timestamp, k: int)
    ensures
        ({
            let u = t.end_session(id, now);
            &&& u.sessions.len() == t.sessions.len()
            &&& 0 <= k < t.sessions.len() ==> u.sessions[k] == Session {
                ended_at: if t.sessions[k].id == id && t.sessions[k].ended_at is None {
                    Some(now)
                } else {
                    t.sessions[k].ended_at
                },
                ..t.sessions[k]
            }
            &&& same_mail(t, u) && u.channels == t.channels
            &&& u.agents == t.agents && u.members == t.members
        }),
{
}

/// A daemon that stops ends every session that had not ended, at that time, and changes nothing
/// else.
pub proof fn law_stop_ends_sessions(t: TablesView, now: Timestamp, k: int)
    ensures
        ({
            let u = t.end_all_sessions(now);
            &&& u.sessions.len() == t.sessions.len()
            &&& 0 <= k < t.sessions.len() ==> u.sessions[k] == Session {
                ended_at: Some(match t.sessions[k].ended_at {
                    Some(at) => at,
                    None => now,
                }),
                ..t.sessions[k]
            }
            &&& same_mail(t, u) && u.channels == t.channels
            &&& u.agents == t.agents && u.members == t.members
        }),
{
}

/// The `n`-th name after the one asked for.
pub open spec fn numbered(requested: Seq<char>, n: nat) -> Seq<char> {
    requested + seq!['-'] + decimal(n)
}

/// A session gets the name that it asks for if no session holds it; otherwise that name with a
/// hyphen and the least number from 2 on with which no session holds it.
pub proof fn law_name_given(active: Seq<Seq<char>>, requested: Seq<char>, name: Seq<char>)
    ensures
        first_free(active, requested, name) <==> !active.contains(name) && if active.contains(
            requested,
        ) {
            exists|n: nat|
                2 <= n && name == #[trigger] numbered(requested, n) && forall|k: nat|
                    2 <= k < n ==> active.contains(#[trigger] numbered(requested, k))
        } else {
            name == requested
        },
{
    reveal_strlit("-");
    assert("-"@ =~= seq!['-']);
    assert forall|k: nat| 2 <= k implies #[trigger] candidate(requested, k) == numbered(
        requested,
        k,
    ) by {}
    assert(candidate(requested, 1) == requested);
    if first_free(active, requested, name) {
        let n = choose|n: nat|
            1 <= n && name == #[trigger] candidate(requested, n) && !active.contains(name)
                && forall|k: nat| 1 <= k < n ==> active.contains(#[trigger] candidate(requested, k));
        if active.contains(requested) {
            assert(n >= 2);
            assert(name == numbered(requested, n));
            assert forall|k: nat| 2 <= k < n implies active.contains(
                #[trigger] numbered(requested, k),
            ) by {
                assert(active.contains(candidate(requested, k)));
            }
        } else {
            assert(n == 1) by {
                if n > 1 {
                    assert(active.contains(candidate(requested, 1)));
                }
            }
        }
    }
    if !active.contains(name) && !active.contains(requested) && name == requested {
        assert(name == candidate(requested, 1));
    }
    if !active.contains(name) && active.contains(requested) && exists|n: nat|
        2 <= n && name == #[trigger] numbered(requested, n) && forall|k: nat|
            2 <= k < n ==> active.contains(#[trigger] numbered(requested, k)) {
        let n = choose|n: nat|
            2 <= n && name == #[trigger] numbered(requested, n) && forall|k: nat|
                2 <= k < n ==> active.contains(#[trigger] numbered(requested, k));
        assert(name == candidate(requested, n));
        assert forall|k: nat| 1 <= k < n implies active.contains(
            #[trigger] candidate(requested, k),
        ) by {
            if k >= 2 {
                assert(active.contains(numbered(requested, k)));
            }
        }
    }
}

/// A name that is given back is held by no session, and every other name is held as before.
pub proof fn law_name_given_back(active: Seq<Seq<char>>, name: Seq<char>, other: Seq<char>)
    ensures
        active.filter(other_name(name)).contains(other) <==> active.contains(other) && other
            != name,
{
    lemma_filter_contains(active, other_name(name), other);
}

// ---- memberships ----

/// Whether an agent is a member of a channel, by their names.
pub open spec fn joined(t: TablesView, agent: Seq<char>, channel: Seq<char>) -> bool {
    exists|i: int|
        0 <= i < t.members.len() && is_called(t, (#[trigger] t.members[i]).agent, agent)
            && is_channel(t, t.members[i].channel, channel)
}

/// Leaving a channel ends the caller's membership in it and nothing else, whether or not there
/// was one; a channel whose name is none is refused.
pub proof fn law_leave_request(
    d: DaemonView,
    s: Surroundings,
    who: Seq<char>,
    channel: String,
    m: Membership,
)
    requires
        d.tables.valid(),
    ensures
        ({
            let t = d.tables;
            let h = handling(d, s, who, (Op::Leave { channel }));
            let u = h.tables;
            &&& h.paused == d.paused && h.event is None
            &&& same_mail(t, u) && u.agents == t.agents && u.channels == t.channels && u.sessions
                == t.sessions
            &&& if plain_name()(channel@) {
                &&& h.reply == Reply::Now(Ok(DataView::SendOk(0)))
                &&& u.members.contains(m) <==> t.members.contains(m) && !(is_called(t, m.agent, who)
                    && is_channel(t, m.channel, channel@))
            } else {
                h.reply matches Reply::Now(Err(_)) && u == t
            }
        }),
{
    let t = d.tables;
    lemma_plain(channel@);
    lemma_is_called(t, m.agent, who);
    lemma_is_channel(t, m.channel, channel@);
    if t.knows_agent(who) && t.knows_channel(channel@) {
        let a = t.agent_id(who);
        let c = t.channel_id(channel@);
        lemma_filter_contains(t.members, |m: Membership| !(m.agent == a && m.channel == c), m);
    }
}

/// The tables with the first so many memberships.
pub open spec fn first_members(t: TablesView, n: int) -> TablesView {
    TablesView { members: t.members.take(n), ..t }
}

/// Joining a channel makes the caller seen and a member of the channel, which is added where it
/// is not known; whoever was a member of anything is as before, and nothing else is different.
pub proof fn law_join_request(d: DaemonView, s: Surroundings, who: Seq<char>, channel: String, k: int)
    requires
        d.tables.valid(),
        d.tables.fits(),
    ensures
        ({
            let t = d.tables;
            let h = handling(d, s, who, (Op::Join { channel }));
            let u = h.tables;
            let ok = plain_name()(channel@) && (is_name(t, who) || plain_name()(who));
            let m = t.members.len() as int;
            let c = t.channels.len() as int;
            &&& h.paused == d.paused && h.event is None
            &&& ok && t.next_agent < i64::MAX && t.next_channel < i64::MAX ==> !(
            h.reply matches Reply::Now(Err(_)))
            &&& match h.reply {
                Reply::Now(Ok(DataView::SendOk(0))) => {
                    &&& ok && joined(u, who, channel@)
                    &&& same_mail(t, u) && u.sessions == t.sessions
                    &&& saw(t, first_members(u, m + u.agents.len() - t.agents.len()), seq![who], s.now)
                    &&& u.members.len() <= m + u.agents.len() - t.agents.len() + 1
                    &&& m + u.agents.len() - t.agents.len() <= k < u.members.len() ==> is_called(
                        u,
                        u.members[k].agent,
                        who,
                    ) && is_channel(u, u.members[k].channel, channel@) && u.members[k].joined_at
                        == s.now
                    &&& c <= u.channels.len() <= c + 1
                    &&& 0 <= k < c ==> u.channels[k] == t.channels[k]
                    &&& c <= k < u.channels.len() ==> u.channels[k].name == channel@
                        && u.channels[k].created_at == s.now
                },
                Reply::Now(Err(_)) => u == t,
                _ => false,
            }
        }),
{
    let t = d.tables;
    let h = handling(d, s, who, (Op::Join { channel }));
    let u = h.tables;
    let m = t.members.len() as int;
    lemma_plain(channel@);
    lemma_plain(who);
    lemma_is_name(t, who);
    let a = t.with_agent(who, s.now);
    let b = a.with_channel(channel@, s.now);
    let ok = plain_name()(channel@) && (is_name(t, who) || plain_name()(who));
    if ok && (t.next_agent < i64::MAX && t.next_channel < i64::MAX || joining(
        t,
        who,
        channel@,
        s.now,
    ) is Ok) {
        law_hello_of_a_command_line(t, who, s.now);
        lemma_with_agent(t, who, s.now);
        lemma_with_channel(a, channel@, s.now);
        assert(saw(t, a, seq![who], s.now));
        let row = Membership {
            agent: b.agent_id(who),
            channel: b.channel_id(channel@),
            joined_at: s.now,
        };
        assert(joining(t, who, channel@, s.now) is Ok);
        assert(u == b.add_member(row));
        assert(b.knows_agent(who));
        lemma_agent_named(b, who);
        lemma_channel_named(b, channel@);
        super::keeping::lemma_add_member(b, row);
        super::keeping::lemma_same_people(b, u);
        lemma_is_called(u, row.agent, who);
        lemma_is_channel(u, row.channel, channel@);
        assert(u.agents == b.agents && u.channels == b.channels);
        assert(u.agent_id(who) == row.agent && u.channel_id(channel@) == row.channel);
        assert(u.is_member(row.agent, row.channel)) by {
            if !b.is_member(row.agent, row.channel) {
                assert(u.members[b.members.len() as int] == row);
            }
        }
        let i = choose|i: int|
            0 <= i < u.members.len() && (#[trigger] u.members[i]).agent == row.agent
                && u.members[i].channel == row.channel;
        assert(joined(u, who, channel@));
        let w = first_members(u, m + u.agents.len() - t.agents.len());
        assert(w.members =~= a.members);
        assert(w.agents == a.agents);
        assert(is_name(a, seq![who][0]));
        let p = choose|p: int| 0 <= p < a.agents.len() && (#[trigger] a.agents[p]).name == who;
        assert(w.agents[p].name == who);
        assert(saw(t, w, seq![who], s.now));
    }
}

} // verus!
