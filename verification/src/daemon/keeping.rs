//! Every change keeps the tables consistent.

use vstd::prelude::*;
use vstd::seq_lib::*;

use crate::clock::Timestamp;
use crate::limits::{DEFAULT_CHANNEL, MASTER};

use super::tables::{
    rising, without_reply, AgentView, ChannelView, Delivery, Membership, MessageRowView,
    ScheduledStatus, ScheduledView, Session, TablesView, Target,
};

verus! {

/// A filtered sequence keeps its items' order.
pub proof fn lemma_filter_order<T>(s: Seq<T>, pred: spec_fn(T) -> bool)
    ensures
        forall|i: int|
            0 <= i < s.filter(pred).len() ==> pred(#[trigger] s.filter(pred)[i]) && exists|p: int|
                0 <= p < s.len() && s[p] == s.filter(pred)[i],
        forall|i: int, j: int|
            0 <= i < j < s.filter(pred).len() ==> exists|p: int, q: int|
                0 <= p < q < s.len() && #[trigger] s[p] == (#[trigger] s.filter(pred)[i])
                    && #[trigger] s[q] == (#[trigger] s.filter(pred)[j]),
        forall|p: int|
            0 <= p < s.len() && pred(#[trigger] s[p]) ==> s.filter(pred).contains(s[p]),
    decreases s.len(),
{
    reveal(Seq::filter);
    broadcast use group_filter_ensures;

    let f = s.filter(pred);
    if s.len() > 0 {
        let front = s.drop_last();
        let g = front.filter(pred);
        lemma_filter_order(front, pred);
        assert forall|i: int| 0 <= i < f.len() implies pred(#[trigger] f[i]) && exists|p: int|
            0 <= p < s.len() && s[p] == f[i] by {
            if i < g.len() {
                assert(f[i] == g[i]);
                let p = choose|p: int| 0 <= p < front.len() && front[p] == g[i];
                assert(s[p] == f[i]);
            } else {
                assert(f[i] == s[s.len() - 1]);
            }
        }
        assert forall|i: int, j: int| 0 <= i < j < f.len() implies exists|p: int, q: int|
            0 <= p < q < s.len() && #[trigger] s[p] == (#[trigger] f[i]) && #[trigger] s[q] == (
            #[trigger] f[j]) by {
            assert(f[i] == g[i]);
            if j < g.len() {
                assert(f[j] == g[j]);
                let (p, q) = choose|p: int, q: int|
                    0 <= p < q < front.len() && #[trigger] front[p] == g[i] && #[trigger] front[q]
                        == g[j];
                assert(s[p] == f[i] && s[q] == f[j]);
            } else {
                let p = choose|p: int| 0 <= p < front.len() && front[p] == g[i];
                assert(s[p] == f[i] && s[s.len() - 1] == f[j]);
            }
        }
    }
}

/// Rising ids occur once.
pub proof fn lemma_rising_unique(ids: Seq<i64>, next: int, i: int)
    requires
        rising(ids, next),
        0 <= i < ids.len(),
    ensures
        ids.contains(ids[i]),
        ids.index_of(ids[i]) == i,
{
    let k = ids.index_of(ids[i]);
    assert(ids[k] == ids[i]);
    assert(k == i) by {
        if k < i {
            assert(ids[k] < ids[i]);
        } else if i < k {
            assert(ids[i] < ids[k]);
        }
    }
}

/// The next id is not in use.
pub proof fn lemma_next_is_new(ids: Seq<i64>, next: i64)
    requires
        rising(ids, next as int),
    ensures
        !ids.contains(next),
{
}

proof fn lemma_rising_push(ids: Seq<i64>, next: i64)
    requires
        rising(ids, next as int),
    ensures
        rising(ids.push(next), next + 1),
        forall|id: i64| #[trigger] ids.push(next).contains(id) <==> ids.contains(id) || id == next,
{
    broadcast use group_seq_properties;

}

/// Members, messages, deliveries and sessions stay in order where the rows that they refer
/// to stay.
proof fn lemma_refs(t: TablesView, u: TablesView)
    requires
        t.consistent(),
        forall|id: i64| #[trigger] t.has_agent(id) ==> u.has_agent(id),
        forall|id: i64| #[trigger] t.has_channel(id) ==> u.has_channel(id),
        forall|id: i64| #[trigger] t.has_message(id) ==> u.has_message(id),
    ensures
        u.members == t.members ==> u.members_ok(),
        u.messages == t.messages && u.next_message == t.next_message ==> u.messages_ok(),
        u.deliveries == t.deliveries ==> u.deliveries_ok(),
        u.sessions == t.sessions && u.next_session == t.next_session ==> u.sessions_ok(),
{
    if u.messages == t.messages && u.next_message == t.next_message {
        assert forall|i: int| 0 <= i < u.messages.len() implies u.has_agent(
            (#[trigger] u.messages[i]).from,
        ) && u.has_target(u.messages[i].target) && u.has_reply(u.messages[i].reply_to) by {
            let m = t.messages[i];
            assert(t.has_agent(m.from) && t.has_target(m.target) && t.has_reply(m.reply_to));
        }
    }
    if u.members == t.members {
        assert forall|i: int| 0 <= i < u.members.len() implies u.has_agent(
            (#[trigger] u.members[i]).agent,
        ) && u.has_channel(u.members[i].channel) by {
            assert(t.has_agent(t.members[i].agent) && t.has_channel(t.members[i].channel));
        }
    }
    if u.deliveries == t.deliveries {
        assert forall|i: int| 0 <= i < u.deliveries.len() implies u.has_message(
            (#[trigger] u.deliveries[i]).message,
        ) && u.has_agent(u.deliveries[i].agent) by {
            assert(t.has_message(t.deliveries[i].message) && t.has_agent(t.deliveries[i].agent));
        }
    }
    if u.sessions == t.sessions && u.next_session == t.next_session {
        assert forall|i: int| 0 <= i < u.sessions.len() implies u.has_agent(
            (#[trigger] u.sessions[i]).agent,
        ) by {
            assert(t.has_agent(t.sessions[i].agent));
        }
    }
}

pub proof fn lemma_add_agent(t: TablesView, row: AgentView)
    requires
        t.consistent(),
        row.id == t.next_agent,
        !t.knows_agent(row.name),
    ensures
        t.add_agent(row).consistent(),
        t.add_agent(row).agent_ids() == t.agent_ids().push(row.id),
        t.add_agent(row).agent_names() == t.agent_names().push(row.name),
        !t.has_agent(row.id),
        forall|id: i64| #[trigger]
            t.add_agent(row).has_agent(id) <==> t.has_agent(id) || id == row.id,
        forall|name: Seq<char>| #[trigger]
            t.add_agent(row).knows_agent(name) <==> t.knows_agent(name) || name == row.name,
        forall|name: Seq<char>|
            t.knows_agent(name) ==> #[trigger] t.add_agent(row).agent_id(name) == t.agent_id(name),
        t.add_agent(row).agent_id(row.name) == row.id,
{
    let u = t.add_agent(row);
    assert(u.agent_ids() =~= t.agent_ids().push(row.id));
    assert(u.agent_names() =~= t.agent_names().push(row.name));
    lemma_rising_push(t.agent_ids(), row.id);
    lemma_next_is_new(t.agent_ids(), row.id);
    let names = t.agent_names();
    assert forall|name: Seq<char>| #[trigger] u.knows_agent(name) <==> t.knows_agent(name) || name
        == row.name by {
        assert(names.push(row.name)[names.len() as int] == row.name);
        if t.knows_agent(name) {
            let i = names.index_of(name);
            assert(names.push(row.name)[i] == name);
        }
        if u.knows_agent(name) && name != row.name {
            let i = u.agent_names().index_of(name);
            assert(names[i] == name);
        }
    }
    assert(u.agent_names().no_duplicates()) by {
        assert forall|i: int, j: int|
            0 <= i < u.agent_names().len() && 0 <= j < u.agent_names().len() && i
                != j implies u.agent_names()[i] != u.agent_names()[j] by {
            if i == names.len() {
                assert(names.contains(names[j]));
            } else if j == names.len() {
                assert(names.contains(names[i]));
            }
        }
    }
    lemma_refs(t, u);
    assert forall|name: Seq<char>| t.knows_agent(name) implies #[trigger] u.agent_id(name)
        == t.agent_id(name) by {
        let i = names.index_of(name);
        assert(u.agent_names()[i] == name);
        assert(u.agent_names().index_of(name) == i);
    }
    assert(u.agent_names()[names.len() as int] == row.name);
    assert(u.agent_names().index_of(row.name) == names.len());
}

pub proof fn lemma_see_agent(t: TablesView, id: i64, at: Timestamp)
    requires
        t.consistent(),
    ensures
        t.see_agent(id, at).consistent(),
        t.see_agent(id, at).agent_ids() == t.agent_ids(),
        t.see_agent(id, at).agent_names() == t.agent_names(),
        forall|name: Seq<char>|
            t.knows_agent(name) ==> #[trigger] t.see_agent(id, at).agent_id(name) == t.agent_id(
                name,
            ),
{
    let u = t.see_agent(id, at);
    assert(u.agent_ids() =~= t.agent_ids());
    assert(u.agent_names() =~= t.agent_names());
    lemma_refs(t, u);
}

pub proof fn lemma_add_channel(t: TablesView, row: ChannelView)
    requires
        t.consistent(),
        row.id == t.next_channel,
        !t.knows_channel(row.name),
    ensures
        t.add_channel(row).consistent(),
        t.add_channel(row).channel_ids() == t.channel_ids().push(row.id),
        t.add_channel(row).channel_names() == t.channel_names().push(row.name),
        !t.has_channel(row.id),
        forall|id: i64| #[trigger]
            t.add_channel(row).has_channel(id) <==> t.has_channel(id) || id == row.id,
        forall|name: Seq<char>| #[trigger]
            t.add_channel(row).knows_channel(name) <==> t.knows_channel(name) || name == row.name,
        forall|name: Seq<char>|
            t.knows_channel(name) ==> #[trigger] t.add_channel(row).channel_id(name)
                == t.channel_id(name),
        t.add_channel(row).channel_id(row.name) == row.id,
{
    let u = t.add_channel(row);
    assert(u.channel_ids() =~= t.channel_ids().push(row.id));
    assert(u.channel_names() =~= t.channel_names().push(row.name));
    lemma_rising_push(t.channel_ids(), row.id);
    lemma_next_is_new(t.channel_ids(), row.id);
    let names = t.channel_names();
    assert forall|name: Seq<char>| #[trigger] u.knows_channel(name) <==> t.knows_channel(name)
        || name == row.name by {
        assert(names.push(row.name)[names.len() as int] == row.name);
        if t.knows_channel(name) {
            let i = names.index_of(name);
            assert(names.push(row.name)[i] == name);
        }
        if u.knows_channel(name) && name != row.name {
            let i = u.channel_names().index_of(name);
            assert(names[i] == name);
        }
    }
    assert(u.channel_names().no_duplicates()) by {
        assert forall|i: int, j: int|
            0 <= i < u.channel_names().len() && 0 <= j < u.channel_names().len() && i
                != j implies u.channel_names()[i] != u.channel_names()[j] by {
            if i == names.len() {
                assert(names.contains(names[j]));
            } else if j == names.len() {
                assert(names.contains(names[i]));
            }
        }
    }
    lemma_refs(t, u);
    assert forall|name: Seq<char>| t.knows_channel(name) implies #[trigger] u.channel_id(name)
        == t.channel_id(name) by {
        let i = names.index_of(name);
        assert(u.channel_names()[i] == name);
        assert(u.channel_names().index_of(name) == i);
    }
    assert(u.channel_names()[names.len() as int] == row.name);
    assert(u.channel_names().index_of(row.name) == names.len());
}

pub proof fn lemma_add_member(t: TablesView, row: Membership)
    requires
        t.consistent(),
        t.has_agent(row.agent),
        t.has_channel(row.channel),
    ensures
        t.add_member(row).consistent(),
        t.add_member(row).is_member(row.agent, row.channel),
        forall|a: i64, c: i64| #[trigger]
            t.add_member(row).is_member(a, c) <==> t.is_member(a, c) || (a == row.agent && c
                == row.channel),
{
    let u = t.add_member(row);
    lemma_refs(t, u);
    if !t.is_member(row.agent, row.channel) {
        assert(u.members[t.members.len() as int] == row);
        assert forall|i: int| 0 <= i < u.members.len() implies u.has_agent(
            (#[trigger] u.members[i]).agent,
        ) && u.has_channel(u.members[i].channel) by {
            if i < t.members.len() {
                assert(u.members[i] == t.members[i]);
            }
        }
        assert forall|a: i64, c: i64| #[trigger] u.is_member(a, c) <==> t.is_member(a, c) || (a
            == row.agent && c == row.channel) by {
            if t.is_member(a, c) {
                let i = choose|i: int|
                    0 <= i < t.members.len() && (#[trigger] t.members[i]).agent == a
                        && t.members[i].channel == c;
                assert(u.members[i] == t.members[i]);
            }
            if u.is_member(a, c) && !(a == row.agent && c == row.channel) {
                let i = choose|i: int|
                    0 <= i < u.members.len() && (#[trigger] u.members[i]).agent == a
                        && u.members[i].channel == c;
                assert(u.members[i] == t.members[i]);
            }
        }
    }
}

pub proof fn lemma_drop_member(t: TablesView, agent: i64, channel: i64)
    requires
        t.consistent(),
    ensures
        t.drop_member(agent, channel).consistent(),
        forall|a: i64, c: i64| #[trigger]
            t.drop_member(agent, channel).is_member(a, c) <==> t.is_member(a, c) && !(a == agent
                && c == channel),
{
    let u = t.drop_member(agent, channel);
    let pred = |m: Membership| !(m.agent == agent && m.channel == channel);
    lemma_filter_order(t.members, pred);
    lemma_refs(t, u);
    assert forall|i: int| 0 <= i < u.members.len() implies u.has_agent(
        (#[trigger] u.members[i]).agent,
    ) && u.has_channel(u.members[i].channel) by {
        let p = choose|p: int| 0 <= p < t.members.len() && t.members[p] == u.members[i];
        assert(t.has_agent(t.members[p].agent) && t.has_channel(t.members[p].channel));
    }
    assert forall|i: int, j: int| 0 <= i < j < u.members.len() implies (
    #[trigger] u.members[i]).agent != (#[trigger] u.members[j]).agent || u.members[i].channel
        != u.members[j].channel by {
        let (p, q) = choose|p: int, q: int|
            0 <= p < q < t.members.len() && #[trigger] t.members[p] == u.members[i]
                && #[trigger] t.members[q] == u.members[j];
    }
    assert forall|a: i64, c: i64| #[trigger] u.is_member(a, c) <==> t.is_member(a, c) && !(a
        == agent && c == channel) by {
        if u.is_member(a, c) {
            let i = choose|i: int|
                0 <= i < u.members.len() && (#[trigger] u.members[i]).agent == a
                    && u.members[i].channel == c;
            let p = choose|p: int| 0 <= p < t.members.len() && t.members[p] == u.members[i];
            assert(t.members[p].agent == a);
            assert(pred(u.members[i]));
        }
        if t.is_member(a, c) && !(a == agent && c == channel) {
            let i = choose|i: int|
                0 <= i < t.members.len() && (#[trigger] t.members[i]).agent == a
                    && t.members[i].channel == c;
            assert(pred(t.members[i]));
            assert(u.members.contains(t.members[i]));
            let k = u.members.index_of(t.members[i]);
            assert(u.members[k].agent == a);
        }
    }
}

pub proof fn lemma_add_message(t: TablesView, row: MessageRowView)
    requires
        t.consistent(),
        row.id == t.next_message,
        t.has_agent(row.from),
        t.has_target(row.target),
        t.has_reply(row.reply_to),
    ensures
        t.add_message(row).consistent(),
        t.add_message(row).message_ids() == t.message_ids().push(row.id),
        !t.has_message(row.id),
        forall|id: i64| #[trigger]
            t.add_message(row).has_message(id) <==> t.has_message(id) || id == row.id,
        t.add_message(row).message(row.id) == row,
        forall|id: i64|
            t.has_message(id) ==> #[trigger] t.add_message(row).message(id) == t.message(id),
{
    let u = t.add_message(row);
    assert(u.message_ids() =~= t.message_ids().push(row.id));
    lemma_rising_push(t.message_ids(), row.id);
    lemma_next_is_new(t.message_ids(), row.id);
    lemma_refs(t, u);
    assert forall|i: int| 0 <= i < u.messages.len() implies u.has_agent(
        (#[trigger] u.messages[i]).from,
    ) && u.has_target(u.messages[i].target) && u.has_reply(u.messages[i].reply_to) by {
        if i < t.messages.len() {
            assert(u.messages[i] == t.messages[i]);
        } else {
            assert(u.messages[i] == row);
        }
        match u.messages[i].reply_to {
            Some(r) => {
                assert(t.has_message(r));
                assert(u.has_message(r));
            },
            None => {},
        }
    }
    let n = t.messages.len() as int;
    assert(u.message_ids()[n] == row.id);
    lemma_rising_unique(u.message_ids(), u.next_message, n);
    assert forall|id: i64| t.has_message(id) implies #[trigger] u.message(id) == t.message(id) by {
        let i = t.message_ids().index_of(id);
        assert(t.message_ids()[i] == id);
        assert(u.message_ids()[i] == id);
        lemma_rising_unique(u.message_ids(), u.next_message, i);
    }
}

pub proof fn lemma_add_deliveries(t: TablesView, message: i64, agents: Seq<i64>, at: Timestamp)
    requires
        t.consistent(),
        t.has_message(message),
        forall|i: int| 0 <= i < t.deliveries.len() ==> (#[trigger] t.deliveries[i]).message < message,
        agents.no_duplicates(),
        forall|i: int| 0 <= i < agents.len() ==> t.has_agent(#[trigger] agents[i]),
    ensures
        t.add_deliveries(message, agents, at).consistent(),
{
    let u = t.add_deliveries(message, agents, at);
    lemma_refs(t, u);
    let n = t.deliveries.len() as int;
    assert forall|i: int| 0 <= i < u.deliveries.len() implies u.has_message(
        (#[trigger] u.deliveries[i]).message,
    ) && u.has_agent(u.deliveries[i].agent) by {
        if i < n {
            assert(u.deliveries[i] == t.deliveries[i]);
            assert(t.has_message(t.deliveries[i].message) && t.has_agent(t.deliveries[i].agent));
        } else {
            assert(u.deliveries[i].agent == agents[i - n]);
            assert(t.has_agent(agents[i - n]));
            assert(t.has_message(message));
        }
    }
    assert forall|i: int, j: int| 0 <= i < j < u.deliveries.len() implies (
    #[trigger] u.deliveries[i]).message <= (#[trigger] u.deliveries[j]).message by {
        if i < n {
            assert(u.deliveries[i] == t.deliveries[i]);
        }
        if j < n {
            assert(u.deliveries[j] == t.deliveries[j]);
        }
    }
    assert forall|i: int, j: int| 0 <= i < j < u.deliveries.len() implies (
    #[trigger] u.deliveries[i]).message != (#[trigger] u.deliveries[j]).message
        || u.deliveries[i].agent != u.deliveries[j].agent by {
        if i < n {
            assert(u.deliveries[i] == t.deliveries[i]);
        } else {
            assert(u.deliveries[i].agent == agents[i - n]);
            assert(u.deliveries[j].agent == agents[j - n]);
        }
        if j < n {
            assert(u.deliveries[j] == t.deliveries[j]);
        }
    }
}

pub proof fn lemma_mark_read(t: TablesView, agent: i64, messages: Seq<i64>, at: Timestamp)
    requires
        t.consistent(),
    ensures
        t.mark_read(agent, messages, at).consistent(),
{
    let u = t.mark_read(agent, messages, at);
    lemma_refs(t, u);
    assert forall|i: int| 0 <= i < u.deliveries.len() implies (
    #[trigger] u.deliveries[i]).message == t.deliveries[i].message && u.deliveries[i].agent
        == t.deliveries[i].agent by {}
}

pub proof fn lemma_add_scheduled(t: TablesView, row: ScheduledView)
    requires
        t.consistent(),
        row.id == t.next_scheduled,
    ensures
        t.add_scheduled(row).consistent(),
{
    let u = t.add_scheduled(row);
    lemma_refs(t, u);
    assert(u.scheduled_ids() =~= t.scheduled_ids().push(row.id));
    lemma_rising_push(t.scheduled_ids(), row.id);
}

pub proof fn lemma_set_scheduled(t: TablesView, id: i64, status: ScheduledStatus)
    requires
        t.consistent(),
    ensures
        t.set_scheduled(id, status).consistent(),
{
    let u = t.set_scheduled(id, status);
    lemma_refs(t, u);
    assert(u.scheduled_ids() =~= t.scheduled_ids());
}

pub proof fn lemma_add_session(t: TablesView, row: Session)
    requires
        t.consistent(),
        row.id == t.next_session,
        t.has_agent(row.agent),
    ensures
        t.add_session(row).consistent(),
{
    let u = t.add_session(row);
    lemma_refs(t, u);
    assert(u.session_ids() =~= t.session_ids().push(row.id));
    lemma_rising_push(t.session_ids(), row.id);
    assert forall|i: int| 0 <= i < u.sessions.len() implies u.has_agent(
        (#[trigger] u.sessions[i]).agent,
    ) by {
        if i < t.sessions.len() {
            assert(t.has_agent(t.sessions[i].agent));
        } else {
            assert(t.has_agent(row.agent));
        }
    }
}

pub proof fn lemma_end_session(t: TablesView, id: i64, at: Timestamp)
    requires
        t.consistent(),
    ensures
        t.end_session(id, at).consistent(),
{
    let u = t.end_session(id, at);
    lemma_refs(t, u);
    assert(u.session_ids() =~= t.session_ids());
    assert forall|i: int| 0 <= i < u.sessions.len() implies u.has_agent(
        (#[trigger] u.sessions[i]).agent,
    ) by {
        assert(t.has_agent(t.sessions[i].agent));
    }
}

pub proof fn lemma_end_all_sessions(t: TablesView, at: Timestamp)
    requires
        t.consistent(),
    ensures
        t.end_all_sessions(at).consistent(),
{
    let u = t.end_all_sessions(at);
    lemma_refs(t, u);
    assert(u.session_ids() =~= t.session_ids());
    assert forall|i: int| 0 <= i < u.sessions.len() implies u.has_agent(
        (#[trigger] u.sessions[i]).agent,
    ) by {
        assert(t.has_agent(t.sessions[i].agent));
    }
}

/// Filtered rows keep rising ids.
proof fn lemma_rising_filter<T>(s: Seq<T>, pred: spec_fn(T) -> bool, id: spec_fn(T) -> i64, next: int)
    requires
        rising(s.map_values(id), next),
    ensures
        rising(s.filter(pred).map_values(id), next),
{
    lemma_filter_order(s, pred);
    let f = s.filter(pred);
    let old_ids = s.map_values(id);
    let ids = f.map_values(id);
    assert forall|i: int, j: int| 0 <= i < j < ids.len() implies #[trigger] ids[i]
        < #[trigger] ids[j] by {
        assert(ids[i] == id(f[i]) && ids[j] == id(f[j]));
        let (p, q) = choose|p: int, q: int|
            0 <= p < q < s.len() && #[trigger] s[p] == f[i] && #[trigger] s[q] == f[j];
        assert(old_ids[p] < old_ids[q]);
    }
    assert forall|i: int| 0 <= i < ids.len() implies #[trigger] ids[i] < next by {
        assert(ids[i] == id(f[i]));
        let p = choose|p: int| 0 <= p < s.len() && s[p] == f[i];
        assert(old_ids[p] < next);
    }
}

pub proof fn lemma_drop_messages(t: TablesView, ids: Seq<i64>)
    requires
        t.consistent(),
    ensures
        t.drop_messages(ids).consistent(),
        forall|id: i64| #[trigger]
            t.drop_messages(ids).has_message(id) <==> t.has_message(id) && !ids.contains(id),
{
    let u = t.drop_messages(ids);
    let pred = |m: MessageRowView| !ids.contains(m.id);
    let kept = t.messages.filter(pred);
    let id_of = |m: MessageRowView| m.id;
    lemma_filter_order(t.messages, pred);
    lemma_rising_filter(t.messages, pred, id_of, t.next_message);
    assert(u.message_ids() =~= kept.map_values(id_of));
    assert forall|id: i64| #[trigger] u.has_message(id) <==> t.has_message(id) && !ids.contains(
        id,
    ) by {
        if u.has_message(id) {
            let i = u.message_ids().index_of(id);
            assert(kept[i].id == id && pred(kept[i]));
            let p = choose|p: int| 0 <= p < t.messages.len() && t.messages[p] == kept[i];
            assert(t.message_ids()[p] == id);
        }
        if t.has_message(id) && !ids.contains(id) {
            let p = t.message_ids().index_of(id);
            assert(t.messages[p].id == id && pred(t.messages[p]));
            let i = kept.index_of(t.messages[p]);
            assert(u.message_ids()[i] == id);
        }
    }
    assert forall|i: int| 0 <= i < u.messages.len() implies u.has_agent(
        (#[trigger] u.messages[i]).from,
    ) && u.has_target(u.messages[i].target) && u.has_reply(u.messages[i].reply_to) by {
        assert(u.messages[i] == without_reply(kept[i], ids));
        let p = choose|p: int| 0 <= p < t.messages.len() && t.messages[p] == kept[i];
        let m = t.messages[p];
        assert(t.has_agent(m.from) && t.has_target(m.target) && t.has_reply(m.reply_to));
        assert(u.has_agent(m.from));
        match m.reply_to {
            Some(r) => {
                assert(t.has_message(r));
                if !ids.contains(r) {
                    assert(u.has_message(r));
                }
            },
            None => {},
        }
    }
    let dp = |d: Delivery| !ids.contains(d.message);
    lemma_filter_order(t.deliveries, dp);
    assert(u.deliveries == t.deliveries.filter(dp));
    assert forall|i: int| 0 <= i < u.deliveries.len() implies u.has_message(
        (#[trigger] u.deliveries[i]).message,
    ) && u.has_agent(u.deliveries[i].agent) by {
        let p = choose|p: int| 0 <= p < t.deliveries.len() && t.deliveries[p] == u.deliveries[i];
        assert(t.has_message(t.deliveries[p].message) && t.has_agent(t.deliveries[p].agent));
        assert(dp(u.deliveries[i]));
    }
    assert forall|i: int, j: int| 0 <= i < j < u.deliveries.len() implies (
    #[trigger] u.deliveries[i]).message <= (#[trigger] u.deliveries[j]).message && (
    u.deliveries[i].message != u.deliveries[j].message || u.deliveries[i].agent
        != u.deliveries[j].agent) by {
        let (p, q) = choose|p: int, q: int|
            0 <= p < q < t.deliveries.len() && #[trigger] t.deliveries[p] == u.deliveries[i]
                && #[trigger] t.deliveries[q] == u.deliveries[j];
    }
    assert(u.members_ok());
    assert(u.sessions_ok());
}

pub proof fn lemma_drop_scheduled(t: TablesView, ids: Seq<i64>)
    requires
        t.consistent(),
    ensures
        t.drop_scheduled(ids).consistent(),
{
    let u = t.drop_scheduled(ids);
    lemma_rising_filter(
        t.scheduled,
        |s: ScheduledView| !ids.contains(s.id),
        |s: ScheduledView| s.id,
        t.next_scheduled,
    );
    lemma_refs(t, u);
}

pub proof fn lemma_drop_sessions(t: TablesView, ids: Seq<i64>)
    requires
        t.consistent(),
    ensures
        t.drop_sessions(ids).consistent(),
{
    let u = t.drop_sessions(ids);
    let pred = |s: Session| !ids.contains(s.id);
    lemma_rising_filter(t.sessions, pred, |s: Session| s.id, t.next_session);
    lemma_filter_order(t.sessions, pred);
    lemma_refs(t, u);
    assert forall|i: int| 0 <= i < u.sessions.len() implies u.has_agent(
        (#[trigger] u.sessions[i]).agent,
    ) by {
        let p = choose|p: int| 0 <= p < t.sessions.len() && t.sessions[p] == u.sessions[i];
        assert(t.has_agent(t.sessions[p].agent));
    }
}

pub proof fn lemma_drop_agents(t: TablesView, ids: Seq<i64>)
    requires
        t.consistent(),
        forall|i: int|
            0 <= i < t.messages.len() ==> !ids.contains((#[trigger] t.messages[i]).from),
        forall|i: int|
            0 <= i < t.messages.len() ==> match (#[trigger] t.messages[i]).target {
                Target::Agent(a) => !ids.contains(a),
                _ => true,
            },
    ensures
        t.drop_agents(ids).consistent(),
        forall|id: i64| #[trigger]
            t.drop_agents(ids).has_agent(id) <==> t.has_agent(id) && !ids.contains(id),
        forall|name: Seq<char>| #[trigger]
            t.drop_agents(ids).knows_agent(name) <==> t.knows_agent(name) && !ids.contains(
                t.agent_id(name),
            ),
{
    let u = t.drop_agents(ids);
    let pred = |a: AgentView| !ids.contains(a.id);
    let id_of = |a: AgentView| a.id;
    lemma_filter_order(t.agents, pred);
    lemma_rising_filter(t.agents, pred, id_of, t.next_agent);
    assert(u.agents == t.agents.filter(pred));
    assert(u.agent_ids() =~= t.agents.filter(pred).map_values(id_of));
    assert forall|i: int, j: int|
        0 <= i < u.agent_names().len() && 0 <= j < u.agent_names().len() && i
            != j implies u.agent_names()[i] != u.agent_names()[j] by {
        let (a, b) = if i < j {
            (i, j)
        } else {
            (j, i)
        };
        let (p, q) = choose|p: int, q: int|
            0 <= p < q < t.agents.len() && #[trigger] t.agents[p] == u.agents[a]
                && #[trigger] t.agents[q] == u.agents[b];
        assert(t.agent_names()[p] != t.agent_names()[q]);
    }
    assert forall|id: i64| #[trigger] u.has_agent(id) <==> t.has_agent(id) && !ids.contains(id) by {
        if u.has_agent(id) {
            let i = u.agent_ids().index_of(id);
            assert(u.agents[i].id == id && pred(u.agents[i]));
            let p = choose|p: int| 0 <= p < t.agents.len() && t.agents[p] == u.agents[i];
            assert(t.agent_ids()[p] == id);
        }
        if t.has_agent(id) && !ids.contains(id) {
            let p = t.agent_ids().index_of(id);
            assert(t.agents[p].id == id && pred(t.agents[p]));
            let i = u.agents.index_of(t.agents[p]);
            assert(u.agent_ids()[i] == id);
        }
    }
    assert forall|name: Seq<char>| #[trigger] u.knows_agent(name) <==> t.knows_agent(name)
        && !ids.contains(t.agent_id(name)) by {
        if u.knows_agent(name) {
            let i = u.agent_names().index_of(name);
            assert(u.agents[i].name == name && pred(u.agents[i]));
            let p = choose|p: int| 0 <= p < t.agents.len() && t.agents[p] == u.agents[i];
            assert(t.agent_names()[p] == name);
            assert(t.agent_names().index_of(name) == p);
        }
        if t.knows_agent(name) && !ids.contains(t.agent_id(name)) {
            let p = t.agent_names().index_of(name);
            assert(t.agents[p].name == name && pred(t.agents[p]));
            let i = u.agents.index_of(t.agents[p]);
            assert(u.agent_names()[i] == name);
        }
    }
    let mp = |m: Membership| !ids.contains(m.agent);
    lemma_filter_order(t.members, mp);
    assert(u.members == t.members.filter(mp));
    assert forall|i: int| 0 <= i < u.members.len() implies u.has_agent(
        (#[trigger] u.members[i]).agent,
    ) && u.has_channel(u.members[i].channel) by {
        let p = choose|p: int| 0 <= p < t.members.len() && t.members[p] == u.members[i];
        assert(t.has_agent(t.members[p].agent) && t.has_channel(t.members[p].channel));
        assert(mp(u.members[i]));
    }
    assert forall|i: int, j: int| 0 <= i < j < u.members.len() implies (
    #[trigger] u.members[i]).agent != (#[trigger] u.members[j]).agent || u.members[i].channel
        != u.members[j].channel by {
        let (p, q) = choose|p: int, q: int|
            0 <= p < q < t.members.len() && #[trigger] t.members[p] == u.members[i]
                && #[trigger] t.members[q] == u.members[j];
    }
    assert forall|i: int| 0 <= i < u.messages.len() implies u.has_agent(
        (#[trigger] u.messages[i]).from,
    ) && u.has_target(u.messages[i].target) && u.has_reply(u.messages[i].reply_to) by {
        let m = t.messages[i];
        assert(t.has_agent(m.from) && t.has_target(m.target) && t.has_reply(m.reply_to));
    }
    let dp = |d: Delivery| !ids.contains(d.agent);
    lemma_filter_order(t.deliveries, dp);
    assert(u.deliveries == t.deliveries.filter(dp));
    assert forall|i: int| 0 <= i < u.deliveries.len() implies u.has_message(
        (#[trigger] u.deliveries[i]).message,
    ) && u.has_agent(u.deliveries[i].agent) by {
        let p = choose|p: int| 0 <= p < t.deliveries.len() && t.deliveries[p] == u.deliveries[i];
        assert(t.has_message(t.deliveries[p].message) && t.has_agent(t.deliveries[p].agent));
        assert(dp(u.deliveries[i]));
    }
    assert forall|i: int, j: int| 0 <= i < j < u.deliveries.len() implies (
    #[trigger] u.deliveries[i]).message <= (#[trigger] u.deliveries[j]).message && (
    u.deliveries[i].message != u.deliveries[j].message || u.deliveries[i].agent
        != u.deliveries[j].agent) by {
        let (p, q) = choose|p: int, q: int|
            0 <= p < q < t.deliveries.len() && #[trigger] t.deliveries[p] == u.deliveries[i]
                && #[trigger] t.deliveries[q] == u.deliveries[j];
    }
    let sp = |s: Session| !ids.contains(s.agent);
    lemma_filter_order(t.sessions, sp);
    lemma_rising_filter(t.sessions, sp, |s: Session| s.id, t.next_session);
    assert(u.sessions == t.sessions.filter(sp));
    assert forall|i: int| 0 <= i < u.sessions.len() implies u.has_agent(
        (#[trigger] u.sessions[i]).agent,
    ) by {
        let p = choose|p: int| 0 <= p < t.sessions.len() && t.sessions[p] == u.sessions[i];
        assert(t.has_agent(t.sessions[p].agent));
        assert(sp(u.sessions[i]));
    }
}

/// Consistent tables with the agents and channels of valid ones are valid.
pub proof fn lemma_same_people(t: TablesView, u: TablesView)
    requires
        t.valid(),
        u.consistent(),
        u.agents == t.agents,
        u.channels == t.channels,
    ensures
        u.valid(),
{
    assert(t.knows_agent(MASTER@) && t.knows_channel(DEFAULT_CHANNEL@));
    assert(u.knows_agent(MASTER@) && u.knows_channel(DEFAULT_CHANNEL@));
}

} // verus!
