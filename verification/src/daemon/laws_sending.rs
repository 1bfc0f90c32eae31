//! What sending promises, in terms of the rows of the tables: what is stored, who receives it,
//! and who is known afterwards.

use vstd::prelude::*;
use vstd::seq_lib::*;

use crate::clock::Timestamp;
use crate::limits::valid_name;
use crate::mentions::{law_mentions_distinct, mentions};
use crate::proto::{DataView, EventView, Op};
use crate::text::is_space;
use crate::types::{parsed_recipient, Intent, RecipientView};

use super::keeping::lemma_filter_order;
use super::laws::{lemma_filter_contains, lemma_same_filter};
use super::laws_reading::{is_called, is_channel, lemma_is_called, lemma_is_channel};
use super::posting::{
    called_names, lemma_addressed, lemma_agent_named, lemma_called_ids, lemma_called_names,
    lemma_channel_named, lemma_direct_recipients, lemma_posted, lemma_with_agent,
    lemma_with_called, lemma_with_channel, lemma_with_ends, Draft,
};
use super::server::{handling, DaemonView, Reply, Surroundings};
use super::store::post::sending;
use super::tables::{AgentView, Delivery, Membership, MessageRowView, TablesView, Target};

verus! {

// ---- who is seen ----

/// Whether between two states of the tables exactly the agents of these names were seen: those
/// that were known bear the time, those that were not are added with it, and each of them is a
/// member of `#general`; nothing else of agents and memberships is different.
pub open spec fn saw(t: TablesView, u: TablesView, names: Seq<Seq<char>>, now: Timestamp) -> bool {
    let n = t.agents.len() as int;
    let m = t.members.len() as int;
    &&& n <= u.agents.len()
    &&& forall|i: int|
        0 <= i < n ==> #[trigger] u.agents[i] == if names.contains(t.agents[i].name) {
            AgentView { last_seen: now, ..t.agents[i] }
        } else {
            t.agents[i]
        }
    &&& forall|i: int|
        n <= i < u.agents.len() ==> names.contains((#[trigger] u.agents[i]).name)
            && u.agents[i].first_seen == now && u.agents[i].last_seen == now
            && u.agents[i].display_name is None && !is_name(t, u.agents[i].name)
    &&& forall|k: int| 0 <= k < names.len() ==> is_name(u, #[trigger] names[k])
    &&& u.members.len() == m + u.agents.len() - n
    &&& forall|i: int| 0 <= i < m ==> #[trigger] u.members[i] == t.members[i]
    &&& forall|i: int|
        m <= i < u.members.len() ==> (#[trigger] u.members[i]).agent == u.agents[n + i - m].id
            && is_channel(t, u.members[i].channel, "general"@) && u.members[i].joined_at == now
}

/// Whether an agent of this name is known.
pub open spec fn is_name(t: TablesView, name: Seq<char>) -> bool {
    exists|i: int| 0 <= i < t.agents.len() && (#[trigger] t.agents[i]).name == name
}

pub proof fn lemma_is_name(t: TablesView, name: Seq<char>)
    ensures
        is_name(t, name) == t.knows_agent(name),
{
    if is_name(t, name) {
        let i = choose|i: int| 0 <= i < t.agents.len() && (#[trigger] t.agents[i]).name == name;
        assert(t.agent_names()[i] == name);
    }
    if t.knows_agent(name) {
        let i = t.agent_names().index_of(name);
        assert(t.agent_names()[i] == name);
        assert(t.agents[i].name == name);
    }
}

pub proof fn lemma_saw_nobody(t: TablesView, now: Timestamp)
    ensures
        saw(t, t, seq![], now),
{
}

proof fn lemma_pushed<T>(s: Seq<T>, x: T)
    ensures
        forall|y: T| #[trigger] s.push(x).contains(y) <==> s.contains(y) || y == x,
{
    assert forall|y: T| #[trigger] s.push(x).contains(y) <==> s.contains(y) || y == x by {
        assert(s.push(x)[s.len() as int] == x);
        if s.contains(y) {
            let i = s.index_of(y);
            assert(s.push(x)[i] == y);
        }
        if s.push(x).contains(y) && y != x {
            let i = s.push(x).index_of(y);
            assert(s[i] == y);
        }
    }
}

pub proof fn lemma_saw_one(
    t: TablesView,
    u: TablesView,
    names: Seq<Seq<char>>,
    name: Seq<char>,
    now: Timestamp,
)
    requires
        t.valid(),
        u.valid(),
        saw(t, u, names, now),
        u.accepts_agent(name),
        u.with_agent(name, now).next_agent <= i64::MAX,
        u.channel_id("general"@) == t.channel_id("general"@),
    ensures
        saw(t, u.with_agent(name, now), names.push(name), now),
{
    let w = u.with_agent(name, now);
    let n = t.agents.len() as int;
    let m = t.members.len() as int;
    let more = names.push(name);
    lemma_pushed(names, name);
    lemma_with_agent(u, name, now);
    lemma_is_name(u, name);
    lemma_is_name(w, name);
    lemma_is_name(t, name);
    assert forall|i: int| 0 <= i < u.agents.len() implies (w.agents[i]).name == (
    #[trigger] u.agents[i]).name by {}
    if u.knows_agent(name) {
        let id = u.agent_id(name);
        lemma_agent_named(u, name);
        assert forall|i: int| 0 <= i < u.agents.len() implies ((#[trigger] u.agents[i]).id == id
            <==> u.agents[i].name == name) by {
            lemma_is_called(u, u.agents[i].id, u.agents[i].name);
            lemma_is_called(u, id, name);
            assert(is_called(u, u.agents[i].id, u.agents[i].name));
        }
        assert(w.agents.len() == u.agents.len());
        assert forall|i: int| 0 <= i < n implies #[trigger] w.agents[i] == if more.contains(
            t.agents[i].name,
        ) {
            AgentView { last_seen: now, ..t.agents[i] }
        } else {
            t.agents[i]
        } by {
            assert(u.agents[i].name == t.agents[i].name);
        }
        assert forall|i: int| n <= i < w.agents.len() implies more.contains(
            (#[trigger] w.agents[i]).name,
        ) && w.agents[i].first_seen == now && w.agents[i].last_seen == now
            && w.agents[i].display_name is None && !is_name(t, w.agents[i].name) by {
            assert(u.agents[i].name == w.agents[i].name);
        }
        assert(w.members == u.members);
    } else {
        assert(w.agents == u.agents.push(w.agents.last()));
        let general = t.channel_id("general"@);
        let row = Membership { agent: u.next_agent as i64, channel: general, joined_at: now };
        assert(!u.is_member(row.agent, row.channel)) by {
            if u.is_member(row.agent, row.channel) {
                let i = choose|i: int|
                    0 <= i < u.members.len() && (#[trigger] u.members[i]).agent == row.agent
                        && u.members[i].channel == row.channel;
                assert(u.has_agent(u.members[i].agent));
                let k = u.agent_ids().index_of(row.agent);
                assert(u.agent_ids()[k] < u.next_agent);
            }
        }
        let added = u.add_agent(w.agents.last());
        assert(!added.is_member(row.agent, row.channel)) by {
            if added.is_member(row.agent, row.channel) {
                let i = choose|i: int|
                    0 <= i < added.members.len() && (#[trigger] added.members[i]).agent == row.agent
                        && added.members[i].channel == row.channel;
                assert(u.members[i].agent == row.agent);
            }
        }
        assert(w.members == u.members.push(row));
        lemma_channel_named(t, "general"@);
        lemma_is_channel(t, general, "general"@);
        assert(!is_name(t, name)) by {
            if is_name(t, name) {
                let i = choose|i: int|
                    0 <= i < t.agents.len() && (#[trigger] t.agents[i]).name == name;
                assert(u.agents[i].name == name);
            }
        }
    }
    assert forall|k: int| 0 <= k < more.len() implies is_name(w, #[trigger] more[k]) by {
        if k < names.len() {
            assert(more[k] == names[k]);
            let i = choose|i: int|
                0 <= i < u.agents.len() && (#[trigger] u.agents[i]).name == names[k];
            assert(w.agents[i].name == more[k]);
        }
    }
}

proof fn lemma_saw_called(
    t: TablesView,
    u: TablesView,
    names: Seq<Seq<char>>,
    called: Seq<Seq<char>>,
    from: i64,
    first: Seq<i64>,
    now: Timestamp,
)
    requires
        t.valid(),
        u.valid(),
        saw(t, u, names, now),
        u.with_called(called, from, first, now).0.next_agent <= i64::MAX,
        forall|i: int| 0 <= i < called.len() ==> valid_name(#[trigger] called[i]),
        u.channel_id("general"@) == t.channel_id("general"@),
        first.no_duplicates(),
        forall|i: int| 0 <= i < first.len() ==> u.has_agent(#[trigger] first[i]),
    ensures
        saw(t, u.with_called(called, from, first, now).0, names + called, now),
    decreases called.len(),
{
    if called.len() == 0 {
        assert(names + called =~= names);
    } else {
        let rest = called.drop_last();
        let v = u.with_called(rest, from, first, now).0;
        assert forall|i: int| 0 <= i < rest.len() implies valid_name(#[trigger] rest[i]) by {
            assert(rest[i] == called[i]);
        }
        lemma_saw_called(t, u, names, rest, from, first, now);
        lemma_with_called(u, rest, from, first, now);
        assert(v.channels == u.channels);
        assert(valid_name(called[called.len() - 1]));
        lemma_saw_one(t, v, names + rest, called.last(), now);
        assert((names + rest).push(called.last()) =~= names + called);
    }
}

/// Everyone whom a draft concerns: the sender, the agent it is addressed to, and those it
/// calls.
pub open spec fn concerned(d: Draft) -> Seq<Seq<char>> {
    match d.to {
        RecipientView::Agent(name) => seq![d.from, name],
        _ => seq![d.from] + called_names(d.body),
    }
}

proof fn lemma_saw_concerned(t: TablesView, d: Draft, now: Timestamp)
    requires
        t.valid(),
        t.postable(d),
        t.posted(d, now).fits(),
    ensures
        saw(t, t.posted(d, now), concerned(d), now),
{
    let a = t.with_agent(d.from, now);
    let e = t.with_ends(d, now);
    let w = t.posted(d, now);
    lemma_posted(t, d, now);
    lemma_addressed(t, d, now);
    lemma_with_ends(t, d, now);
    lemma_saw_nobody(t, now);
    lemma_saw_one(t, t, seq![], d.from, now);
    lemma_with_agent(t, d.from, now);
    let one: Seq<Seq<char>> = seq![];
    assert(one.push(d.from) =~= seq![d.from]);
    assert(t.knows_channel("general"@));
    assert(a.channel_id("general"@) == t.channel_id("general"@));
    match d.to {
        RecipientView::Agent(name) => {
            assert(t.knows_agent(name) ==> a.knows_agent(name));
            lemma_saw_one(t, a, seq![d.from], name, now);
            assert(seq![d.from].push(name) =~= seq![d.from, name]);
        },
        _ => {
            assert(e.agents == a.agents && e.members == a.members) by {
                match d.to {
                    RecipientView::Channel(c) => {
                        assert(t.knows_channel(c) ==> a.knows_channel(c));
                        lemma_with_channel(a, c, now);
                    },
                    _ => {},
                }
            }
            assert(saw(t, e, seq![d.from], now));
            let from = e.agent_id(d.from);
            let target = e.target_of(d.to);
            let first = e.direct_recipients(target, from);
            lemma_direct_recipients(e, target, from);
            lemma_called_names(d.body);
            assert(e.channel_id("general"@) == t.channel_id("general"@));
            lemma_saw_called(t, e, seq![d.from], called_names(d.body), from, first, now);
        },
    }
    let u = t.addressed(d, now).0;
    assert(w.agents == u.agents && w.members == u.members);
    assert(saw(t, u, concerned(d), now));
    assert forall|k: int| 0 <= k < concerned(d).len() implies is_name(
        w,
        #[trigger] concerned(d)[k],
    ) by {
        assert(is_name(u, concerned(d)[k]));
        let i = choose|i: int|
            0 <= i < u.agents.len() && (#[trigger] u.agents[i]).name == concerned(d)[k];
        assert(w.agents[i].name == concerned(d)[k]);
    }
}

// ---- who receives ----

/// Names of one to 64 characters without white space.
pub open spec fn plain_name() -> spec_fn(Seq<char>) -> bool {
    |n: Seq<char>|
        1 <= n.len() <= 64 && forall|i: int| 0 <= i < n.len() ==> !is_space(#[trigger] n[i])
}

/// Whether a body calls on a name: it mentions it, it is a name, and fewer than 32 names are
/// mentioned before it.
pub open spec fn calls(body: Seq<char>, name: Seq<char>) -> bool {
    exists|j: int|
        0 <= j < mentions(body).len() && #[trigger] mentions(body)[j] == name && plain_name()(name)
            && mentions(body).take(j).filter(plain_name()).len() < 32
}

proof fn lemma_filter_place<T>(s: Seq<T>, pred: spec_fn(T) -> bool, j: int)
    requires
        0 <= j < s.len(),
        pred(s[j]),
    ensures
        s.take(j).filter(pred).len() < s.filter(pred).len(),
        s.filter(pred)[s.take(j).filter(pred).len() as int] == s[j],
{
    let front = s.take(j);
    let here = s.take(j + 1);
    let back = s.skip(j + 1);
    assert(here =~= front.push(s[j]));
    front.lemma_filter_push(s[j], pred);
    assert(here + back =~= s);
    Seq::filter_distributes_over_add(here, back, pred);
}

proof fn lemma_calls(body: Seq<char>, name: Seq<char>)
    ensures
        calls(body, name) <==> called_names(body).contains(name),
{
    let all = mentions(body);
    let p = |n: Seq<char>| valid_name(n);
    let q = plain_name();
    assert forall|i: int| 0 <= i < all.len() implies p(#[trigger] all[i]) == q(all[i]) by {}
    lemma_same_filter(all, p, q);
    let names = all.filter(q);
    assert(called_names(body) == if names.len() <= 32 {
        names
    } else {
        names.take(32)
    });
    if calls(body, name) {
        let j = choose|j: int|
            0 <= j < all.len() && #[trigger] all[j] == name && q(name) && all.take(j).filter(
                q,
            ).len() < 32;
        lemma_filter_place(all, q, j);
        let k = all.take(j).filter(q).len() as int;
        assert(called_names(body)[k] == name);
    }
    if called_names(body).contains(name) {
        let k = called_names(body).index_of(name);
        assert(names[k] == name);
        assert(names.contains(name));
        lemma_filter_contains(all, q, name);
        let j = all.index_of(name);
        assert(all[j] == name);
        lemma_filter_place(all, q, j);
        let place = all.take(j).filter(q).len() as int;
        law_mentions_distinct(body);
        lemma_filter_distinct(all, q);
        assert(names[place] == names[k]);
        assert(place == k);
    }
}

proof fn lemma_filter_distinct<T>(s: Seq<T>, pred: spec_fn(T) -> bool)
    requires
        s.no_duplicates(),
    ensures
        s.filter(pred).no_duplicates(),
{
    lemma_filter_order(s, pred);
    let f = s.filter(pred);
    assert forall|i: int, j: int| 0 <= i < f.len() && 0 <= j < f.len() && i != j implies f[i]
        != f[j] by {
        let (a, b) = if i < j {
            (i, j)
        } else {
            (j, i)
        };
        let (p, q) = choose|p: int, q: int|
            0 <= p < q < s.len() && #[trigger] s[p] == f[a] && #[trigger] s[q] == f[b];
        assert(s[p] != s[q]);
    }
}

/// Whether an agent is a member of the channel of this name.
pub open spec fn belongs(t: TablesView, agent: i64, channel: Seq<char>) -> bool {
    exists|i: int|
        0 <= i < t.members.len() && (#[trigger] t.members[i]).agent == agent && is_channel(
            t,
            t.members[i].channel,
            channel,
        )
}

/// Whether an agent is to receive a message: the one that it is addressed to; of a channel the
/// members and those called by name; of a message to everyone all; the sender never, but for a
/// message to itself.
pub open spec fn gets(
    t: TablesView,
    agent: i64,
    name: Seq<char>,
    sender: i64,
    to: RecipientView,
    body: Seq<char>,
) -> bool {
    match to {
        RecipientView::Agent(n) => name == n,
        RecipientView::Channel(c) => agent != sender && (belongs(t, agent, c) || calls(body, name)),
        RecipientView::Broadcast => agent != sender,
    }
}

/// Whether a message was handed to an agent at this time, and is unread.
pub open spec fn handed(u: TablesView, message: i64, agent: i64, now: Timestamp) -> bool {
    exists|i: int|
        0 <= i < u.deliveries.len() && #[trigger] u.deliveries[i] == (Delivery {
            message,
            agent,
            delivered_at: Some(now),
            read_at: None,
        })
}

/// Whether a row is a draft's: it holds what the draft holds, and names the same sender and the
/// same recipient.
pub open spec fn row_holds(
    u: TablesView,
    row: MessageRowView,
    d: Draft,
    now: Timestamp,
) -> bool {
    &&& row.body == d.body
    &&& row.intent == d.intent
    &&& row.reply_to == d.reply_to
    &&& row.created_at == now
    &&& is_called(u, row.from, d.from)
    &&& match (row.target, d.to) {
        (Target::Agent(a), RecipientView::Agent(name)) => is_called(u, a, name),
        (Target::Channel(c), RecipientView::Channel(name)) => is_channel(u, c, name),
        (Target::Broadcast, RecipientView::Broadcast) => true,
        _ => false,
    }
}

/// Whether posting a draft led from one state of the tables to another: there is one more
/// message, under a new id, which holds the draft; it was handed to exactly those who are to
/// receive it, and to each once; everything that was delivered before is as it was; and exactly
/// those whom it concerns were seen.
pub open spec fn post_done(t: TablesView, u: TablesView, d: Draft, now: Timestamp) -> bool {
    let n = t.messages.len() as int;
    let k = t.deliveries.len() as int;
    let row = u.messages[n];
    &&& u.messages.len() == n + 1
    &&& forall|i: int| 0 <= i < n ==> #[trigger] u.messages[i] == t.messages[i] && u.messages[i].id
        < row.id
    &&& row_holds(u, row, d, now)
    &&& k <= u.deliveries.len()
    &&& forall|i: int| 0 <= i < k ==> #[trigger] u.deliveries[i] == t.deliveries[i]
    &&& forall|i: int| k <= i < u.deliveries.len() ==> (#[trigger] u.deliveries[i]).message == row.id
    &&& forall|i: int, j: int|
        k <= i < j < u.deliveries.len() ==> (#[trigger] u.deliveries[i]).agent != (
        #[trigger] u.deliveries[j]).agent
    &&& forall|x: int|
        0 <= x < u.agents.len() ==> (handed(u, row.id, (#[trigger] u.agents[x]).id, now) <==> gets(
            t,
            u.agents[x].id,
            u.agents[x].name,
            row.from,
            d.to,
            d.body,
        ))
    &&& saw(t, u, concerned(d), now)
    &&& u.scheduled == t.scheduled && u.sessions == t.sessions
}

/// The members of a channel, the sender aside, are those that were members before.
proof fn lemma_belongs(t: TablesView, d: Draft, now: Timestamp, channel: Seq<char>, agent: i64)
    requires
        t.valid(),
        t.postable(d),
        t.posted(d, now).fits(),
        d.to == RecipientView::Channel(channel),
        agent != t.with_ends(d, now).agent_id(d.from),
    ensures
        t.with_ends(d, now).is_member(agent, t.with_ends(d, now).channel_id(channel)) <==> belongs(
            t,
            agent,
            channel,
        ),
{
    let a = t.with_agent(d.from, now);
    let e = t.with_ends(d, now);
    let id = e.channel_id(channel);
    lemma_posted(t, d, now);
    lemma_addressed(t, d, now);
    lemma_with_ends(t, d, now);
    lemma_with_agent(t, d.from, now);
    lemma_saw_nobody(t, now);
    lemma_saw_one(t, t, seq![], d.from, now);
    assert(t.knows_channel(channel) ==> a.knows_channel(channel));
    lemma_with_channel(a, channel, now);
    assert(e.members == a.members && e.agents == a.agents);
    let m = t.members.len() as int;
    assert forall|i: int| m <= i < e.members.len() implies (#[trigger] e.members[i]).agent
        == e.agent_id(d.from) by {
        let x = t.agents.len() + i - m;
        let one: Seq<Seq<char>> = seq![];
        lemma_pushed(one, d.from);
        assert(one.push(d.from).contains(a.agents[x].name));
        assert(a.agents[x].name == d.from);
        assert(is_called(e, e.agents[x].id, d.from)) by {
            assert(e.agents[x].name == d.from);
        }
        lemma_is_called(e, e.agents[x].id, d.from);
    }
    if e.is_member(agent, id) {
        let i = choose|i: int|
            0 <= i < e.members.len() && (#[trigger] e.members[i]).agent == agent
                && e.members[i].channel == id;
        assert(i < m);
        assert(a.members[i] == t.members[i]);
        assert(t.has_channel(t.members[i].channel));
        assert(e.channel_name(id) == t.channel_name(id));
        lemma_channel_named(e, channel);
        lemma_is_channel(t, id, channel);
        assert(t.members[i].agent == agent);
    }
    if belongs(t, agent, channel) {
        let i = choose|i: int|
            0 <= i < t.members.len() && (#[trigger] t.members[i]).agent == agent && is_channel(
                t,
                t.members[i].channel,
                channel,
            );
        lemma_is_channel(t, t.members[i].channel, channel);
        assert(e.channel_id(channel) == t.channel_id(channel));
        assert(a.members[i] == t.members[i]);
        assert(e.members[i].agent == agent);
    }
}

/// Posting does all that it should.
pub proof fn lemma_post_done(t: TablesView, d: Draft, now: Timestamp)
    requires
        t.valid(),
        t.postable(d),
        t.posted(d, now).fits(),
    ensures
        post_done(t, t.posted(d, now), d, now),
{
    let e = t.with_ends(d, now);
    let (u, ids) = t.addressed(d, now);
    let w = t.posted(d, now);
    let row = t.row_of(d, now);
    lemma_posted(t, d, now);
    lemma_addressed(t, d, now);
    lemma_with_ends(t, d, now);
    lemma_saw_concerned(t, d, now);
    let n = t.messages.len() as int;
    let k = t.deliveries.len() as int;
    assert(w.messages[n] == row);
    assert forall|i: int| 0 <= i < n implies #[trigger] w.messages[i] == t.messages[i]
        && w.messages[i].id < row.id by {
        assert(t.message_ids()[i] == t.messages[i].id);
    }
    assert(w.agents == u.agents && w.channels == u.channels);
    lemma_agent_named(w, d.from);
    lemma_is_called(w, row.from, d.from);
    match d.to {
        RecipientView::Agent(name) => {
            assert(e.knows_agent(name));
            lemma_is_called(w, w.agent_id(name), name);
            assert(w.knows_agent(name)) by {
                assert(u.knows_agent(name));
                assert(w.agent_names() == u.agent_names());
            }
        },
        RecipientView::Channel(name) => {
            assert(e.knows_channel(name));
            assert(u.knows_channel(name));
            assert(w.channel_names() == u.channel_names());
            lemma_is_channel(w, w.channel_id(name), name);
        },
        RecipientView::Broadcast => {},
    }
    assert(row_holds(w, row, d, now));
    let fresh = ids.map_values(
        |a: i64| Delivery { message: row.id, agent: a, delivered_at: Some(now), read_at: None },
    );
    assert(w.deliveries == t.deliveries + fresh);
    assert forall|a: i64| #[trigger] handed(w, row.id, a, now) <==> ids.contains(a) by {
        let item = Delivery { message: row.id, agent: a, delivered_at: Some(now), read_at: None };
        if ids.contains(a) {
            let j = ids.index_of(a);
            assert(w.deliveries[k + j] == item);
        }
        if handed(w, row.id, a, now) {
            let i = choose|i: int|
                0 <= i < w.deliveries.len() && #[trigger] w.deliveries[i] == item;
            if i < k {
                assert(t.has_message(t.deliveries[i].message));
                let p = t.message_ids().index_of(row.id);
                assert(t.message_ids()[p] < t.next_message);
            }
            assert(ids[i - k] == a);
        }
    }
    assert forall|i: int, j: int| k <= i < j < w.deliveries.len() implies (
    #[trigger] w.deliveries[i]).agent != (#[trigger] w.deliveries[j]).agent by {
        assert(w.deliveries[i].agent == ids[i - k] && w.deliveries[j].agent == ids[j - k]);
    }
    assert forall|x: int| 0 <= x < w.agents.len() implies (handed(
        w,
        row.id,
        (#[trigger] w.agents[x]).id,
        now,
    ) <==> gets(t, w.agents[x].id, w.agents[x].name, row.from, d.to, d.body)) by {
        lemma_who_gets(t, d, now, x);
    }
}

proof fn lemma_who_gets(t: TablesView, d: Draft, now: Timestamp, x: int)
    requires
        t.valid(),
        t.postable(d),
        t.posted(d, now).fits(),
        0 <= x < t.posted(d, now).agents.len(),
    ensures
        ({
            let w = t.posted(d, now);
            t.addressed(d, now).1.contains(w.agents[x].id) <==> gets(
                t,
                w.agents[x].id,
                w.agents[x].name,
                t.row_of(d, now).from,
                d.to,
                d.body,
            )
        }),
{
    let e = t.with_ends(d, now);
    let (u, ids) = t.addressed(d, now);
    let w = t.posted(d, now);
    lemma_posted(t, d, now);
    lemma_addressed(t, d, now);
    lemma_with_ends(t, d, now);
    assert(w.agents == u.agents);
    let id = w.agents[x].id;
    let name = w.agents[x].name;
    let from = e.agent_id(d.from);
    assert(is_called(u, id, name)) by {
        assert(u.agents[x].id == id);
    }
    lemma_is_called(u, id, name);
    let target = e.target_of(d.to);
    let first = e.direct_recipients(target, from);
    lemma_direct_recipients(e, target, from);
    match d.to {
        RecipientView::Agent(n) => {
            assert(u == e);
            lemma_agent_named(u, n);
            lemma_is_called(u, u.agent_id(n), n);
            assert(ids == seq![u.agent_id(n)]);
            assert(ids[0] == u.agent_id(n));
        },
        _ => {
            let names = called_names(d.body);
            lemma_called_names(d.body);
            lemma_with_called(e, names, from, first, now);
            lemma_calls(d.body, name);
            if names.contains(name) {
                let i = names.index_of(name);
                assert(names[i] == name);
                assert(u.agent_id(names[i]) == id);
            }
            if ids.contains(id) && !first.contains(id) {
                let i = choose|i: int|
                    0 <= i < names.len() && u.agent_id(#[trigger] names[i]) == id;
                assert(u.knows_agent(names[i]));
                lemma_agent_named(u, names[i]);
                assert(names[i] == name);
                assert(names.contains(name));
            }
            match d.to {
                RecipientView::Channel(c) => {
                    if id != from {
                        lemma_belongs(t, d, now, c, id);
                    }
                },
                _ => {
                    lemma_called_agents(e, names, from, first, now, id);
                    if !e.has_agent(id) {
                        let i = choose|i: int|
                            0 <= i < names.len() && u.agent_id(#[trigger] names[i]) == id;
                        assert(u.agent_id(names[i]) == from || ids.contains(id));
                    }
                },
            }
        },
    }
}

/// Whoever is known after calling names was known before, or was called.
proof fn lemma_called_agents(
    t: TablesView,
    names: Seq<Seq<char>>,
    from: i64,
    first: Seq<i64>,
    now: Timestamp,
    id: i64,
)
    requires
        t.valid(),
        t.with_called(names, from, first, now).0.next_agent <= i64::MAX,
        forall|i: int| 0 <= i < names.len() ==> valid_name(#[trigger] names[i]),
        first.no_duplicates(),
        forall|i: int| 0 <= i < first.len() ==> t.has_agent(#[trigger] first[i]),
        t.with_called(names, from, first, now).0.has_agent(id),
    ensures
        t.has_agent(id) || exists|i: int|
            0 <= i < names.len() && t.with_called(names, from, first, now).0.agent_id(
                #[trigger] names[i],
            ) == id,
{
    let u = t.with_called(names, from, first, now).0;
    lemma_saw_nobody(t, now);
    lemma_saw_called(t, t, seq![], names, from, first, now);
    let none: Seq<Seq<char>> = seq![];
    assert(none + names =~= names);
    let x = u.agent_ids().index_of(id);
    assert(u.agent_ids()[x] == id);
    lemma_with_called(t, names, from, first, now);
    if x < t.agents.len() {
        assert(u.agents[x].id == t.agents[x].id);
        assert(t.agent_ids()[x] == id);
    } else {
        let name = u.agents[x].name;
        assert(names.contains(name));
        let i = names.index_of(name);
        assert(is_called(u, id, name));
        lemma_is_called(u, id, name);
        assert(u.agent_id(names[i]) == id);
    }
}

// ---- the request ----

/// Whether a recipient's name is one of one to 64 characters without white space.
pub open spec fn well_addressed(to: RecipientView) -> bool {
    match to {
        RecipientView::Agent(name) => plain_name()(name),
        RecipientView::Channel(name) => plain_name()(name),
        RecipientView::Broadcast => true,
    }
}

/// Whether the message replied to is stored, where there is one.
pub open spec fn reply_exists(t: TablesView, reply_to: Option<i64>) -> bool {
    reply_to matches Some(r) ==> exists|k: int|
        0 <= k < t.messages.len() && (#[trigger] t.messages[k]).id == r
}

/// Whether a send is one that is accepted: the daemon is not paused, sender and recipient have
/// names, the body has at most 65536 bytes, and the message replied to is stored.
pub open spec fn acceptable(
    d: DaemonView,
    who: Seq<char>,
    to: RecipientView,
    body: Seq<char>,
    reply_to: Option<i64>,
) -> bool {
    &&& !d.paused
    &&& is_name(d.tables, who) || plain_name()(who)
    &&& well_addressed(to)
    &&& vstd::utf8::encode_utf8(body).len() <= 65536
    &&& reply_exists(d.tables, reply_to)
}

/// A send that is accepted posts the message, answers with its id and tells the subscribers of
/// it, unless there is no id left; a send that is not is refused and changes nothing.
pub proof fn law_send_request(
    d: DaemonView,
    s: Surroundings,
    who: Seq<char>,
    to: String,
    body: String,
    intent: Option<Intent>,
    reply_to: Option<i64>,
)
    requires
        d.tables.valid(),
        d.tables.fits(),
    ensures
        ({
            let t = d.tables;
            let r = parsed_recipient(to@);
            let draft = Draft { from: who, to: r, body: body@, intent, reply_to };
            let h = handling(d, s, who, (Op::Send { to, body, intent, reply_to }));
            let ok = acceptable(d, who, r, body@, reply_to);
            let room = t.next_message < i64::MAX && t.next_channel < i64::MAX && t.next_agent + 34
                <= i64::MAX;
            &&& h.paused == d.paused
            &&& ok && room ==> !(h.reply matches Reply::Now(Err(_)))
            &&& match h.reply {
                Reply::Now(Ok(DataView::SendOk(id))) => ok && post_done(t, h.tables, draft, s.now)
                    && id == h.tables.messages[t.messages.len() as int].id && h.event == Some(
                    EventView::Message { to: r, from: who, body: body@, message_id: id },
                ),
                Reply::Now(Err(_)) => h.tables == t && h.event is None,
                _ => false,
            }
        }),
{
    let t = d.tables;
    let r = parsed_recipient(to@);
    let draft = Draft { from: who, to: r, body: body@, intent, reply_to };
    let h = handling(d, s, who, (Op::Send { to, body, intent, reply_to }));
    lemma_is_name(t, who);
    lemma_plain(who);
    match r {
        RecipientView::Agent(name) => {
            lemma_plain(name);
        },
        RecipientView::Channel(name) => {
            lemma_plain(name);
        },
        RecipientView::Broadcast => {},
    }
    assert(reply_exists(t, reply_to) <==> t.has_reply(reply_to)) by {
        match reply_to {
            Some(m) => {
                if t.has_message(m) {
                    let k = t.message_ids().index_of(m);
                    assert(t.message_ids()[k] == m);
                    assert(t.messages[k].id == m);
                }
                if reply_exists(t, reply_to) {
                    let k = choose|k: int|
                        0 <= k < t.messages.len() && (#[trigger] t.messages[k]).id == m;
                    assert(t.message_ids()[k] == m);
                }
            },
            None => {},
        }
    }
    if sending(t, draft, s.now) is Ok {
        lemma_post_done(t, draft, s.now);
        lemma_posted(t, draft, s.now);
    }
    lemma_room(t, draft, s.now);
}

/// Whether the channels are as they were, but that the one which a message goes to is added
/// where it was not known.
pub open spec fn same_channels(t: TablesView, u: TablesView, to: RecipientView, now: Timestamp) -> bool {
    let n = t.channels.len() as int;
    &&& n <= u.channels.len() <= n + 1
    &&& forall|i: int| 0 <= i < n ==> #[trigger] u.channels[i] == t.channels[i]
    &&& u.channels.len() > n ==> to == RecipientView::Channel(u.channels[n].name)
        && u.channels[n].created_at == now && forall|i: int|
        0 <= i < n ==> (#[trigger] t.channels[i]).name != u.channels[n].name
}

/// A send adds no channel but the one that it goes to.
pub proof fn law_send_adds_its_channel(t: TablesView, d: Draft, now: Timestamp)
    requires
        t.valid(),
        sending(t, d, now) is Ok,
    ensures
        same_channels(t, sending(t, d, now)->Ok_0.0, d.to, now),
{
    let a = t.with_agent(d.from, now);
    let e = t.with_ends(d, now);
    let w = t.posted(d, now);
    let from = e.agent_id(d.from);
    let first = e.direct_recipients(e.target_of(d.to), from);
    lemma_called_channels(e, called_names(d.body), from, first, now);
    assert(a.channels == t.channels);
    match d.to {
        RecipientView::Channel(name) => {
            if !a.knows_channel(name) {
                assert forall|i: int| 0 <= i < t.channels.len() implies (
                #[trigger] t.channels[i]).name != name by {
                    assert(a.channel_names()[i] == t.channels[i].name);
                }
            }
        },
        _ => {},
    }
    assert(w.channels == e.channels);
}

proof fn lemma_called_channels(
    t: TablesView,
    names: Seq<Seq<char>>,
    from: i64,
    first: Seq<i64>,
    now: Timestamp,
)
    ensures
        t.with_called(names, from, first, now).0.channels == t.channels,
    decreases names.len(),
{
    if names.len() > 0 {
        lemma_called_channels(t, names.drop_last(), from, first, now);
    }
}

pub proof fn lemma_plain(name: Seq<char>)
    ensures
        plain_name()(name) == valid_name(name),
        plain_name()(name) == (crate::limits::name_fault(name) is None),
{
}

proof fn lemma_room(t: TablesView, d: Draft, now: Timestamp)
    ensures
        t.posted(d, now).next_agent <= t.next_agent + 34,
        t.posted(d, now).next_channel <= t.next_channel + 1,
        t.posted(d, now).next_message == t.next_message + 1,
        t.posted(d, now).next_scheduled == t.next_scheduled,
        t.posted(d, now).next_session == t.next_session,
{
    let e = t.with_ends(d, now);
    let from = e.agent_id(d.from);
    let first = e.direct_recipients(e.target_of(d.to), from);
    lemma_called_names(d.body);
    lemma_called_ids(e, called_names(d.body), from, first, now);
}

} // verus!
