//! What drafts will add to the tables: it is counted before anything is posted, so that
//! drafts for which an id is missing change nothing.

use vstd::prelude::*;

use crate::clock::Timestamp;
use crate::limits::validate_name;
use crate::mentions::has_text;
use crate::types::{texts, Recipient};

use super::super::posting::{called_names, Draft};
use super::super::tables::{rising, TablesView};
use super::post::{called, draft_fault};
use super::{Store, StoreError};

verus! {

/// What drafts will have added: the names of agents and of channels that are not known, each
/// once, and a number of messages.
pub(super) struct Growth {
    agents: Vec<String>,
    channels: Vec<String>,
    posts: usize,
}

/// Names with one more, unless it is known or among them.
pub open spec fn newly(names: Seq<Seq<char>>, known: bool, name: Seq<char>) -> Seq<Seq<char>> {
    if known || names.contains(name) {
        names
    } else {
        names.push(name)
    }
}

/// The names of new agents, once these names were called.
pub open spec fn newly_called(
    t: TablesView,
    names: Seq<Seq<char>>,
    called: Seq<Seq<char>>,
) -> Seq<Seq<char>>
    decreases called.len(),
{
    if called.len() == 0 {
        names
    } else {
        newly(newly_called(t, names, called.drop_last()), t.knows_agent(called.last()), called.last())
    }
}

/// Whether `u` is ahead of `t` by these agents and channels and by so many messages.
pub open spec fn ahead(
    t: TablesView,
    u: TablesView,
    agents: Seq<Seq<char>>,
    channels: Seq<Seq<char>>,
    posts: int,
) -> bool {
    &&& forall|name: Seq<char>| #[trigger]
        u.knows_agent(name) <==> t.knows_agent(name) || agents.contains(name)
    &&& forall|name: Seq<char>| #[trigger]
        u.knows_channel(name) <==> t.knows_channel(name) || channels.contains(name)
    &&& forall|id: i64| #[trigger]
        u.has_message(id) <==> t.has_message(id) || t.next_message <= id < t.next_message + posts
    &&& u.next_agent == t.next_agent + agents.len()
    &&& u.next_channel == t.next_channel + channels.len()
    &&& u.next_message == t.next_message + posts
    &&& u.next_scheduled == t.next_scheduled
    &&& u.next_session == t.next_session
}

/// A list with one more item holds that item and those that it held.
proof fn lemma_push_holds<T>(s: Seq<T>, x: T)
    ensures
        forall|y: T| #[trigger] s.push(x).contains(y) <==> s.contains(y) || y == x,
{
    assert forall|y: T| #[trigger] s.push(x).contains(y) <==> s.contains(y) || y == x by {
        if s.contains(y) {
            let i = choose|i: int| 0 <= i < s.len() && s[i] == y;
            assert(s.push(x)[i] == y);
        }
        assert(s.push(x)[s.len() as int] == x);
        if s.push(x).contains(y) && y != x {
            let i = choose|i: int| 0 <= i < s.push(x).len() && s.push(x)[i] == y;
            assert(s[i] == y);
        }
    }
}

/// Seeing an agent adds its name.
pub(super) proof fn lemma_seen(u: TablesView, name: Seq<char>, now: Timestamp)
    ensures
        forall|n: Seq<char>| #[trigger]
            u.with_agent(name, now).knows_agent(n) <==> u.knows_agent(n) || n == name,
        u.with_agent(name, now).channels == u.channels,
        u.with_agent(name, now).messages == u.messages,
{
    let w = u.with_agent(name, now);
    if u.knows_agent(name) {
        assert(w.agent_names() =~= u.agent_names());
    } else {
        assert(w.agent_names() =~= u.agent_names().push(name));
        lemma_push_holds(u.agent_names(), name);
    }
}

proof fn lemma_agent_ahead(
    t: TablesView,
    u: TablesView,
    agents: Seq<Seq<char>>,
    channels: Seq<Seq<char>>,
    posts: int,
    name: Seq<char>,
    now: Timestamp,
)
    requires
        ahead(t, u, agents, channels, posts),
    ensures
        ahead(
            t,
            u.with_agent(name, now),
            newly(agents, t.knows_agent(name), name),
            channels,
            posts,
        ),
{
    let w = u.with_agent(name, now);
    lemma_seen(u, name, now);
    lemma_push_holds(agents, name);
    assert(u.knows_agent(name) <==> t.knows_agent(name) || agents.contains(name));
    assert(w.channel_names() == u.channel_names() && w.message_ids() == u.message_ids());
    assert forall|n: Seq<char>| #[trigger] w.knows_channel(n) == u.knows_channel(n) by {}
    assert forall|id: i64| #[trigger] w.has_message(id) == u.has_message(id) by {}
    assert forall|n: Seq<char>| #[trigger] w.knows_agent(n) <==> t.knows_agent(n) || newly(
        agents,
        t.knows_agent(name),
        name,
    ).contains(n) by {
        assert(u.knows_agent(n) <==> t.knows_agent(n) || agents.contains(n));
    }
}

proof fn lemma_channel_ahead(
    t: TablesView,
    u: TablesView,
    agents: Seq<Seq<char>>,
    channels: Seq<Seq<char>>,
    posts: int,
    name: Seq<char>,
    now: Timestamp,
)
    requires
        ahead(t, u, agents, channels, posts),
    ensures
        ahead(
            t,
            u.with_channel(name, now),
            agents,
            newly(channels, t.knows_channel(name), name),
            posts,
        ),
{
    let w = u.with_channel(name, now);
    lemma_push_holds(channels, name);
    assert(u.knows_channel(name) <==> t.knows_channel(name) || channels.contains(name));
    if !u.knows_channel(name) {
        assert(w.channel_names() =~= u.channel_names().push(name));
        lemma_push_holds(u.channel_names(), name);
    }
    assert(w.agent_names() == u.agent_names() && w.message_ids() == u.message_ids());
    assert forall|n: Seq<char>| #[trigger] w.knows_agent(n) == u.knows_agent(n) by {}
    assert forall|id: i64| #[trigger] w.has_message(id) == u.has_message(id) by {}
    assert forall|n: Seq<char>| #[trigger] w.knows_channel(n) <==> t.knows_channel(n) || newly(
        channels,
        t.knows_channel(name),
        name,
    ).contains(n) by {
        assert(u.knows_channel(n) <==> t.knows_channel(n) || channels.contains(n));
    }
}

proof fn lemma_called_ahead(
    t: TablesView,
    u: TablesView,
    agents: Seq<Seq<char>>,
    channels: Seq<Seq<char>>,
    posts: int,
    called: Seq<Seq<char>>,
    from: i64,
    first: Seq<i64>,
    now: Timestamp,
)
    requires
        ahead(t, u, agents, channels, posts),
    ensures
        ahead(
            t,
            u.with_called(called, from, first, now).0,
            newly_called(t, agents, called),
            channels,
            posts,
        ),
    decreases called.len(),
{
    if called.len() > 0 {
        let rest = called.drop_last();
        lemma_called_ahead(t, u, agents, channels, posts, rest, from, first, now);
        lemma_agent_ahead(
            t,
            u.with_called(rest, from, first, now).0,
            newly_called(t, agents, rest),
            channels,
            posts,
            called.last(),
            now,
        );
    }
}

/// Posting on tables that are ahead, with everyone in them whom the draft concerns.
proof fn lemma_post_ahead(
    t: TablesView,
    u: TablesView,
    agents: Seq<Seq<char>>,
    channels: Seq<Seq<char>>,
    posts: int,
    d: Draft,
    now: Timestamp,
)
    requires
        0 <= posts,
        i64::MIN <= u.next_message <= i64::MAX,
        u.addressed(d, now).0.next_message == u.next_message,
        ahead(t, u.addressed(d, now).0, agents, channels, posts),
    ensures
        ahead(t, u.posted(d, now), agents, channels, posts + 1),
{
    let v = u.addressed(d, now).0;
    let w = u.posted(d, now);
    let row = u.row_of(d, now);
    assert(w.message_ids() =~= v.message_ids().push(row.id));
    lemma_push_holds(v.message_ids(), row.id);
    assert(w.agent_names() == v.agent_names() && w.channel_names() == v.channel_names());
    assert forall|n: Seq<char>| #[trigger] w.knows_agent(n) == v.knows_agent(n) by {}
    assert forall|n: Seq<char>| #[trigger] w.knows_channel(n) == v.knows_channel(n) by {}
    assert forall|id: i64| #[trigger] w.has_message(id) <==> t.has_message(id) || t.next_message
        <= id < t.next_message + posts + 1 by {
        assert(v.has_message(id) <==> t.has_message(id) || t.next_message <= id < t.next_message
            + posts);
    }
}

/// Why a draft is not posted, if it is not: it is refused, or an id is missing.
pub open spec fn hindrance(u: TablesView, d: Draft, now: Timestamp) -> Option<StoreError> {
    match draft_fault(u, d) {
        Some(e) => Some(e),
        None => if u.posted(d, now).fits() {
            None
        } else {
            Some(StoreError::Full)
        },
    }
}

impl Growth {
    pub closed spec fn agents(&self) -> Seq<Seq<char>> {
        texts(self.agents@)
    }

    pub closed spec fn channels(&self) -> Seq<Seq<char>> {
        texts(self.channels@)
    }

    pub closed spec fn posts(&self) -> int {
        self.posts as int
    }

    /// Whether `u` is ahead of `t` by this.
    pub open spec fn leads(&self, t: TablesView, u: TablesView) -> bool {
        ahead(t, u, self.agents(), self.channels(), self.posts())
    }

    /// Nothing.
    pub(super) fn none() -> (g: Growth)
        ensures
            g.posts() == 0,
            forall|t: TablesView| #[trigger] g.leads(t, t),
    {
        let g = Growth { agents: Vec::new(), channels: Vec::new(), posts: 0 };
        assert(g.agents() =~= seq![] && g.channels() =~= seq![]);
        g
    }
}

impl Store {
    /// Whether there are ids left for so many agents, channels and messages more.
    fn lasts(&self, g: &Growth) -> (r: bool)
        ensures
            r <==> self@.next_agent + g.agents().len() <= i64::MAX && self@.next_channel
                + g.channels().len() <= i64::MAX && self@.next_message + g.posts() <= i64::MAX,
    {
        self.tables.next_agent as i128 + g.agents.len() as i128 <= i64::MAX as i128
            && self.tables.next_channel as i128 + g.channels.len() as i128 <= i64::MAX as i128
            && self.tables.next_message as i128 + g.posts as i128 <= i64::MAX as i128
    }

    /// Counts an agent of this name. Gives the reason why it is refused, if it is.
    fn foresee_agent(&self, g: &mut Growth, name: &str) -> (r: Option<StoreError>)
        requires
            self@.consistent(),
        ensures
            forall|u: TablesView| #[trigger]
                old(g).leads(self@, u) ==> r == super::post::agent_fault(u, name@),
            final(g).agents() == newly(old(g).agents(), self@.knows_agent(name@), name@),
            final(g).channels() == old(g).channels(),
            final(g).posts() == old(g).posts(),
    {
        if self.find_agent(name).is_some() || has_text(&g.agents, name) {
            return None;
        }
        let ghost before = g.agents@;
        g.agents.push(name.to_owned());
        assert(g.agents() =~= texts(before).push(name@));
        match validate_name(name) {
            Ok(_) => None,
            Err(e) => Some(StoreError::Name(e)),
        }
    }

    /// Counts a channel of this name. Gives the reason why it is refused, if it is.
    fn foresee_channel(&self, g: &mut Growth, name: &str) -> (r: Option<StoreError>)
        requires
            self@.consistent(),
        ensures
            forall|u: TablesView| #[trigger]
                old(g).leads(self@, u) ==> r == super::post::channel_fault(u, name@),
            final(g).channels() == newly(old(g).channels(), self@.knows_channel(name@), name@),
            final(g).agents() == old(g).agents(),
            final(g).posts() == old(g).posts(),
    {
        if self.find_channel(name).is_some() || has_text(&g.channels, name) {
            return None;
        }
        let ghost before = g.channels@;
        g.channels.push(name.to_owned());
        assert(g.channels() =~= texts(before).push(name@));
        match validate_name(name) {
            Ok(_) => None,
            Err(e) => Some(StoreError::Name(e)),
        }
    }

    /// Counts the agents that a body calls.
    fn foresee_called(&self, g: &mut Growth, body: &str)
        requires
            self@.consistent(),
        ensures
            final(g).agents() == newly_called(self@, old(g).agents(), called_names(body@)),
            final(g).channels() == old(g).channels(),
            final(g).posts() == old(g).posts(),
    {
        let names = called(body);
        let ghost all = called_names(body@);
        let mut i: usize = 0;
        assert(all.take(0) =~= seq![]);
        while i < names.len()
            invariant
                self@.consistent(),
                texts(names@) == all,
                i <= names@.len(),
                g.agents() == newly_called(self@, old(g).agents(), all.take(i as int)),
                g.channels() == old(g).channels(),
                g.posts() == old(g).posts(),
            decreases names@.len() - i,
        {
            proof {
                assert(all[i as int] == names@[i as int]@);
                assert(all.take(i + 1).drop_last() =~= all.take(i as int));
                assert(all.take(i + 1).last() == all[i as int]);
            }
            self.foresee_agent(g, names[i].as_str());
            i = i + 1;
        }
        assert(all.take(i as int) =~= all);
    }

    /// Counts what posting a draft will add, on tables that are ahead by what was counted so
    /// far. Gives the reason why it is not posted, if it is not.
    pub(super) fn foresee(
        &self,
        g: &mut Growth,
        from: &str,
        to: &Recipient,
        body: &str,
        reply_to: Option<i64>,
        Ghost(u): Ghost<TablesView>,
        Ghost(d): Ghost<Draft>,
        Ghost(now): Ghost<Timestamp>,
    ) -> (r: Option<StoreError>)
        requires
            self@.consistent(),
            old(g).posts() < usize::MAX,
            old(g).leads(self@, u),
            u.fits(),
            d.from == from@,
            d.to == to@,
            d.body == body@,
            d.reply_to == reply_to,
        ensures
            r == hindrance(u, d, now),
            r is None ==> final(g).leads(self@, u.posted(d, now)),
            final(g).posts() <= old(g).posts() + 1,
    {
        let ghost t = self@;
        let ghost a0 = g.agents();
        let ghost c0 = g.channels();
        let ghost n = g.posts();
        let ghost u1 = u.with_agent(from@, now);
        proof {
            lemma_agent_ahead(t, u, a0, c0, n, from@, now);
        }
        let f = self.foresee_agent(g, from);
        if f.is_some() {
            return f;
        }
        let ghost a1 = g.agents();
        assert(g.leads(t, u1));
        let ghost u2 = u.with_ends(d, now);
        let f: Option<StoreError> = match to {
            Recipient::Agent(name) => {
                proof {
                    lemma_agent_ahead(t, u1, a1, c0, n, name@, now);
                    lemma_seen(u, from@, now);
                    assert(super::post::agent_fault(u1, name@) == super::post::agent_fault(u, name@));
                }
                self.foresee_agent(g, name.as_str())
            },
            Recipient::Channel(name) => {
                proof {
                    lemma_channel_ahead(t, u1, a1, c0, n, name@, now);
                    lemma_seen(u, from@, now);
                    assert(u1.channel_names() == u.channel_names());
                    assert(super::post::channel_fault(u1, name@) == super::post::channel_fault(
                        u,
                        name@,
                    ));
                }
                self.foresee_channel(g, name.as_str())
            },
            Recipient::Broadcast => None,
        };
        if f.is_some() {
            return f;
        }
        assert(g.leads(t, u2));
        match reply_to {
            Some(m) => {
                let new: bool = self.tables.next_message <= m && (m as i128)
                    < self.tables.next_message as i128 + g.posts as i128;
                let there = self.find_message(m);
                assert(u.has_message(m) <==> t.has_message(m) || t.next_message <= m
                    < t.next_message + n);
                if there.is_none() && !new {
                    return Some(StoreError::UnknownReply);
                }
            },
            None => {},
        }
        assert(draft_fault(u, d) is None);
        let ghost v = u.addressed(d, now).0;
        let dm: bool = match to {
            Recipient::Agent(_) => true,
            _ => false,
        };
        if !dm {
            let ghost a2 = g.agents();
            let ghost c2 = g.channels();
            self.foresee_called(g, body);
            proof {
                let id = u2.agent_id(d.from);
                let first = u2.direct_recipients(u2.target_of(d.to), id);
                lemma_called_ahead(t, u2, a2, c2, n, called_names(d.body), id, first, now);
            }
        }
        assert(g.leads(t, v));
        g.posts = g.posts + 1;
        proof {
            assert(rising(t.message_ids(), t.next_message));
            lemma_post_ahead(t, u, g.agents(), g.channels(), n, d, now);
            assert(g.leads(t, u.posted(d, now)));
        }
        if self.lasts(g) {
            None
        } else {
            Some(StoreError::Full)
        }
    }
}

} // verus!
