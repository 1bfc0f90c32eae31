//! Handling requests: what the daemon answers, and how its state changes.

use vstd::prelude::*;
use vstd::seq_lib::*;
use vstd::string::*;

use crate::clock::Timestamp;
use crate::limits::{
    body_fault_words, byte_len, limit_fault_words, name_fault, query_fault_words, validate_body,
    validate_limit, validate_name, validate_query, NameError, DEFAULT_RETENTION_DAYS,
    MAX_BODY_BYTES, MAX_DELAY_SECONDS, MAX_INBOX_WAIT_MS, MAX_QUERY_CHARS, MAX_RESULTS,
    STALE_AFTER_DAYS,
};
use crate::mentions::has_text;
use crate::proto::{
    answer, DataView, Event, EventView, Hello, Op, Request, Response, ResponseData, StatusInfo,
    StatusView, When,
};
use crate::text::{decimal, join2, lemma_decimal_injective, push_u128, same};
use crate::types::{parsed_recipient, texts, views, Intent, Recipient, RecipientView};

use super::laws::{
    announces, law_due_is_announced, law_pass_settles_what_is_due, lemma_due_rows,
    lemma_filter_all, settled,
};
use super::posting::Draft;
use super::store::browse::{channel_history, detail_of, found, reading_dms};
use super::store::inbox::fetching;
use super::store::listing::{
    agents_detailed, channel_details, is_pending, is_unread, reported,
};
use super::store::membership::{is_open, joining, left, opening};
use super::store::opening::{seeded, OpenError};
use super::store::post::{seeing, sending};
use super::store::schedule::{
    cancelling, delivering_due, due_rows, is_due, is_shown, scheduling, shown, DeliveredView,
};
use super::store::upkeep::{cleaned, idle_agents, past_messages, pruned};
use super::store::{Store, StoreError};
use super::tables::{
    AgentView, ChannelView, MessageRowView, PayloadView, ScheduledStatus, Tables, TablesView,
};

verus! {

/// The daemon: the store, whether it is paused, and the names that sessions hold.
pub struct Daemon {
    store: Store,
    paused: bool,
    active: Vec<String>,
}

/// The daemon's state: its tables, whether it is paused, and the names that sessions hold.
pub struct DaemonView {
    pub tables: TablesView,
    pub paused: bool,
    pub active: Seq<Seq<char>>,
}

impl View for Daemon {
    type V = DaemonView;

    closed spec fn view(&self) -> DaemonView {
        DaemonView { tables: self.store@, paused: self.paused, active: texts(self.active@) }
    }
}

/// What a request is handled in: the time, and what a status report tells of the process.
pub struct Surroundings {
    pub now: Timestamp,
    pub uptime_seconds: u64,
    pub db_path: String,
    pub socket_path: String,
}

/// What becomes of a request: an answer, with an event for the subscribers where there is
/// one; or, for an inbox that is empty, a wait for so many milliseconds.
pub enum Step {
    Answer { response: Response, event: Option<Event> },
    Wait { wait_ms: u64 },
}

/// What a handled request leaves behind.
pub struct Handled {
    pub tables: TablesView,
    pub paused: bool,
    pub reply: Reply,
    pub event: Option<EventView>,
}

/// What a request is replied: data or the words for an error at once, or a wait.
pub enum Reply {
    Now(Result<DataView, Seq<char>>),
    Later(u64),
}

/// The words for a send while the daemon is paused.
pub const PAUSED: &'static str = "daemon is paused; resume with `sidebar resume`";

/// The words for a delivery that lies too far ahead.
pub const TOO_FAR: &'static str = "scheduled delivery is too far ahead; max is 365 days";

/// The words for a history request that names neither a channel nor an agent.
pub const NO_HISTORY: &'static str = "history requires --channel or --with";

/// The words for a name that is refused.
pub open spec fn refusal(e: NameError) -> Seq<char> {
    "invalid recipient: "@ + e.words()
}

/// The words with which a name is refused, if it is.
pub open spec fn name_refusal(name: Seq<char>) -> Option<Seq<char>> {
    match name_fault(name) {
        Some(e) => Some(refusal(e)),
        None => None,
    }
}

/// The words with which a recipient is refused, if it is.
pub open spec fn recipient_refusal(to: RecipientView) -> Option<Seq<char>> {
    match to.name() {
        Some(name) => name_refusal(name),
        None => None,
    }
}

/// A reply that changes nothing.
pub open spec fn replied(d: DaemonView, r: Result<DataView, Seq<char>>) -> Handled {
    Handled { tables: d.tables, paused: d.paused, reply: Reply::Now(r), event: None }
}

/// A reply to an operation of the store.
pub open spec fn stored(d: DaemonView, r: Result<(TablesView, DataView), StoreError>) -> Handled {
    match r {
        Ok((t, data)) => Handled {
            tables: t,
            paused: d.paused,
            reply: Reply::Now(Ok(data)),
            event: None,
        },
        Err(e) => replied(d, Err(e.words())),
    }
}

/// Handling a send. While the daemon is paused, none is accepted.
pub open spec fn handle_send(
    d: DaemonView,
    agent: Seq<char>,
    to: Seq<char>,
    body: Seq<char>,
    intent: Option<Intent>,
    reply_to: Option<i64>,
    now: Timestamp,
) -> Handled {
    let recipient = parsed_recipient(to);
    if d.paused {
        replied(d, Err(PAUSED@))
    } else if recipient_refusal(recipient) is Some {
        replied(d, Err(recipient_refusal(recipient)->0))
    } else if byte_len(body) > MAX_BODY_BYTES {
        replied(d, Err(body_fault_words(body)))
    } else {
        match sending(d.tables, (Draft { from: agent, to: recipient, body, intent, reply_to }), now) {
            Ok((t, id)) => Handled {
                tables: t,
                paused: d.paused,
                reply: Reply::Now(Ok(DataView::SendOk(id))),
                event: Some(
                    EventView::Message { to: recipient, from: agent, body, message_id: id },
                ),
            },
            Err(e) => replied(d, Err(e.words())),
        }
    }
}

/// When a scheduled message is due, if that is not too far ahead.
pub open spec fn due_at(when: When, now: Timestamp) -> Option<Timestamp> {
    match when {
        When::DelaySeconds { delay_seconds } => if delay_seconds <= MAX_DELAY_SECONDS && now.secs
            + delay_seconds <= i64::MAX {
            Some(Timestamp { secs: (now.secs + delay_seconds) as i64, nanos: now.nanos })
        } else {
            None
        },
        When::At { at } => if at.at() <= now.at() + MAX_DELAY_SECONDS * 1000000000 {
            Some(at)
        } else {
            None
        },
    }
}

/// Handling a request to schedule.
pub open spec fn handle_schedule(
    d: DaemonView,
    agent: Seq<char>,
    to: Seq<char>,
    body: Seq<char>,
    when: When,
    now: Timestamp,
) -> Handled {
    let recipient = parsed_recipient(to);
    if recipient_refusal(recipient) is Some {
        replied(d, Err(recipient_refusal(recipient)->0))
    } else if byte_len(body) > MAX_BODY_BYTES {
        replied(d, Err(body_fault_words(body)))
    } else {
        match due_at(when, now) {
            None => replied(d, Err(TOO_FAR@)),
            Some(at) => {
                let payload = PayloadView { from: agent, to, body, intent: None, reply_to: None };
                match scheduling(d.tables, payload, at, now) {
                    Ok((t, id)) => stored(d, Ok((t, DataView::SendOk(id)))),
                    Err(e) => stored(d, Err(e)),
                }
            },
        }
    }
}

/// How long an empty inbox is waited for.
pub open spec fn wait_of(wait_ms: Option<u64>) -> u64 {
    match wait_ms {
        Some(ms) => if ms <= MAX_INBOX_WAIT_MS {
            ms
        } else {
            MAX_INBOX_WAIT_MS
        },
        None => 0,
    }
}

/// Handling an inbox call: the messages, or a wait where there are none.
pub open spec fn handle_inbox(
    d: DaemonView,
    agent: Seq<char>,
    wait_ms: Option<u64>,
    mentions_only: bool,
    now: Timestamp,
) -> Handled {
    match fetching(d.tables, agent, mentions_only, now) {
        Ok((t, messages)) => Handled {
            tables: t,
            paused: d.paused,
            reply: if messages.len() == 0 && wait_of(wait_ms) > 0 {
                Reply::Later(wait_of(wait_ms))
            } else {
                Reply::Now(Ok(DataView::Messages(messages)))
            },
            event: None,
        },
        Err(e) => replied(d, Err(e.words())),
    }
}

/// Handling a history request. A channel goes before an agent.
pub open spec fn handle_history(
    d: DaemonView,
    agent: Seq<char>,
    channel: Option<Seq<char>>,
    with: Option<Seq<char>>,
    limit: usize,
    now: Timestamp,
) -> Handled {
    if limit > MAX_RESULTS {
        replied(d, Err(limit_fault_words(limit as nat)))
    } else {
        match channel {
            Some(c) => replied(
                d,
                Ok(
                    DataView::Messages(
                        d.tables.messages_of(channel_history(d.tables, c, limit as int)),
                    ),
                ),
            ),
            None => match with {
                Some(other) => match reading_dms(d.tables, agent, other, limit as int, now) {
                    Ok((t, messages)) => stored(d, Ok((t, DataView::Messages(messages)))),
                    Err(e) => stored(d, Err(e)),
                },
                None => replied(d, Err(NO_HISTORY@)),
            },
        }
    }
}

/// The daemon's state as a status report tells it.
pub open spec fn status_of(d: DaemonView, s: Surroundings) -> StatusView {
    StatusView {
        paused: d.paused,
        agent_count: reported(d.tables.agents.len()),
        channel_count: reported(d.tables.channels.len()),
        unread_count: reported(d.tables.deliveries.filter(is_unread()).len()),
        pending_scheduled: reported(d.tables.scheduled.filter(is_pending()).len()),
        uptime_seconds: reported(s.uptime_seconds as nat),
        db_path: s.db_path@,
        socket_path: s.socket_path@,
    }
}

/// Handling a request to prune: the names in a dry run, otherwise the number of agents.
pub open spec fn handle_prune(d: DaemonView, days: i64, dry_run: bool, now: Timestamp) -> Handled {
    let idle = idle_agents(d.tables, now, days);
    if dry_run {
        replied(d, Ok(DataView::Agents(idle.map_values(|a: AgentView| a.name))))
    } else {
        stored(d, Ok((pruned(d.tables, now, days), DataView::SendOk(reported(idle.len())))))
    }
}

/// Handling a request.
pub open spec fn handling(d: DaemonView, s: Surroundings, agent: Seq<char>, op: Op) -> Handled {
    match op {
        Op::Participants => replied(d, Ok(DataView::Agents(d.tables.agent_names()))),
        Op::Agents { include_stale } => replied(
            d,
            Ok(
                DataView::AgentsDetailed(
                    agents_detailed(d.tables, include_stale, s.now, STALE_AFTER_DAYS),
                ),
            ),
        ),
        Op::Channels => replied(d, Ok(DataView::Channels(d.tables.channel_names()))),
        Op::ChannelsDetailed => replied(
            d,
            Ok(
                DataView::ChannelsDetailed(
                    d.tables.channels.map_values(|c: ChannelView| channel_details(d.tables, c)),
                ),
            ),
        ),
        Op::Send { to, body, intent, reply_to } => handle_send(
            d,
            agent,
            to@,
            body@,
            intent,
            reply_to,
            s.now,
        ),
        Op::Inbox { wait_ms, mentions_only } => handle_inbox(d, agent, wait_ms, mentions_only, s.now),
        Op::History { channel, with, limit } => handle_history(
            d,
            agent,
            crate::types::opt_text(channel),
            crate::types::opt_text(with),
            limit,
            s.now,
        ),
        Op::HistoryDetailed { channel, limit } => if limit > MAX_RESULTS {
            replied(d, Err(limit_fault_words(limit as nat)))
        } else {
            replied(
                d,
                Ok(
                    DataView::MessagesDetailed(
                        channel_history(d.tables, channel@, limit as int).map_values(
                            |m: MessageRowView| detail_of(d.tables, m),
                        ),
                    ),
                ),
            )
        },
        Op::Subscribe => replied(d, Ok(DataView::SendOk(0))),
        Op::Schedule { to, body, when } => handle_schedule(d, agent, to@, body@, when, s.now),
        Op::Join { channel } => match name_refusal(channel@) {
            Some(words) => replied(d, Err(words)),
            None => match joining(d.tables, agent, channel@, s.now) {
                Ok((t, _)) => stored(d, Ok((t, DataView::SendOk(0)))),
                Err(e) => stored(d, Err(e)),
            },
        },
        Op::Leave { channel } => match name_refusal(channel@) {
            Some(words) => replied(d, Err(words)),
            None => stored(d, Ok((left(d.tables, agent, channel@), DataView::SendOk(0)))),
        },
        Op::Search { query, limit } => if query@.len() > MAX_QUERY_CHARS {
            replied(d, Err(query_fault_words(query@)))
        } else if limit > MAX_RESULTS {
            replied(d, Err(limit_fault_words(limit as nat)))
        } else {
            replied(
                d,
                Ok(
                    DataView::Messages(
                        d.tables.messages_of(found(d.tables, query@, limit as int)),
                    ),
                ),
            )
        },
        Op::Pause => Handled {
            tables: d.tables,
            paused: true,
            reply: Reply::Now(Ok(DataView::SendOk(0))),
            event: Some(EventView::Paused),
        },
        Op::Resume => Handled {
            tables: d.tables,
            paused: false,
            reply: Reply::Now(Ok(DataView::SendOk(0))),
            event: Some(EventView::Resumed),
        },
        Op::Status => replied(d, Ok(DataView::Status(status_of(d, s)))),
        Op::Prune { inactive_days, dry_run } => handle_prune(d, inactive_days, dry_run, s.now),
        Op::Inspect { message_id } => if d.tables.has_message(message_id) {
            replied(
                d,
                Ok(
                    DataView::MessageDetail(
                        detail_of(d.tables, d.tables.message(message_id)),
                    ),
                ),
            )
        } else {
            replied(d, Err(StoreError::NoMessage(message_id).words()))
        },
        Op::Scheduled => replied(
            d,
            Ok(
                DataView::Scheduled(
                    d.tables.scheduled.filter(is_shown(agent)).map_values(shown()),
                ),
            ),
        ),
        Op::Cancel { scheduled_id } => match cancelling(d.tables, scheduled_id, agent) {
            Ok((t, _)) => stored(d, Ok((t, DataView::SendOk(0)))),
            Err(e) => stored(d, Err(e)),
        },
    }
}

/// Whether a step is what a handled request calls for.
pub open spec fn step_of(step: Step, id: u64, h: Handled) -> bool {
    match step {
        Step::Answer { response, event } => h.reply is Now && response@ == answer(id, h.reply->Now_0)
            && event_view(event) == h.event,
        Step::Wait { wait_ms } => h.reply == Reply::Later(wait_ms) && h.event is None,
    }
}

/// The view of an optional event.
pub open spec fn event_view(event: Option<Event>) -> Option<EventView> {
    match event {
        Some(e) => Some(e@),
        None => None,
    }
}

// ---- names of sessions ----

/// The names that a session which asks for `requested` is given, in turn: the name itself,
/// then `requested-2`, `requested-3` and so on.
pub open spec fn candidate(requested: Seq<char>, n: nat) -> Seq<char> {
    if n <= 1 {
        requested
    } else {
        requested + "-"@ + decimal(n)
    }
}

/// Whether a name is the first candidate that is not in use.
pub open spec fn first_free(active: Seq<Seq<char>>, requested: Seq<char>, name: Seq<char>) -> bool {
    exists|n: nat|
        1 <= n && name == #[trigger] candidate(requested, n) && !active.contains(name) && forall|
            k: nat,
        |
            1 <= k < n ==> active.contains(#[trigger] candidate(requested, k))
}

proof fn lemma_candidates_differ(requested: Seq<char>, a: nat, b: nat)
    requires
        1 <= a < b,
    ensures
        candidate(requested, a) != candidate(requested, b),
{
    reveal_strlit("-");
    let y = candidate(requested, b);
    if a == 1 {
        assert(y.len() > requested.len());
    } else {
        let x = candidate(requested, a);
        let n = requested.len() as int + 1;
        assert(x.skip(n) =~= decimal(a));
        assert(y.skip(n) =~= decimal(b));
        if x == y {
            lemma_decimal_injective(a, b);
        }
    }
}

/// Of distinct candidates, no more are in use than there are names in use.
proof fn lemma_in_use(active: Seq<Seq<char>>, requested: Seq<char>, n: nat)
    requires
        forall|k: nat| 1 <= k <= n ==> active.contains(#[trigger] candidate(requested, k)),
    ensures
        n <= active.len(),
{
    let tried = Seq::new(n, |i: int| candidate(requested, (i + 1) as nat));
    assert(tried.no_duplicates()) by {
        assert forall|i: int, j: int|
            0 <= i < tried.len() && 0 <= j < tried.len() && i != j implies tried[i]
            != tried[j] by {
            if i < j {
                lemma_candidates_differ(requested, (i + 1) as nat, (j + 1) as nat);
            } else {
                lemma_candidates_differ(requested, (j + 1) as nat, (i + 1) as nat);
            }
        }
    }
    tried.unique_seq_to_set();
    seq_to_set_is_finite(active);
    assert(tried.to_set().subset_of(active.to_set())) by {
        assert forall|x: Seq<char>| tried.to_set().contains(x) implies active.to_set().contains(
            x,
        ) by {
            let i = tried.index_of(x);
            assert(tried[i] == x);
            assert(active.contains(candidate(requested, (i + 1) as nat)));
        }
    }
    vstd::set_lib::lemma_len_subset(tried.to_set(), active.to_set());
    active.lemma_cardinality_of_set();
}

impl Daemon {
    /// What holds of a daemon between requests: its store is in order, and no name is held
    /// twice.
    pub closed spec fn wf(&self) -> bool {
        self.store.wf() && texts(self.active@).no_duplicates()
    }

    /// A daemon on a store: not paused, with no session.
    pub fn new(store: Store) -> (d: Daemon)
        requires
            store.wf(),
        ensures
            d.wf(),
            d@ == (DaemonView { tables: store@, paused: false, active: seq![] }),
            d.saved() == store.saved(),
    {
        let d = Daemon { store, paused: false, active: Vec::new() };
        assert(texts(d.active@) =~= seq![]);
        d
    }

    /// Whether the daemon is paused.
    pub fn is_paused(&self) -> (r: bool)
        ensures
            r == self@.paused,
    {
        self.paused
    }

    /// Reserves a name for a session: the requested one if it is free, otherwise the first
    /// free one of `requested-2`, `requested-3` and so on.
    pub fn reserve_unique_name(&mut self, requested: &str) -> (name: String)
        requires
            old(self).wf(),
        ensures
            final(self).wf(),
            final(self).saved() == old(self).saved(),
            first_free(old(self)@.active, requested@, name@),
            final(self)@ == (DaemonView { active: old(self)@.active.push(name@), ..old(self)@ }),
    {
        let ghost active = texts(self.active@);
        let mut n: u128 = 1;
        let mut name = requested.to_owned();
        assert(name@ == candidate(requested@, 1));
        while has_text(&self.active, name.as_str())
            invariant
                *self == *old(self),
                active == texts(self.active@),
                1 <= n <= self.active.len() + 1,
                name@ == candidate(requested@, n as nat),
                forall|k: nat| 1 <= k < n ==> active.contains(#[trigger] candidate(requested@, k)),
            decreases self.active@.len() + 1 - n,
        {
            proof {
                assert forall|k: nat| 1 <= k <= n implies active.contains(
                    #[trigger] candidate(requested@, k),
                ) by {}
                lemma_in_use(active, requested@, n as nat);
                assert(active.len() == self.active.len());
            }
            n = n + 1;
            name = join2(requested, "-");
            push_u128(&mut name, n);
            assert(name@ =~= candidate(requested@, n as nat));
        }
        let copy = name.clone();
        self.active.push(copy);
        proof {
            assert(texts(self.active@) =~= active.push(name@));
            assert(first_free(active, requested@, name@)) by {
                assert(name@ == candidate(requested@, n as nat));
            }
        }
        name
    }

    /// Gives a name back.
    pub fn release_name(&mut self, name: &str)
        requires
            old(self).wf(),
        ensures
            final(self).wf(),
            final(self).saved() == old(self).saved(),
            final(self)@ == (DaemonView {
                active: old(self)@.active.filter(other_name(name@)),
                ..old(self)@
            }),
    {
        let ghost rows = texts(self.active@);
        let ghost pred = other_name(name@);
        let mut kept: Vec<String> = Vec::new();
        let mut i: usize = 0;
        assert(rows.take(0).filter(pred) =~= seq![]) by {
            reveal(Seq::filter);
        }
        assert(texts(kept@) =~= rows.take(0).filter(pred));
        while i < self.active.len()
            invariant
                rows == texts(self.active@),
                rows.len() == self.active@.len(),
                pred == other_name(name@),
                i <= rows.len(),
                texts(kept@) == rows.take(i as int).filter(pred),
            decreases rows.len() - i,
        {
            let item = &self.active[i];
            proof {
                assert(rows[i as int] == item@);
                rows.take(i as int).lemma_filter_push(item@, pred);
                assert(rows.take(i + 1) =~= rows.take(i as int).push(item@));
            }
            if !same(item.as_str(), name) {
                let ghost done = kept@;
                let copy = item.clone();
                kept.push(copy);
                assert(texts(kept@) =~= texts(done).push(item@));
            }
            i = i + 1;
        }
        proof {
            assert(rows.take(i as int) =~= rows);
            super::keeping::lemma_filter_order(rows, pred);
            let left = rows.filter(pred);
            assert forall|a: int, b: int|
                0 <= a < left.len() && 0 <= b < left.len() && a != b implies left[a] != left[b] by {
                let (x, y) = if a < b {
                    (a, b)
                } else {
                    (b, a)
                };
                let (p, q) = choose|p: int, q: int|
                    0 <= p < q < rows.len() && #[trigger] rows[p] == rows.filter(pred)[x]
                        && #[trigger] rows[q] == rows.filter(pred)[y];
                assert(rows[p] != rows[q]);
            }
        }
        self.active = kept;
    }
}

/// Every name but this one.
pub open spec fn other_name(name: Seq<char>) -> spec_fn(Seq<char>) -> bool {
    |n: Seq<char>| n != name
}

// ---- connections ----

/// Who a connection speaks as: the agent, the session that was opened for it, and whether it
/// holds its name.
pub struct Welcome {
    pub agent: String,
    pub session: Option<i64>,
    pub holds_name: bool,
}

impl Daemon {
    /// Greets a connection. A session's agent is given a name that no other session holds,
    /// and its session is opened; a command line's agent is seen. Where the agent is refused,
    /// nothing changes, and the words for it are given.
    pub fn greet(&mut self, hello: &Hello, now: Timestamp) -> (r: Result<Welcome, String>)
        requires
            old(self).wf(),
        ensures
            final(self).wf(),
            final(self).saved() == old(self).saved(),
            match *hello {
                Hello::Mcp { agent, version } => match name_fault(agent@) {
                    Some(e) => r matches Err(words) && words@ == refusal(e) && final(self)@ == old(
                        self,
                    )@,
                    None => match r {
                        Ok(w) => first_free(old(self)@.active, agent@, w.agent@) && w.holds_name
                            && w.session is Some && opening(old(self)@.tables, w.agent@, now) == Ok::<
                            (TablesView, i64),
                            StoreError,
                        >((final(self)@.tables, w.session->0)) && final(self)@ == (DaemonView {
                            tables: final(self)@.tables,
                            active: old(self)@.active.push(w.agent@),
                            ..old(self)@
                        }),
                        Err(words) => final(self)@ == old(self)@ && exists|name: Seq<char>| #[trigger]
                            first_free(old(self)@.active, agent@, name) && opening(
                                old(self)@.tables,
                                name,
                                now,
                            ) is Err && words@ == opening(
                                old(self)@.tables,
                                name,
                                now,
                            )->Err_0.words(),
                    },
                },
                Hello::Cli { speaking_as } => match seeing(old(self)@.tables, speaking_as@, now) {
                    Ok((t, id)) => r matches Ok(w) && w.agent@ == speaking_as@ && w.session is None
                        && !w.holds_name && final(self)@ == (DaemonView { tables: t, ..old(self)@ }),
                    Err(e) => r matches Err(words) && words@ == e.words() && final(self)@ == old(
                        self,
                    )@,
                },
            },
    {
        match hello {
            Hello::Mcp { agent, .. } => {
                match validate_name(agent.as_str()) {
                    Err(e) => {
                        return Err(join2("invalid recipient: ", e.message()));
                    },
                    Ok(_) => {},
                }
                let ghost before = self@;
                let name = self.reserve_unique_name(agent.as_str());
                match self.store.open_session(name.as_str(), now) {
                    Ok(id) => Ok(Welcome { agent: name, session: Some(id), holds_name: true }),
                    Err(e) => {
                        self.release_name(name.as_str());
                        proof {
                            lemma_given_back(before.active, name@);
                        }
                        Err(e.message())
                    },
                }
            },
            Hello::Cli { speaking_as } => {
                match self.store.ensure_agent(speaking_as.as_str(), now) {
                    Ok(_) => Ok(
                        Welcome { agent: speaking_as.clone(), session: None, holds_name: false },
                    ),
                    Err(e) => Err(e.message()),
                }
            },
        }
    }

    /// Sees a connection off: its session is closed, and its name is free again.
    pub fn see_off(&mut self, who: &Welcome, now: Timestamp)
        requires
            old(self).wf(),
        ensures
            final(self).wf(),
            final(self).saved() == old(self).saved(),
            final(self)@ == (DaemonView {
                tables: match who.session {
                    Some(id) => old(self)@.tables.end_session(id, now),
                    None => old(self)@.tables,
                },
                paused: old(self)@.paused,
                active: if who.holds_name {
                    old(self)@.active.filter(other_name(who.agent@))
                } else {
                    old(self)@.active
                },
            }),
    {
        if let Some(id) = who.session {
            self.store.close_session(id, now);
        }
        if who.holds_name {
            self.release_name(who.agent.as_str());
        }
    }

    /// Hands out the changes since the journal was last taken, for whoever keeps them.
    pub fn take_journal(&mut self) -> (changes: Vec<super::journal::Change>)
        requires
            old(self).wf(),
        ensures
            final(self).wf(),
            final(self)@ == old(self)@,
            final(self).saved() == old(self)@.tables,
            old(self).saved().replay(views(changes@)) == old(self)@.tables,
    {
        self.store.take_journal()
    }

    /// The tables as they were when the journal was last taken.
    pub closed spec fn saved(&self) -> TablesView {
        self.store.saved()
    }
}

/// A name that was not held and is reserved and given back leaves the names as they were.
proof fn lemma_given_back(active: Seq<Seq<char>>, name: Seq<char>)
    requires
        !active.contains(name),
    ensures
        active.push(name).filter(other_name(name)) == active,
{
    let pred = other_name(name);
    active.lemma_filter_push(name, pred);
    assert(active.filter(pred) == active) by {
        lemma_filter_all(active, pred);
    }
}

// ---- requests ----

/// The words with which a name is refused, if it is.
fn refuse_name(name: &str) -> (r: Option<String>)
    ensures
        crate::types::opt_text(r) == name_refusal(name@),
{
    match validate_name(name) {
        Ok(_) => None,
        Err(e) => Some(join2("invalid recipient: ", e.message())),
    }
}

/// The words with which a recipient is refused, if it is.
fn refuse_recipient(to: &Recipient) -> (r: Option<String>)
    ensures
        crate::types::opt_text(r) == recipient_refusal(to@),
{
    match to {
        Recipient::Agent(name) => refuse_name(name.as_str()),
        Recipient::Channel(name) => refuse_name(name.as_str()),
        Recipient::Broadcast => None,
    }
}

/// When a scheduled message is due, if that is not too far ahead.
pub fn delivery_time(when: When, now: Timestamp) -> (r: Option<Timestamp>)
    ensures
        r == due_at(when, now),
{
    match when {
        When::DelaySeconds { delay_seconds } => {
            if delay_seconds > MAX_DELAY_SECONDS {
                return None;
            }
            now.plus_seconds(delay_seconds as u32)
        },
        When::At { at } => {
            let limit: i128 = now.instant() + (MAX_DELAY_SECONDS as i128) * 1000000000;
            if at.instant() <= limit {
                Some(at)
            } else {
                None
            }
        },
    }
}

/// How long an empty inbox is waited for.
pub fn inbox_wait(wait_ms: Option<u64>) -> (r: u64)
    ensures
        r == wait_of(wait_ms),
{
    match wait_ms {
        Some(ms) => if ms <= MAX_INBOX_WAIT_MS {
            ms
        } else {
            MAX_INBOX_WAIT_MS
        },
        None => 0,
    }
}

fn told(id: u64, r: Result<ResponseData, String>) -> (step: Step)
    ensures
        step matches Step::Answer { response, event } && event is None && response@ == answer(
            id,
            match r {
                Ok(data) => Ok(data@),
                Err(words) => Err(words@),
            },
        ),
{
    Step::Answer { response: Response::of(id, r), event: None }
}

fn count(n: usize) -> (r: i64)
    ensures
        r == reported(n as nat),
{
    if n as u128 <= i64::MAX as u128 {
        n as i64
    } else {
        i64::MAX
    }
}

fn seconds(n: u64) -> (r: i64)
    ensures
        r == reported(n as nat),
{
    if n <= i64::MAX as u64 {
        n as i64
    } else {
        i64::MAX
    }
}

impl Daemon {
    fn do_send(
        &mut self,
        id: u64,
        agent: &str,
        to: &str,
        body: &str,
        intent: Option<Intent>,
        reply_to: Option<i64>,
        now: Timestamp,
    ) -> (step: Step)
        requires
            old(self).wf(),
        ensures
            final(self).wf(),
            final(self).saved() == old(self).saved(),
            final(self)@.active == old(self)@.active,
            after(
                final(self)@,
                step,
                id,
                handle_send(old(self)@, agent@, to@, body@, intent, reply_to, now),
            ),
    {
        if self.paused {
            return told(id, Err(PAUSED.to_owned()));
        }
        let recipient = Recipient::parse(to);
        match refuse_recipient(&recipient) {
            Some(words) => {
                return told(id, Err(words));
            },
            None => {},
        }
        match validate_body(body) {
            Err(words) => {
                return told(id, Err(words));
            },
            Ok(_) => {},
        }
        match self.store.send_message(agent, &recipient, body, intent, reply_to, now) {
            Ok(message_id) => {
                let event = Event::Message {
                    to: recipient,
                    from: agent.to_owned(),
                    body: body.to_owned(),
                    message_id,
                };
                let response = Response::of(id, Ok(ResponseData::SendOk { message_id }));
                Step::Answer { response, event: Some(event) }
            },
            Err(e) => told(id, Err(e.message())),
        }
    }

    fn do_schedule(
        &mut self,
        id: u64,
        agent: &str,
        to: &str,
        body: &str,
        when: When,
        now: Timestamp,
    ) -> (step: Step)
        requires
            old(self).wf(),
        ensures
            final(self).wf(),
            final(self).saved() == old(self).saved(),
            final(self)@.active == old(self)@.active,
            after(
                final(self)@,
                step,
                id,
                handle_schedule(old(self)@, agent@, to@, body@, when, now),
            ),
    {
        let recipient = Recipient::parse(to);
        match refuse_recipient(&recipient) {
            Some(words) => {
                return told(id, Err(words));
            },
            None => {},
        }
        match validate_body(body) {
            Err(words) => {
                return told(id, Err(words));
            },
            Ok(_) => {},
        }
        match delivery_time(when, now) {
            None => told(id, Err(TOO_FAR.to_owned())),
            Some(at) => match self.store.schedule(agent, to, body, None, None, at, now) {
                Ok(message_id) => told(id, Ok(ResponseData::SendOk { message_id })),
                Err(e) => told(id, Err(e.message())),
            },
        }
    }

    fn do_inbox(
        &mut self,
        id: u64,
        agent: &str,
        wait_ms: Option<u64>,
        mentions_only: bool,
        now: Timestamp,
    ) -> (step: Step)
        requires
            old(self).wf(),
        ensures
            final(self).wf(),
            final(self).saved() == old(self).saved(),
            final(self)@.active == old(self)@.active,
            after(
                final(self)@,
                step,
                id,
                handle_inbox(old(self)@, agent@, wait_ms, mentions_only, now),
            ),
    {
        match self.store.fetch_inbox(agent, mentions_only, now) {
            Ok(messages) => {
                let wait_ms: u64 = inbox_wait(wait_ms);
                assert(views(messages@).len() == messages@.len());
                if messages.len() == 0 && wait_ms > 0 {
                    Step::Wait { wait_ms }
                } else {
                    told(id, Ok(ResponseData::Messages { messages }))
                }
            },
            Err(e) => told(id, Err(e.message())),
        }
    }

    fn do_history(
        &mut self,
        id: u64,
        agent: &str,
        channel: &Option<String>,
        with: &Option<String>,
        limit: usize,
        now: Timestamp,
    ) -> (step: Step)
        requires
            old(self).wf(),
        ensures
            final(self).wf(),
            final(self).saved() == old(self).saved(),
            final(self)@.active == old(self)@.active,
            after(
                final(self)@,
                step,
                id,
                handle_history(
                    old(self)@,
                    agent@,
                    crate::types::opt_text(*channel),
                    crate::types::opt_text(*with),
                    limit,
                    now,
                ),
            ),
    {
        match validate_limit(limit) {
            Err(words) => {
                return told(id, Err(words));
            },
            Ok(_) => {},
        }
        match channel {
            Some(c) => {
                let messages = self.store.history_channel(c.as_str(), limit);
                told(id, Ok(ResponseData::Messages { messages }))
            },
            None => match with {
                Some(other) => match self.store.history_dm(agent, other.as_str(), limit, now) {
                    Ok(messages) => told(id, Ok(ResponseData::Messages { messages })),
                    Err(e) => told(id, Err(e.message())),
                },
                None => told(id, Err(NO_HISTORY.to_owned())),
            },
        }
    }

    fn do_search(&self, query: &str, limit: usize) -> (r: Result<ResponseData, String>)
        requires
            self.wf(),
        ensures
            match r {
                Ok(data) => query@.len() <= MAX_QUERY_CHARS && limit <= MAX_RESULTS && data@
                    == DataView::Messages(
                    self@.tables.messages_of(found(self@.tables, query@, limit as int)),
                ),
                Err(words) => if query@.len() > MAX_QUERY_CHARS {
                    words@ == query_fault_words(query@)
                } else {
                    limit > MAX_RESULTS && words@ == limit_fault_words(limit as nat)
                },
            },
    {
        match validate_query(query) {
            Err(words) => {
                return Err(words);
            },
            Ok(_) => {},
        }
        match validate_limit(limit) {
            Err(words) => {
                return Err(words);
            },
            Ok(_) => {},
        }
        Ok(ResponseData::Messages { messages: self.store.search_messages(query, limit) })
    }

    fn do_detailed(&self, channel: &str, limit: usize) -> (r: Result<ResponseData, String>)
        requires
            self.wf(),
        ensures
            match r {
                Ok(data) => limit <= MAX_RESULTS && data@ == DataView::MessagesDetailed(
                    channel_history(self@.tables, channel@, limit as int).map_values(
                        |m: MessageRowView| detail_of(self@.tables, m),
                    ),
                ),
                Err(words) => limit > MAX_RESULTS && words@ == limit_fault_words(limit as nat),
            },
    {
        match validate_limit(limit) {
            Err(words) => {
                return Err(words);
            },
            Ok(_) => {},
        }
        Ok(
            ResponseData::MessagesDetailed {
                messages_detailed: self.store.history_detailed(channel, limit),
            },
        )
    }

    fn do_status(&self, s: &Surroundings) -> (r: StatusInfo)
        ensures
            r@ == status_of(self@, *s),
    {
        let (agent_count, channel_count, unread_count, pending_scheduled) =
            self.store.status_counts();
        StatusInfo {
            paused: self.paused,
            agent_count,
            channel_count,
            unread_count,
            pending_scheduled,
            uptime_seconds: seconds(s.uptime_seconds),
            db_path: s.db_path.clone(),
            socket_path: s.socket_path.clone(),
        }
    }

    fn do_join(&mut self, agent: &str, channel: &str, now: Timestamp) -> (r: Result<
        ResponseData,
        String,
    >)
        requires
            old(self).wf(),
        ensures
            final(self).wf(),
            final(self).saved() == old(self).saved(),
            final(self)@.active == old(self)@.active,
            final(self)@.paused == old(self)@.paused,
            match name_refusal(channel@) {
                Some(words) => r matches Err(w) && w@ == words && final(self)@.tables == old(
                    self,
                )@.tables,
                None => match joining(old(self)@.tables, agent@, channel@, now) {
                    Ok((t, _)) => r matches Ok(data) && data@ == DataView::SendOk(0)
                        && final(self)@.tables == t,
                    Err(e) => r matches Err(w) && w@ == e.words() && final(self)@.tables == old(
                        self,
                    )@.tables,
                },
            },
    {
        match refuse_name(channel) {
            Some(words) => {
                return Err(words);
            },
            None => {},
        }
        match self.store.join_channel(agent, channel, now) {
            Ok(_) => Ok(ResponseData::SendOk { message_id: 0 }),
            Err(e) => Err(e.message()),
        }
    }

    fn do_leave(&mut self, agent: &str, channel: &str) -> (r: Result<ResponseData, String>)
        requires
            old(self).wf(),
        ensures
            final(self).wf(),
            final(self).saved() == old(self).saved(),
            final(self)@.active == old(self)@.active,
            final(self)@.paused == old(self)@.paused,
            match name_refusal(channel@) {
                Some(words) => r matches Err(w) && w@ == words && final(self)@.tables == old(
                    self,
                )@.tables,
                None => r matches Ok(data) && data@ == DataView::SendOk(0) && final(self)@.tables
                    == left(old(self)@.tables, agent@, channel@),
            },
    {
        match refuse_name(channel) {
            Some(words) => {
                return Err(words);
            },
            None => {},
        }
        self.store.leave_channel(agent, channel);
        Ok(ResponseData::SendOk { message_id: 0 })
    }

    fn do_prune(&mut self, days: i64, dry_run: bool, now: Timestamp) -> (r: ResponseData)
        requires
            old(self).wf(),
        ensures
            final(self).wf(),
            final(self).saved() == old(self).saved(),
            final(self)@.active == old(self)@.active,
            final(self)@.tables == handle_prune(old(self)@, days, dry_run, now).tables,
            final(self)@.paused == handle_prune(old(self)@, days, dry_run, now).paused,
            handle_prune(old(self)@, days, dry_run, now).reply == Reply::Now(Ok(r@)),
    {
        let names = self.store.prune(days, dry_run, now);
        assert(texts(names@).len() == names@.len());
        if dry_run {
            ResponseData::Agents { agents: names }
        } else {
            ResponseData::SendOk { message_id: count(names.len()) }
        }
    }

    /// Handles a request of an agent.
    pub fn dispatch(&mut self, s: &Surroundings, agent: &str, request: &Request) -> (step: Step)
        requires
            old(self).wf(),
        ensures
            final(self).wf(),
            final(self).saved() == old(self).saved(),
            final(self)@.active == old(self)@.active,
            after(
                final(self)@,
                step,
                request.id,
                handling(old(self)@, *s, agent@, request.op),
            ),
    {
        let id: u64 = request.id;
        match &request.op {
            Op::Participants => {
                let agents = self.store.agent_names();
                told(id, Ok(ResponseData::Agents { agents }))
            },
            Op::Agents { include_stale } => {
                let agents_detailed = self.store.list_agents_detailed(
                    *include_stale,
                    STALE_AFTER_DAYS,
                    s.now,
                );
                told(id, Ok(ResponseData::AgentsDetailed { agents_detailed }))
            },
            Op::Channels => {
                let channels = self.store.list_channels();
                told(id, Ok(ResponseData::Channels { channels }))
            },
            Op::ChannelsDetailed => {
                let channels_detailed = self.store.channels_detailed();
                told(id, Ok(ResponseData::ChannelsDetailed { channels_detailed }))
            },
            Op::Send { to, body, intent, reply_to } => self.do_send(
                id,
                agent,
                to.as_str(),
                body.as_str(),
                *intent,
                *reply_to,
                s.now,
            ),
            Op::Inbox { wait_ms, mentions_only } => self.do_inbox(
                id,
                agent,
                *wait_ms,
                *mentions_only,
                s.now,
            ),
            Op::History { channel, with, limit } => self.do_history(
                id,
                agent,
                channel,
                with,
                *limit,
                s.now,
            ),
            Op::HistoryDetailed { channel, limit } => {
                let r = self.do_detailed(channel.as_str(), *limit);
                told(id, r)
            },
            Op::Subscribe => told(id, Ok(ResponseData::SendOk { message_id: 0 })),
            Op::Schedule { to, body, when } => self.do_schedule(
                id,
                agent,
                to.as_str(),
                body.as_str(),
                *when,
                s.now,
            ),
            Op::Join { channel } => {
                let r = self.do_join(agent, channel.as_str(), s.now);
                told(id, r)
            },
            Op::Leave { channel } => {
                let r = self.do_leave(agent, channel.as_str());
                told(id, r)
            },
            Op::Search { query, limit } => {
                let r = self.do_search(query.as_str(), *limit);
                told(id, r)
            },
            Op::Pause => {
                self.paused = true;
                let response = Response::of(id, Ok(ResponseData::SendOk { message_id: 0 }));
                Step::Answer { response, event: Some(Event::Paused) }
            },
            Op::Resume => {
                self.paused = false;
                let response = Response::of(id, Ok(ResponseData::SendOk { message_id: 0 }));
                Step::Answer { response, event: Some(Event::Resumed) }
            },
            Op::Status => {
                let info = self.do_status(s);
                told(id, Ok(ResponseData::Status(info)))
            },
            Op::Prune { inactive_days, dry_run } => {
                let data = self.do_prune(*inactive_days, *dry_run, s.now);
                told(id, Ok(data))
            },
            Op::Inspect { message_id } => match self.store.inspect(*message_id) {
                Ok(detail) => told(id, Ok(ResponseData::MessageDetail(detail))),
                Err(e) => told(id, Err(e.message())),
            },
            Op::Scheduled => {
                let scheduled = self.store.list_scheduled(agent);
                told(id, Ok(ResponseData::Scheduled { scheduled }))
            },
            Op::Cancel { scheduled_id } => match self.store.cancel(*scheduled_id, agent) {
                Ok(_) => told(id, Ok(ResponseData::SendOk { message_id: 0 })),
                Err(e) => told(id, Err(e.message())),
            },
        }
    }

    /// Looks into an inbox again that is waited for. Gives the answer, if there is one: the
    /// messages that have come, or an error.
    pub fn poll_inbox(&mut self, id: u64, agent: &str, mentions_only: bool, now: Timestamp) -> (r:
        Option<Response>)
        requires
            old(self).wf(),
        ensures
            final(self).wf(),
            final(self).saved() == old(self).saved(),
            final(self)@.active == old(self)@.active,
            final(self)@.paused == old(self)@.paused,
            match fetching(old(self)@.tables, agent@, mentions_only, now) {
                Ok((t, messages)) => final(self)@.tables == t && if messages.len() == 0 {
                    r is None
                } else {
                    r matches Some(response) && response@ == answer(
                        id,
                        Ok(DataView::Messages(messages)),
                    )
                },
                Err(e) => final(self)@.tables == old(self)@.tables && (r matches Some(response)
                    && response@ == answer(id, Err(e.words()))),
            },
    {
        match self.store.fetch_inbox(agent, mentions_only, now) {
            Ok(messages) => {
                assert(views(messages@).len() == messages@.len());
                if messages.len() == 0 {
                    None
                } else {
                    Some(Response::of(id, Ok(ResponseData::Messages { messages })))
                }
            },
            Err(e) => Some(Response::of(id, Err(e.message()))),
        }
    }

    /// One pass of the scheduler. Gives the events of what was delivered. While the daemon is
    /// paused, everything waits.
    pub fn tick(&mut self, now: Timestamp) -> (r: Result<Vec<Event>, StoreError>)
        requires
            old(self).wf(),
        ensures
            final(self).wf(),
            final(self).saved() == old(self).saved(),
            match ticking(old(self)@, now) {
                Ok((d, done)) => r matches Ok(events) && final(self)@ == d && views(events@)
                    == done.map_values(|d: DeliveredView| delivered_event(d)),
                Err(e) => r == Err::<Vec<Event>, StoreError>(e) && final(self)@ == old(self)@,
            },
    {
        if self.paused {
            let events: Vec<Event> = Vec::new();
            assert(views(events@) =~= Seq::<DeliveredView>::empty().map_values(
                |d: DeliveredView| delivered_event(d),
            ));
            return Ok(events);
        }
        match self.store.deliver_due(now) {
            Ok(done) => {
                let ghost all = views(done@).map_values(|d: DeliveredView| delivered_event(d));
                let mut events: Vec<Event> = Vec::new();
                let mut i: usize = 0;
                assert(views(events@) =~= all.take(0));
                while i < done.len()
                    invariant
                        all == views(done@).map_values(
                            |d: DeliveredView| delivered_event(d),
                        ),
                        i <= done@.len(),
                        views(events@) == all.take(i as int),
                    decreases done@.len() - i,
                {
                    let d = &done[i];
                    let event = Event::Message {
                        to: d.to.copied(),
                        from: d.from.clone(),
                        body: d.body.clone(),
                        message_id: d.message_id,
                    };
                    assert(views(done@)[i as int] == d@);
                    assert(all[i as int] == event@);
                    let ghost before = events@;
                    events.push(event);
                    i = i + 1;
                    assert(views(events@) =~= views(before).push(event@));
                    assert(views(events@) =~= all.take(i as int));
                }
                assert(all.take(i as int) =~= all);
                Ok(events)
            },
            Err(e) => Err(e),
        }
    }
}

/// What one pass of the scheduler gives: the daemon's state and what was delivered. While the
/// daemon is paused, everything waits.
pub open spec fn ticking(d: DaemonView, now: Timestamp) -> Result<
    (DaemonView, Seq<DeliveredView>),
    StoreError,
> {
    if d.paused {
        Ok((d, seq![]))
    } else {
        match delivering_due(d.tables, now) {
            Ok((t, done)) => Ok((DaemonView { tables: t, ..d }, done)),
            Err(e) => Err(e),
        }
    }
}

/// The event of a delivered send.
pub open spec fn delivered_event(d: DeliveredView) -> EventView {
    EventView::Message { to: d.to, from: d.from, body: d.body, message_id: d.message_id }
}

/// Whether a daemon's state and a step are what a handled request calls for.
pub open spec fn after(d: DaemonView, step: Step, id: u64, h: Handled) -> bool {
    d.tables == h.tables && d.paused == h.paused && step_of(step, id, h)
}

/// The answer to a wait that ended without a message.
pub fn empty_inbox(id: u64) -> (r: Response)
    ensures
        r@ == answer(id, Ok(DataView::Messages(seq![]))),
{
    let messages: Vec<crate::types::Message> = Vec::new();
    assert(views(messages@) =~= seq![]);
    Response::of(id, Ok(ResponseData::Messages { messages }))
}

/// Whether an event is reason to look into an inbox that is waited for: any message is, the
/// waiting agent's own included, for an agent may schedule a message to itself.
pub fn wakes(event: &Event) -> (r: bool)
    ensures
        r == (event@ is Message),
{
    match event {
        Event::Message { .. } => true,
        _ => false,
    }
}

/// Whether a connection receives events from here on: it asked for them, and was answered.
pub fn starts_events(request: &Request, response: &Response) -> (r: bool)
    ensures
        r == (request.op is Subscribe && response.ok),
{
    let asked: bool = match &request.op {
        Op::Subscribe => true,
        _ => false,
    };
    asked && response.ok
}

// ---- starting and stopping ----

/// A daemon that has started: how many sessions an earlier run had left open, and how many
/// messages were past their retention.
pub struct Started {
    pub daemon: Daemon,
    pub closed: usize,
    pub dropped: usize,
}

/// The tables with which a daemon starts: seeded, without open sessions, and without what is
/// past its retention.
pub open spec fn started(t: TablesView, now: Timestamp) -> TablesView {
    cleaned(seeded(t, now).end_all_sessions(now), now, DEFAULT_RETENTION_DAYS)
}

impl Daemon {
    /// Starts a daemon on tables: opens them, ends the sessions that an earlier run left open,
    /// and drops what is past its retention.
    pub fn start(tables: Tables, now: Timestamp) -> (r: Result<Started, OpenError>)
        ensures
            match r {
                Ok(s) => tables@.consistent() && seeded(tables@, now).fits() && s.daemon.wf()
                    && s.daemon.saved() == tables@ && s.daemon@ == (DaemonView {
                    tables: started(tables@, now),
                    paused: false,
                    active: seq![],
                }) && s.closed == seeded(tables@, now).sessions.filter(is_open()).len()
                    && s.dropped == past_messages(
                    seeded(tables@, now).end_all_sessions(now),
                    now,
                    DEFAULT_RETENTION_DAYS,
                ).len(),
                Err(OpenError::Inconsistent) => !tables@.consistent(),
                Err(OpenError::Full) => tables@.consistent() && !seeded(tables@, now).fits(),
            },
    {
        match Store::open(tables, now) {
            Ok(mut store) => {
                let closed = store.close_dangling_sessions(now);
                let dropped = store.cleanup_old(DEFAULT_RETENTION_DAYS, now);
                Ok(Started { daemon: Daemon::new(store), closed, dropped })
            },
            Err(e) => Err(e),
        }
    }

    /// Drops what is past its retention. Gives the number of messages dropped.
    pub fn clean_up(&mut self, now: Timestamp) -> (n: usize)
        requires
            old(self).wf(),
        ensures
            final(self).wf(),
            final(self).saved() == old(self).saved(),
            final(self)@ == (DaemonView {
                tables: cleaned(old(self)@.tables, now, DEFAULT_RETENTION_DAYS),
                ..old(self)@
            }),
            n == past_messages(old(self)@.tables, now, DEFAULT_RETENTION_DAYS).len(),
    {
        self.store.cleanup_old(DEFAULT_RETENTION_DAYS, now)
    }

    /// Ends every open session. Gives their number.
    pub fn stop(&mut self, now: Timestamp) -> (n: usize)
        requires
            old(self).wf(),
        ensures
            final(self).wf(),
            final(self).saved() == old(self).saved(),
            final(self)@ == (DaemonView {
                tables: old(self)@.tables.end_all_sessions(now),
                ..old(self)@
            }),
            n == old(self)@.tables.sessions.filter(is_open()).len(),
    {
        self.store.close_dangling_sessions(now)
    }
}

// ---- what holds of requests ----

/// A request that is refused changes nothing, and nobody is told of it but the caller.
pub proof fn law_refusal_changes_nothing(
    d: DaemonView,
    s: Surroundings,
    agent: Seq<char>,
    op: Op,
)
    requires
        handling(d, s, agent, op).reply matches Reply::Now(Err(words)),
    ensures
        handling(d, s, agent, op).tables == d.tables,
        handling(d, s, agent, op).paused == d.paused,
        handling(d, s, agent, op).event is None,
{
}

/// While the daemon is paused, every send is refused with the same words.
pub proof fn law_paused_refuses_sends(
    d: DaemonView,
    s: Surroundings,
    t: Surroundings,
    who: Seq<char>,
    agent: Seq<char>,
    to: String,
    body: String,
    intent: Option<Intent>,
    reply_to: Option<i64>,
)
    ensures
        ({
            let h = handling(d, s, who, Op::Pause);
            let paused = DaemonView { tables: h.tables, paused: h.paused, active: d.active };
            handling(paused, t, agent, (Op::Send { to, body, intent, reply_to })) == replied(
                paused,
                Err(PAUSED@),
            )
        }),
{
}

/// Pausing and resuming leaves the daemon running, with its tables as they were.
pub proof fn law_resume_undoes_pause(
    d: DaemonView,
    s: Surroundings,
    t: Surroundings,
    who: Seq<char>,
    other: Seq<char>,
)
    ensures
        ({
            let h = handling(d, s, who, Op::Pause);
            let paused = DaemonView { tables: h.tables, paused: h.paused, active: d.active };
            let k = handling(paused, t, other, Op::Resume);
            k.tables == d.tables && !k.paused && k.event == Some(EventView::Resumed)
        }),
{
}

/// A scheduled message whose time comes while the daemon is paused waits, and the first pass
/// after the daemon was resumed delivers it: it is announced, and no later pass finds it due.
pub proof fn law_held_until_resumed(
    d: DaemonView,
    s: Surroundings,
    who: Seq<char>,
    now: Timestamp,
    later: Timestamp,
    k: int,
)
    requires
        d.tables.valid(),
        d.paused,
        0 <= k < d.tables.scheduled.len(),
        is_due(now)(d.tables.scheduled[k]),
        d.tables.scheduled[k].payload is Some,
    ensures
        ticking(d, now) == Ok::<(DaemonView, Seq<DeliveredView>), StoreError>((d, seq![])),
        ({
            let h = handling(d, s, who, Op::Resume);
            let resumed = DaemonView { tables: h.tables, paused: h.paused, active: d.active };
            let p = d.tables.scheduled[k].payload->0;
            ticking(resumed, now) matches Ok((after, done)) ==> {
                &&& after.tables.scheduled[k] == settled(d.tables.scheduled[k])
                &&& after.tables.scheduled[k].status == ScheduledStatus::Delivered
                &&& announces(done, p)
                &&& !due_rows(after.tables, later).contains(after.tables.scheduled[k])
            }
        }),
{
    let t = d.tables;
    if delivering_due(t, now) is Ok {
        let u = delivering_due(t, now)->Ok_0.0;
        law_pass_settles_what_is_due(t, now, k);
        law_due_is_announced(t, now, k);
        lemma_due_rows(u, later, u.scheduled[k]);
    }
}

/// Nobody waits longer for an inbox than the limit, nor for one that holds messages.
pub proof fn law_waits_are_bounded(
    d: DaemonView,
    agent: Seq<char>,
    wait_ms: Option<u64>,
    mentions_only: bool,
    now: Timestamp,
)
    ensures
        match handle_inbox(d, agent, wait_ms, mentions_only, now).reply {
            Reply::Later(ms) => 0 < ms <= MAX_INBOX_WAIT_MS && fetching(
                d.tables,
                agent,
                mentions_only,
                now,
            )->Ok_0.1.len() == 0,
            Reply::Now(_) => true,
        },
{
}

/// Whatever name a session gets, releasing it leaves the names as they were, so that the next
/// session that asks for the same name gets the same one.
pub proof fn law_released_name_is_free(
    active: Seq<Seq<char>>,
    requested: Seq<char>,
    name: Seq<char>,
)
    requires
        first_free(active, requested, name),
    ensures
        active.push(name).filter(other_name(name)) == active,
        first_free(active.push(name).filter(other_name(name)), requested, name),
{
    lemma_given_back(active, name);
}

/// A name that nobody holds is given as it was asked for.
pub proof fn law_free_name_is_given(active: Seq<Seq<char>>, requested: Seq<char>)
    requires
        !active.contains(requested),
    ensures
        first_free(active, requested, requested),
{
    assert(requested == candidate(requested, 1));
}

/// Two sessions that ask for the same name in turn get different names.
pub proof fn law_names_are_unique(
    active: Seq<Seq<char>>,
    requested: Seq<char>,
    one: Seq<char>,
    two: Seq<char>,
)
    requires
        first_free(active, requested, one),
        first_free(active.push(one), requested, two),
    ensures
        one != two,
        !active.contains(one),
        !active.contains(two),
{
    assert(active.push(one)[active.len() as int] == one);
    if active.contains(two) {
        let i = active.index_of(two);
        assert(active.push(one)[i] == two);
    }
}

} // verus!
