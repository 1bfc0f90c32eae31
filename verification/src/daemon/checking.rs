//! Telling whether tables are consistent.

use vstd::prelude::*;
use vstd::seq_lib::*;

use crate::text::same;

use super::tables::{rising, Tables, Target};

verus! {

/// Whether ids ascend, all of them below the next one.
fn check_rising(ids: &Vec<i64>, next: i64) -> (r: bool)
    ensures
        r == rising(ids@, next as int),
{
    let mut i: usize = 0;
    while i < ids.len()
        invariant
            i <= ids@.len(),
            forall|a: int, b: int| 0 <= a < b < i ==> #[trigger] ids@[a] < #[trigger] ids@[b],
            forall|a: int| 0 <= a < i ==> #[trigger] ids@[a] < next,
        decreases ids@.len() - i,
    {
        if ids[i] >= next {
            assert(!(ids@[i as int] < next));
            return false;
        }
        if i > 0 && ids[i - 1] >= ids[i] {
            assert(!(ids@[i - 1] < ids@[i as int]));
            return false;
        }
        assert forall|a: int, b: int| 0 <= a < b < i + 1 implies #[trigger] ids@[a]
            < #[trigger] ids@[b] by {
            if b == i && a < i - 1 {
                assert(ids@[a] < ids@[i - 1]);
            }
        }
        i = i + 1;
    }
    true
}

/// Whether rising ids hold `id`.
fn among(ids: &Vec<i64>, next: i64, id: i64) -> (r: bool)
    requires
        rising(ids@, next as int),
    ensures
        r == ids@.contains(id),
{
    let mut low: usize = 0;
    let mut high: usize = ids.len();
    while low < high
        invariant
            rising(ids@, next as int),
            low <= high <= ids@.len(),
            forall|j: int| 0 <= j < low ==> #[trigger] ids@[j] < id,
            forall|j: int| high <= j < ids@.len() ==> #[trigger] ids@[j] > id,
        decreases high - low,
    {
        let mid: usize = low + (high - low) / 2;
        let here = ids[mid];
        if here == id {
            return true;
        }
        if here < id {
            low = mid + 1;
        } else {
            high = mid;
        }
    }
    false
}

/// The texts of a list.
spec fn words(list: Seq<&str>) -> Seq<Seq<char>> {
    Seq::new(list.len(), |i: int| list[i]@)
}

/// Whether no text occurs twice.
fn check_distinct(list: &Vec<&str>) -> (r: bool)
    ensures
        r == words(list@).no_duplicates(),
{
    let ghost names = words(list@);
    let mut i: usize = 0;
    while i < list.len()
        invariant
            names == words(list@),
            i <= list@.len(),
            forall|a: int, b: int| 0 <= a < b < i ==> names[a] != names[b],
        decreases list@.len() - i,
    {
        let mut j: usize = 0;
        while j < i
            invariant
                names == words(list@),
                i < list@.len(),
                j <= i,
                forall|a: int| 0 <= a < j ==> names[a] != names[i as int],
            decreases i - j,
        {
            if same(list[j], list[i]) {
                assert(names[j as int] == names[i as int]);
                return false;
            }
            assert(names[j as int] != names[i as int]);
            j = j + 1;
        }
        i = i + 1;
    }
    true
}

impl Tables {
    fn agent_ids(&self) -> (r: Vec<i64>)
        ensures
            r@ == self@.agent_ids(),
    {
        let mut r: Vec<i64> = Vec::new();
        let mut i: usize = 0;
        while i < self.agents.len()
            invariant
                i <= self.agents@.len(),
                r@ == self@.agent_ids().take(i as int),
            decreases self.agents@.len() - i,
        {
            r.push(self.agents[i].id);
            i = i + 1;
            assert(r@ =~= self@.agent_ids().take(i as int));
        }
        assert(r@ =~= self@.agent_ids());
        r
    }

    fn channel_ids(&self) -> (r: Vec<i64>)
        ensures
            r@ == self@.channel_ids(),
    {
        let mut r: Vec<i64> = Vec::new();
        let mut i: usize = 0;
        while i < self.channels.len()
            invariant
                i <= self.channels@.len(),
                r@ == self@.channel_ids().take(i as int),
            decreases self.channels@.len() - i,
        {
            r.push(self.channels[i].id);
            i = i + 1;
            assert(r@ =~= self@.channel_ids().take(i as int));
        }
        assert(r@ =~= self@.channel_ids());
        r
    }

    fn message_ids(&self) -> (r: Vec<i64>)
        ensures
            r@ == self@.message_ids(),
    {
        let mut r: Vec<i64> = Vec::new();
        let mut i: usize = 0;
        while i < self.messages.len()
            invariant
                i <= self.messages@.len(),
                r@ == self@.message_ids().take(i as int),
            decreases self.messages@.len() - i,
        {
            r.push(self.messages[i].id);
            i = i + 1;
            assert(r@ =~= self@.message_ids().take(i as int));
        }
        assert(r@ =~= self@.message_ids());
        r
    }

    fn scheduled_ids(&self) -> (r: Vec<i64>)
        ensures
            r@ == self@.scheduled_ids(),
    {
        let mut r: Vec<i64> = Vec::new();
        let mut i: usize = 0;
        while i < self.scheduled.len()
            invariant
                i <= self.scheduled@.len(),
                r@ == self@.scheduled_ids().take(i as int),
            decreases self.scheduled@.len() - i,
        {
            r.push(self.scheduled[i].id);
            i = i + 1;
            assert(r@ =~= self@.scheduled_ids().take(i as int));
        }
        assert(r@ =~= self@.scheduled_ids());
        r
    }

    fn session_ids(&self) -> (r: Vec<i64>)
        ensures
            r@ == self@.session_ids(),
    {
        let mut r: Vec<i64> = Vec::new();
        let mut i: usize = 0;
        while i < self.sessions.len()
            invariant
                i <= self.sessions@.len(),
                r@ == self@.session_ids().take(i as int),
            decreases self.sessions@.len() - i,
        {
            r.push(self.sessions[i].id);
            i = i + 1;
            assert(r@ =~= self@.session_ids().take(i as int));
        }
        assert(r@ =~= self@.session_ids());
        r
    }

    fn check_agent_names(&self) -> (r: bool)
        ensures
            r == self@.agent_names().no_duplicates(),
    {
        let mut list: Vec<&str> = Vec::new();
        let mut i: usize = 0;
        while i < self.agents.len()
            invariant
                i <= self.agents@.len(),
                words(list@) == self@.agent_names().take(i as int),
            decreases self.agents@.len() - i,
        {
            let ghost done = list@;
            list.push(self.agents[i].name.as_str());
            assert(words(list@) =~= words(done).push(self@.agent_names()[i as int]));
            i = i + 1;
            assert(words(list@) =~= self@.agent_names().take(i as int));
        }
        assert(self@.agent_names().take(i as int) =~= self@.agent_names());
        check_distinct(&list)
    }

    fn check_channel_names(&self) -> (r: bool)
        ensures
            r == self@.channel_names().no_duplicates(),
    {
        let mut list: Vec<&str> = Vec::new();
        let mut i: usize = 0;
        while i < self.channels.len()
            invariant
                i <= self.channels@.len(),
                words(list@) == self@.channel_names().take(i as int),
            decreases self.channels@.len() - i,
        {
            let ghost done = list@;
            list.push(self.channels[i].name.as_str());
            assert(words(list@) =~= words(done).push(self@.channel_names()[i as int]));
            i = i + 1;
            assert(words(list@) =~= self@.channel_names().take(i as int));
        }
        assert(self@.channel_names().take(i as int) =~= self@.channel_names());
        check_distinct(&list)
    }

    fn check_members(&self, agents: &Vec<i64>, channels: &Vec<i64>) -> (r: bool)
        requires
            agents@ == self@.agent_ids(),
            channels@ == self@.channel_ids(),
            rising(agents@, self@.next_agent),
            rising(channels@, self@.next_channel),
        ensures
            r == self@.members_ok(),
    {
        let ghost rows = self@.members;
        let mut i: usize = 0;
        while i < self.members.len()
            invariant
                agents@ == self@.agent_ids(),
                channels@ == self@.channel_ids(),
                rising(agents@, self@.next_agent),
                rising(channels@, self@.next_channel),
                rows == self@.members,
                i <= rows.len(),
                forall|k: int|
                    0 <= k < i ==> self@.has_agent((#[trigger] rows[k]).agent)
                        && self@.has_channel(rows[k].channel),
                forall|a: int, b: int|
                    0 <= a < b < i ==> (#[trigger] rows[a]).agent != (#[trigger] rows[b]).agent
                        || rows[a].channel != rows[b].channel,
            decreases rows.len() - i,
        {
            let m = self.members[i];
            assert(rows[i as int] == m);
            if !among(agents, self.next_agent, m.agent) || !among(
                channels,
                self.next_channel,
                m.channel,
            ) {
                return false;
            }
            let mut j: usize = 0;
            while j < i
                invariant
                    rows == self@.members,
                    i < rows.len(),
                    m == rows[i as int],
                    j <= i,
                    forall|a: int|
                        0 <= a < j ==> (#[trigger] rows[a]).agent != m.agent || rows[a].channel
                            != m.channel,
                decreases i - j,
            {
                let o = self.members[j];
                assert(rows[j as int] == o);
                if o.agent == m.agent && o.channel == m.channel {
                    return false;
                }
                j = j + 1;
            }
            i = i + 1;
        }
        true
    }

    fn check_messages(&self, agents: &Vec<i64>, channels: &Vec<i64>, messages: &Vec<i64>) -> (r:
        bool)
        requires
            agents@ == self@.agent_ids(),
            channels@ == self@.channel_ids(),
            messages@ == self@.message_ids(),
            rising(agents@, self@.next_agent),
            rising(channels@, self@.next_channel),
            rising(messages@, self@.next_message),
        ensures
            r == self@.messages_ok(),
    {
        let ghost rows = self@.messages;
        let mut i: usize = 0;
        while i < self.messages.len()
            invariant
                agents@ == self@.agent_ids(),
                channels@ == self@.channel_ids(),
                messages@ == self@.message_ids(),
                rising(agents@, self@.next_agent),
                rising(channels@, self@.next_channel),
                rising(messages@, self@.next_message),
                rows == self@.messages,
                rows.len() == self.messages@.len(),
                i <= rows.len(),
                forall|k: int|
                    0 <= k < i ==> self@.has_agent((#[trigger] rows[k]).from) && self@.has_target(
                        rows[k].target,
                    ) && self@.has_reply(rows[k].reply_to),
            decreases rows.len() - i,
        {
            let m = &self.messages[i];
            assert(rows[i as int] == m@);
            let target: bool = match m.target {
                Target::Agent(a) => among(agents, self.next_agent, a),
                Target::Channel(c) => among(channels, self.next_channel, c),
                Target::Broadcast => true,
            };
            let reply: bool = match m.reply_to {
                Some(r) => among(messages, self.next_message, r),
                None => true,
            };
            if !among(agents, self.next_agent, m.from) || !target || !reply {
                return false;
            }
            i = i + 1;
        }
        true
    }

    fn check_deliveries(&self, agents: &Vec<i64>, messages: &Vec<i64>) -> (r: bool)
        requires
            agents@ == self@.agent_ids(),
            messages@ == self@.message_ids(),
            rising(agents@, self@.next_agent),
            rising(messages@, self@.next_message),
        ensures
            r == self@.deliveries_ok(),
    {
        let ghost rows = self@.deliveries;
        let mut i: usize = 0;
        while i < self.deliveries.len()
            invariant
                agents@ == self@.agent_ids(),
                messages@ == self@.message_ids(),
                rising(agents@, self@.next_agent),
                rising(messages@, self@.next_message),
                rows == self@.deliveries,
                i <= rows.len(),
                forall|k: int|
                    0 <= k < i ==> self@.has_message((#[trigger] rows[k]).message)
                        && self@.has_agent(rows[k].agent),
                forall|a: int, b: int|
                    0 <= a < b < i ==> (#[trigger] rows[a]).message <= (#[trigger] rows[b]).message,
                forall|a: int, b: int|
                    0 <= a < b < i ==> (#[trigger] rows[a]).message != (#[trigger] rows[b]).message
                        || rows[a].agent != rows[b].agent,
            decreases rows.len() - i,
        {
            let d = self.deliveries[i];
            assert(rows[i as int] == d);
            if !among(messages, self.next_message, d.message) || !among(
                agents,
                self.next_agent,
                d.agent,
            ) {
                return false;
            }
            if i > 0 {
                let o = self.deliveries[i - 1];
                assert(rows[i - 1] == o);
                if o.message > d.message {
                    return false;
                }
            }
            assert forall|a: int| 0 <= a < i implies (#[trigger] rows[a]).message <= d.message by {
                if a < i - 1 {
                    assert(rows[a].message <= rows[i - 1].message);
                }
            }
            let mut j: usize = i;
            while j > 0 && self.deliveries[j - 1].message == d.message
                invariant
                    rows == self@.deliveries,
                    i < rows.len(),
                    d == rows[i as int],
                    j <= i,
                    forall|a: int|
                        j <= a < i ==> (#[trigger] rows[a]).message != d.message || rows[a].agent
                            != d.agent,
                decreases j,
            {
                let o = self.deliveries[j - 1];
                assert(rows[j - 1] == o);
                if o.agent == d.agent {
                    return false;
                }
                j = j - 1;
            }
            assert forall|a: int| 0 <= a < i implies (#[trigger] rows[a]).message != d.message
                || rows[a].agent != d.agent by {
                if a < j {
                    assert(rows[j - 1].message != d.message);
                    assert(rows[j - 1].message <= d.message);
                    if a < j - 1 {
                        assert(rows[a].message <= rows[j - 1].message);
                    }
                }
            }
            i = i + 1;
        }
        true
    }

    fn check_sessions(&self, agents: &Vec<i64>) -> (r: bool)
        requires
            agents@ == self@.agent_ids(),
            rising(agents@, self@.next_agent),
        ensures
            r == (forall|k: int|
                0 <= k < self@.sessions.len() ==> self@.has_agent(
                    (#[trigger] self@.sessions[k]).agent,
                )),
    {
        let ghost rows = self@.sessions;
        let mut i: usize = 0;
        while i < self.sessions.len()
            invariant
                agents@ == self@.agent_ids(),
                rising(agents@, self@.next_agent),
                rows == self@.sessions,
                i <= rows.len(),
                forall|k: int| 0 <= k < i ==> self@.has_agent((#[trigger] rows[k]).agent),
            decreases rows.len() - i,
        {
            let s = self.sessions[i];
            assert(rows[i as int] == s);
            if !among(agents, self.next_agent, s.agent) {
                return false;
            }
            i = i + 1;
        }
        true
    }

    /// Whether the tables are consistent.
    pub fn is_consistent(&self) -> (r: bool)
        ensures
            r == self@.consistent(),
    {
        let agents = self.agent_ids();
        let channels = self.channel_ids();
        let messages = self.message_ids();
        let scheduled = self.scheduled_ids();
        let sessions = self.session_ids();
        if !check_rising(&agents, self.next_agent) || !check_rising(&channels, self.next_channel)
            || !check_rising(&messages, self.next_message) || !check_rising(
            &scheduled,
            self.next_scheduled,
        ) || !check_rising(&sessions, self.next_session) {
            return false;
        }
        self.check_agent_names() && self.check_channel_names() && self.check_members(
            &agents,
            &channels,
        ) && self.check_messages(&agents, &channels, &messages) && self.check_deliveries(
            &agents,
            &messages,
        ) && self.check_sessions(&agents)
    }
}

} // verus!
