//! Finding rows.

use vstd::prelude::*;
use vstd::seq_lib::*;

use crate::text::same;

use super::super::keeping::lemma_rising_unique;
use super::Store;

verus! {

impl Store {
    /// The id of the agent of this name, if it is known.
    pub(crate) fn find_agent(&self, name: &str) -> (r: Option<i64>)
        requires
            self@.consistent(),
        ensures
            match r {
                Some(id) => self@.knows_agent(name@) && id == self@.agent_id(name@),
                None => !self@.knows_agent(name@),
            },
    {
        let ghost names = self@.agent_names();
        let mut i: usize = 0;
        while i < self.tables.agents.len()
            invariant
                self@.consistent(),
                names == self@.agent_names(),
                i <= self.tables.agents@.len(),
                forall|j: int| 0 <= j < i ==> #[trigger] names[j] != name@,
            decreases self.tables.agents@.len() - i,
        {
            let row = &self.tables.agents[i];
            assert(names[i as int] == row.name@);
            if same(row.name.as_str(), name) {
                assert(names.contains(name@));
                assert(names.index_of(name@) == i);
                assert(self@.agents[i as int].id == row.id);
                return Some(row.id);
            }
            i = i + 1;
        }
        None
    }

    /// The id of the channel of this name, if it is known.
    pub(crate) fn find_channel(&self, name: &str) -> (r: Option<i64>)
        requires
            self@.consistent(),
        ensures
            match r {
                Some(id) => self@.knows_channel(name@) && id == self@.channel_id(name@),
                None => !self@.knows_channel(name@),
            },
    {
        let ghost names = self@.channel_names();
        let mut i: usize = 0;
        while i < self.tables.channels.len()
            invariant
                self@.consistent(),
                names == self@.channel_names(),
                i <= self.tables.channels@.len(),
                forall|j: int| 0 <= j < i ==> #[trigger] names[j] != name@,
            decreases self.tables.channels@.len() - i,
        {
            let row = &self.tables.channels[i];
            assert(names[i as int] == row.name@);
            if same(row.name.as_str(), name) {
                assert(names.contains(name@));
                assert(names.index_of(name@) == i);
                assert(self@.channels[i as int].id == row.id);
                return Some(row.id);
            }
            i = i + 1;
        }
        None
    }

    /// The name of the agent with this id.
    pub(super) fn name_of_agent(&self, id: i64) -> (r: String)
        requires
            self@.consistent(),
            self@.has_agent(id),
        ensures
            r@ == self@.agent_name(id),
    {
        let ghost ids = self@.agent_ids();
        let mut i: usize = 0;
        while i < self.tables.agents.len()
            invariant
                self@.consistent(),
                self@.has_agent(id),
                ids == self@.agent_ids(),
                i <= self.tables.agents@.len(),
                forall|j: int| 0 <= j < i ==> #[trigger] ids[j] != id,
            decreases self.tables.agents@.len() - i,
        {
            let row = &self.tables.agents[i];
            assert(ids[i as int] == row.id);
            if row.id == id {
                proof {
                    lemma_rising_unique(ids, self@.next_agent, i as int);
                    assert(self@.agents[i as int].name == row.name@);
                }
                return row.name.clone();
            }
            i = i + 1;
        }
        assert(false) by {
            let k = ids.index_of(id);
            assert(ids[k] == id);
        }
        String::new()
    }

    /// The name of the channel with this id.
    pub(super) fn name_of_channel(&self, id: i64) -> (r: String)
        requires
            self@.consistent(),
            self@.has_channel(id),
        ensures
            r@ == self@.channel_name(id),
    {
        let ghost ids = self@.channel_ids();
        let mut i: usize = 0;
        while i < self.tables.channels.len()
            invariant
                self@.consistent(),
                self@.has_channel(id),
                ids == self@.channel_ids(),
                i <= self.tables.channels@.len(),
                forall|j: int| 0 <= j < i ==> #[trigger] ids[j] != id,
            decreases self.tables.channels@.len() - i,
        {
            let row = &self.tables.channels[i];
            assert(ids[i as int] == row.id);
            if row.id == id {
                proof {
                    lemma_rising_unique(ids, self@.next_channel, i as int);
                    assert(self@.channels[i as int].name == row.name@);
                }
                return row.name.clone();
            }
            i = i + 1;
        }
        assert(false) by {
            let k = ids.index_of(id);
            assert(ids[k] == id);
        }
        String::new()
    }

    /// Where the message with this id is, if there is one.
    pub(super) fn find_message(&self, id: i64) -> (r: Option<usize>)
        requires
            self@.consistent(),
        ensures
            match r {
                Some(i) => self@.has_message(id) && i < self.tables.messages@.len() && i
                    == self@.message_ids().index_of(id) && self@.messages[i as int]
                    == self@.message(id) && self@.message(id).id == id,
                None => !self@.has_message(id),
            },
    {
        let ghost ids = self@.message_ids();
        let mut low: usize = 0;
        let mut high: usize = self.tables.messages.len();
        while low < high
            invariant
                self@.consistent(),
                ids == self@.message_ids(),
                low <= high <= self.tables.messages@.len(),
                forall|j: int| 0 <= j < low ==> #[trigger] ids[j] < id,
                forall|j: int| high <= j < ids.len() ==> #[trigger] ids[j] > id,
            decreases high - low,
        {
            let mid: usize = low + (high - low) / 2;
            let here = self.tables.messages[mid].id;
            assert(ids[mid as int] == here);
            if here == id {
                proof {
                    lemma_rising_unique(ids, self@.next_message, mid as int);
                }
                return Some(mid);
            }
            if here < id {
                low = mid + 1;
            } else {
                high = mid;
            }
        }
        None
    }

    /// Whether there is an agent of this name, or an id left for one.
    pub(super) fn has_agent_id(&self, name: &str) -> (r: bool)
        requires
            self@.consistent(),
        ensures
            r <==> self@.knows_agent(name@) || self@.next_agent < i64::MAX,
    {
        self.tables.next_agent < i64::MAX || self.find_agent(name).is_some()
    }

    /// Whether there is a channel of this name, or an id left for one.
    pub(super) fn has_channel_id(&self, name: &str) -> (r: bool)
        requires
            self@.consistent(),
        ensures
            r <==> self@.knows_channel(name@) || self@.next_channel < i64::MAX,
    {
        self.tables.next_channel < i64::MAX || self.find_channel(name).is_some()
    }
}

} // verus!
