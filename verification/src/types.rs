//! Agents, messages and recipients.

use vstd::prelude::*;
use vstd::string::*;

use crate::clock::Timestamp;
use crate::text::{chars_of, is_space, join2, lemma_trimmed_fixed, same, string_of, trim, trimmed};

verus! {

/// The texts of a list of strings.
pub open spec fn texts(list: Seq<String>) -> Seq<Seq<char>> {
    list.map_values(|s: String| s@)
}

/// The views of a list of values.
pub open spec fn views<T: View>(list: Seq<T>) -> Seq<T::V> {
    list.map_values(|t: T| t@)
}

/// The text of an optional string.
pub open spec fn opt_text(s: Option<String>) -> Option<Seq<char>> {
    match s {
        Some(t) => Some(t@),
        None => None,
    }
}

/// A known agent.
#[derive(Clone, Debug)]
pub struct Agent {
    pub id: i64,
    pub name: String,
    pub display_name: Option<String>,
    pub first_seen: Timestamp,
    pub last_seen: Timestamp,
}

/// Who a message goes to.
#[derive(Clone, Debug)]
pub enum Recipient {
    Agent(String),
    Channel(String),
    Broadcast,
}

/// A recipient, with its name as a sequence of characters.
pub enum RecipientView {
    Agent(Seq<char>),
    Channel(Seq<char>),
    Broadcast,
}

impl View for Recipient {
    type V = RecipientView;

    open spec fn view(&self) -> RecipientView {
        match *self {
            Recipient::Agent(name) => RecipientView::Agent(name@),
            Recipient::Channel(name) => RecipientView::Channel(name@),
            Recipient::Broadcast => RecipientView::Broadcast,
        }
    }
}

impl RecipientView {
    /// How the recipient is written: `@name`, `#name` or `*`.
    pub open spec fn label(self) -> Seq<char> {
        match self {
            RecipientView::Agent(name) => "@"@ + name,
            RecipientView::Channel(name) => "#"@ + name,
            RecipientView::Broadcast => "*"@,
        }
    }

    /// The name, where there is one.
    pub open spec fn name(self) -> Option<Seq<char>> {
        match self {
            RecipientView::Agent(name) => Some(name),
            RecipientView::Channel(name) => Some(name),
            RecipientView::Broadcast => None,
        }
    }
}

/// The recipient that a `to` field writes, white space at its ends aside: `@name` is an
/// agent, `#name` a channel, `*` everyone, and a bare name an agent.
pub open spec fn parsed_recipient(s: Seq<char>) -> RecipientView {
    let t = trimmed(s);
    if t == "*"@ {
        RecipientView::Broadcast
    } else if t.len() > 0 && t[0] == '@' {
        RecipientView::Agent(t.skip(1))
    } else if t.len() > 0 && t[0] == '#' {
        RecipientView::Channel(t.skip(1))
    } else {
        RecipientView::Agent(t)
    }
}

impl Recipient {
    /// Parses the wire `to` field.
    pub fn parse(s: &str) -> (r: Recipient)
        ensures
            r@ == parsed_recipient(s@),
    {
        let t = trim(s);
        if same(t.as_str(), "*") {
            return Recipient::Broadcast;
        }
        let chars = chars_of(t.as_str());
        if chars.len() > 0 && chars[0] == '@' {
            Recipient::Agent(string_of(&chars, 1, chars.len()))
        } else if chars.len() > 0 && chars[0] == '#' {
            Recipient::Channel(string_of(&chars, 1, chars.len()))
        } else {
            Recipient::Agent(t)
        }
    }

    /// How the recipient is written: `@name`, `#name` or `*`.
    pub fn label(&self) -> (r: String)
        ensures
            r@ == self@.label(),
    {
        match self {
            Recipient::Agent(name) => join2("@", name.as_str()),
            Recipient::Channel(name) => join2("#", name.as_str()),
            Recipient::Broadcast => "*".to_owned(),
        }
    }

    /// A copy.
    pub fn copied(&self) -> (r: Recipient)
        ensures
            r@ == self@,
    {
        match self {
            Recipient::Agent(name) => Recipient::Agent(name.clone()),
            Recipient::Channel(name) => Recipient::Channel(name.clone()),
            Recipient::Broadcast => Recipient::Broadcast,
        }
    }
}

/// Writing a recipient and parsing it again gives the recipient, whatever its name, unless
/// the name ends in white space.
pub proof fn law_label_parses_back(r: RecipientView)
    requires
        r.name() matches Some(name) ==> name.len() == 0 || !is_space(name.last()),
    ensures
        parsed_recipient(r.label()) == r,
{
    reveal_strlit("*");
    reveal_strlit("@");
    reveal_strlit("#");
    match r {
        RecipientView::Broadcast => {
            lemma_trimmed_fixed("*"@);
        },
        RecipientView::Agent(name) => {
            let s = "@"@ + name;
            assert(s[0] == '@');
            assert(name.len() > 0 ==> s.last() == name.last());
            lemma_trimmed_fixed(s);
            assert(s.skip(1) =~= name);
        },
        RecipientView::Channel(name) => {
            let s = "#"@ + name;
            assert(s[0] == '#');
            assert(name.len() > 0 ==> s.last() == name.last());
            lemma_trimmed_fixed(s);
            assert(s.skip(1) =~= name);
        },
    }
}

/// What a message asks of its reader.
#[derive(Clone, Copy, Debug, PartialEq, Eq, Structural)]
pub enum Intent {
    Fyi,
    Question,
    Task,
    Handoff,
}

/// The word for an intent.
pub open spec fn intent_word(i: Intent) -> Seq<char> {
    match i {
        Intent::Fyi => "fyi"@,
        Intent::Question => "question"@,
        Intent::Task => "task"@,
        Intent::Handoff => "handoff"@,
    }
}

/// The intent that a word names, if it names one.
pub open spec fn intent_of_word(s: Seq<char>) -> Option<Intent> {
    if s == "fyi"@ {
        Some(Intent::Fyi)
    } else if s == "question"@ {
        Some(Intent::Question)
    } else if s == "task"@ {
        Some(Intent::Task)
    } else if s == "handoff"@ {
        Some(Intent::Handoff)
    } else {
        None
    }
}

/// The word for an intent.
pub fn intent_to_str(i: Intent) -> (r: &'static str)
    ensures
        r@ == intent_word(i),
{
    match i {
        Intent::Fyi => "fyi",
        Intent::Question => "question",
        Intent::Task => "task",
        Intent::Handoff => "handoff",
    }
}

/// The intent that a word names, if it names one.
pub fn intent_from_str(s: &str) -> (r: Option<Intent>)
    ensures
        r == intent_of_word(s@),
{
    if same(s, "fyi") {
        Some(Intent::Fyi)
    } else if same(s, "question") {
        Some(Intent::Question)
    } else if same(s, "task") {
        Some(Intent::Task)
    } else if same(s, "handoff") {
        Some(Intent::Handoff)
    } else {
        None
    }
}

/// An intent's word names that intent.
pub proof fn law_intent_word_reads_back(i: Intent)
    ensures
        intent_of_word(intent_word(i)) == Some(i),
{
    reveal_strlit("fyi");
    reveal_strlit("question");
    reveal_strlit("task");
    reveal_strlit("handoff");
    assert("fyi"@.len() == 3 && "question"@.len() == 8 && "task"@.len() == 4 && "handoff"@.len()
        == 7);
}

/// A message as its readers see it.
#[derive(Clone, Debug)]
pub struct Message {
    pub id: i64,
    pub from: String,
    pub to: Recipient,
    pub body: String,
    pub intent: Option<Intent>,
    pub reply_to: Option<i64>,
    pub created_at: Timestamp,
}

/// A message, with its texts as sequences of characters.
pub struct MessageView {
    pub id: i64,
    pub from: Seq<char>,
    pub to: RecipientView,
    pub body: Seq<char>,
    pub intent: Option<Intent>,
    pub reply_to: Option<i64>,
    pub created_at: Timestamp,
}

impl View for Message {
    type V = MessageView;

    open spec fn view(&self) -> MessageView {
        MessageView {
            id: self.id,
            from: self.from@,
            to: self.to@,
            body: self.body@,
            intent: self.intent,
            reply_to: self.reply_to,
            created_at: self.created_at,
        }
    }
}

} // verus!
