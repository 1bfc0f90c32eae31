//! With which words requests are refused, and which of several reasons is told.

use vstd::prelude::*;

use crate::proto::{Op, When};
use crate::text::{decimal, signed};
use crate::types::{parsed_recipient, Intent, RecipientView};

use super::laws_sending::{is_name, lemma_is_name, lemma_plain, plain_name, well_addressed};
use super::server::{handling, DaemonView, Reply, Surroundings};

verus! {

/// The words for a name that is none: it is empty, has more than 64 characters, or holds white
/// space.
pub open spec fn name_words(name: Seq<char>) -> Seq<char> {
    if name.len() == 0 {
        "name must not be empty"@
    } else if name.len() > 64 {
        "name must be 64 characters or fewer"@
    } else {
        "name must not contain whitespace"@
    }
}

/// The name of a recipient.
pub open spec fn named(to: RecipientView) -> Seq<char> {
    match to {
        RecipientView::Agent(name) => name,
        RecipientView::Channel(name) => name,
        RecipientView::Broadcast => Seq::empty(),
    }
}

proof fn lemma_addressed_to(to: RecipientView)
    ensures
        super::server::recipient_refusal(to) == if well_addressed(to) {
            None
        } else {
            Some("invalid recipient: "@ + name_words(named(to)))
        },
{
    match to {
        RecipientView::Agent(name) => {
            lemma_plain(name);
        },
        RecipientView::Channel(name) => {
            lemma_plain(name);
        },
        RecipientView::Broadcast => {},
    }
}

/// A send is refused because the daemon is paused; otherwise because of the recipient's name;
/// otherwise because of the length of the body; otherwise because of the sender's name;
/// otherwise because of the message that it replies to.
pub proof fn law_send_refusals(
    d: DaemonView,
    s: Surroundings,
    who: Seq<char>,
    to: String,
    body: String,
    intent: Option<Intent>,
    reply_to: Option<i64>,
)
    ensures
        ({
            let r = parsed_recipient(to@);
            let size = vstd::utf8::encode_utf8(body@).len();
            let h = handling(d, s, who, (Op::Send { to, body, intent, reply_to }));
            if d.paused {
                h.reply == Reply::Now(Err("daemon is paused; resume with `sidebar resume`"@))
            } else if !well_addressed(r) {
                h.reply == Reply::Now(Err("invalid recipient: "@ + name_words(named(r))))
            } else if size > 65536 {
                h.reply == Reply::Now(
                    Err("body is "@ + decimal(size) + " bytes; max is "@ + decimal(65536)),
                )
            } else if !is_name(d.tables, who) && !plain_name()(who) {
                h.reply == Reply::Now(Err(name_words(who)))
            } else {
                reply_to matches Some(m) && (forall|k: int|
                    0 <= k < d.tables.messages.len() ==> (#[trigger] d.tables.messages[k]).id != m)
                    ==> h.reply == Reply::Now(Err("FOREIGN KEY constraint failed"@))
            }
        }),
{
    let t = d.tables;
    let r = parsed_recipient(to@);
    lemma_addressed_to(r);
    lemma_is_name(t, who);
    lemma_plain(who);
    match r {
        RecipientView::Agent(name) => {
            lemma_plain(name);
        },
        RecipientView::Channel(name) => {
            lemma_plain(name);
        },
        RecipientView::Broadcast => {},
    }
    match reply_to {
        Some(m) => {
            if t.has_message(m) {
                let k = t.message_ids().index_of(m);
                assert(t.message_ids()[k] == m);
                assert(t.messages[k].id == m);
            }
        },
        None => {},
    }
}

/// A request to schedule is refused because of the recipient's name; otherwise because of the
/// length of the body; otherwise because it lies more than 365 days ahead. It is not refused
/// because the daemon is paused.
pub proof fn law_schedule_refusals(
    d: DaemonView,
    s: Surroundings,
    who: Seq<char>,
    to: String,
    body: String,
    when: When,
)
    ensures
        ({
            let r = parsed_recipient(to@);
            let size = vstd::utf8::encode_utf8(body@).len();
            let h = handling(d, s, who, (Op::Schedule { to, body, when }));
            let far = match when {
                When::DelaySeconds { delay_seconds } => delay_seconds > 365 * 86400,
                When::At { at } => at.at() > s.now.at() + 365 * 86400 * 1000000000,
            };
            if !well_addressed(r) {
                h.reply == Reply::Now(Err("invalid recipient: "@ + name_words(named(r))))
            } else if size > 65536 {
                h.reply == Reply::Now(
                    Err("body is "@ + decimal(size) + " bytes; max is "@ + decimal(65536)),
                )
            } else {
                far ==> h.reply == Reply::Now(
                    Err("scheduled delivery is too far ahead; max is 365 days"@),
                )
            }
        }),
        handling(d, s, who, (Op::Schedule { to, body, when })).reply == handling(
            DaemonView { paused: !d.paused, ..d },
            s,
            who,
            (Op::Schedule { to, body, when }),
        ).reply,
{
    lemma_addressed_to(parsed_recipient(to@));
}

/// A history is refused because of its limit; otherwise because neither a channel nor an agent
/// is named. A search is refused because of the length of its query; otherwise because of its
/// limit.
pub proof fn law_reading_refusals(
    d: DaemonView,
    s: Surroundings,
    who: Seq<char>,
    text: String,
    channel: Option<String>,
    with: Option<String>,
    limit: usize,
)
    ensures
        ({
            let too_many = Reply::Now(
                Err("limit "@ + decimal(limit as nat) + " exceeds max of "@ + decimal(1000)),
            );
            let h = handling(d, s, who, (Op::History { channel, with, limit }));
            let f = handling(d, s, who, (Op::Search { query: text, limit }));
            let e = handling(d, s, who, (Op::HistoryDetailed { channel: text, limit }));
            &&& limit > 1000 ==> h.reply == too_many && e.reply == too_many
            &&& limit <= 1000 ==> !(e.reply matches Reply::Now(Err(_)))
            &&& limit <= 1000 && channel is None && with is None ==> h.reply == Reply::Now(
                Err("history requires --channel or --with"@),
            )
            &&& text@.len() > 256 ==> f.reply == Reply::Now(
                Err(
                    "query is "@ + decimal(text@.len()) + " characters; max is "@ + decimal(256),
                ),
            )
            &&& text@.len() <= 256 && limit > 1000 ==> f.reply == too_many
        }),
{
}

/// The words with which other requests are refused.
pub proof fn law_other_refusals(d: DaemonView, s: Surroundings, who: Seq<char>, channel: String, id: i64)
    ensures
        !plain_name()(channel@) ==> handling(d, s, who, (Op::Join { channel })).reply == Reply::Now(
            Err("invalid recipient: "@ + name_words(channel@)),
        ) && handling(d, s, who, (Op::Leave { channel })).reply == Reply::Now(
            Err("invalid recipient: "@ + name_words(channel@)),
        ),
        plain_name()(channel@) && !plain_name()(who) && !is_name(d.tables, who) ==> handling(
            d,
            s,
            who,
            (Op::Join { channel }),
        ).reply == Reply::Now(Err(name_words(who))),
        (forall|k: int|
            0 <= k < d.tables.messages.len() ==> (#[trigger] d.tables.messages[k]).id != id)
            ==> handling(d, s, who, (Op::Inspect { message_id: id })).reply == Reply::Now(
            Err("no message with id "@ + signed(id as int)),
        ),
        handling(d, s, who, (Op::Cancel { scheduled_id: id })).reply matches Reply::Now(Err(words))
            ==> words == "pending scheduled message "@ + signed(id as int) + " not found"@ || words
            == "database or disk is full"@,
{
    lemma_plain(channel@);
    lemma_plain(who);
    lemma_is_name(d.tables, who);
    if d.tables.has_message(id) {
        let k = d.tables.message_ids().index_of(id);
        assert(d.tables.message_ids()[k] == id);
        assert(d.tables.messages[k].id == id);
    }
}

} // verus!
