//! What is shown: which words, names and numbers stand in the texts for readers.

use vstd::prelude::*;
use vstd::seq_lib::*;

use crate::cli::{failure, showing, Command, ShownView};
use crate::clock::{whole_seconds, Timestamp};
use crate::laws_pieces::law_first_place;
use crate::markdown::{rendered, shown_from, token_at, token_shown, Token};
use crate::pieces::{first_run, run_at};
use crate::proto::{
    AgentDetailsView, ChannelDetailsView, DataView, EventView, ResponseView, StatusView,
};
use crate::repl::AskView;
use crate::report::{
    agent_rows, agents_of, agents_shown, ago, ago_from, channel_rows, channels_of, channels_shown,
    delivery_rows, detail_shown, event_shown, line_of, listed, names_of, prunable_shown,
    scheduled_rows, scheduled_shown, span, status_line_shown, status_shown, widest,
    DeliveryTextView, ScheduledTextView,
};
use crate::screen::{answered, chat_line};
use crate::style::{name_shown, painted, suffix_of};
use crate::supervise::prompt_for;
use crate::text::{decimal, has_part, pad_left, pad_right, signed, stands_at};
use crate::types::{MessageView, RecipientView};

verus! {

// ---- parts of texts ----

proof fn lemma_here(before: Seq<char>, part: Seq<char>, after: Seq<char>)
    ensures
        has_part(before + part + after, part),
{
    let s = before + part + after;
    let i = before.len() as int;
    assert(s.subrange(i, i + part.len()) =~= part);
    assert(stands_at(s, part, i));
}

proof fn lemma_inside(before: Seq<char>, s: Seq<char>, after: Seq<char>, part: Seq<char>)
    requires
        has_part(s, part),
    ensures
        has_part(before + s + after, part),
{
    let i = choose|i: int| #[trigger] stands_at(s, part, i);
    let all = before + s + after;
    let j = before.len() + i;
    assert(all.subrange(j, j + part.len()) =~= s.subrange(i, i + part.len()));
    assert(stands_at(all, part, j));
}

pub proof fn lemma_joins(a: Seq<char>, b: Seq<char>, c: Seq<char>)
    ensures
        a + b + c == a + (b + c),
{
    assert(a + b + c =~= a + (b + c));
}

/// What is put behind a text keeps what stands in it, and stands there itself.
pub proof fn lemma_behind(a: Seq<char>, b: Seq<char>)
    ensures
        forall|part: Seq<char>| has_part(a, part) ==> #[trigger] has_part(a + b, part),
        has_part(a + b, b),
{
    let none = Seq::<char>::empty();
    assert(a + b + none =~= a + b);
    lemma_here(a, b, none);
    assert forall|part: Seq<char>| has_part(a, part) implies #[trigger] has_part(a + b, part) by {
        assert(none + a + b =~= a + b);
        lemma_inside(none, a, b, part);
    }
}

// ---- times ----

/// How long ago something was is told in seconds below a minute, in minutes below an hour, in
/// hours below two days, and in days from then on, each rounded down; below five seconds it was
/// just now.
pub proof fn law_ago(n: nat, more: nat)
    ensures
        n < 5 ==> ago(n as int) == "just now"@,
        ago(-n) == "just now"@,
        5 <= n < 60 ==> ago(n as int) == decimal(n) + "s ago"@,
        1 <= n < 60 && more < 60 ==> ago((60 * n + more) as int) == decimal(n) + "m ago"@,
        1 <= n < 48 && more < 3600 ==> ago((3600 * n + more) as int) == decimal(n) + "h ago"@,
        2 <= n && more < 86400 ==> ago((86400 * n + more) as int) == decimal(n) + "d ago"@,
{
    assert(more < 60 ==> (60 * n + more) / 60 == n);
    assert(more < 3600 ==> (3600 * n + more) / 3600 == n);
    assert(more < 86400 ==> (86400 * n + more) / 86400 == n);
}

/// The time between two moments is told in the seconds between them.
pub proof fn law_ago_from(now: Timestamp, then: Timestamp)
    ensures
        now.nanos == then.nanos ==> ago_from(now, then) == ago(now.secs - then.secs),
{
    if now.nanos == then.nanos {
        let d = now.secs - then.secs;
        assert(now.at() - then.at() == d * 1000000000);
        assert(whole_seconds(d * 1000000000) == d);
    }
}

/// A time span is told in hours, minutes and seconds.
pub proof fn law_span(hours: nat, minutes: nat, seconds: nat)
    requires
        minutes < 60,
        seconds < 60,
    ensures
        span((3600 * hours + 60 * minutes + seconds) as int) == decimal(hours) + "h "@ + decimal(minutes)
            + "m "@ + decimal(seconds) + "s"@,
{
    let x = (3600 * hours + 60 * minutes + seconds) as int;
    assert(x / 3600 == hours);
    assert((x - 3600 * hours) / 60 == minutes);
    assert(x / 60 == 60 * hours + minutes);
}

// ---- tables ----

/// A row of the table of agents.
pub open spec fn agent_row(a: AgentDetailsView, width: nat, now: Timestamp) -> Seq<char> {
    pad_right(a.name, width) + "  "@ + ago_from(now, a.last_seen) + "\n"@
}

proof fn lemma_agent_row(list: Seq<AgentDetailsView>, width: nat, now: Timestamp, k: int)
    requires
        0 <= k < list.len(),
    ensures
        has_part(agent_rows(list, width, now), agent_row(list[k], width, now)),
    decreases list.len(),
{
    let front = list.drop_last();
    let done = agent_rows(front, width, now);
    let last = agent_row(list.last(), width, now);
    let name = pad_right(list.last().name, width);
    let seen = ago_from(now, list.last().last_seen);
    lemma_joins(done, name, "  "@);
    lemma_joins(done, name + "  "@, seen);
    lemma_joins(done, name + "  "@ + seen, "\n"@);
    assert(agent_rows(list, width, now) == done + last);
    lemma_behind(done, last);
    if k < front.len() {
        lemma_agent_row(front, width, now, k);
    }
}

/// The table of agents has a row for each: the name, and how long ago it was last seen. Where
/// there are none, it says so.
pub proof fn law_agents_table(list: Seq<AgentDetailsView>, now: Timestamp, none: Seq<char>, k: int)
    ensures
        list.len() == 0 ==> agents_shown(list, now, none) == none + "\n"@,
        0 <= k < list.len() ==> has_part(
            agents_shown(list, now, none),
            agent_row(list[k], widest(names_of(list), 0), now),
        ),
{
    if 0 <= k < list.len() {
        let width = widest(names_of(list), 0);
        let empty = Seq::<char>::empty();
        let head = pad_right("NAME"@, width) + "  last seen\n"@;
        let rows = agent_rows(list, width, now);
        lemma_agent_row(list, width, now, k);
        lemma_inside(head, rows, empty, agent_row(list[k], width, now));
        assert(head + rows + empty =~= head + rows);
    }
}

/// A row of the table of channels.
pub open spec fn channel_row(c: ChannelDetailsView, width: nat, now: Timestamp) -> Seq<char> {
    pad_right(seq!['#'] + c.name, width) + "  "@ + pad_left(signed(c.member_count as int), 7)
        + "  "@ + (match c.last_message_at {
        Some(t) => ago_from(now, t),
        None => "—"@,
    }) + "\n"@
}

proof fn lemma_channel_row(list: Seq<ChannelDetailsView>, width: nat, now: Timestamp, k: int)
    requires
        0 <= k < list.len(),
    ensures
        has_part(channel_rows(list, width, now), channel_row(list[k], width, now)),
    decreases list.len(),
{
    reveal_strlit("#");
    assert("#"@ =~= seq!['#']);
    let row = channel_row(list[k], width, now);
    let front = list.drop_last();
    let none = Seq::<char>::empty();
    let last = channel_row(list.last(), width, now);
    assert(channel_rows(list, width, now) =~= channel_rows(front, width, now) + last);
    if k == front.len() {
        lemma_here(channel_rows(front, width, now), row, none);
        assert(channel_rows(list, width, now) =~= channel_rows(front, width, now) + row + none);
    } else {
        lemma_channel_row(front, width, now, k);
        lemma_inside(none, channel_rows(front, width, now), last, row);
        assert(channel_rows(list, width, now) =~= none + channel_rows(front, width, now) + last);
    }
}

/// The table of channels has a row for each: the name behind a `#`, the number of members, and
/// how long ago the last message was sent.
pub proof fn law_channels_table(list: Seq<ChannelDetailsView>, now: Timestamp, k: int)
    ensures
        list.len() == 0 ==> channels_shown(list, now) == "(no channels)\n"@,
        0 <= k < list.len() ==> has_part(
            channels_shown(list, now),
            channel_row(list[k], widest(channels_of(list), 0), now),
        ),
{
    if 0 <= k < list.len() {
        let width = widest(channels_of(list), 0);
        let empty = Seq::<char>::empty();
        let head = pad_right("CHANNEL"@, width) + "  members  last activity\n"@;
        lemma_channel_row(list, width, now, k);
        lemma_inside(
            head,
            channel_rows(list, width, now),
            empty,
            channel_row(list[k], width, now),
        );
        assert(channels_shown(list, now) =~= head + channel_rows(list, width, now) + empty);
    }
}

/// A column is at least as wide as every text in it, in bytes, and no wider than one of them.
pub proof fn law_widest(list: Seq<Seq<char>>, least: nat, k: int)
    ensures
        widest(list, least) >= least,
        0 <= k < list.len() ==> widest(list, least) >= vstd::utf8::encode_utf8(list[k]).len(),
        widest(list, least) == least || exists|i: int|
            0 <= i < list.len() && widest(list, least) == vstd::utf8::encode_utf8(
                #[trigger] list[i],
            ).len(),
    decreases list.len(),
{
    if list.len() > 0 {
        let front = list.drop_last();
        law_widest(front, least, k);
        if 0 <= k < front.len() {
            assert(front[k] == list[k]);
        }
        if widest(list, least) == widest(front, least) {
            if widest(front, least) != least {
                let i = choose|i: int|
                    0 <= i < front.len() && widest(front, least) == vstd::utf8::encode_utf8(
                        #[trigger] front[i],
                    ).len();
                assert(list[i] == front[i]);
            }
        } else {
            assert(list[list.len() - 1] == list.last());
        }
    }
}

/// A row of the table of scheduled messages: its id, its time, from whom and to whom it goes,
/// and the first 40 characters of its body.
pub open spec fn waiting_row(s: ScheduledTextView) -> Seq<char> {
    pad_right(signed(s.id as int), 5) + " "@ + s.time + "  "@ + s.from + " → "@ + s.to + "  "@
        + s.body.take(if s.body.len() < 40 {
        s.body.len() as int
    } else {
        40
    }) + "\n"@
}

proof fn lemma_waiting_row(list: Seq<ScheduledTextView>, k: int)
    requires
        0 <= k < list.len(),
    ensures
        has_part(scheduled_rows(list), waiting_row(list[k])),
    decreases list.len(),
{
    let front = list.drop_last();
    let none = Seq::<char>::empty();
    let s = list.last();
    let row = waiting_row(list[k]);
    if s.body.len() <= 40 {
        assert(s.body.take(s.body.len() as int) =~= s.body);
    }
    assert(scheduled_rows(list) =~= scheduled_rows(front) + waiting_row(s));
    if k == front.len() {
        lemma_here(scheduled_rows(front), row, none);
        assert(scheduled_rows(list) =~= scheduled_rows(front) + row + none);
    } else {
        lemma_waiting_row(front, k);
        lemma_inside(none, scheduled_rows(front), waiting_row(s), row);
        assert(scheduled_rows(list) =~= none + scheduled_rows(front) + waiting_row(s));
    }
}

/// The table of scheduled messages has a row for each.
pub proof fn law_scheduled_table(list: Seq<ScheduledTextView>, k: int)
    ensures
        list.len() == 0 ==> scheduled_shown(list) == "(no pending scheduled messages)\n"@,
        0 <= k < list.len() ==> has_part(scheduled_shown(list), waiting_row(list[k])),
{
    if 0 <= k < list.len() {
        let empty = Seq::<char>::empty();
        let head = "ID    FIRES                       FROM → TO         BODY\n"@;
        lemma_waiting_row(list, k);
        lemma_inside(head, scheduled_rows(list), empty, waiting_row(list[k]));
        assert(scheduled_shown(list) =~= head + scheduled_rows(list) + empty);
    }
}

/// A row of the table of deliveries: the agent, when the message was delivered, and when it was
/// read, if it was.
pub open spec fn delivered_row(d: DeliveryTextView, width: nat) -> Seq<char> {
    "  "@ + pad_right(d.agent, width) + "  delivered "@ + (match d.delivered {
        Some(t) => t,
        None => "(undelivered)"@,
    }) + "  "@ + (match d.read {
        Some(t) => "read "@ + t,
        None => "unread"@,
    }) + "\n"@
}

proof fn lemma_delivered_row(list: Seq<DeliveryTextView>, width: nat, k: int)
    requires
        0 <= k < list.len(),
    ensures
        has_part(delivery_rows(list, width), delivered_row(list[k], width)),
    decreases list.len(),
{
    let front = list.drop_last();
    let last = delivered_row(list.last(), width);
    assert(last == crate::report::delivery_row(list.last(), width));
    lemma_behind(delivery_rows(front, width), last);
    if k < front.len() {
        lemma_delivered_row(front, width, k);
    }
}

/// A message in detail tells its id, who sent it to whom and when, and each of its deliveries;
/// in full it tells the intent and the message that it replies to as well.
pub proof fn law_detail(
    m: MessageView,
    time: Seq<char>,
    list: Seq<DeliveryTextView>,
    full: bool,
    k: int,
)
    ensures
        has_part(
            detail_shown(m, time, list, full),
            "message "@ + signed(m.id as int) + " — "@ + m.from + " → "@ + m.to.label() + " at "@
                + time + "\n"@,
        ),
        0 <= k < list.len() ==> has_part(
            detail_shown(m, time, list, full),
            delivered_row(list[k], widest(agents_of(list), 0)),
        ),
        full && m.reply_to is Some ==> has_part(
            detail_shown(m, time, list, full),
            "reply_to: "@ + signed(m.reply_to->0 as int) + "\n"@,
        ),
        full && list.len() == 0 ==> has_part(
            detail_shown(m, time, list, full),
            "(no deliveries — message went nowhere)\n"@,
        ),
{
    let all = detail_shown(m, time, list, full);
    let head = "message "@ + signed(m.id as int) + " — "@ + m.from + " → "@ + m.to.label()
        + " at "@ + time + "\n"@;
    let none = Seq::<char>::empty();
    let body = crate::report::message_shown(m, time, full);
    assert(body =~= head + body.skip(head.len() as int)) by {
        assert(body.take(head.len() as int) =~= head);
    }
    assert(all =~= none + head + all.skip(head.len() as int)) by {
        assert(all.take(head.len() as int) =~= head);
    }
    lemma_here(none, head, all.skip(head.len() as int));
    let gap = if full {
        "\n"@
    } else {
        none
    };
    if 0 <= k < list.len() {
        let width = widest(agents_of(list), 0);
        let front = body + gap + "deliveries:\n"@;
        lemma_delivered_row(list, width, k);
        lemma_inside(front, delivery_rows(list, width), none, delivered_row(list[k], width));
        assert(all =~= front + delivery_rows(list, width) + none);
    }
    if full && m.reply_to is Some {
        let line = "reply_to: "@ + signed(m.reply_to->0 as int) + "\n"@;
        let before = head + crate::report::intent_line(m, full);
        let after = all.skip((before + line).len() as int);
        assert(all =~= before + line + after) by {
            assert(all.take((before + line).len() as int) =~= before + line);
        }
        lemma_here(before, line, after);
    }
    if full && list.len() == 0 {
        lemma_here(body + gap, "(no deliveries — message went nowhere)\n"@, none);
        assert(all =~= body + gap + "(no deliveries — message went nowhere)\n"@ + none);
    }
}

/// Each name of a list stands on a line of its own, behind the prefix.
pub proof fn law_listed(prefix: Seq<char>, list: Seq<Seq<char>>, k: int)
    requires
        0 <= k < list.len(),
    ensures
        has_part(listed(prefix, list), prefix + list[k] + "\n"@),
        has_part(prunable_shown(list), "  "@ + list[k] + "\n"@),
        has_part(prunable_shown(list), "would prune "@ + decimal(list.len()) + " agent(s)"@),
{
    let none = Seq::<char>::empty();
    lemma_listed(prefix, list, k);
    lemma_listed("  "@, list, k);
    let tail = " agent(s) (use without --dry-run to apply):\n"@;
    let head = "would prune "@ + decimal(list.len()) + tail;
    lemma_inside(head, listed("  "@, list), none, "  "@ + list[k] + "\n"@);
    assert(prunable_shown(list) =~= head + listed("  "@, list) + none);
    reveal_strlit(" agent(s) (use without --dry-run to apply):\n");
    reveal_strlit(" agent(s)");
    assert(tail.take(9) =~= " agent(s)"@);
    let part = "would prune "@ + decimal(list.len()) + " agent(s)"@;
    lemma_here(none, part, tail.skip(9) + listed("  "@, list));
    assert(prunable_shown(list) =~= none + part + (tail.skip(9) + listed("  "@, list)));
}

proof fn lemma_listed(prefix: Seq<char>, list: Seq<Seq<char>>, k: int)
    requires
        0 <= k < list.len(),
    ensures
        has_part(listed(prefix, list), prefix + list[k] + "\n"@),
    decreases list.len(),
{
    let front = list.drop_last();
    let done = listed(prefix, front);
    lemma_joins(done, prefix, list.last());
    lemma_joins(done, prefix + list.last(), "\n"@);
    lemma_behind(done, prefix + list.last() + "\n"@);
    if k < front.len() {
        lemma_listed(prefix, front, k);
    }
}

// ---- lines ----

/// Without colour a message is one line: its time, its sender and its body, and behind it the
/// channel, or that it went to everyone.
pub proof fn law_chat_line(
    time: Seq<char>,
    from: Seq<char>,
    hue: Seq<char>,
    body: Seq<char>,
    channel: Seq<char>,
)
    ensures
        chat_line(time, from, hue, body, RecipientView::Agent(channel), false) == "["@ + time
            + "] @"@ + from + ": "@ + body,
        chat_line(time, from, hue, body, RecipientView::Channel(channel), false) == "["@ + time
            + "] @"@ + from + ": "@ + body + "  (#"@ + channel + ")"@,
        chat_line(time, from, hue, body, RecipientView::Broadcast, false) == "["@ + time + "] @"@
            + from + ": "@ + body + "  (broadcast)"@,
{
    reveal_strlit("]");
    reveal_strlit(" ");
    reveal_strlit("@");
    reveal_strlit("] @");
    assert("] @"@ =~= "]"@ + " "@ + "@"@);
    let start = "["@ + time + "] @"@ + from + ": "@ + body;
    assert(chat_line(time, from, hue, body, RecipientView::Agent(channel), false) =~= start);
    assert(chat_line(time, from, hue, body, RecipientView::Channel(channel), false) =~= start
        + "  (#"@ + channel + ")"@);
    assert(chat_line(time, from, hue, body, RecipientView::Broadcast, false) =~= start
        + "  (broadcast)"@);
}

/// With colour a text stands between the colour's sequence and the one that ends it, and
/// without as it is.
pub proof fn law_painted(prefix: Seq<char>, s: Seq<char>, hue: Seq<char>)
    ensures
        painted(prefix, s, true) == prefix + s + "\x1b[0m"@,
        painted(prefix, s, false) == s,
        name_shown(s, hue, true) == "\x1b[1m"@ + hue + "@"@ + s + "\x1b[0m"@,
        name_shown(s, hue, false) == "@"@ + s,
        suffix_of(RecipientView::Agent(s), true) == Seq::<char>::empty(),
        suffix_of(RecipientView::Channel(s), true) == "\x1b[2m"@ + ("  (#"@ + s + ")"@)
            + "\x1b[0m"@,
{
}

/// A message is told in a line by its time, its sender, its recipient and its body, whether it
/// was read or has just been sent.
pub proof fn law_line(time: Seq<char>, from: Seq<char>, to: RecipientView, body: Seq<char>, id: i64)
    ensures
        line_of(time, from, to.label(), body) == "["@ + time + "] "@ + from + " → "@ + (match to {
            RecipientView::Agent(name) => seq!['@'] + name,
            RecipientView::Channel(name) => seq!['#'] + name,
            RecipientView::Broadcast => seq!['*'],
        }) + ": "@ + body,
        event_shown(time, EventView::Message { to, from, body, message_id: id }) == line_of(
            time,
            from,
            to.label(),
            body,
        ),
        event_shown(time, EventView::Paused) == "["@ + time + "] (paused)"@,
        event_shown(time, EventView::Resumed) == "["@ + time + "] (resumed)"@,
{
    reveal_strlit("@");
    reveal_strlit("#");
    reveal_strlit("*");
    assert("@"@ =~= seq!['@'] && "#"@ =~= seq!['#'] && "*"@ =~= seq!['*']);
}

/// The prompt for a message tells its id, its sender, its recipient and its body.
pub proof fn law_prompt(m: MessageView)
    ensures
        has_part(prompt_for(m), "Message id: "@ + signed(m.id as int) + "\nFrom: "@ + m.from),
        has_part(prompt_for(m), "\nTo: "@ + m.to.label() + "\n\nMessage:\n"@ + m.body),
{
    let intro = "You are replying as a participant in a durable agent room.\n\nMessage id: "@;
    reveal_strlit("You are replying as a participant in a durable agent room.\n\nMessage id: ");
    reveal_strlit("Message id: ");
    let n = intro.len() - "Message id: "@.len();
    assert(intro.skip(n) =~= "Message id: "@);
    let one = "Message id: "@ + signed(m.id as int) + "\nFrom: "@ + m.from;
    let two = "\nTo: "@ + m.to.label() + "\n\nMessage:\n"@ + m.body;
    let rest =
        "\n\nReturn only the final human-readable response. Do not include supervisor metadata or tool logs."@;
    lemma_here(intro.take(n), one, two + rest);
    assert(intro =~= intro.take(n) + "Message id: "@);
    assert(prompt_for(m) =~= intro.take(n) + one + (two + rest));
    lemma_here(intro.take(n) + one, two, rest);
    assert(prompt_for(m) =~= intro.take(n) + one + two + rest);
}

// ---- the daemon's state ----

/// The daemon's state is told fact by fact.
pub proof fn law_status(s: StatusView)
    ensures
        has_part(status_shown(s), "\nagents:      "@ + signed(s.agent_count as int)),
        has_part(status_shown(s), "\nchannels:    "@ + signed(s.channel_count as int)),
        has_part(status_shown(s), "\nunread msgs: "@ + signed(s.unread_count as int)),
        has_part(status_shown(s), "\nscheduled:   "@ + signed(s.pending_scheduled as int)),
        has_part(
            status_shown(s),
            "\npaused:      "@ + if s.paused {
                "true"@
            } else {
                "false"@
            },
        ),
        has_part(status_shown(s), "uptime:      "@ + span(s.uptime_seconds as int)),
        has_part(status_shown(s), "\ndb:          "@ + s.db_path),
        has_part(status_line_shown(s), " · agents "@ + signed(s.agent_count as int)),
        has_part(status_line_shown(s), " · channels "@ + signed(s.channel_count as int)),
        has_part(status_line_shown(s), " · unread "@ + signed(s.unread_count as int)),
        has_part(status_line_shown(s), " · scheduled "@ + signed(s.pending_scheduled as int)),
{
    let truth = crate::report::truth(s.paused);
    let start = "daemon:      running\nuptime:      "@;
    reveal_strlit("daemon:      running\nuptime:      ");
    reveal_strlit("uptime:      ");
    let n = start.len() - "uptime:      "@.len();
    let head = start.take(n);
    assert(start =~= head + "uptime:      "@);
    let a = start + span(s.uptime_seconds as int);
    lemma_joins(head, "uptime:      "@, span(s.uptime_seconds as int));
    lemma_behind(head, "uptime:      "@ + span(s.uptime_seconds as int));
    let b = a + "\npaused:      "@ + truth;
    lemma_joins(a, "\npaused:      "@, truth);
    lemma_behind(a, "\npaused:      "@ + truth);
    let c = b + "\nagents:      "@ + signed(s.agent_count as int);
    lemma_joins(b, "\nagents:      "@, signed(s.agent_count as int));
    lemma_behind(b, "\nagents:      "@ + signed(s.agent_count as int));
    let d = c + "\nchannels:    "@ + signed(s.channel_count as int);
    lemma_joins(c, "\nchannels:    "@, signed(s.channel_count as int));
    lemma_behind(c, "\nchannels:    "@ + signed(s.channel_count as int));
    let e = d + "\nunread msgs: "@ + signed(s.unread_count as int);
    lemma_joins(d, "\nunread msgs: "@, signed(s.unread_count as int));
    lemma_behind(d, "\nunread msgs: "@ + signed(s.unread_count as int));
    let f = e + "\nscheduled:   "@ + signed(s.pending_scheduled as int);
    lemma_joins(e, "\nscheduled:   "@, signed(s.pending_scheduled as int));
    lemma_behind(e, "\nscheduled:   "@ + signed(s.pending_scheduled as int));
    let g = f + " pending\nsocket:      "@ + s.socket_path;
    lemma_joins(f, " pending\nsocket:      "@, s.socket_path);
    lemma_behind(f, " pending\nsocket:      "@ + s.socket_path);
    let h = g + "\ndb:          "@ + s.db_path;
    lemma_joins(g, "\ndb:          "@, s.db_path);
    lemma_behind(g, "\ndb:          "@ + s.db_path);
    lemma_behind(h, "\n"@);
    assert(status_shown(s) == h + "\n"@);
    let u = "uptime "@ + span(s.uptime_seconds as int) + " · paused "@ + truth;
    let v = u + " · agents "@ + signed(s.agent_count as int);
    lemma_joins(u, " · agents "@, signed(s.agent_count as int));
    lemma_behind(u, " · agents "@ + signed(s.agent_count as int));
    let w = v + " · channels "@ + signed(s.channel_count as int);
    lemma_joins(v, " · channels "@, signed(s.channel_count as int));
    lemma_behind(v, " · channels "@ + signed(s.channel_count as int));
    let x = w + " · unread "@ + signed(s.unread_count as int);
    lemma_joins(w, " · unread "@, signed(s.unread_count as int));
    lemma_behind(w, " · unread "@ + signed(s.unread_count as int));
    let y = x + " · scheduled "@ + signed(s.pending_scheduled as int);
    lemma_joins(x, " · scheduled "@, signed(s.pending_scheduled as int));
    lemma_behind(x, " · scheduled "@ + signed(s.pending_scheduled as int));
    assert(status_line_shown(s) == y);
}

// ---- answers ----

/// Whatever a command was, the words of an error that the daemon answers with are told.
pub proof fn law_failure_is_told(cmd: Command, n: int, r: ResponseView, words: Seq<char>)
    requires
        r.error == Some(words),
    ensures
        has_part(failure(cmd, n, r), words),
        has_part(failure(cmd, n, r), "daemon error"@),
{
    let all = failure(cmd, n, r);
    let none = Seq::<char>::empty();
    let before = all.take(all.len() - words.len());
    assert(all =~= before + words + none);
    lemma_here(before, words, none);
    reveal_strlit("daemon error");
    reveal_strlit("daemon error: ");
    reveal_strlit("daemon error joining #");
    reveal_strlit("daemon error leaving #");
    assert(all.take(12) =~= "daemon error"@);
    lemma_here(none, "daemon error"@, all.skip(12));
    assert(all =~= none + "daemon error"@ + all.skip(12));
}

/// A line that was refused tells the words of the error that the daemon answered with.
pub proof fn law_refusal_is_told(
    ask: AskView,
    n: int,
    r: ResponseView,
    current: Seq<char>,
    now: Timestamp,
    words: Seq<char>,
)
    requires
        !r.ok,
        r.data is None,
        r.error == Some(words),
        ask matches AskView::Join(list) ==> 0 <= n < list.len(),
        ask matches AskView::Leave(list) ==> 0 <= n < list.len(),
        !(ask is Participants || ask is Agents || ask is Channels || ask is Scheduled
            || ask is Status),
    ensures
        answered(ask, n, r, current, now) matches ShownView::Text(text) && has_part(text, words),
{
    let text = answered(ask, n, r, current, now)->Text_0;
    let tail = match ask {
        AskView::Chat(_) | AskView::Send(_, _) | AskView::Say(_) => "\n"@,
        _ => ")\n"@,
    };
    let before = text.take(text.len() - tail.len() - words.len());
    assert(text =~= before + words + tail);
    lemma_here(before, words, tail);
}

/// The id under which a message was sent or scheduled is told.
pub proof fn law_id_is_told(
    to: Seq<char>,
    body: Seq<char>,
    delay: u64,
    n: int,
    r: ResponseView,
    current: Seq<char>,
    now: Timestamp,
    id: i64,
)
    requires
        r.ok,
        r.data == Some(DataView::SendOk(id)),
    ensures
        answered(AskView::Send(to, body), n, r, current, now) == ShownView::Text(
            "sent (id "@ + signed(id as int) + ")\n"@,
        ),
        answered(AskView::Schedule(to, delay, body), n, r, current, now) == ShownView::Text(
            "scheduled id "@ + signed(id as int) + "\n"@,
        ),
        answered(AskView::Chat(body), n, r, current, now) == ShownView::Text(Seq::empty()),
        answered(AskView::Say(body), n, r, current, now) == ShownView::Text(Seq::empty()),
        answered(AskView::Pause, n, r, current, now) == ShownView::Text("paused\n"@),
        answered(AskView::Resume, n, r, current, now) == ShownView::Text("resumed\n"@),
        answered(AskView::Cancel(id), n, r, current, now) == ShownView::Text(
            "cancelled scheduled id "@ + signed(id as int) + "\n"@,
        ),
        forall|cmd: Command| cmd is Schedule ==> #[trigger] showing(cmd, n, r.data, now)
            == ShownView::Text("scheduled id "@ + signed(id as int) + "\n"@),
        forall|cmd: Command| (cmd is Send || cmd is Say) ==> #[trigger] showing(cmd, n, r.data, now)
            == ShownView::Text(Seq::empty()),
        forall|cmd: Command| (cmd matches Command::Prune { dry_run, .. } && !dry_run) ==> #[trigger]
            showing(cmd, n, r.data, now) == ShownView::Text(
                "pruned "@ + signed(id as int) + " inactive agent(s)\n"@,
            ),
{
}

/// What the daemon answers with is shown: messages with the times of the place, names and tables
/// at once; an empty inbox and a search without matches are told.
pub proof fn law_answers_are_shown(
    n: int,
    r: ResponseView,
    current: Seq<char>,
    now: Timestamp,
    messages: Seq<MessageView>,
    names: Seq<Seq<char>>,
    agents: Seq<AgentDetailsView>,
    channels: Seq<ChannelDetailsView>,
    query: Seq<char>,
    flag: bool,
)
    requires
        r.ok,
    ensures
        r.data == Some(DataView::Messages(messages)) ==> {
            &&& answered(AskView::Inbox, n, r, current, now) == if messages.len() == 0 {
                ShownView::Text("(empty)\n"@)
            } else {
                ShownView::Timed
            }
            &&& answered(AskView::Grep(query), n, r, current, now) == if messages.len() == 0 {
                ShownView::Text("(no matches)\n"@)
            } else {
                ShownView::Timed
            }
            &&& forall|cmd: Command|
                (cmd is Inbox || cmd is History || cmd is Grep) ==> #[trigger] showing(
                    cmd,
                    n,
                    r.data,
                    now,
                ) is Timed
        },
        r.data == Some(DataView::Agents(names)) ==> {
            &&& answered(AskView::Participants, n, r, current, now) == ShownView::Text(
                listed("  "@, names),
            )
            &&& forall|cmd: Command|
                cmd is Participants ==> #[trigger] showing(cmd, n, r.data, now) == ShownView::Text(
                    listed(Seq::empty(), names),
                )
        },
        r.data == Some(DataView::AgentsDetailed(agents)) ==> {
            &&& answered(AskView::Agents(flag), n, r, current, now) == ShownView::Text(
                agents_shown(
                    agents,
                    now,
                    "(no agents seen in the last 7 days; /agents --all to include stale)"@,
                ),
            )
            &&& forall|cmd: Command|
                cmd is Agents ==> #[trigger] showing(cmd, n, r.data, now) == ShownView::Text(
                    agents_shown(
                        agents,
                        now,
                        "(no agents seen in the last 7 days; --all to include stale)"@,
                    ),
                )
        },
        r.data == Some(DataView::Channels(names)) ==> answered(
            AskView::Channels(false),
            n,
            r,
            current,
            now,
        ) == ShownView::Text(listed("#"@, names)),
        r.data == Some(DataView::ChannelsDetailed(channels)) ==> answered(
            AskView::Channels(true),
            n,
            r,
            current,
            now,
        ) == ShownView::Text(channels_shown(channels, now)),
        (r.data matches Some(DataView::Status(s)) && answered(
            AskView::Status,
            n,
            r,
            current,
            now,
        ) == ShownView::Text(status_line_shown(s) + "\n"@)) || !(r.data matches Some(
            DataView::Status(_),
        )),
        (r.data matches Some(DataView::Scheduled(_))) ==> answered(
            AskView::Scheduled,
            n,
            r,
            current,
            now,
        ) is Timed,
        (r.data matches Some(DataView::MessageDetail(_))) ==> answered(
            AskView::Inspect(0),
            n,
            r,
            current,
            now,
        ) is Timed,
{
}

/// A channel that was joined or left is told by its name, with who joined or left it.
pub proof fn law_moves_are_told(
    channels: Seq<Seq<char>>,
    k: int,
    r: ResponseView,
    current: Seq<char>,
    now: Timestamp,
    hashes: nat,
    name: Seq<char>,
)
    requires
        r.ok,
        0 <= k < channels.len(),
        name.len() == 0 || name[0] != '#',
        channels[k] == Seq::new(hashes, |i: int| '#') + name,
    ensures
        answered(AskView::Join(channels), k, r, current, now) == ShownView::Text(
            current + " joined #"@ + name + "\n"@,
        ),
        answered(AskView::Leave(channels), k, r, current, now) == ShownView::Text(
            current + " left #"@ + name + "\n"@,
        ),
{
    crate::laws_pieces::law_strip(hashes, '#', name);
}

/// Every line of a body is shown in a message's detail, indented.
pub proof fn law_detail_has_the_body(
    m: MessageView,
    time: Seq<char>,
    list: Seq<DeliveryTextView>,
    full: bool,
    k: int,
)
    requires
        0 <= k < crate::pieces::lines(m.body).len(),
    ensures
        has_part(
            detail_shown(m, time, list, full),
            "  "@ + crate::pieces::lines(m.body)[k] + "\n"@,
        ),
{
    let rows = crate::pieces::lines(m.body);
    let before = crate::report::head_shown(m, time) + crate::report::intent_line(m, full)
        + crate::report::reply_line(m, full) + "body:\n"@;
    lemma_body_row(rows, k);
    let row = "  "@ + rows[k] + "\n"@;
    let body = crate::report::body_rows(rows);
    lemma_inside(before, body, Seq::<char>::empty(), row);
    assert(before + body + Seq::<char>::empty() =~= before + body);
    let gap = if full {
        "\n"@
    } else {
        Seq::<char>::empty()
    };
    lemma_behind(before + body, gap);
    lemma_behind(
        before + body + gap,
        if list.len() > 0 {
            "deliveries:\n"@ + delivery_rows(list, widest(agents_of(list), 0))
        } else if full {
            "(no deliveries — message went nowhere)\n"@
        } else {
            Seq::<char>::empty()
        },
    );
}

proof fn lemma_body_row(list: Seq<Seq<char>>, k: int)
    requires
        0 <= k < list.len(),
    ensures
        has_part(crate::report::body_rows(list), "  "@ + list[k] + "\n"@),
    decreases list.len(),
{
    let front = list.drop_last();
    let done = crate::report::body_rows(front);
    lemma_joins(done, "  "@, list.last());
    lemma_joins(done, "  "@ + list.last(), "\n"@);
    lemma_behind(done, "  "@ + list.last() + "\n"@);
    if k < front.len() {
        lemma_body_row(front, k);
    }
}

// ---- markup ----

/// Code between backticks is shown in magenta.
pub proof fn law_code(text: Seq<char>)
    requires
        text.len() > 0,
        forall|i: int|
            0 <= i < text.len() ==> #[trigger] text[i] != '`' && text[i] != '*' && text[i] != ']',
    ensures
        rendered(seq!['`'] + text + seq!['`'], true) == "\x1b[35m"@ + text + "\x1b[0m"@,
{
    let n = text.len() as int;
    let none = Seq::<char>::empty();
    let s = seq!['`'] + text + seq!['`'];
    assert(s[0] == '`' && s[1] == text[0] && s[n + 1] == '`');
    assert(!run_at(s, 0, '`', 3)) by {
        if run_at(s, 0, '`', 3) {
            assert(s[1] == '`');
        }
    }
    assert forall|j: int| 1 <= j < n + 1 implies #[trigger] s[j] != '`' by {
        assert(s[j] == text[j - 1]);
    }
    law_first_place(s, 1, '`', n + 1);
    assert(token_at(s, 0) == Token::Code(n + 1));
    assert(s.subrange(1, n + 1) =~= text);
    assert(shown_from(s, n + 2) =~= none);
    assert(shown_from(s, 0) == token_shown(s, Token::Code(n + 1), 0) + none);
    assert(rendered(s, true) =~= "\x1b[35m"@ + text + "\x1b[0m"@);
}

/// Text between pairs of asterisks is shown in bold.
pub proof fn law_bold(text: Seq<char>)
    requires
        text.len() > 0,
        forall|i: int|
            0 <= i < text.len() ==> #[trigger] text[i] != '`' && text[i] != '*' && text[i] != ']',
    ensures
        rendered(seq!['*', '*'] + text + seq!['*', '*'], true) == "\x1b[1m"@ + text + "\x1b[0m"@,
{
    let n = text.len() as int;
    let none = Seq::<char>::empty();
    let b = seq!['*', '*'] + text + seq!['*', '*'];
    assert(b[0] == '*' && b[1] == '*' && b[2] == text[0] && b[n + 2] == '*' && b[n + 3] == '*');
    assert(run_at(b, 0, '*', 2));
    assert(!run_at(b, 0, '`', 3)) by {
        if run_at(b, 0, '`', 3) {
            assert(b[0] == '`');
        }
    }
    assert forall|j: int| 2 <= j < n + 2 implies !#[trigger] run_at(b, j, '*', 2) by {
        assert(b[j] == text[j - 2]);
        if run_at(b, j, '*', 2) {
            assert(b[j] == '*');
        }
    }
    assert(run_at(b, n + 2, '*', 2));
    lemma_first_run_there(b, 2, '*', 2, n + 2);
    assert(token_at(b, 0) == Token::Bold(n + 2));
    assert(b.subrange(2, n + 2) =~= text);
    assert(shown_from(b, n + 4) =~= none);
    assert(shown_from(b, 0) == token_shown(b, Token::Bold(n + 2), 0) + none);
    assert(rendered(b, true) =~= "\x1b[1m"@ + text + "\x1b[0m"@);
}

/// The text of a link is shown underlined, without the address.
pub proof fn law_link(text: Seq<char>, address: Seq<char>)
    requires
        text.len() > 0,
        forall|i: int|
            0 <= i < text.len() ==> #[trigger] text[i] != '`' && text[i] != '*' && text[i] != ']',
        forall|i: int| 0 <= i < address.len() ==> #[trigger] address[i] != ')',
    ensures
        rendered(seq!['['] + text + seq![']', '('] + address + seq![')'], true) == "\x1b[4m"@ + text
            + "\x1b[0m"@,
{
    let n = text.len() as int;
    let none = Seq::<char>::empty();
    let l = seq!['['] + text + seq![']', '('] + address + seq![')'];
    let p = n + 3 + address.len();
    assert(l[0] == '[' && l[n + 1] == ']' && l[n + 2] == '(' && l[p] == ')');
    assert(!run_at(l, 0, '`', 3) && !run_at(l, 0, '*', 2)) by {
        if run_at(l, 0, '`', 3) {
            assert(l[0] == '`');
        }
        if run_at(l, 0, '*', 2) {
            assert(l[0] == '*');
        }
    }
    assert forall|j: int| 1 <= j < n + 1 implies #[trigger] l[j] != ']' by {
        assert(l[j] == text[j - 1]);
    }
    law_first_place(l, 1, ']', n + 1);
    assert forall|j: int| n + 3 <= j < p implies #[trigger] l[j] != ')' by {
        assert(l[j] == address[j - n - 3]);
    }
    law_first_place(l, n + 3, ')', p);
    assert(token_at(l, 0) == Token::Link(n + 1, p));
    assert(l.subrange(1, n + 1) =~= text);
    assert(shown_from(l, p + 1) =~= none);
    assert(shown_from(l, 0) == token_shown(l, Token::Link(n + 1, p), 0) + none);
    assert(rendered(l, true) =~= "\x1b[4m"@ + text + "\x1b[0m"@);
}

/// A character behind a backslash is shown as it is, and without colour everything is.
pub proof fn law_escape(text: Seq<char>, c: char)
    ensures
        rendered(seq!['\\', c], true) == seq![c],
        rendered(text, false) == text,
{
    let none = Seq::<char>::empty();
    let e = seq!['\\', c];
    assert(!run_at(e, 0, '`', 3) && !run_at(e, 0, '*', 2)) by {
        if run_at(e, 0, '*', 2) {
            assert(e[0] == '*');
        }
    }
    assert(token_at(e, 0) == Token::Escaped);
    assert(shown_from(e, 2) =~= none);
    assert(shown_from(e, 0) == token_shown(e, Token::Escaped, 0) + none);
    assert(rendered(e, true) =~= seq![c]);
}

proof fn lemma_first_run_there(s: Seq<char>, from: int, c: char, n: int, e: int)
    requires
        0 <= from <= e,
        run_at(s, e, c, n),
        forall|j: int| from <= j < e ==> !#[trigger] run_at(s, j, c, n),
    ensures
        first_run(s, from, c, n) == Some(e),
    decreases e - from,
{
    if from < e {
        assert(!run_at(s, from, c, n));
        lemma_first_run_there(s, from + 1, c, n, e);
    }
}

} // verus!
