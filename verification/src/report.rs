//! What is printed: message lines, tables and summaries.

use vstd::prelude::*;
use vstd::seq_lib::*;
use vstd::string::*;

use crate::clock::{whole_seconds, Timestamp};
use crate::limits::{byte_len, count_bytes};
use crate::pieces::{lines, split_lines};
use crate::proto::{
    AgentDetails, AgentDetailsView, ChannelDetails, ChannelDetailsView, Event, EventView,
    StatusInfo, StatusView,
};
use crate::text::{
    chars_of, contains_part, decimal, has_part, i64_text, join2, join3, lowercase_text, pad_left,
    pad_right, push_i64, push_padded, push_right, push_u128, push_u64, signed, string_of, to_lowercase,
};
use crate::types::{opt_text, texts, views, Intent, Message, MessageView, Recipient};

verus! {

// ---- times ----

/// How long ago something was, in words, by its seconds.
pub open spec fn ago(s: int) -> Seq<char> {
    if s < 5 {
        "just now"@
    } else if s < 60 {
        decimal(s as nat) + "s ago"@
    } else if s < 3600 {
        decimal((s / 60) as nat) + "m ago"@
    } else if s < 172800 {
        decimal((s / 3600) as nat) + "h ago"@
    } else {
        decimal((s / 86400) as nat) + "d ago"@
    }
}

/// How long ago something was, in words, by its seconds.
pub fn format_relative(s: i128) -> (r: String)
    ensures
        r@ == ago(s as int),
{
    if s < 5 {
        return "just now".to_owned();
    }
    let (n, words): (i128, &str) = if s < 60 {
        (s, "s ago")
    } else if s < 3600 {
        (s / 60, "m ago")
    } else if s < 172800 {
        (s / 3600, "h ago")
    } else {
        (s / 86400, "d ago")
    };
    let mut r = String::new();
    push_u128(&mut r, n as u128);
    r.append(words);
    assert(r@ =~= ago(s as int));
    r
}

/// How long before `now` something was, in words.
pub open spec fn ago_from(now: Timestamp, then: Timestamp) -> Seq<char> {
    ago(whole_seconds(now.at() - then.at()))
}

fn relative(now: &Timestamp, then: &Timestamp) -> (r: String)
    ensures
        r@ == ago_from(*now, *then),
{
    format_relative(now.seconds_since(then))
}

// ---- messages ----

/// A message as one line. `time` is when it was sent, as it is shown.
pub open spec fn line_of(time: Seq<char>, from: Seq<char>, to: Seq<char>, body: Seq<char>) -> Seq<
    char,
> {
    "["@ + time + "] "@ + from + " → "@ + to + ": "@ + body
}

/// A message as one line.
pub fn message_line(time: &str, m: &Message) -> (r: String)
    ensures
        r@ == line_of(time@, m@.from, m@.to.label(), m@.body),
{
    plain_line(time, m.from.as_str(), &m.to, m.body.as_str())
}

fn plain_line(time: &str, from: &str, to: &Recipient, body: &str) -> (r: String)
    ensures
        r@ == line_of(time@, from@, to@.label(), body@),
{
    let label = to.label();
    let mut r = String::new();
    r.append("[");
    r.append(time);
    r.append("] ");
    r.append(from);
    r.append(" → ");
    r.append(label.as_str());
    r.append(": ");
    r.append(body);
    assert(r@ =~= line_of(time@, from@, to@.label(), body@));
    r
}

/// An event as one line.
pub open spec fn event_shown(time: Seq<char>, event: EventView) -> Seq<char> {
    match event {
        EventView::Message { to, from, body, message_id } => line_of(time, from, to.label(), body),
        EventView::Paused => "["@ + time + "] (paused)"@,
        EventView::Resumed => "["@ + time + "] (resumed)"@,
    }
}

/// An event as one line.
pub fn event_line(time: &str, event: &Event) -> (r: String)
    ensures
        r@ == event_shown(time@, event@),
{
    match event {
        Event::Message { to, from, body, .. } => plain_line(time, from.as_str(), to, body.as_str()),
        Event::Paused => join3("[", time, "] (paused)"),
        Event::Resumed => join3("[", time, "] (resumed)"),
    }
}

/// Whether `part` stands in `line`.
pub fn holds(line: &str, part: &str) -> (r: bool)
    ensures
        r == has_part(line@, part@),
{
    let a = chars_of(line);
    let b = chars_of(part);
    contains_part(&a, &b)
}

/// Whether a line passes a filter: there is none, or the line holds it, capitals and small
/// letters taken as the same.
pub fn passes_filter(line: &str, filter: &Option<String>) -> (r: bool)
    ensures
        r == (match *filter {
            Some(f) => has_part(lowercase_text(line@), lowercase_text(f@)),
            None => true,
        }),
{
    match filter {
        Some(f) => {
            let a = to_lowercase(line);
            let b = to_lowercase(f.as_str());
            holds(a.as_str(), b.as_str())
        },
        None => true,
    }
}

/// A line of a live stream: a frame as it came, or the event that it holds, if it passes the
/// filter.
pub fn tail_line(
    json: bool,
    frame: &str,
    event: &Option<Event>,
    time: &str,
    filter: &Option<String>,
) -> (r: Option<String>)
    ensures
        opt_text(r) == (if json {
            Some(frame@)
        } else {
            match *event {
                Some(e) => match *filter {
                    Some(f) => if has_part(
                        lowercase_text(event_shown(time@, e@)),
                        lowercase_text(f@),
                    ) {
                        Some(event_shown(time@, e@))
                    } else {
                        None
                    },
                    None => Some(event_shown(time@, e@)),
                },
                None => None,
            }
        }),
{
    if json {
        return Some(frame.to_owned());
    }
    match event {
        Some(e) => {
            let line = event_line(time, e);
            if passes_filter(line.as_str(), filter) {
                Some(line)
            } else {
                None
            }
        },
        None => None,
    }
}

// ---- tables ----

/// The bytes of the longest of some texts, or `least` where all are shorter.
pub open spec fn widest(list: Seq<Seq<char>>, least: nat) -> nat
    decreases list.len(),
{
    if list.len() == 0 {
        least
    } else {
        let w = widest(list.drop_last(), least);
        if byte_len(list.last()) > w {
            byte_len(list.last())
        } else {
            w
        }
    }
}

/// The names of agents.
pub open spec fn names_of(list: Seq<AgentDetailsView>) -> Seq<Seq<char>> {
    list.map_values(|a: AgentDetailsView| a.name)
}

/// The rows of a table of agents.
pub open spec fn agent_rows(list: Seq<AgentDetailsView>, width: nat, now: Timestamp) -> Seq<char>
    decreases list.len(),
{
    if list.len() == 0 {
        seq![]
    } else {
        agent_rows(list.drop_last(), width, now) + pad_right(list.last().name, width) + "  "@
            + ago_from(now, list.last().last_seen) + "\n"@
    }
}

/// A table of agents with the time since they were seen; `none` where there are none.
pub open spec fn agents_shown(list: Seq<AgentDetailsView>, now: Timestamp, none: Seq<char>) -> Seq<
    char,
> {
    if list.len() == 0 {
        none + "\n"@
    } else {
        let width = widest(names_of(list), 0);
        pad_right("NAME"@, width) + "  last seen\n"@ + agent_rows(list, width, now)
    }
}

/// A table of agents with the time since they were seen; `none` where there are none.
pub fn agents_table(list: &Vec<AgentDetails>, now: &Timestamp, none: &str) -> (r: String)
    ensures
        r@ == agents_shown(views(list@), *now, none@),
{
    let ghost all = views(list@);
    if list.len() == 0 {
        return join2(none, "\n");
    }
    let mut width: usize = 0;
    let mut i: usize = 0;
    assert(names_of(all).take(0) =~= seq![]);
    while i < list.len()
        invariant
            all == views(list@),
            i <= list@.len(),
            width == widest(names_of(all).take(i as int), 0),
        decreases list@.len() - i,
    {
        let n: usize = count_bytes(list[i].name.as_str());
        proof {
            assert(all[i as int] == list@[i as int]@);
            assert(names_of(all)[i as int] == list@[i as int].name@);
            assert(names_of(all).take(i + 1).drop_last() =~= names_of(all).take(i as int));
            assert(names_of(all).take(i + 1).last() == names_of(all)[i as int]);
        }
        if n > width {
            width = n;
        }
        i = i + 1;
    }
    assert(names_of(all).take(i as int) =~= names_of(all));
    let mut r = String::new();
    push_padded(&mut r, "NAME", width);
    r.append("  last seen\n");
    let ghost head = r@;
    assert(head =~= pad_right("NAME"@, width as nat) + "  last seen\n"@);
    let mut k: usize = 0;
    assert(all.take(0) =~= seq![]);
    assert(r@ =~= head + agent_rows(all.take(0), width as nat, *now));
    while k < list.len()
        invariant
            all == views(list@),
            k <= list@.len(),
            r@ == head + agent_rows(all.take(k as int), width as nat, *now),
        decreases list@.len() - k,
    {
        let a = &list[k];
        proof {
            assert(all[k as int] == a@);
            assert(all.take(k + 1).drop_last() =~= all.take(k as int));
            assert(all.take(k + 1).last() == a@);
        }
        push_padded(&mut r, a.name.as_str(), width);
        r.append("  ");
        let seen = relative(now, &a.last_seen);
        r.append(seen.as_str());
        r.append("\n");
        k = k + 1;
        assert(r@ =~= head + agent_rows(all.take(k as int), width as nat, *now));
    }
    assert(all.take(k as int) =~= all);
    r
}

/// The names of channels, each with its `#`.
pub open spec fn channels_of(list: Seq<ChannelDetailsView>) -> Seq<Seq<char>> {
    list.map_values(|c: ChannelDetailsView| "#"@ + c.name)
}

/// When a channel's last message was sent, in words.
pub open spec fn last_activity(c: ChannelDetailsView, now: Timestamp) -> Seq<char> {
    match c.last_message_at {
        Some(t) => ago_from(now, t),
        None => "—"@,
    }
}

/// The rows of a table of channels.
pub open spec fn channel_rows(list: Seq<ChannelDetailsView>, width: nat, now: Timestamp) -> Seq<
    char,
>
    decreases list.len(),
{
    if list.len() == 0 {
        seq![]
    } else {
        channel_rows(list.drop_last(), width, now) + pad_right("#"@ + list.last().name, width)
            + "  "@ + pad_left(signed(list.last().member_count as int), 7) + "  "@ + last_activity(
            list.last(),
            now,
        ) + "\n"@
    }
}

/// A table of channels with their member counts and the time since their last message.
pub open spec fn channels_shown(list: Seq<ChannelDetailsView>, now: Timestamp) -> Seq<char> {
    if list.len() == 0 {
        "(no channels)\n"@
    } else {
        let width = widest(channels_of(list), 0);
        pad_right("CHANNEL"@, width) + "  members  last activity\n"@ + channel_rows(list, width, now)
    }
}

/// A table of channels with their member counts and the time since their last message.
pub fn channels_table(list: &Vec<ChannelDetails>, now: &Timestamp) -> (r: String)
    ensures
        r@ == channels_shown(views(list@), *now),
{
    let ghost all = views(list@);
    if list.len() == 0 {
        return "(no channels)\n".to_owned();
    }
    let mut width: usize = 0;
    let mut i: usize = 0;
    assert(channels_of(all).take(0) =~= seq![]);
    while i < list.len()
        invariant
            all == views(list@),
            i <= list@.len(),
            width == widest(channels_of(all).take(i as int), 0),
        decreases list@.len() - i,
    {
        let name = join2("#", list[i].name.as_str());
        let n: usize = count_bytes(name.as_str());
        proof {
            assert(all[i as int] == list@[i as int]@);
            assert(channels_of(all)[i as int] == name@);
            assert(channels_of(all).take(i + 1).drop_last() =~= channels_of(all).take(i as int));
            assert(channels_of(all).take(i + 1).last() == channels_of(all)[i as int]);
        }
        if n > width {
            width = n;
        }
        i = i + 1;
    }
    assert(channels_of(all).take(i as int) =~= channels_of(all));
    let mut r = String::new();
    push_padded(&mut r, "CHANNEL", width);
    r.append("  members  last activity\n");
    let ghost head = r@;
    assert(head =~= pad_right("CHANNEL"@, width as nat) + "  members  last activity\n"@);
    let mut k: usize = 0;
    assert(all.take(0) =~= seq![]);
    assert(r@ =~= head + channel_rows(all.take(0), width as nat, *now));
    while k < list.len()
        invariant
            all == views(list@),
            k <= list@.len(),
            r@ == head + channel_rows(all.take(k as int), width as nat, *now),
        decreases list@.len() - k,
    {
        let c = &list[k];
        proof {
            assert(all[k as int] == c@);
            assert(all.take(k + 1).drop_last() =~= all.take(k as int));
            assert(all.take(k + 1).last() == c@);
        }
        let name = join2("#", c.name.as_str());
        let count = i64_text(c.member_count);
        let last = match &c.last_message_at {
            Some(t) => relative(now, t),
            None => "—".to_owned(),
        };
        push_padded(&mut r, name.as_str(), width);
        r.append("  ");
        push_right(&mut r, count.as_str(), 7);
        r.append("  ");
        r.append(last.as_str());
        r.append("\n");
        k = k + 1;
        assert(r@ =~= head + channel_rows(all.take(k as int), width as nat, *now));
    }
    assert(all.take(k as int) =~= all);
    r
}

// ---- status ----

/// A quotient rounded toward zero.
pub open spec fn quotient(x: int, k: int) -> int {
    if x < 0 {
        -((-x) / k)
    } else {
        x / k
    }
}

/// What is left of a division that rounds toward zero.
pub open spec fn rest(x: int, k: int) -> int {
    x - k * quotient(x, k)
}

/// A time span in hours, minutes and seconds.
pub open spec fn span(seconds: int) -> Seq<char> {
    signed(quotient(seconds, 3600)) + "h "@ + signed(quotient(rest(seconds, 3600), 60)) + "m "@
        + signed(rest(seconds, 60)) + "s"@
}

fn push_span(out: &mut String, seconds: i64)
    ensures
        final(out)@ == old(out)@ + span(seconds as int),
{
    let x: i128 = seconds as i128;
    let negative: bool = x < 0;
    let size: i128 = if negative {
        -x
    } else {
        x
    };
    let h: i128 = size / 3600;
    let m: i128 = (size % 3600) / 60;
    let s: i128 = size % 60;
    let sign: i128 = if negative {
        -1
    } else {
        1
    };
    push_i64(out, (sign * h) as i64);
    out.append("h ");
    push_i64(out, (sign * m) as i64);
    out.append("m ");
    push_i64(out, (sign * s) as i64);
    out.append("s");
    assert(out@ =~= old(out)@ + span(seconds as int));
}

/// `true` or `false`.
pub open spec fn truth(b: bool) -> Seq<char> {
    if b {
        "true"@
    } else {
        "false"@
    }
}

fn truth_text(b: bool) -> (r: &'static str)
    ensures
        r@ == truth(b),
{
    if b {
        "true"
    } else {
        "false"
    }
}

/// The daemon's state, one fact per line.
pub open spec fn status_shown(s: StatusView) -> Seq<char> {
    "daemon:      running\nuptime:      "@ + span(s.uptime_seconds as int) + "\npaused:      "@
        + truth(s.paused) + "\nagents:      "@ + signed(s.agent_count as int) + "\nchannels:    "@
        + signed(s.channel_count as int) + "\nunread msgs: "@ + signed(s.unread_count as int)
        + "\nscheduled:   "@ + signed(s.pending_scheduled as int) + " pending\nsocket:      "@
        + s.socket_path + "\ndb:          "@ + s.db_path + "\n"@
}

/// The daemon's state, one fact per line.
pub fn status_text(s: &StatusInfo) -> (r: String)
    ensures
        r@ == status_shown(s@),
{
    let mut r = String::new();
    r.append("daemon:      running\nuptime:      ");
    push_span(&mut r, s.uptime_seconds);
    r.append("\npaused:      ");
    r.append(truth_text(s.paused));
    r.append("\nagents:      ");
    push_i64(&mut r, s.agent_count);
    r.append("\nchannels:    ");
    push_i64(&mut r, s.channel_count);
    r.append("\nunread msgs: ");
    push_i64(&mut r, s.unread_count);
    r.append("\nscheduled:   ");
    push_i64(&mut r, s.pending_scheduled);
    r.append(" pending\nsocket:      ");
    r.append(s.socket_path.as_str());
    r.append("\ndb:          ");
    r.append(s.db_path.as_str());
    r.append("\n");
    assert(r@ =~= status_shown(s@));
    r
}

/// What is printed instead of the daemon's state when it cannot be reached.
pub fn down_text(why: &str) -> (r: String)
    ensures
        r@ == "daemon: not running ("@ + why@
            + ")\nstart it with `sidebar serve` in another terminal\n"@,
{
    join3("daemon: not running (", why, ")\nstart it with `sidebar serve` in another terminal\n")
}

/// The daemon's state in one line.
pub open spec fn status_line_shown(s: StatusView) -> Seq<char> {
    "uptime "@ + span(s.uptime_seconds as int) + " · paused "@ + truth(s.paused) + " · agents "@
        + signed(s.agent_count as int) + " · channels "@ + signed(s.channel_count as int)
        + " · unread "@ + signed(s.unread_count as int) + " · scheduled "@ + signed(
        s.pending_scheduled as int,
    )
}

/// The daemon's state in one line.
pub fn status_line(s: &StatusInfo) -> (r: String)
    ensures
        r@ == status_line_shown(s@),
{
    let mut r = String::new();
    r.append("uptime ");
    push_span(&mut r, s.uptime_seconds);
    r.append(" · paused ");
    r.append(truth_text(s.paused));
    r.append(" · agents ");
    push_i64(&mut r, s.agent_count);
    r.append(" · channels ");
    push_i64(&mut r, s.channel_count);
    r.append(" · unread ");
    push_i64(&mut r, s.unread_count);
    r.append(" · scheduled ");
    push_i64(&mut r, s.pending_scheduled);
    assert(r@ =~= status_line_shown(s@));
    r
}

// ---- one message in detail ----

/// The delivery of a message, with its times as they are shown.
pub struct DeliveryText {
    pub agent: String,
    pub delivered: Option<String>,
    pub read: Option<String>,
}

/// The delivery of a message, as views.
pub struct DeliveryTextView {
    pub agent: Seq<char>,
    pub delivered: Option<Seq<char>>,
    pub read: Option<Seq<char>>,
}

impl View for DeliveryText {
    type V = DeliveryTextView;

    open spec fn view(&self) -> DeliveryTextView {
        DeliveryTextView {
            agent: self.agent@,
            delivered: opt_text(self.delivered),
            read: opt_text(self.read),
        }
    }
}

/// An intent as it is shown.
pub open spec fn intent_shown(i: Intent) -> Seq<char> {
    match i {
        Intent::Fyi => "Fyi"@,
        Intent::Question => "Question"@,
        Intent::Task => "Task"@,
        Intent::Handoff => "Handoff"@,
    }
}

fn intent_text(i: Intent) -> (r: &'static str)
    ensures
        r@ == intent_shown(i),
{
    match i {
        Intent::Fyi => "Fyi",
        Intent::Question => "Question",
        Intent::Task => "Task",
        Intent::Handoff => "Handoff",
    }
}

/// The lines of a body, each indented.
pub open spec fn body_rows(list: Seq<Seq<char>>) -> Seq<char>
    decreases list.len(),
{
    if list.len() == 0 {
        seq![]
    } else {
        body_rows(list.drop_last()) + "  "@ + list.last() + "\n"@
    }
}

/// A message's first line.
pub open spec fn head_shown(m: MessageView, time: Seq<char>) -> Seq<char> {
    "message "@ + signed(m.id as int) + " — "@ + m.from + " → "@ + m.to.label() + " at "@ + time
        + "\n"@
}

/// The line that tells a message's intent, where there is one to tell.
pub open spec fn intent_line(m: MessageView, full: bool) -> Seq<char> {
    if full && m.intent is Some {
        "intent: "@ + intent_shown(m.intent->0) + "\n"@
    } else {
        seq![]
    }
}

/// The line that tells which message a message replies to, where there is one to tell.
pub open spec fn reply_line(m: MessageView, full: bool) -> Seq<char> {
    if full && m.reply_to is Some {
        "reply_to: "@ + signed(m.reply_to->0 as int) + "\n"@
    } else {
        seq![]
    }
}

/// A message's head and body: its intent and the message that it replies to only in `full`.
pub open spec fn message_shown(m: MessageView, time: Seq<char>, full: bool) -> Seq<char> {
    head_shown(m, time) + intent_line(m, full) + reply_line(m, full) + "body:\n"@ + body_rows(
        lines(m.body),
    )
}

/// Who a message's deliveries are for.
pub open spec fn agents_of(list: Seq<DeliveryTextView>) -> Seq<Seq<char>> {
    list.map_values(|d: DeliveryTextView| d.agent)
}

/// The rows of a table of deliveries.
pub open spec fn delivery_rows(list: Seq<DeliveryTextView>, width: nat) -> Seq<char>
    decreases list.len(),
{
    if list.len() == 0 {
        seq![]
    } else {
        delivery_rows(list.drop_last(), width) + delivery_row(list.last(), width)
    }
}

/// When a message was delivered.
pub open spec fn delivered_shown(d: DeliveryTextView) -> Seq<char> {
    match d.delivered {
        Some(t) => t,
        None => "(undelivered)"@,
    }
}

/// When a message was read, if it was.
pub open spec fn read_shown(d: DeliveryTextView) -> Seq<char> {
    match d.read {
        Some(t) => "read "@ + t,
        None => "unread"@,
    }
}

/// A row of a table of deliveries.
pub open spec fn delivery_row(d: DeliveryTextView, width: nat) -> Seq<char> {
    "  "@ + pad_right(d.agent, width) + "  delivered "@ + delivered_shown(d) + "  "@ + read_shown(
        d,
    ) + "\n"@
}

/// A message in detail: its head and body, and to whom it was delivered. `full` says more:
/// the intent, the message that it replies to, and that it went nowhere where it did.
pub open spec fn detail_shown(
    m: MessageView,
    time: Seq<char>,
    list: Seq<DeliveryTextView>,
    full: bool,
) -> Seq<char> {
    message_shown(m, time, full) + (if full {
        "\n"@
    } else {
        seq![]
    }) + (if list.len() > 0 {
        "deliveries:\n"@ + delivery_rows(list, widest(agents_of(list), 0))
    } else if full {
        "(no deliveries — message went nowhere)\n"@
    } else {
        seq![]
    })
}

fn push_body(out: &mut String, body: &str)
    ensures
        final(out)@ == old(out)@ + body_rows(lines(body@)),
{
    let list = split_lines(body);
    let ghost all = lines(body@);
    let mut i: usize = 0;
    assert(all.take(0) =~= seq![]);
    assert(out@ =~= old(out)@ + body_rows(all.take(0)));
    while i < list.len()
        invariant
            all == texts(list@),
            i <= list@.len(),
            out@ == old(out)@ + body_rows(all.take(i as int)),
        decreases list@.len() - i,
    {
        proof {
            assert(all[i as int] == list@[i as int]@);
            assert(all.take(i + 1).drop_last() =~= all.take(i as int));
            assert(all.take(i + 1).last() == all[i as int]);
        }
        out.append("  ");
        out.append(list[i].as_str());
        out.append("\n");
        i = i + 1;
        assert(out@ =~= old(out)@ + body_rows(all.take(i as int)));
    }
    assert(all.take(i as int) =~= all);
}

fn head_text(m: &Message, time: &str) -> (r: String)
    ensures
        r@ == head_shown(m@, time@),
{
    let label = m.to.label();
    let mut r = "message ".to_owned();
    push_i64(&mut r, m.id);
    r.append(" — ");
    r.append(m.from.as_str());
    r.append(" → ");
    r.append(label.as_str());
    r.append(" at ");
    r.append(time);
    r.append("\n");
    r
}

fn message_text(m: &Message, time: &str, full: bool) -> (r: String)
    ensures
        r@ == message_shown(m@, time@, full),
{
    let mut r = head_text(m, time);
    let mut intent = String::new();
    if full {
        if let Some(i) = m.intent {
            intent = join3("intent: ", intent_text(i), "\n");
        }
    }
    assert(intent@ =~= intent_line(m@, full));
    let mut reply = String::new();
    if full {
        if let Some(id) = m.reply_to {
            let number = i64_text(id);
            reply = join3("reply_to: ", number.as_str(), "\n");
        }
    }
    assert(reply@ =~= reply_line(m@, full));
    r.append(intent.as_str());
    r.append(reply.as_str());
    r.append("body:\n");
    push_body(&mut r, m.body.as_str());
    r
}

fn delivery_row_text(d: &DeliveryText, width: usize) -> (r: String)
    ensures
        r@ == delivery_row(d@, width as nat),
{
    let delivered = match &d.delivered {
        Some(t) => t.clone(),
        None => "(undelivered)".to_owned(),
    };
    let read = match &d.read {
        Some(t) => join2("read ", t.as_str()),
        None => "unread".to_owned(),
    };
    let mut r = "  ".to_owned();
    push_padded(&mut r, d.agent.as_str(), width);
    r.append("  delivered ");
    r.append(delivered.as_str());
    r.append("  ");
    r.append(read.as_str());
    r.append("\n");
    r
}

fn push_deliveries(out: &mut String, list: &Vec<DeliveryText>)
    ensures
        final(out)@ == old(out)@ + delivery_rows(views(list@), widest(agents_of(views(list@)), 0)),
{
    let ghost all = views(list@);
    let mut width: usize = 0;
    let mut i: usize = 0;
    assert(agents_of(all).take(0) =~= seq![]);
    while i < list.len()
        invariant
            all == views(list@),
            i <= list@.len(),
            width == widest(agents_of(all).take(i as int), 0),
        decreases list@.len() - i,
    {
        let n: usize = count_bytes(list[i].agent.as_str());
        proof {
            assert(all[i as int] == list@[i as int]@);
            assert(agents_of(all)[i as int] == list@[i as int].agent@);
            assert(agents_of(all).take(i + 1).drop_last() =~= agents_of(all).take(i as int));
            assert(agents_of(all).take(i + 1).last() == agents_of(all)[i as int]);
        }
        if n > width {
            width = n;
        }
        i = i + 1;
    }
    assert(agents_of(all).take(i as int) =~= agents_of(all));
    let mut k: usize = 0;
    assert(all.take(0) =~= seq![]);
    assert(out@ =~= old(out)@ + delivery_rows(all.take(0), width as nat));
    while k < list.len()
        invariant
            all == views(list@),
            k <= list@.len(),
            out@ == old(out)@ + delivery_rows(all.take(k as int), width as nat),
        decreases list@.len() - k,
    {
        let d = &list[k];
        proof {
            assert(all[k as int] == d@);
            assert(all.take(k + 1).drop_last() =~= all.take(k as int));
            assert(all.take(k + 1).last() == d@);
        }
        let row = delivery_row_text(d, width);
        out.append(row.as_str());
        k = k + 1;
        assert(out@ =~= old(out)@ + delivery_rows(all.take(k as int), width as nat));
    }
    assert(all.take(k as int) =~= all);
}

/// A message in detail.
pub fn detail_text(m: &Message, time: &str, list: &Vec<DeliveryText>, full: bool) -> (r: String)
    ensures
        r@ == detail_shown(m@, time@, views(list@), full),
{
    let mut r = message_text(m, time, full);
    if full {
        r.append("\n");
    }
    let ghost top = r@;
    assert(top =~= message_shown(m@, time@, full) + (if full {
        "\n"@
    } else {
        seq![]
    }));
    let mut table = String::new();
    if list.len() > 0 {
        table = "deliveries:\n".to_owned();
        push_deliveries(&mut table, list);
    } else if full {
        table = "(no deliveries — message went nowhere)\n".to_owned();
    }
    r.append(table.as_str());
    assert(r@ =~= detail_shown(m@, time@, views(list@), full));
    r
}

// ---- scheduled messages ----

/// A scheduled message, with its time as it is shown.
pub struct ScheduledText {
    pub id: i64,
    pub time: String,
    pub from: String,
    pub to: String,
    pub body: String,
}

/// A scheduled message, as views.
pub struct ScheduledTextView {
    pub id: i64,
    pub time: Seq<char>,
    pub from: Seq<char>,
    pub to: Seq<char>,
    pub body: Seq<char>,
}

impl View for ScheduledText {
    type V = ScheduledTextView;

    open spec fn view(&self) -> ScheduledTextView {
        ScheduledTextView {
            id: self.id,
            time: self.time@,
            from: self.from@,
            to: self.to@,
            body: self.body@,
        }
    }
}

/// The start of a text, at most so many characters.
pub open spec fn preview(s: Seq<char>, n: int) -> Seq<char> {
    if s.len() <= n {
        s
    } else {
        s.take(n)
    }
}

/// The rows of a table of scheduled messages.
pub open spec fn scheduled_rows(list: Seq<ScheduledTextView>) -> Seq<char>
    decreases list.len(),
{
    if list.len() == 0 {
        seq![]
    } else {
        scheduled_rows(list.drop_last()) + scheduled_row(list.last())
    }
}

/// A row of a table of scheduled messages.
pub open spec fn scheduled_row(s: ScheduledTextView) -> Seq<char> {
    pad_right(signed(s.id as int), 5) + " "@ + s.time + "  "@ + s.from + " → "@ + s.to + "  "@
        + preview(s.body, 40) + "\n"@
}

fn scheduled_row_text(s: &ScheduledText) -> (r: String)
    ensures
        r@ == scheduled_row(s@),
{
    let id = i64_text(s.id);
    let chars = chars_of(s.body.as_str());
    let n: usize = if chars.len() <= 40 {
        chars.len()
    } else {
        40
    };
    let start = string_of(&chars, 0, n);
    assert(start@ =~= preview(s.body@, 40));
    let mut r = String::new();
    push_padded(&mut r, id.as_str(), 5);
    assert(r@ =~= pad_right(signed(s.id as int), 5));
    r.append(" ");
    r.append(s.time.as_str());
    r.append("  ");
    r.append(s.from.as_str());
    r.append(" → ");
    r.append(s.to.as_str());
    r.append("  ");
    r.append(start.as_str());
    r.append("\n");
    r
}

/// A table of scheduled messages.
pub open spec fn scheduled_shown(list: Seq<ScheduledTextView>) -> Seq<char> {
    if list.len() == 0 {
        "(no pending scheduled messages)\n"@
    } else {
        "ID    FIRES                       FROM → TO         BODY\n"@ + scheduled_rows(list)
    }
}

/// A table of scheduled messages.
pub fn scheduled_table(list: &Vec<ScheduledText>) -> (r: String)
    ensures
        r@ == scheduled_shown(views(list@)),
{
    if list.len() == 0 {
        return "(no pending scheduled messages)\n".to_owned();
    }
    let ghost all = views(list@);
    let mut r = String::new();
    r.append("ID    FIRES                       FROM → TO         BODY\n");
    let ghost head = r@;
    let mut k: usize = 0;
    assert(head =~= "ID    FIRES                       FROM → TO         BODY\n"@);
    assert(all.take(0) =~= seq![]);
    assert(r@ =~= head + scheduled_rows(all.take(0)));
    while k < list.len()
        invariant
            all == views(list@),
            k <= list@.len(),
            r@ == head + scheduled_rows(all.take(k as int)),
        decreases list@.len() - k,
    {
        let s = &list[k];
        proof {
            assert(all[k as int] == s@);
            assert(all.take(k + 1).drop_last() =~= all.take(k as int));
            assert(all.take(k + 1).last() == s@);
        }
        let row = scheduled_row_text(s);
        r.append(row.as_str());
        k = k + 1;
        assert(r@ =~= head + scheduled_rows(all.take(k as int)));
    }
    assert(all.take(k as int) =~= all);
    r
}

// ---- lists ----

/// Texts, each on a line of its own behind a prefix.
pub open spec fn listed(prefix: Seq<char>, list: Seq<Seq<char>>) -> Seq<char>
    decreases list.len(),
{
    if list.len() == 0 {
        seq![]
    } else {
        listed(prefix, list.drop_last()) + prefix + list.last() + "\n"@
    }
}

/// Texts, each on a line of its own behind a prefix.
pub fn list_text(prefix: &str, list: &Vec<String>) -> (r: String)
    ensures
        r@ == listed(prefix@, texts(list@)),
{
    let ghost all = texts(list@);
    let mut r = String::new();
    let mut i: usize = 0;
    assert(all.take(0) =~= seq![]);
    assert(r@ =~= listed(prefix@, all.take(0)));
    while i < list.len()
        invariant
            all == texts(list@),
            i <= list@.len(),
            r@ == listed(prefix@, all.take(i as int)),
        decreases list@.len() - i,
    {
        proof {
            assert(all[i as int] == list@[i as int]@);
            assert(all.take(i + 1).drop_last() =~= all.take(i as int));
            assert(all.take(i + 1).last() == all[i as int]);
        }
        r.append(prefix);
        r.append(list[i].as_str());
        r.append("\n");
        i = i + 1;
        assert(r@ =~= listed(prefix@, all.take(i as int)));
    }
    assert(all.take(i as int) =~= all);
    r
}

/// What a dry run of pruning says.
pub open spec fn prunable_shown(names: Seq<Seq<char>>) -> Seq<char> {
    if names.len() == 0 {
        "(no inactive agents would be pruned)\n"@
    } else {
        "would prune "@ + decimal(names.len())
            + " agent(s) (use without --dry-run to apply):\n"@ + listed("  "@, names)
    }
}

/// What a dry run of pruning says.
pub fn prunable_text(names: &Vec<String>) -> (r: String)
    ensures
        r@ == prunable_shown(texts(names@)),
{
    assert(texts(names@).len() == names@.len());
    if names.len() == 0 {
        return "(no inactive agents would be pruned)\n".to_owned();
    }
    let mut r = String::new();
    r.append("would prune ");
    push_u64(&mut r, names.len() as u64);
    r.append(" agent(s) (use without --dry-run to apply):\n");
    let rows = list_text("  ", names);
    r.append(rows.as_str());
    assert(r@ =~= prunable_shown(texts(names@)));
    r
}

} // verus!
