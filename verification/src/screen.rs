//! What the interactive prompt prints.

use vstd::prelude::*;
use vstd::string::*;

use crate::cli::{bare, Shown, ShownView};
use crate::clock::Timestamp;
use crate::markdown::{render_markdown_inner, rendered};
use crate::pieces::trim_start_char;
use crate::proto::{DataView, Event, EventView, Response, ResponseData, ResponseView};
use crate::repl::{Ask, AskView};
use crate::report::{
    agents_shown, agents_table, channels_shown, channels_table, list_text, listed, status_line,
    status_line_shown,
};
use crate::style::{
    name_shown, paint, paint_name, painted, recipient_suffix, suffix_of, BOLD, CYAN, DIM, RESET,
    YELLOW,
};
use crate::text::{i64_text, join2, join3, pad_right, push_padded, signed};
use crate::types::{texts, views, Message, Recipient, RecipientView};

verus! {

// ---- messages and events ----

/// A message as one line: when it was sent, who sent it, what it says and to whom it went.
/// `hue` is the escape sequence of the sender's colour.
pub open spec fn chat_line(
    time: Seq<char>,
    from: Seq<char>,
    hue: Seq<char>,
    body: Seq<char>,
    to: RecipientView,
    color: bool,
) -> Seq<char> {
    painted(DIM@, "["@ + time + "]"@, color) + " "@ + name_shown(from, hue, color) + ": "@
        + rendered(body, color) + suffix_of(to, color)
}

fn push_chat(
    time: &str,
    from: &str,
    hue: &str,
    body: &str,
    to: &Recipient,
    color: bool,
) -> (r: String)
    ensures
        r@ == chat_line(time@, from@, hue@, body@, to@, color),
{
    let stamp = join3("[", time, "]");
    let mut r = paint(DIM, stamp.as_str(), color);
    let name = paint_name(from, hue, color);
    let text = render_markdown_inner(body, color);
    let suffix = recipient_suffix(to, color);
    r.append(" ");
    r.append(name.as_str());
    r.append(": ");
    r.append(text.as_str());
    r.append(suffix.as_str());
    r
}

/// A message as one line.
pub fn chat_text(time: &str, m: &Message, hue: &str, color: bool) -> (r: String)
    ensures
        r@ == chat_line(time@, m@.from, hue@, m@.body, m@.to, color),
{
    push_chat(time, m.from.as_str(), hue, m.body.as_str(), &m.to, color)
}

/// An event as it appears above the prompt.
pub open spec fn event_above(
    time: Seq<char>,
    event: EventView,
    hue: Seq<char>,
    color: bool,
) -> Seq<char> {
    let stamp = painted(DIM@, "["@ + time + "]"@, color);
    match event {
        EventView::Message { to, from, body, message_id } => chat_line(
            time,
            from,
            hue,
            body,
            to,
            color,
        ) + "\n"@,
        EventView::Paused => stamp + " "@ + painted(YELLOW@, "(paused)"@, color) + "\n"@,
        EventView::Resumed => stamp + " "@ + painted(YELLOW@, "(resumed)"@, color) + "\n"@,
    }
}

/// An event as it appears above the prompt. `hue` is the escape sequence of the sender's
/// colour.
pub fn event_text(time: &str, event: &Event, hue: &str, color: bool) -> (r: String)
    ensures
        r@ == event_above(time@, event@, hue@, color),
{
    let word = match event {
        Event::Message { to, from, body, .. } => {
            let line = push_chat(time, from.as_str(), hue, body.as_str(), to, color);
            return join2(line.as_str(), "\n");
        },
        Event::Paused => paint(YELLOW, "(paused)", color),
        Event::Resumed => paint(YELLOW, "(resumed)", color),
    };
    let stamp = join3("[", time, "]");
    let mut r = paint(DIM, stamp.as_str(), color);
    r.append(" ");
    r.append(word.as_str());
    r.append("\n");
    r
}

/// The prompt. `hue` is the escape sequence of the agent's colour.
pub open spec fn prompt_shown(name: Seq<char>, hue: Seq<char>, color: bool) -> Seq<char> {
    if color {
        BOLD@ + hue + name + RESET@ + DIM@ + " ❯ "@ + RESET@
    } else {
        name + "> "@
    }
}

/// The prompt.
pub fn prompt(name: &str, hue: &str, color: bool) -> (r: String)
    ensures
        r@ == prompt_shown(name@, hue@, color),
{
    if color {
        let mut r = join3(BOLD, hue, name);
        r.append(RESET);
        r.append(DIM);
        r.append(" ❯ ");
        r.append(RESET);
        r
    } else {
        join2(name, "> ")
    }
}

// ---- help ----

/// A row of the help text: a heading, or a command and what it does.
#[derive(Clone, Copy, Debug)]
pub enum HelpRow {
    Heading(&'static str),
    Entry(&'static str, &'static str),
}

/// A row of the help text, as views.
pub enum HelpView {
    Heading(Seq<char>),
    Entry(Seq<char>, Seq<char>),
}

impl View for HelpRow {
    type V = HelpView;

    open spec fn view(&self) -> HelpView {
        match *self {
            HelpRow::Heading(h) => HelpView::Heading(h@),
            HelpRow::Entry(c, d) => HelpView::Entry(c@, d@),
        }
    }
}

/// The rows of the help text.
pub open spec fn help_list() -> Seq<HelpView> {
    seq![
        HelpView::Heading("session"@),
        HelpView::Entry("/help"@, "this list"@),
        HelpView::Entry("/whoami"@, "show current identity"@),
        HelpView::Entry("/switch <name>"@, "act as a different agent"@),
        HelpView::Entry("/quit (or ^D)"@, "exit"@),
        HelpView::Heading("messages"@),
        HelpView::Entry("/send <to> <body>"@, "send a message (`@name`, `#channel`, `*`)"@),
        HelpView::Entry("/say <body>"@, "broadcast"@),
        HelpView::Entry("/inbox"@, "read your inbox (oldest 500 unread)"@),
        HelpView::Entry("/history --channel <name>"@, "channel history"@),
        HelpView::Entry("/history --with <agent>"@, "DM thread history"@),
        HelpView::Entry("/grep <query>"@, "case-insensitive substring search"@),
        HelpView::Entry("/schedule <to> <secs> <body>"@, "delayed send (in seconds)"@),
        HelpView::Entry("/scheduled"@, "list your pending scheduled rows"@),
        HelpView::Entry("/cancel <id>"@, "cancel a pending scheduled row"@),
        HelpView::Heading("channels & agents"@),
        HelpView::Entry("/join <ch> [ch...]"@, "subscribe to channels"@),
        HelpView::Entry("/leave <ch> [ch...]"@, "unsubscribe"@),
        HelpView::Entry("/participants"@, "names of known agents"@),
        HelpView::Entry("/agents"@, "agents with last-seen"@),
        HelpView::Entry("/channels [--details]"@, "channel list"@),
        HelpView::Heading("operator"@),
        HelpView::Entry("/status"@, "daemon health snapshot"@),
        HelpView::Entry("/inspect <message-id>"@, "per-recipient delivery state"@),
        HelpView::Entry("/pause"@, "stop the bus"@),
        HelpView::Entry("/resume"@, "release"@),
    ]
}

/// The rows of the help text.
pub fn help_rows() -> (rows: Vec<HelpRow>)
    ensures
        views(rows@) == help_list(),
{
    let mut rows: Vec<HelpRow> = Vec::new();
    rows.push(HelpRow::Heading("session"));
    rows.push(HelpRow::Entry("/help", "this list"));
    rows.push(HelpRow::Entry("/whoami", "show current identity"));
    rows.push(HelpRow::Entry("/switch <name>", "act as a different agent"));
    rows.push(HelpRow::Entry("/quit (or ^D)", "exit"));
    rows.push(HelpRow::Heading("messages"));
    rows.push(HelpRow::Entry("/send <to> <body>", "send a message (`@name`, `#channel`, `*`)"));
    rows.push(HelpRow::Entry("/say <body>", "broadcast"));
    rows.push(HelpRow::Entry("/inbox", "read your inbox (oldest 500 unread)"));
    rows.push(HelpRow::Entry("/history --channel <name>", "channel history"));
    rows.push(HelpRow::Entry("/history --with <agent>", "DM thread history"));
    rows.push(HelpRow::Entry("/grep <query>", "case-insensitive substring search"));
    rows.push(HelpRow::Entry("/schedule <to> <secs> <body>", "delayed send (in seconds)"));
    rows.push(HelpRow::Entry("/scheduled", "list your pending scheduled rows"));
    rows.push(HelpRow::Entry("/cancel <id>", "cancel a pending scheduled row"));
    rows.push(HelpRow::Heading("channels & agents"));
    rows.push(HelpRow::Entry("/join <ch> [ch...]", "subscribe to channels"));
    rows.push(HelpRow::Entry("/leave <ch> [ch...]", "unsubscribe"));
    rows.push(HelpRow::Entry("/participants", "names of known agents"));
    rows.push(HelpRow::Entry("/agents", "agents with last-seen"));
    rows.push(HelpRow::Entry("/channels [--details]", "channel list"));
    rows.push(HelpRow::Heading("operator"));
    rows.push(HelpRow::Entry("/status", "daemon health snapshot"));
    rows.push(HelpRow::Entry("/inspect <message-id>", "per-recipient delivery state"));
    rows.push(HelpRow::Entry("/pause", "stop the bus"));
    rows.push(HelpRow::Entry("/resume", "release"));
    assert(views(rows@) =~= help_list());
    rows
}

/// A row of the help text as it is printed.
pub open spec fn help_row(row: HelpView, color: bool) -> Seq<char> {
    match row {
        HelpView::Heading(h) => "\n"@ + painted(BOLD@ + CYAN@, h + ":"@, color) + "\n"@,
        HelpView::Entry(c, d) => "  "@ + pad_right(painted(BOLD@, c, color), 32) + "  "@
            + painted(DIM@, d, color) + "\n"@,
    }
}

/// Rows of the help text as they are printed.
pub open spec fn help_block(rows: Seq<HelpView>, color: bool) -> Seq<char>
    decreases rows.len(),
{
    if rows.len() == 0 {
        seq![]
    } else {
        help_block(rows.drop_last(), color) + help_row(rows.last(), color)
    }
}

/// The help text.
pub open spec fn help_shown(color: bool) -> Seq<char> {
    help_block(help_list(), color) + ("\n"@ + painted(
        DIM@,
        "anything not starting with / is broadcast to #general."@,
        color,
    ) + "\n"@)
}

fn row_text(row: &HelpRow, color: bool) -> (r: String)
    ensures
        r@ == help_row(row@, color),
{
    match row {
        HelpRow::Heading(h) => {
            let style = join2(BOLD, CYAN);
            let words = join2(h, ":");
            let text = paint(style.as_str(), words.as_str(), color);
            join3("\n", text.as_str(), "\n")
        },
        HelpRow::Entry(c, d) => {
            let command = paint(BOLD, c, color);
            let about = paint(DIM, d, color);
            let mut r = "  ".to_owned();
            push_padded(&mut r, command.as_str(), 32);
            r.append("  ");
            r.append(about.as_str());
            r.append("\n");
            r
        },
    }
}

/// The help text.
pub fn help_text(color: bool) -> (r: String)
    ensures
        r@ == help_shown(color),
{
    let rows = help_rows();
    let ghost all = help_list();
    let mut r = String::new();
    let mut i: usize = 0;
    assert(r@ =~= help_block(all.take(0), color));
    while i < rows.len()
        invariant
            all == views(rows@),
            i <= rows@.len(),
            r@ == help_block(all.take(i as int), color),
        decreases rows@.len() - i,
    {
        let row = row_text(&rows[i], color);
        assert(all[i as int] == rows@[i as int]@);
        assert(all.take(i as int + 1).drop_last() =~= all.take(i as int));
        r.append(row.as_str());
        i = i + 1;
    }
    assert(all.take(i as int) =~= all);
    let words = paint(DIM, "anything not starting with / is broadcast to #general.", color);
    let last = join3("\n", words.as_str(), "\n");
    r.append(last.as_str());
    r
}

// ---- the banner ----

/// The name in block letters.
pub const LOGO: &'static str =
    "\n ___ ___ ___  ___ ___   _   ___\n/ __|_ _|   \\| __| _ ) / \\ | _ \\\n\\__ \\| || |) | _|| _ \\/ _ \\|   /\n|___/___|___/|___|___/_/ \\_\\_|_\\\n";

/// The line under the banner.
pub const RULE: &'static str = "─────────────────────────────────────────────";

/// The banner. `hue` is the escape sequence of the agent's colour.
pub open spec fn banner_shown(
    name: Seq<char>,
    hue: Seq<char>,
    version: Seq<char>,
    color: bool,
) -> Seq<char> {
    painted(BOLD@ + CYAN@, LOGO@, color) + "\n"@ + painted(
        DIM@,
        "local MCP bus for coding agents · v"@ + version,
        color,
    ) + "\nconnected as "@ + name_shown(name, hue, color) + ". "@ + painted(
        BOLD@,
        "/help"@,
        color,
    ) + " for commands. naked text → "@ + painted(BOLD@, "#general"@, color) + ". "@ + painted(
        BOLD@,
        "^D"@,
        color,
    ) + " to quit.\n"@ + painted(DIM@, RULE@, color) + "\n"@
}

/// The banner.
pub fn banner(name: &str, hue: &str, version: &str, color: bool) -> (r: String)
    ensures
        r@ == banner_shown(name@, hue@, version@, color),
{
    let style = join2(BOLD, CYAN);
    let about = join2("local MCP bus for coding agents · v", version);
    let about = paint(DIM, about.as_str(), color);
    let who = paint_name(name, hue, color);
    let help = paint(BOLD, "/help", color);
    let channel = paint(BOLD, "#general", color);
    let leave = paint(BOLD, "^D", color);
    let rule = paint(DIM, RULE, color);
    let mut r = paint(style.as_str(), LOGO, color);
    r.append("\n");
    r.append(about.as_str());
    r.append("\nconnected as ");
    r.append(who.as_str());
    r.append(". ");
    r.append(help.as_str());
    r.append(" for commands. naked text → ");
    r.append(channel.as_str());
    r.append(". ");
    r.append(leave.as_str());
    r.append(" to quit.\n");
    r.append(rule.as_str());
    r.append("\n");
    r
}

// ---- answers ----

/// The words of an answer's error, none where it has none.
pub open spec fn error_words(r: ResponseView) -> Seq<char> {
    match r.error {
        Some(e) => e,
        None => seq![],
    }
}

/// A text that is printed between two others.
pub open spec fn between(before: Seq<char>, text: Seq<char>, after: Seq<char>) -> ShownView {
    ShownView::Text(before + text + after)
}

/// The error of an answer in brackets, nothing where it has none.
pub open spec fn in_brackets(before: Seq<char>, r: ResponseView) -> ShownView {
    match r.error {
        Some(e) => between(before, e, ")\n"@),
        None => ShownView::Text(seq![]),
    }
}

/// The words for an empty table of agents.
pub const NONE_SEEN: &'static str =
    "(no agents seen in the last 7 days; /agents --all to include stale)";

/// What is printed for a channel that was joined or left, or was not.
pub open spec fn moved_shown(
    ok: bool,
    current: Seq<char>,
    done: Seq<char>,
    verb: Seq<char>,
    channel: Seq<char>,
    words: Seq<char>,
) -> ShownView {
    if ok {
        ShownView::Text(current + done + channel + "\n"@)
    } else {
        ShownView::Text(verb + channel + " failed: "@ + words + ")\n"@)
    }
}

/// What is printed of the answer to request number `n` of a line, where `current` speaks.
/// Messages, their details and scheduled messages are printed with times of the place.
pub open spec fn answered(
    ask: AskView,
    n: int,
    r: ResponseView,
    current: Seq<char>,
    now: Timestamp,
) -> ShownView {
    let none = ShownView::Text(seq![]);
    match ask {
        AskView::Chat(_) => if r.ok {
            none
        } else {
            between("send failed: "@, error_words(r), "\n"@)
        },
        AskView::Send(_, _) => if r.ok {
            match r.data {
                Some(DataView::SendOk(id)) => between("sent (id "@, signed(id as int), ")\n"@),
                _ => none,
            }
        } else {
            between("send failed: "@, error_words(r), "\n"@)
        },
        AskView::Say(_) => if r.ok {
            none
        } else {
            between("broadcast failed: "@, error_words(r), "\n"@)
        },
        AskView::Inbox => match r.data {
            Some(DataView::Messages(list)) => if list.len() == 0 {
                ShownView::Text("(empty)\n"@)
            } else {
                ShownView::Timed
            },
            _ => between("(daemon error: "@, error_words(r), ")\n"@),
        },
        AskView::History(_, _, _) => match r.data {
            Some(DataView::Messages(list)) => ShownView::Timed,
            _ => in_brackets("("@, r),
        },
        AskView::Participants => match r.data {
            Some(DataView::Agents(names)) => ShownView::Text(listed("  "@, names)),
            _ => none,
        },
        AskView::Agents(_) => match r.data {
            Some(DataView::AgentsDetailed(list)) => ShownView::Text(
                agents_shown(list, now, NONE_SEEN@),
            ),
            _ => ShownView::Text("(error)\n"@),
        },
        AskView::Channels(details) => match r.data {
            Some(DataView::ChannelsDetailed(list)) => if details {
                ShownView::Text(channels_shown(list, now))
            } else {
                none
            },
            Some(DataView::Channels(names)) => if details {
                none
            } else {
                ShownView::Text(listed("#"@, names))
            },
            _ => none,
        },
        AskView::Join(channels) => if 0 <= n < channels.len() {
            moved_shown(
                r.ok,
                current,
                " joined #"@,
                "(join #"@,
                bare(channels[n]),
                error_words(r),
            )
        } else {
            none
        },
        AskView::Leave(channels) => if 0 <= n < channels.len() {
            moved_shown(
                r.ok,
                current,
                " left #"@,
                "(leave #"@,
                bare(channels[n]),
                error_words(r),
            )
        } else {
            none
        },
        AskView::Grep(_) => match r.data {
            Some(DataView::Messages(list)) => if list.len() == 0 {
                ShownView::Text("(no matches)\n"@)
            } else {
                ShownView::Timed
            },
            _ => in_brackets("("@, r),
        },
        AskView::Schedule(_, _, _) => match r.data {
            Some(DataView::SendOk(id)) => between("scheduled id "@, signed(id as int), "\n"@),
            _ => in_brackets("(error: "@, r),
        },
        AskView::Scheduled => match r.data {
            Some(DataView::Scheduled(_)) => ShownView::Timed,
            _ => none,
        },
        AskView::Cancel(id) => if r.ok {
            between("cancelled scheduled id "@, signed(id as int), "\n"@)
        } else {
            between("("@, error_words(r), ")\n"@)
        },
        AskView::Inspect(_) => match r.data {
            Some(DataView::MessageDetail(_)) => ShownView::Timed,
            _ => between("("@, error_words(r), ")\n"@),
        },
        AskView::Status => match r.data {
            Some(DataView::Status(s)) => ShownView::Text(status_line_shown(s) + "\n"@),
            _ => ShownView::Text("(error)\n"@),
        },
        AskView::Pause => if r.ok {
            ShownView::Text("paused\n"@)
        } else {
            between("(error: "@, error_words(r), ")\n"@)
        },
        AskView::Resume => if r.ok {
            ShownView::Text("resumed\n"@)
        } else {
            between("(error: "@, error_words(r), ")\n"@)
        },
    }
}

fn words_of(response: &Response) -> (r: String)
    ensures
        r@ == error_words(response@),
{
    match &response.error {
        Some(e) => e.clone(),
        None => {
            let r = String::new();
            assert(r@ =~= seq![]);
            r
        },
    }
}

fn no_text() -> (r: Shown)
    ensures
        r@ == ShownView::Text(seq![]),
{
    let s = String::new();
    assert(s@ =~= seq![]);
    Shown::Text(s)
}

fn fault(before: &str, response: &Response, after: &str) -> (r: Shown)
    ensures
        r@ == between(before@, error_words(response@), after@),
{
    let words = words_of(response);
    Shown::Text(join3(before, words.as_str(), after))
}

fn bracketed(before: &str, response: &Response) -> (r: Shown)
    ensures
        r@ == in_brackets(before@, response@),
{
    match &response.error {
        Some(e) => Shown::Text(join3(before, e.as_str(), ")\n")),
        None => no_text(),
    }
}

fn with_id(before: &str, id: i64, after: &str) -> (r: Shown)
    ensures
        r@ == between(before@, signed(id as int), after@),
{
    let number = i64_text(id);
    Shown::Text(join3(before, number.as_str(), after))
}

fn moved_text(
    response: &Response,
    current: &str,
    done: &str,
    verb: &str,
    channels: &Vec<String>,
    n: usize,
) -> (r: Shown)
    ensures
        r@ == (if n < channels@.len() {
            moved_shown(
                response@.ok,
                current@,
                done@,
                verb@,
                bare(texts(channels@)[n as int]),
                error_words(response@),
            )
        } else {
            ShownView::Text(seq![])
        }),
{
    if n < channels.len() {
        assert(texts(channels@)[n as int] == channels@[n as int]@);
        let channel = trim_start_char(channels[n].as_str(), '#');
        if response.ok {
            let mut s = join3(current, done, channel.as_str());
            s.append("\n");
            Shown::Text(s)
        } else {
            let words = words_of(response);
            let mut s = join3(verb, channel.as_str(), " failed: ");
            s.append(words.as_str());
            s.append(")\n");
            Shown::Text(s)
        }
    } else {
        no_text()
    }
}

/// What is printed of the answer to request number `n` of a line, where `current` speaks.
pub fn answer_text(
    ask: &Ask,
    n: usize,
    response: &Response,
    current: &str,
    now: &Timestamp,
) -> (r: Shown)
    ensures
        r@ == answered(ask@, n as int, response@, current@, *now),
{
    match ask {
        Ask::Chat { .. } => if response.ok {
            no_text()
        } else {
            fault("send failed: ", response, "\n")
        },
        Ask::Send { .. } => if response.ok {
            match &response.data {
                Some(ResponseData::SendOk { message_id }) => with_id(
                    "sent (id ",
                    *message_id,
                    ")\n",
                ),
                _ => no_text(),
            }
        } else {
            fault("send failed: ", response, "\n")
        },
        Ask::Say { .. } => if response.ok {
            no_text()
        } else {
            fault("broadcast failed: ", response, "\n")
        },
        Ask::Inbox => match &response.data {
            Some(ResponseData::Messages { messages }) => if messages.len() == 0 {
                Shown::Text("(empty)\n".to_owned())
            } else {
                Shown::Timed
            },
            _ => fault("(daemon error: ", response, ")\n"),
        },
        Ask::History { .. } => match &response.data {
            Some(ResponseData::Messages { .. }) => Shown::Timed,
            _ => bracketed("(", response),
        },
        Ask::Participants => match &response.data {
            Some(ResponseData::Agents { agents }) => Shown::Text(list_text("  ", agents)),
            _ => no_text(),
        },
        Ask::Agents { .. } => match &response.data {
            Some(ResponseData::AgentsDetailed { agents_detailed }) => Shown::Text(
                agents_table(agents_detailed, now, NONE_SEEN),
            ),
            _ => Shown::Text("(error)\n".to_owned()),
        },
        Ask::Channels { details } => match &response.data {
            Some(ResponseData::ChannelsDetailed { channels_detailed }) => if *details {
                Shown::Text(channels_table(channels_detailed, now))
            } else {
                no_text()
            },
            Some(ResponseData::Channels { channels }) => if *details {
                no_text()
            } else {
                Shown::Text(list_text("#", channels))
            },
            _ => no_text(),
        },
        Ask::Join { channels } => moved_text(
            response,
            current,
            " joined #",
            "(join #",
            channels,
            n,
        ),
        Ask::Leave { channels } => moved_text(
            response,
            current,
            " left #",
            "(leave #",
            channels,
            n,
        ),
        Ask::Grep { .. } => match &response.data {
            Some(ResponseData::Messages { messages }) => if messages.len() == 0 {
                Shown::Text("(no matches)\n".to_owned())
            } else {
                Shown::Timed
            },
            _ => bracketed("(", response),
        },
        Ask::Schedule { .. } => match &response.data {
            Some(ResponseData::SendOk { message_id }) => with_id(
                "scheduled id ",
                *message_id,
                "\n",
            ),
            _ => bracketed("(error: ", response),
        },
        Ask::Scheduled => match &response.data {
            Some(ResponseData::Scheduled { .. }) => Shown::Timed,
            _ => no_text(),
        },
        Ask::Cancel { id } => if response.ok {
            with_id("cancelled scheduled id ", *id, "\n")
        } else {
            fault("(", response, ")\n")
        },
        Ask::Inspect { .. } => match &response.data {
            Some(ResponseData::MessageDetail(_)) => Shown::Timed,
            _ => fault("(", response, ")\n"),
        },
        Ask::Status => match &response.data {
            Some(ResponseData::Status(info)) => {
                let line = status_line(info);
                Shown::Text(join2(line.as_str(), "\n"))
            },
            _ => Shown::Text("(error)\n".to_owned()),
        },
        Ask::Pause => if response.ok {
            Shown::Text("paused\n".to_owned())
        } else {
            fault("(error: ", response, ")\n")
        },
        Ask::Resume => if response.ok {
            Shown::Text("resumed\n".to_owned())
        } else {
            fault("(error: ", response, ")\n")
        },
    }
}

} // verus!
