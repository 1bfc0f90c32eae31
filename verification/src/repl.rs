//! The interactive prompt: what a line asks for, and what is printed.

use vstd::prelude::*;
use vstd::string::*;

use crate::cli::{bare, channel_ops};
use crate::daemon::store::copied_text;
use crate::pieces::{cut, cut_at_space, split_words, words};
use crate::proto::{Op, OpView, When, DEFAULT_LIMIT, DEFAULT_SEARCH_LIMIT};
use crate::report::holds;
use crate::text::{
    chars_of, has_part, join3, parse_signed, parse_unsigned, parsed_signed, parsed_unsigned, same,
    string_of, trim, trimmed,
};
use crate::types::{opt_text, texts, views};

verus! {

/// What the daemon is asked for a line.
#[derive(Clone, Debug)]
pub enum Ask {
    Chat { body: String },
    Send { to: String, body: String },
    Say { body: String },
    Inbox,
    History { channel: Option<String>, with: Option<String>, limit: usize },
    Participants,
    Agents { all: bool },
    Channels { details: bool },
    Join { channels: Vec<String> },
    Leave { channels: Vec<String> },
    Grep { query: String },
    Schedule { to: String, delay: u64, body: String },
    Scheduled,
    Cancel { id: i64 },
    Inspect { id: i64 },
    Status,
    Pause,
    Resume,
}

/// What the daemon is asked for a line, as views.
pub enum AskView {
    Chat(Seq<char>),
    Send(Seq<char>, Seq<char>),
    Say(Seq<char>),
    Inbox,
    History(Option<Seq<char>>, Option<Seq<char>>, usize),
    Participants,
    Agents(bool),
    Channels(bool),
    Join(Seq<Seq<char>>),
    Leave(Seq<Seq<char>>),
    Grep(Seq<char>),
    Schedule(Seq<char>, u64, Seq<char>),
    Scheduled,
    Cancel(i64),
    Inspect(i64),
    Status,
    Pause,
    Resume,
}

impl View for Ask {
    type V = AskView;

    open spec fn view(&self) -> AskView {
        match *self {
            Ask::Chat { body } => AskView::Chat(body@),
            Ask::Send { to, body } => AskView::Send(to@, body@),
            Ask::Say { body } => AskView::Say(body@),
            Ask::Inbox => AskView::Inbox,
            Ask::History { channel, with, limit } => AskView::History(
                opt_text(channel),
                opt_text(with),
                limit,
            ),
            Ask::Participants => AskView::Participants,
            Ask::Agents { all } => AskView::Agents(all),
            Ask::Channels { details } => AskView::Channels(details),
            Ask::Join { channels } => AskView::Join(texts(channels@)),
            Ask::Leave { channels } => AskView::Leave(texts(channels@)),
            Ask::Grep { query } => AskView::Grep(query@),
            Ask::Schedule { to, delay, body } => AskView::Schedule(to@, delay, body@),
            Ask::Scheduled => AskView::Scheduled,
            Ask::Cancel { id } => AskView::Cancel(id),
            Ask::Inspect { id } => AskView::Inspect(id),
            Ask::Status => AskView::Status,
            Ask::Pause => AskView::Pause,
            Ask::Resume => AskView::Resume,
        }
    }
}

/// What a line asks for.
#[derive(Clone, Debug)]
pub enum Input {
    Blank,
    Help,
    Quit,
    WhoAmI,
    Switch { name: String },
    Notice { text: String },
    Ask(Ask),
}

/// What a line asks for, as views.
pub enum InputView {
    Blank,
    Help,
    Quit,
    WhoAmI,
    Switch(Seq<char>),
    Notice(Seq<char>),
    Ask(AskView),
}

impl View for Input {
    type V = InputView;

    open spec fn view(&self) -> InputView {
        match *self {
            Input::Blank => InputView::Blank,
            Input::Help => InputView::Help,
            Input::Quit => InputView::Quit,
            Input::WhoAmI => InputView::WhoAmI,
            Input::Switch { name } => InputView::Switch(name@),
            Input::Notice { text } => InputView::Notice(text@),
            Input::Ask(a) => InputView::Ask(a@),
        }
    }
}

// ---- the arguments of commands ----

/// What `/send` asks for.
pub open spec fn send_input(rest: Seq<char>) -> InputView {
    match cut(rest) {
        (to, Some(body)) => if trimmed(body).len() > 0 {
            InputView::Ask(AskView::Send(to, trimmed(body)))
        } else {
            InputView::Notice("usage: /send <to> <body>"@)
        },
        _ => InputView::Notice("usage: /send <to> <body>"@),
    }
}

/// Whether a text is empty.
fn empty(s: &str) -> (r: bool)
    ensures
        r == (s@.len() == 0),
{
    s.unicode_len() == 0
}

fn parse_send(rest: &str) -> (r: Input)
    ensures
        r@ == send_input(rest@),
{
    match cut_at_space(rest) {
        (to, Some(body)) => {
            let body = trim(body.as_str());
            if !empty(body.as_str()) {
                return Input::Ask(Ask::Send { to, body });
            }
        },
        _ => {},
    }
    Input::Notice { text: "usage: /send <to> <body>".to_owned() }
}

/// What `/schedule` asks for.
pub open spec fn schedule_input(rest: Seq<char>) -> InputView {
    let usage = InputView::Notice("usage: /schedule <to> <seconds> <body>"@);
    match cut(rest) {
        (to, Some(more)) => match cut(more) {
            (secs, Some(body)) => if trimmed(body).len() == 0 {
                usage
            } else {
                match parsed_unsigned(secs, u64::MAX as nat) {
                    Some(n) => InputView::Ask(AskView::Schedule(to, n as u64, trimmed(body))),
                    None => InputView::Notice("seconds must be a non-negative integer"@),
                }
            },
            _ => usage,
        },
        _ => usage,
    }
}

fn parse_schedule(rest: &str) -> (r: Input)
    ensures
        r@ == schedule_input(rest@),
{
    match cut_at_space(rest) {
        (to, Some(more)) => match cut_at_space(more.as_str()) {
            (secs, Some(body)) => {
                let body = trim(body.as_str());
                if !empty(body.as_str()) {
                    return match parse_unsigned(secs.as_str(), u64::MAX) {
                        Some(delay) => Input::Ask(Ask::Schedule { to, delay, body }),
                        None => Input::Notice {
                            text: "seconds must be a non-negative integer".to_owned(),
                        },
                    };
                }
            },
            _ => {},
        },
        _ => {},
    }
    Input::Notice { text: "usage: /schedule <to> <seconds> <body>".to_owned() }
}

/// The word at a position, if there is one.
pub open spec fn word_at(list: Seq<Seq<char>>, i: int) -> Option<Seq<char>> {
    if 0 <= i < list.len() {
        Some(list[i])
    } else {
        None
    }
}

/// What the options of `/history` from a position on make of those before.
pub open spec fn history_options(
    list: Seq<Seq<char>>,
    i: int,
    channel: Option<Seq<char>>,
    with: Option<Seq<char>>,
    limit: usize,
) -> (Option<Seq<char>>, Option<Seq<char>>, usize)
    decreases
            (if i < list.len() {
                list.len() - i
            } else {
                0
            }),
{
    if i < 0 || i >= list.len() {
        (channel, with, limit)
    } else if list[i] == "--channel"@ {
        history_options(list, i + 2, word_at(list, i + 1), with, limit)
    } else if list[i] == "--with"@ {
        history_options(list, i + 2, channel, word_at(list, i + 1), limit)
    } else if list[i] == "--limit"@ {
        history_options(
            list,
            i + 2,
            channel,
            with,
            match word_at(list, i + 1) {
                Some(w) => match parsed_unsigned(w, usize::MAX as nat) {
                    Some(n) => n as usize,
                    None => limit,
                },
                None => limit,
            },
        )
    } else {
        history_options(list, i + 1, channel, with, limit)
    }
}

/// The words for `/history` without a channel and without an agent.
pub const HISTORY_USAGE: &'static str =
    "usage: /history --channel <name>  OR  /history --with <agent>";

/// What `/history` asks for.
pub open spec fn history_input(rest: Seq<char>) -> InputView {
    let (channel, with, limit) = history_options(words(rest), 0, None, None, DEFAULT_LIMIT);
    if channel is None && with is None {
        InputView::Notice(HISTORY_USAGE@)
    } else {
        InputView::Ask(AskView::History(channel, with, limit))
    }
}

fn nth_word(list: &Vec<String>, i: usize) -> (r: Option<String>)
    ensures
        opt_text(r) == word_at(texts(list@), i as int),
{
    if i < list.len() {
        assert(texts(list@)[i as int] == list@[i as int]@);
        Some(list[i].clone())
    } else {
        None
    }
}

fn parse_history(rest: &str) -> (r: Input)
    ensures
        r@ == history_input(rest@),
{
    let list = split_words(rest);
    let ghost all = words(rest@);
    let n: usize = list.len();
    let mut channel: Option<String> = None;
    let mut with: Option<String> = None;
    let mut limit: usize = DEFAULT_LIMIT;
    let mut i: usize = 0;
    assert(texts(list@).len() == list@.len());
    while i < n
        invariant
            all == texts(list@),
            n == list.len(),
            all.len() == n,
            i <= n,
            history_options(all, 0, None, None, DEFAULT_LIMIT) == history_options(
                all,
                i as int,
                opt_text(channel),
                opt_text(with),
                limit,
            ),
        decreases n - i,
    {
        let tok = list[i].as_str();
        assert(all[i as int] == tok@);
        proof {
            reveal_with_fuel(history_options, 2);
        }
        let mut step: usize = 2;
        if same(tok, "--channel") {
            channel = nth_word(&list, i + 1);
        } else if same(tok, "--with") {
            with = nth_word(&list, i + 1);
        } else if same(tok, "--limit") {
            if let Some(w) = nth_word(&list, i + 1) {
                if let Some(k) = parse_unsigned(w.as_str(), usize::MAX as u64) {
                    limit = k as usize;
                }
            }
        } else {
            step = 1;
        }
        i = if n - i <= step {
            n
        } else {
            i + step
        };
    }
    if channel.is_none() && with.is_none() {
        Input::Notice { text: HISTORY_USAGE.to_owned() }
    } else {
        Input::Ask(Ask::History { channel, with, limit })
    }
}

/// What a command with its arguments asks for.
pub open spec fn command_input(cmd: Seq<char>, rest: Seq<char>) -> InputView {
    if cmd == "help"@ || cmd == "?"@ {
        InputView::Help
    } else if cmd == "quit"@ || cmd == "q"@ || cmd == "exit"@ {
        InputView::Quit
    } else if cmd == "whoami"@ {
        InputView::WhoAmI
    } else if cmd == "switch"@ {
        if rest.len() == 0 {
            InputView::Notice("usage: /switch <agent-name>"@)
        } else {
            InputView::Switch(rest)
        }
    } else if cmd == "send"@ {
        send_input(rest)
    } else if cmd == "say"@ {
        if rest.len() == 0 {
            InputView::Notice("usage: /say <body>"@)
        } else {
            InputView::Ask(AskView::Say(rest))
        }
    } else if cmd == "inbox"@ {
        InputView::Ask(AskView::Inbox)
    } else if cmd == "history"@ {
        history_input(rest)
    } else if cmd == "participants"@ {
        InputView::Ask(AskView::Participants)
    } else if cmd == "agents"@ {
        InputView::Ask(AskView::Agents(has_part(rest, "--all"@)))
    } else if cmd == "channels"@ {
        InputView::Ask(AskView::Channels(has_part(rest, "--details"@)))
    } else if cmd == "join"@ {
        if words(rest).len() == 0 {
            InputView::Notice("usage: /join <channel> [channel...]"@)
        } else {
            InputView::Ask(AskView::Join(words(rest)))
        }
    } else if cmd == "leave"@ {
        if words(rest).len() == 0 {
            InputView::Notice("usage: /leave <channel> [channel...]"@)
        } else {
            InputView::Ask(AskView::Leave(words(rest)))
        }
    } else if cmd == "grep"@ {
        if rest.len() == 0 {
            InputView::Notice("usage: /grep <substring>"@)
        } else {
            InputView::Ask(AskView::Grep(rest))
        }
    } else if cmd == "schedule"@ {
        schedule_input(rest)
    } else if cmd == "scheduled"@ {
        InputView::Ask(AskView::Scheduled)
    } else if cmd == "cancel"@ {
        match parsed_signed(rest) {
            Some(id) => InputView::Ask(AskView::Cancel(id as i64)),
            None => InputView::Notice("usage: /cancel <scheduled-id>"@),
        }
    } else if cmd == "inspect"@ {
        match parsed_signed(rest) {
            Some(id) => InputView::Ask(AskView::Inspect(id as i64)),
            None => InputView::Notice("usage: /inspect <message-id>"@),
        }
    } else if cmd == "status"@ {
        InputView::Ask(AskView::Status)
    } else if cmd == "pause"@ {
        InputView::Ask(AskView::Pause)
    } else if cmd == "resume"@ {
        InputView::Ask(AskView::Resume)
    } else {
        InputView::Notice("unknown command: /"@ + cmd + ". /help for the list."@)
    }
}

/// What a line asks for. One that starts with a slash is a command; any other is sent to the
/// default channel.
pub open spec fn line_input(line: Seq<char>) -> InputView {
    let t = trimmed(line);
    if t.len() == 0 {
        InputView::Blank
    } else if t[0] == '/' {
        let (cmd, rest) = cut(t.skip(1));
        command_input(
            cmd,
            trimmed(
                match rest {
                    Some(r) => r,
                    None => seq![],
                },
            ),
        )
    } else {
        InputView::Ask(AskView::Chat(t))
    }
}

fn notice(text: &str) -> (r: Input)
    ensures
        r@ == InputView::Notice(text@),
{
    Input::Notice { text: text.to_owned() }
}

fn parse_command(cmd: &str, rest: String) -> (r: Input)
    ensures
        r@ == command_input(cmd@, rest@),
{
    if same(cmd, "help") || same(cmd, "?") {
        Input::Help
    } else if same(cmd, "quit") || same(cmd, "q") || same(cmd, "exit") {
        Input::Quit
    } else if same(cmd, "whoami") {
        Input::WhoAmI
    } else if same(cmd, "switch") {
        if empty(rest.as_str()) {
            notice("usage: /switch <agent-name>")
        } else {
            Input::Switch { name: rest }
        }
    } else if same(cmd, "send") {
        parse_send(rest.as_str())
    } else if same(cmd, "say") {
        if empty(rest.as_str()) {
            notice("usage: /say <body>")
        } else {
            Input::Ask(Ask::Say { body: rest })
        }
    } else if same(cmd, "inbox") {
        Input::Ask(Ask::Inbox)
    } else if same(cmd, "history") {
        parse_history(rest.as_str())
    } else if same(cmd, "participants") {
        Input::Ask(Ask::Participants)
    } else if same(cmd, "agents") {
        Input::Ask(Ask::Agents { all: holds(rest.as_str(), "--all") })
    } else if same(cmd, "channels") {
        Input::Ask(Ask::Channels { details: holds(rest.as_str(), "--details") })
    } else if same(cmd, "join") {
        let list = split_words(rest.as_str());
        assert(texts(list@).len() == list@.len());
        if list.len() == 0 {
            notice("usage: /join <channel> [channel...]")
        } else {
            Input::Ask(Ask::Join { channels: list })
        }
    } else if same(cmd, "leave") {
        let list = split_words(rest.as_str());
        assert(texts(list@).len() == list@.len());
        if list.len() == 0 {
            notice("usage: /leave <channel> [channel...]")
        } else {
            Input::Ask(Ask::Leave { channels: list })
        }
    } else if same(cmd, "grep") {
        if empty(rest.as_str()) {
            notice("usage: /grep <substring>")
        } else {
            Input::Ask(Ask::Grep { query: rest })
        }
    } else if same(cmd, "schedule") {
        parse_schedule(rest.as_str())
    } else if same(cmd, "scheduled") {
        Input::Ask(Ask::Scheduled)
    } else if same(cmd, "cancel") {
        match parse_signed(rest.as_str()) {
            Some(id) => Input::Ask(Ask::Cancel { id }),
            None => notice("usage: /cancel <scheduled-id>"),
        }
    } else if same(cmd, "inspect") {
        match parse_signed(rest.as_str()) {
            Some(id) => Input::Ask(Ask::Inspect { id }),
            None => notice("usage: /inspect <message-id>"),
        }
    } else if same(cmd, "status") {
        Input::Ask(Ask::Status)
    } else if same(cmd, "pause") {
        Input::Ask(Ask::Pause)
    } else if same(cmd, "resume") {
        Input::Ask(Ask::Resume)
    } else {
        Input::Notice { text: join3("unknown command: /", cmd, ". /help for the list.") }
    }
}

/// What a line asks for.
pub fn parse_line(line: &str) -> (r: Input)
    ensures
        r@ == line_input(line@),
{
    let t = trim(line);
    let chars = chars_of(t.as_str());
    if chars.len() == 0 {
        return Input::Blank;
    }
    if chars[0] == '/' {
        let slash = string_of(&chars, 1, chars.len());
        assert(slash@ =~= t@.skip(1));
        let (cmd, rest) = cut_at_space(slash.as_str());
        let rest = match rest {
            Some(r) => trim(r.as_str()),
            None => {
                let none = String::new();
                assert(none@ =~= seq![]);
                trim(none.as_str())
            },
        };
        return parse_command(cmd.as_str(), rest);
    }
    Input::Ask(Ask::Chat { body: t })
}

// ---- requests ----

/// What the daemon is asked.
pub open spec fn asked_ops(ask: AskView) -> Seq<OpView> {
    match ask {
        AskView::Chat(body) => seq![OpView::Send("#general"@, body, None, None)],
        AskView::Send(to, body) => seq![OpView::Send(to, body, None, None)],
        AskView::Say(body) => seq![OpView::Send("*"@, body, None, None)],
        AskView::Inbox => seq![OpView::Inbox(None, false)],
        AskView::History(channel, with, limit) => seq![OpView::History(channel, with, limit)],
        AskView::Participants => seq![OpView::Participants],
        AskView::Agents(all) => seq![OpView::Agents(all)],
        AskView::Channels(details) => if details {
            seq![OpView::ChannelsDetailed]
        } else {
            seq![OpView::Channels]
        },
        AskView::Join(channels) => channels.map_values(|c: Seq<char>| OpView::Join(bare(c))),
        AskView::Leave(channels) => channels.map_values(|c: Seq<char>| OpView::Leave(bare(c))),
        AskView::Grep(query) => seq![OpView::Search(query, DEFAULT_SEARCH_LIMIT)],
        AskView::Schedule(to, delay, body) => seq![
            OpView::Schedule(to, body, When::DelaySeconds { delay_seconds: delay }),
        ],
        AskView::Scheduled => seq![OpView::Scheduled],
        AskView::Cancel(id) => seq![OpView::Cancel(id)],
        AskView::Inspect(id) => seq![OpView::Inspect(id)],
        AskView::Status => seq![OpView::Status],
        AskView::Pause => seq![OpView::Pause],
        AskView::Resume => seq![OpView::Resume],
    }
}

fn just(op: Op) -> (ops: Vec<Op>)
    ensures
        views(ops@) == seq![op@],
{
    let mut ops: Vec<Op> = Vec::new();
    ops.push(op);
    assert(views(ops@) =~= seq![op@]);
    ops
}

fn send_op(to: &str, body: &str) -> (op: Op)
    ensures
        op@ == OpView::Send(to@, body@, None, None),
{
    Op::Send { to: to.to_owned(), body: body.to_owned(), intent: None, reply_to: None }
}

/// What the daemon is asked.
pub fn ops_of(ask: &Ask) -> (ops: Vec<Op>)
    ensures
        views(ops@) == asked_ops(ask@),
{
    match ask {
        Ask::Chat { body } => just(send_op("#general", body.as_str())),
        Ask::Send { to, body } => just(send_op(to.as_str(), body.as_str())),
        Ask::Say { body } => just(send_op("*", body.as_str())),
        Ask::Inbox => just(Op::Inbox { wait_ms: None, mentions_only: false }),
        Ask::History { channel, with, limit } => {
            let channel = copied_text(channel);
            let with = copied_text(with);
            just(Op::History { channel, with, limit: *limit })
        },
        Ask::Participants => just(Op::Participants),
        Ask::Agents { all } => just(Op::Agents { include_stale: *all }),
        Ask::Channels { details } => if *details {
            just(Op::ChannelsDetailed)
        } else {
            just(Op::Channels)
        },
        Ask::Join { channels } => channel_ops(channels, true),
        Ask::Leave { channels } => channel_ops(channels, false),
        Ask::Grep { query } => just(
            Op::Search { query: query.clone(), limit: DEFAULT_SEARCH_LIMIT },
        ),
        Ask::Schedule { to, delay, body } => just(
            Op::Schedule {
                to: to.clone(),
                body: body.clone(),
                when: When::DelaySeconds { delay_seconds: *delay },
            },
        ),
        Ask::Scheduled => just(Op::Scheduled),
        Ask::Cancel { id } => just(Op::Cancel { scheduled_id: *id }),
        Ask::Inspect { id } => just(Op::Inspect { message_id: *id }),
        Ask::Status => just(Op::Status),
        Ask::Pause => just(Op::Pause),
        Ask::Resume => just(Op::Resume),
    }
}

} // verus!
