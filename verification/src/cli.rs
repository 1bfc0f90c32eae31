//! The command line: what each command asks the daemon, and what it prints of the answer.

use vstd::prelude::*;
use vstd::seq_lib::*;
use vstd::string::*;

use crate::clock::{moment_of, rfc3339_instant, Timestamp};
use crate::limits::MASTER;
use crate::pieces::{strip_start, trim_start_char};
use crate::proto::{data_view, DataView, Op, OpView, Response, ResponseData, ResponseView};
use crate::report::{
    agents_shown, agents_table, channels_shown, channels_table, list_text, listed, prunable_shown,
    prunable_text, status_shown, status_text,
};
use crate::schedule::{chosen, schedule_when, WhenError, WhenErrorView};
use crate::text::{decimal, i64_text, join2, join3, push_u64, signed};
use crate::types::{opt_text, texts, views};

verus! {

/// A command.
#[derive(Clone, Debug)]
pub enum Command {
    /// Run the daemon.
    Serve,
    /// Offer an agent the tools, over standard input and output.
    Mcp { as_name: Option<String> },
    /// Run a host command for each message that calls on an agent.
    Supervise { as_name: String, wait_ms: u64, once: bool, command: Vec<String> },
    /// Print messages as they are sent.
    Tail { json: bool, filter: Option<String> },
    /// Send a message as the operator.
    Send { to: String, body: String },
    /// Send a message later.
    Schedule {
        to: String,
        body: String,
        in_seconds: Option<u64>,
        at: Option<String>,
        as_name: String,
    },
    /// Read an agent's inbox.
    Inbox { as_name: String, wait_ms: Option<u64>, mentions_only: bool, json: bool },
    /// Send a message to everyone as the operator.
    Say { body: String },
    /// Name the known agents.
    Participants { json: bool },
    /// Show the known agents in a table.
    Agents { all: bool, json: bool },
    /// Name the channels, or show them in a table.
    Channels { details: bool, json: bool },
    /// Print the history of a channel or of two agents.
    History { channel: Option<String>, with: Option<String>, limit: usize, json: bool },
    /// Search message bodies.
    Grep { query: String, limit: usize, json: bool },
    /// Join channels.
    Join { channels: Vec<String>, as_name: String },
    /// Leave channels.
    Leave { channels: Vec<String>, as_name: String },
    /// Show a message with its deliveries.
    Inspect { message_id: i64, json: bool },
    /// List scheduled messages.
    Scheduled { as_name: String, json: bool },
    /// Cancel a scheduled message.
    Cancel { scheduled_id: i64, as_name: String },
    /// Drop agents that were not seen for long and have no messages.
    Prune { inactive_days: i64, dry_run: bool },
    /// Hold deliveries.
    Pause,
    /// Release deliveries.
    Resume,
    /// Show the daemon's state.
    Status { json: bool },
    /// Serve the local console.
    Web { bind: String },
    /// Print a shell's completion script.
    Completions { shell: String },
}

/// What a command amounts to: something that it does by itself, requests to the daemon in the
/// name of an agent, or nothing, with the words for why.
pub enum Plan {
    Local(Command),
    Ask { speaking_as: String, ops: Vec<Op> },
    Refused { words: String },
}

/// What a command amounts to, as views.
pub enum PlanView {
    Local,
    Ask(Seq<char>, Seq<OpView>),
    Refused(Seq<char>),
}

impl View for Plan {
    type V = PlanView;

    open spec fn view(&self) -> PlanView {
        match *self {
            Plan::Local(_) => PlanView::Local,
            Plan::Ask { speaking_as, ops } => PlanView::Ask(speaking_as@, views(ops@)),
            Plan::Refused { words } => PlanView::Refused(words@),
        }
    }
}

/// The words for a time that is not clear.
pub open spec fn when_words(e: WhenErrorView) -> Seq<char> {
    match e {
        WhenErrorView::Both => "use --in or --at, not both"@,
        WhenErrorView::Neither => "either --in <seconds> or --at <ISO8601> is required"@,
        WhenErrorView::Unreadable(words) => "invalid --at timestamp: "@ + words,
    }
}

fn when_text(e: &WhenError) -> (r: String)
    ensures
        r@ == when_words(e@),
{
    match e {
        WhenError::Both => "use --in or --at, not both".to_owned(),
        WhenError::Neither => "either --in <seconds> or --at <ISO8601> is required".to_owned(),
        WhenError::Unreadable(words) => join2("invalid --at timestamp: ", words.as_str()),
    }
}

/// A channel's name, without the `#` that it may be given with.
pub open spec fn bare(raw: Seq<char>) -> Seq<char> {
    strip_start(raw, '#')
}

/// One request of the operator.
pub open spec fn by_master(op: OpView) -> PlanView {
    PlanView::Ask(MASTER@, seq![op])
}

/// What a command amounts to.
pub open spec fn planned(cmd: Command) -> PlanView {
    match cmd {
        Command::Serve | Command::Mcp { .. } | Command::Supervise { .. } | Command::Tail { .. }
        | Command::Web { .. } | Command::Completions { .. } => PlanView::Local,
        Command::Send { to, body } => by_master(OpView::Send(to@, body@, None, None)),
        Command::Say { body } => by_master(OpView::Send("*"@, body@, None, None)),
        Command::Schedule { to, body, in_seconds, at, as_name } => match chosen(
            in_seconds,
            match at {
                Some(text) => Some(moment_of(rfc3339_instant(text@))),
                None => None,
            },
        ) {
            Ok(when) => PlanView::Ask(as_name@, seq![OpView::Schedule(to@, body@, when)]),
            Err(e) => PlanView::Refused(when_words(e)),
        },
        Command::Inbox { as_name, wait_ms, mentions_only, json } => PlanView::Ask(
            as_name@,
            seq![OpView::Inbox(wait_ms, mentions_only)],
        ),
        Command::Participants { json } => by_master(OpView::Participants),
        Command::Agents { all, json } => by_master(OpView::Agents(all)),
        Command::Channels { details, json } => if details {
            by_master(OpView::ChannelsDetailed)
        } else {
            by_master(OpView::Channels)
        },
        Command::History { channel, with, limit, json } => by_master(
            OpView::History(opt_text(channel), opt_text(with), limit),
        ),
        Command::Grep { query, limit, json } => by_master(OpView::Search(query@, limit)),
        Command::Join { channels, as_name } => PlanView::Ask(
            as_name@,
            texts(channels@).map_values(|c: Seq<char>| OpView::Join(bare(c))),
        ),
        Command::Leave { channels, as_name } => PlanView::Ask(
            as_name@,
            texts(channels@).map_values(|c: Seq<char>| OpView::Leave(bare(c))),
        ),
        Command::Inspect { message_id, json } => by_master(OpView::Inspect(message_id)),
        Command::Scheduled { as_name, json } => PlanView::Ask(as_name@, seq![OpView::Scheduled]),
        Command::Cancel { scheduled_id, as_name } => PlanView::Ask(
            as_name@,
            seq![OpView::Cancel(scheduled_id)],
        ),
        Command::Prune { inactive_days, dry_run } => by_master(
            OpView::Prune(inactive_days, dry_run),
        ),
        Command::Pause => by_master(OpView::Pause),
        Command::Resume => by_master(OpView::Resume),
        Command::Status { json } => by_master(OpView::Status),
    }
}

fn ask_as(speaking_as: &str, op: Op) -> (p: Plan)
    ensures
        p@ == PlanView::Ask(speaking_as@, seq![op@]),
{
    let mut ops: Vec<Op> = Vec::new();
    ops.push(op);
    assert(views(ops@) =~= seq![op@]);
    Plan::Ask { speaking_as: speaking_as.to_owned(), ops }
}

/// The requests that join or leave channels.
pub(crate) fn channel_ops(channels: &Vec<String>, join: bool) -> (ops: Vec<Op>)
    ensures
        join ==> views(ops@) == texts(channels@).map_values(
            |c: Seq<char>| OpView::Join(bare(c)),
        ),
        !join ==> views(ops@) == texts(channels@).map_values(
            |c: Seq<char>| OpView::Leave(bare(c)),
        ),
{
    let ghost all = texts(channels@).map_values(
        |c: Seq<char>|
            if join {
                OpView::Join(bare(c))
            } else {
                OpView::Leave(bare(c))
            },
    );
    let mut ops: Vec<Op> = Vec::new();
    let mut i: usize = 0;
    assert(views(ops@) =~= all.take(0));
    while i < channels.len()
        invariant
            all == texts(channels@).map_values(
                |c: Seq<char>|
                    if join {
                        OpView::Join(bare(c))
                    } else {
                        OpView::Leave(bare(c))
                    },
            ),
            i <= channels@.len(),
            views(ops@) == all.take(i as int),
        decreases channels@.len() - i,
    {
        let channel = trim_start_char(channels[i].as_str(), '#');
        let op = if join {
            Op::Join { channel }
        } else {
            Op::Leave { channel }
        };
        assert(texts(channels@)[i as int] == channels@[i as int]@);
        assert(all[i as int] == op@);
        let ghost done = ops@;
        ops.push(op);
        i = i + 1;
        assert(views(ops@) =~= views(done).push(op@));
        assert(views(ops@) =~= all.take(i as int));
    }
    proof {
        assert(all.take(i as int) =~= all);
        if join {
            assert(all =~= texts(channels@).map_values(|c: Seq<char>| OpView::Join(bare(c))));
        } else {
            assert(all =~= texts(channels@).map_values(|c: Seq<char>| OpView::Leave(bare(c))));
        }
    }
    ops
}

/// What a command amounts to.
pub fn plan(cmd: Command) -> (p: Plan)
    ensures
        p@ == planned(cmd),
        p matches Plan::Local(c) ==> c == cmd,
{
    match cmd {
        Command::Send { to, body } => ask_as(
            MASTER,
            Op::Send { to, body, intent: None, reply_to: None },
        ),
        Command::Say { body } => ask_as(
            MASTER,
            Op::Send { to: "*".to_owned(), body, intent: None, reply_to: None },
        ),
        Command::Schedule { to, body, in_seconds, at, as_name } => match schedule_when(
            in_seconds,
            &at,
        ) {
            Ok(when) => ask_as(as_name.as_str(), Op::Schedule { to, body, when }),
            Err(e) => Plan::Refused { words: when_text(&e) },
        },
        Command::Inbox { as_name, wait_ms, mentions_only, .. } => ask_as(
            as_name.as_str(),
            Op::Inbox { wait_ms, mentions_only },
        ),
        Command::Participants { .. } => ask_as(MASTER, Op::Participants),
        Command::Agents { all, .. } => ask_as(MASTER, Op::Agents { include_stale: all }),
        Command::Channels { details, .. } => if details {
            ask_as(MASTER, Op::ChannelsDetailed)
        } else {
            ask_as(MASTER, Op::Channels)
        },
        Command::History { channel, with, limit, .. } => ask_as(
            MASTER,
            Op::History { channel, with, limit },
        ),
        Command::Grep { query, limit, .. } => ask_as(MASTER, Op::Search { query, limit }),
        Command::Join { channels, as_name } => {
            let ops = channel_ops(&channels, true);
            Plan::Ask { speaking_as: as_name, ops }
        },
        Command::Leave { channels, as_name } => {
            let ops = channel_ops(&channels, false);
            Plan::Ask { speaking_as: as_name, ops }
        },
        Command::Inspect { message_id, .. } => ask_as(MASTER, Op::Inspect { message_id }),
        Command::Scheduled { as_name, .. } => ask_as(as_name.as_str(), Op::Scheduled),
        Command::Cancel { scheduled_id, as_name } => ask_as(
            as_name.as_str(),
            Op::Cancel { scheduled_id },
        ),
        Command::Prune { inactive_days, dry_run } => ask_as(
            MASTER,
            Op::Prune { inactive_days, dry_run },
        ),
        Command::Pause => ask_as(MASTER, Op::Pause),
        Command::Resume => ask_as(MASTER, Op::Resume),
        Command::Status { .. } => ask_as(MASTER, Op::Status),
        other => Plan::Local(other),
    }
}

// ---- answers ----

/// The words for an answer that is an error. `n` is the number of the request.
pub open spec fn failure(cmd: Command, n: int, r: ResponseView) -> Seq<char> {
    let words = match r.error {
        Some(e) => e,
        None => seq![],
    };
    match cmd {
        Command::Join { channels, as_name } => if 0 <= n < channels@.len() {
            "daemon error joining #"@ + bare(channels@[n]@) + ": "@ + words
        } else {
            "daemon error: "@ + words
        },
        Command::Leave { channels, as_name } => if 0 <= n < channels@.len() {
            "daemon error leaving #"@ + bare(channels@[n]@) + ": "@ + words
        } else {
            "daemon error: "@ + words
        },
        _ => "daemon error: "@ + words,
    }
}

/// The words for an answer that is an error.
pub fn failure_text(cmd: &Command, n: usize, response: &Response) -> (r: String)
    ensures
        r@ == failure(*cmd, n as int, response@),
{
    let words = match &response.error {
        Some(e) => e.clone(),
        None => String::new(),
    };
    assert(words@ =~= (match response@.error {
        Some(e) => e,
        None => seq![],
    }));
    match cmd {
        Command::Join { channels, .. } => {
            if n < channels.len() {
                let channel = trim_start_char(channels[n].as_str(), '#');
                let start = join3("daemon error joining #", channel.as_str(), ": ");
                return join2(start.as_str(), words.as_str());
            }
        },
        Command::Leave { channels, .. } => {
            if n < channels.len() {
                let channel = trim_start_char(channels[n].as_str(), '#');
                let start = join3("daemon error leaving #", channel.as_str(), ": ");
                return join2(start.as_str(), words.as_str());
            }
        },
        _ => {},
    }
    join2("daemon error: ", words.as_str())
}

/// What is printed of an answer: a text; what needs the times of the place; or nothing, since
/// the answer is not one to the request.
pub enum Shown {
    Text(String),
    Timed,
    Unexpected,
}

/// What is printed of an answer, as views.
pub enum ShownView {
    Text(Seq<char>),
    Timed,
    Unexpected,
}

impl View for Shown {
    type V = ShownView;

    open spec fn view(&self) -> ShownView {
        match *self {
            Shown::Text(s) => ShownView::Text(s@),
            Shown::Timed => ShownView::Timed,
            Shown::Unexpected => ShownView::Unexpected,
        }
    }
}

/// The words for an empty table of agents.
pub const NO_AGENTS: &'static str =
    "(no agents seen in the last 7 days; --all to include stale)";

/// What is printed of the answer to a command's request number `n`.
pub open spec fn showing(cmd: Command, n: int, data: Option<DataView>, now: Timestamp) -> ShownView {
    match cmd {
        Command::Send { .. } | Command::Say { .. } => ShownView::Text(seq![]),
        Command::Schedule { .. } => match data {
            Some(DataView::SendOk(id)) => ShownView::Text(
                "scheduled id "@ + signed(id as int) + "\n"@,
            ),
            _ => ShownView::Text(seq![]),
        },
        Command::Participants { .. } => match data {
            Some(DataView::Agents(names)) => ShownView::Text(listed(seq![], names)),
            _ => ShownView::Unexpected,
        },
        Command::Agents { .. } => match data {
            Some(DataView::AgentsDetailed(list)) => ShownView::Text(
                agents_shown(list, now, NO_AGENTS@),
            ),
            _ => ShownView::Unexpected,
        },
        Command::Channels { details, json } => match data {
            Some(DataView::ChannelsDetailed(list)) => if details {
                ShownView::Text(channels_shown(list, now))
            } else {
                ShownView::Unexpected
            },
            Some(DataView::Channels(names)) => if details {
                ShownView::Unexpected
            } else {
                ShownView::Text(listed("#"@, names))
            },
            _ => ShownView::Unexpected,
        },
        Command::Inbox { .. } | Command::History { .. } | Command::Grep { .. } => match data {
            Some(DataView::Messages(_)) => ShownView::Timed,
            _ => ShownView::Unexpected,
        },
        Command::Inspect { .. } => match data {
            Some(DataView::MessageDetail(_)) => ShownView::Timed,
            _ => ShownView::Unexpected,
        },
        Command::Scheduled { .. } => match data {
            Some(DataView::Scheduled(_)) => ShownView::Timed,
            _ => ShownView::Unexpected,
        },
        Command::Join { channels, as_name } => if 0 <= n < channels@.len() {
            ShownView::Text(as_name@ + " joined #"@ + bare(channels@[n]@) + "\n"@)
        } else {
            ShownView::Unexpected
        },
        Command::Leave { channels, as_name } => if 0 <= n < channels@.len() {
            ShownView::Text(as_name@ + " left #"@ + bare(channels@[n]@) + "\n"@)
        } else {
            ShownView::Unexpected
        },
        Command::Cancel { scheduled_id, as_name } => ShownView::Text(
            "cancelled scheduled id "@ + signed(scheduled_id as int) + "\n"@,
        ),
        Command::Prune { inactive_days, dry_run } => match data {
            Some(DataView::Agents(names)) => if dry_run {
                ShownView::Text(prunable_shown(names))
            } else {
                ShownView::Text(seq![])
            },
            Some(DataView::SendOk(count)) => if dry_run {
                ShownView::Unexpected
            } else {
                ShownView::Text("pruned "@ + signed(count as int) + " inactive agent(s)\n"@)
            },
            _ => if dry_run {
                ShownView::Unexpected
            } else {
                ShownView::Text(seq![])
            },
        },
        Command::Pause => ShownView::Text("paused\n"@),
        Command::Resume => ShownView::Text("resumed\n"@),
        Command::Status { .. } => match data {
            Some(DataView::Status(s)) => ShownView::Text(status_shown(s)),
            _ => ShownView::Unexpected,
        },
        _ => ShownView::Unexpected,
    }
}

fn nothing() -> (r: Shown)
    ensures
        r@ == ShownView::Text(seq![]),
{
    let s = String::new();
    assert(s@ =~= seq![]);
    Shown::Text(s)
}

fn numbered(before: &str, n: i64, after: &str) -> (r: Shown)
    ensures
        r@ == ShownView::Text(before@ + signed(n as int) + after@),
{
    let number = i64_text(n);
    Shown::Text(join3(before, number.as_str(), after))
}

fn moved(as_name: &str, verb: &str, channels: &Vec<String>, n: usize) -> (r: Shown)
    ensures
        r@ == (if n < channels@.len() {
            ShownView::Text(as_name@ + verb@ + bare(channels@[n as int]@) + "\n"@)
        } else {
            ShownView::Unexpected
        }),
{
    if n < channels.len() {
        let channel = trim_start_char(channels[n].as_str(), '#');
        let start = join3(as_name, verb, channel.as_str());
        Shown::Text(join2(start.as_str(), "\n"))
    } else {
        Shown::Unexpected
    }
}

/// What is printed of the answer to a command's request number `n`.
pub fn show(cmd: &Command, n: usize, data: &Option<ResponseData>, now: &Timestamp) -> (r: Shown)
    ensures
        r@ == showing(*cmd, n as int, data_view(*data), *now),
{
    match cmd {
        Command::Send { .. } => nothing(),
        Command::Say { .. } => nothing(),
        Command::Schedule { .. } => match data {
            Some(ResponseData::SendOk { message_id }) => numbered(
                "scheduled id ",
                *message_id,
                "\n",
            ),
            _ => nothing(),
        },
        Command::Participants { .. } => match data {
            Some(ResponseData::Agents { agents }) => {
                let s = list_text("", agents);
                proof {
                    reveal_strlit("");
                    assert(""@ =~= seq![]);
                }
                Shown::Text(s)
            },
            _ => Shown::Unexpected,
        },
        Command::Agents { .. } => match data {
            Some(ResponseData::AgentsDetailed { agents_detailed }) => Shown::Text(
                agents_table(agents_detailed, now, NO_AGENTS),
            ),
            _ => Shown::Unexpected,
        },
        Command::Channels { details, .. } => match data {
            Some(ResponseData::ChannelsDetailed { channels_detailed }) => if *details {
                Shown::Text(channels_table(channels_detailed, now))
            } else {
                Shown::Unexpected
            },
            Some(ResponseData::Channels { channels }) => if *details {
                Shown::Unexpected
            } else {
                Shown::Text(list_text("#", channels))
            },
            _ => Shown::Unexpected,
        },
        Command::Inbox { .. } | Command::History { .. } | Command::Grep { .. } => match data {
            Some(ResponseData::Messages { .. }) => Shown::Timed,
            _ => Shown::Unexpected,
        },
        Command::Inspect { .. } => match data {
            Some(ResponseData::MessageDetail(_)) => Shown::Timed,
            _ => Shown::Unexpected,
        },
        Command::Scheduled { .. } => match data {
            Some(ResponseData::Scheduled { .. }) => Shown::Timed,
            _ => Shown::Unexpected,
        },
        Command::Join { channels, as_name } => moved(as_name.as_str(), " joined #", channels, n),
        Command::Leave { channels, as_name } => moved(as_name.as_str(), " left #", channels, n),
        Command::Cancel { scheduled_id, .. } => numbered(
            "cancelled scheduled id ",
            *scheduled_id,
            "\n",
        ),
        Command::Prune { dry_run, .. } => match data {
            Some(ResponseData::Agents { agents }) => if *dry_run {
                Shown::Text(prunable_text(agents))
            } else {
                nothing()
            },
            Some(ResponseData::SendOk { message_id }) => if *dry_run {
                Shown::Unexpected
            } else {
                numbered("pruned ", *message_id, " inactive agent(s)\n")
            },
            _ => if *dry_run {
                Shown::Unexpected
            } else {
                nothing()
            },
        },
        Command::Pause => Shown::Text("paused\n".to_owned()),
        Command::Resume => Shown::Text("resumed\n".to_owned()),
        Command::Status { .. } => match data {
            Some(ResponseData::Status(info)) => Shown::Text(status_text(info)),
            _ => Shown::Unexpected,
        },
        _ => Shown::Unexpected,
    }
}

/// Whether a command prints its answer as JSON.
pub fn wants_json(cmd: &Command) -> (r: bool)
    ensures
        r == (match *cmd {
            Command::Inbox { json, .. } => json,
            Command::Participants { json } => json,
            Command::Agents { json, .. } => json,
            Command::Channels { json, .. } => json,
            Command::History { json, .. } => json,
            Command::Grep { json, .. } => json,
            Command::Inspect { json, .. } => json,
            Command::Scheduled { json, .. } => json,
            Command::Status { json } => json,
            _ => false,
        }),
{
    match cmd {
        Command::Inbox { json, .. } => *json,
        Command::Participants { json } => *json,
        Command::Agents { json, .. } => *json,
        Command::Channels { json, .. } => *json,
        Command::History { json, .. } => *json,
        Command::Grep { json, .. } => *json,
        Command::Inspect { json, .. } => *json,
        Command::Scheduled { json, .. } => *json,
        Command::Status { json } => *json,
        _ => false,
    }
}

/// The name under which an agent's tools register: the one that is given, else the one of the
/// environment, else one made of the process id.
pub open spec fn registered_name(
    given: Option<Seq<char>>,
    environment: Option<Seq<char>>,
    process: nat,
) -> Seq<char> {
    match given {
        Some(name) => name,
        None => match environment {
            Some(name) => name,
            None => "agent-"@ + decimal(process),
        },
    }
}

/// The name under which an agent's tools register.
pub fn agent_name(given: Option<String>, environment: Option<String>, process: u32) -> (r: String)
    ensures
        r@ == registered_name(opt_text(given), opt_text(environment), process as nat),
{
    match given {
        Some(name) => name,
        None => match environment {
            Some(name) => name,
            None => {
                let mut r = "agent-".to_owned();
                push_u64(&mut r, process as u64);
                r
            },
        },
    }
}

} // verus!
