//! What commands, lines, tools and console requests ask of the daemon.

use vstd::prelude::*;
use vstd::seq_lib::*;

use crate::cli::{planned, registered_name, Command, PlanView};
use crate::clock::Timestamp;
use crate::http::{
    law_query_reads_back, lemma_escaped_chars, lemma_first_there, lemma_nowhere, pairs_from,
    percent_encoded, value_in, RequestView,
};
use crate::laws_pieces::{law_cut, law_strip, unbroken};
use crate::laws_words::{blank, law_decimal, law_number_reads_back, law_padding_is_trimmed};
use crate::mcp::{
    interval, next_step, number_and_unit, unit_seconds, ChannelStepView, ToolReplyView,
};
use crate::paths::{file_path, home_path, PathError};
use crate::pieces::words;
use crate::proto::{OpView, When};
use crate::repl::{asked_ops, command_input, history_options, line_input, AskView, InputView};
use crate::schedule::{chosen, WhenErrorView};
use crate::supervise::{advancing, outcome, HappeningView, SupervisorView, TurnStatus};
use crate::text::{decimal, is_space, lemma_trimmed_fixed, signed, trimmed};
use crate::types::texts;
use crate::web::{asked, asked_of_daemon, param, RouteView};

verus! {

// ---- when ----

/// It is clear when a message is to be sent if and only if either a delay or a time that can be
/// read is given, and not both; and then it is sent after that delay, or at that time.
pub proof fn law_when_is_clear(delay: Option<u64>, at: Option<Result<Timestamp, Seq<char>>>)
    ensures
        chosen(delay, at) is Ok <==> (delay is Some && at is None) || (delay is None && at is Some
            && at->0 is Ok),
        delay is Some && at is None ==> chosen(delay, at) == Ok::<When, WhenErrorView>(
            When::DelaySeconds { delay_seconds: delay->0 },
        ),
        delay is None ==> (at matches Some(Ok(t)) ==> chosen(delay, at) == Ok::<When, WhenErrorView>(
            When::At { at: t },
        )),
        delay is None ==> (at matches Some(Err(words)) ==> chosen(delay, at) == Err::<
            When,
            WhenErrorView,
        >(WhenErrorView::Unreadable(words))),
        delay is Some && at is Some <==> chosen(delay, at) == Err::<When, WhenErrorView>(
            WhenErrorView::Both,
        ),
        delay is None && at is None <==> chosen(delay, at) == Err::<When, WhenErrorView>(
            WhenErrorView::Neither,
        ),
{
}

/// An interval is a number of seconds, minutes or hours, by the `s`, `m` or `h` behind it, and
/// of minutes where there is no letter; it is more than nothing and at most an hour.
pub proof fn law_interval(n: nat, unit: char)
    ensures
        interval(decimal(n).push('s')) == if 0 < n <= 3600 {
            Some((decimal(n).push('s'), n))
        } else {
            None
        },
        interval(decimal(n).push('m')) == if 0 < n <= 60 {
            Some((decimal(n).push('m'), n * 60))
        } else {
            None
        },
        interval(decimal(n).push('h')) == if n == 1 {
            Some((decimal(n).push('h'), 3600nat))
        } else {
            None
        },
        interval(decimal(n)) == interval(decimal(n).push('m')),
        !('0' as int <= unit as int <= '9' as int) && unit != 's' && unit != 'm' && unit != 'h'
            && !is_space(unit) ==> interval(decimal(n).push(unit)) is None,
        interval(Seq::empty()) is None,
{
    law_decimal(n);
    law_number_reads_back(n, u64::MAX as nat);
    assert forall|c: char| !is_space(c) implies trimmed(#[trigger] decimal(n).push(c))
        == decimal(n).push(c) by {
        let t = decimal(n).push(c);
        assert(t[0] == decimal(n)[0]);
        assert(t.last() == c);
        lemma_trimmed_fixed(t);
    }
    assert forall|c: char| #[trigger] decimal(n).push(c).drop_last() == decimal(n) by {
        assert(decimal(n).push(c).drop_last() =~= decimal(n));
    }
    assert(decimal(n).last() as int <= '9' as int);
    assert('0' as int <= decimal(n)[0] as int <= '9' as int);
    lemma_trimmed_fixed(decimal(n));
    assert(trimmed(decimal(n).push('s')).drop_last() == decimal(n));
    assert(trimmed(decimal(n).push('m')).drop_last() == decimal(n));
    assert(trimmed(decimal(n).push('h')).drop_last() == decimal(n));
    if !is_space(unit) {
        assert(trimmed(decimal(n).push(unit)).drop_last() == decimal(n));
    }
    lemma_trimmed_fixed(Seq::<char>::empty());
    assert(number_and_unit(decimal(n).push('s')) == (decimal(n), 's'));
    assert(number_and_unit(decimal(n).push('h')) == (decimal(n), 'h'));
    assert(trimmed(decimal(n).push('h')) == decimal(n).push('h'));
    assert(0 < n * 3600nat <= 3600 <==> n == 1);
    assert(unit_seconds('s') == Some(1nat) && unit_seconds('m') == Some(60nat) && unit_seconds('h')
        == Some(3600nat));
    assert(n * 1nat == n);
}

// ---- tools ----

/// The tools that join and leave ask for the channels one after the other, each without the `#`
/// that it may be given with, tell how many there were, and stop at the first failure.
pub proof fn law_channel_steps(
    channels: Seq<Seq<char>>,
    joining: bool,
    done: int,
    last: Option<ToolReplyView>,
    hashes: nat,
    name: Seq<char>,
)
    requires
        0 <= done <= channels.len(),
        name.len() == 0 || name[0] != '#',
    ensures
        ({
            let step = next_step(channels, joining, done, last);
            &&& last matches Some(ToolReplyView::Failed(words)) ==> step == ChannelStepView::Return(
                ToolReplyView::Failed(words),
            )
            &&& !(last matches Some(ToolReplyView::Failed(_))) ==> {
                &&& done < channels.len() && channels[done] == Seq::new(hashes, |i: int| '#') + name
                    ==> step == ChannelStepView::Ask(
                    if joining {
                        OpView::Join(name)
                    } else {
                        OpView::Leave(name)
                    },
                )
                &&& done == channels.len() ==> step == ChannelStepView::Return(
                    if joining {
                        ToolReplyView::Joined(channels.len())
                    } else {
                        ToolReplyView::Left(channels.len())
                    },
                )
            }
        }),
{
    law_strip(hashes, '#', name);
}

// ---- commands ----

/// Who a command speaks as and what it asks: one request for most, one for each channel for
/// those that join and leave.
pub proof fn law_commands(to: String, body: String, as_name: String, limit: usize, flag: bool, id: i64)
    ensures
        planned(Command::Send { to, body }) == PlanView::Ask(
            "master"@,
            seq![OpView::Send(to@, body@, None, None)],
        ),
        planned(Command::Say { body }) == PlanView::Ask(
            "master"@,
            seq![OpView::Send("*"@, body@, None, None)],
        ),
        forall|wait_ms: Option<u64>, json: bool| #[trigger]
            planned(Command::Inbox { as_name, wait_ms, mentions_only: flag, json }) == PlanView::Ask(
                as_name@,
                seq![OpView::Inbox(wait_ms, flag)],
            ),
        forall|json: bool| #[trigger]
            planned(Command::Participants { json }) == PlanView::Ask(
                "master"@,
                seq![OpView::Participants],
            ),
        forall|json: bool| #[trigger]
            planned(Command::Agents { all: flag, json }) == PlanView::Ask(
                "master"@,
                seq![OpView::Agents(flag)],
            ),
        forall|json: bool| #[trigger]
            planned(Command::Channels { details: flag, json }) == PlanView::Ask(
                "master"@,
                seq![
                    if flag {
                        OpView::ChannelsDetailed
                    } else {
                        OpView::Channels
                    },
                ],
            ),
        forall|json: bool| #[trigger]
            planned(Command::History { channel: Some(to), with: None, limit, json })
                == PlanView::Ask("master"@, seq![OpView::History(Some(to@), None, limit)]),
        forall|json: bool| #[trigger]
            planned(Command::History { channel: None, with: Some(to), limit, json })
                == PlanView::Ask("master"@, seq![OpView::History(None, Some(to@), limit)]),
        forall|json: bool| #[trigger]
            planned(Command::Grep { query: body, limit, json }) == PlanView::Ask(
                "master"@,
                seq![OpView::Search(body@, limit)],
            ),
        forall|json: bool| #[trigger]
            planned(Command::Inspect { message_id: id, json }) == PlanView::Ask(
                "master"@,
                seq![OpView::Inspect(id)],
            ),
        forall|json: bool| #[trigger]
            planned(Command::Scheduled { as_name, json }) == PlanView::Ask(
                as_name@,
                seq![OpView::Scheduled],
            ),
        planned(Command::Cancel { scheduled_id: id, as_name }) == PlanView::Ask(
            as_name@,
            seq![OpView::Cancel(id)],
        ),
        planned(Command::Prune { inactive_days: id, dry_run: flag }) == PlanView::Ask(
            "master"@,
            seq![OpView::Prune(id, flag)],
        ),
        planned(Command::Pause) == PlanView::Ask("master"@, seq![OpView::Pause]),
        planned(Command::Resume) == PlanView::Ask("master"@, seq![OpView::Resume]),
        forall|json: bool| #[trigger]
            planned(Command::Status { json }) == PlanView::Ask("master"@, seq![OpView::Status]),
{
}

/// The commands that join and leave speak as the agent, and ask once for each channel, in order,
/// by the channel's name without the `#` that it may be given with.
pub proof fn law_join_and_leave_commands(
    channels: Vec<String>,
    as_name: String,
    k: int,
    hashes: nat,
    name: Seq<char>,
)
    requires
        0 <= k < channels@.len(),
        name.len() == 0 || name[0] != '#',
        channels@[k]@ == Seq::new(hashes, |i: int| '#') + name,
    ensures
        planned(Command::Join { channels, as_name }) matches PlanView::Ask(who, ops) && who
            == as_name@ && ops.len() == channels@.len() && ops[k] == OpView::Join(name),
        planned(Command::Leave { channels, as_name }) matches PlanView::Ask(who, ops) && who
            == as_name@ && ops.len() == channels@.len() && ops[k] == OpView::Leave(name),
        asked_ops(AskView::Join(texts(channels@))).len() == channels@.len() && asked_ops(
            AskView::Join(texts(channels@)),
        )[k] == OpView::Join(name),
        asked_ops(AskView::Leave(texts(channels@))).len() == channels@.len() && asked_ops(
            AskView::Leave(texts(channels@)),
        )[k] == OpView::Leave(name),
{
    law_strip(hashes, '#', name);
    assert(texts(channels@)[k] == channels@[k]@);
}

/// An agent's tools register under the name that is given, else under that of the environment,
/// else under one made of the number of the process.
pub proof fn law_registered_name(given: Seq<char>, environment: Option<Seq<char>>, process: nat)
    ensures
        registered_name(Some(given), environment, process) == given,
        registered_name(None, Some(given), process) == given,
        registered_name(None, None, process) == "agent-"@ + decimal(process),
{
}

// ---- lines ----

proof fn lemma_command(name: Seq<char>, rest: Seq<char>)
    requires
        name.len() > 0,
        unbroken(name),
        rest.len() == 0 || (!is_space(rest[0]) && !is_space(rest.last())),
    ensures
        rest.len() > 0 ==> line_input(seq!['/'] + name + seq![' '] + rest) == command_input(
            name,
            rest,
        ),
        line_input(seq!['/'] + name) == command_input(name, Seq::empty()),
{
    let bare_line = seq!['/'] + name;
    assert(bare_line[0] == '/');
    assert(bare_line.last() == name.last());
    lemma_trimmed_fixed(bare_line);
    assert(bare_line.skip(1) =~= name);
    law_cut(name, ' ', rest);
    assert(trimmed(Seq::<char>::empty()) =~= Seq::empty());
    let line = seq!['/'] + name + seq![' '] + rest;
    if rest.len() > 0 {
        assert(line[0] == '/');
        assert(line.last() == rest.last());
        lemma_trimmed_fixed(line);
        assert(line.skip(1) =~= name + seq![' '] + rest);
        lemma_trimmed_fixed(rest);
    }
}

/// How the names of the commands begin, and how long they are.
proof fn lemma_names()
    ensures
        "help"@.len() == 4 && "help"@[0] == 'h' && unbroken("help"@),
        "?"@.len() == 1 && "?"@[0] == '?' && unbroken("?"@),
        "quit"@.len() == 4 && "quit"@[0] == 'q' && unbroken("quit"@),
        "q"@.len() == 1 && "q"@[0] == 'q' && unbroken("q"@),
        "exit"@.len() == 4 && "exit"@[0] == 'e' && unbroken("exit"@),
        "whoami"@.len() == 6 && "whoami"@[0] == 'w' && unbroken("whoami"@),
        "switch"@.len() == 6 && "switch"@[0] == 's' && unbroken("switch"@),
        "send"@.len() == 4 && "send"@[0] == 's' && unbroken("send"@),
        "say"@.len() == 3 && "say"@[0] == 's' && unbroken("say"@),
        "inbox"@.len() == 5 && "inbox"@[0] == 'i' && unbroken("inbox"@),
        "history"@.len() == 7 && "history"@[0] == 'h' && unbroken("history"@),
        "participants"@.len() == 12 && "participants"@[0] == 'p' && unbroken("participants"@),
        "agents"@.len() == 6 && "agents"@[0] == 'a' && unbroken("agents"@),
        "channels"@.len() == 8 && "channels"@[0] == 'c' && unbroken("channels"@),
        "join"@.len() == 4 && "join"@[0] == 'j' && unbroken("join"@),
        "leave"@.len() == 5 && "leave"@[0] == 'l' && unbroken("leave"@),
        "grep"@.len() == 4 && "grep"@[0] == 'g' && unbroken("grep"@),
        "schedule"@.len() == 8 && "schedule"@[0] == 's' && unbroken("schedule"@),
        "scheduled"@.len() == 9 && "scheduled"@[0] == 's' && unbroken("scheduled"@),
        "cancel"@.len() == 6 && "cancel"@[0] == 'c' && unbroken("cancel"@),
        "inspect"@.len() == 7 && "inspect"@[0] == 'i' && unbroken("inspect"@),
        "status"@.len() == 6 && "status"@[0] == 's' && unbroken("status"@),
        "pause"@.len() == 5 && "pause"@[0] == 'p' && unbroken("pause"@),
        "resume"@.len() == 6 && "resume"@[0] == 'r' && unbroken("resume"@),
        "switch"@[1] == 'w' && "status"@[1] == 't',
{
    reveal_strlit("help");
    reveal_strlit("?");
    reveal_strlit("quit");
    reveal_strlit("q");
    reveal_strlit("exit");
    reveal_strlit("whoami");
    reveal_strlit("switch");
    reveal_strlit("send");
    reveal_strlit("say");
    reveal_strlit("inbox");
    reveal_strlit("history");
    reveal_strlit("participants");
    reveal_strlit("agents");
    reveal_strlit("channels");
    reveal_strlit("join");
    reveal_strlit("leave");
    reveal_strlit("grep");
    reveal_strlit("schedule");
    reveal_strlit("scheduled");
    reveal_strlit("cancel");
    reveal_strlit("inspect");
    reveal_strlit("status");
    reveal_strlit("pause");
    reveal_strlit("resume");
}

/// A line of a command and what follows it.
pub open spec fn line_of(name: Seq<char>, rest: Seq<char>) -> Seq<char> {
    seq!['/'] + name + seq![' '] + rest
}

/// A line that is not blank and does not start with a slash is sent to `#general` without the
/// white space around it; a blank one asks for nothing.
pub proof fn law_plain_lines(before: Seq<char>, text: Seq<char>, after: Seq<char>)
    requires
        blank(before, 0, before.len() as int),
        blank(after, 0, after.len() as int),
        text.len() > 0,
        !is_space(text[0]),
        !is_space(text.last()),
        text[0] != '/',
    ensures
        line_input(before + text + after) == InputView::Ask(AskView::Chat(text)),
        asked_ops(AskView::Chat(text)) == seq![OpView::Send("#general"@, text, None, None)],
        line_input(Seq::empty()) == InputView::Blank,
{
    law_padding_is_trimmed(before, text, after);
    lemma_trimmed_fixed(Seq::<char>::empty());
}

/// The commands that need nothing behind their name.
pub proof fn law_bare_commands()
    ensures
        line_input(seq!['/'] + "help"@) == InputView::Help,
        line_input(seq!['/'] + "?"@) == InputView::Help,
        line_input(seq!['/'] + "quit"@) == InputView::Quit,
        line_input(seq!['/'] + "q"@) == InputView::Quit,
        line_input(seq!['/'] + "exit"@) == InputView::Quit,
        line_input(seq!['/'] + "whoami"@) == InputView::WhoAmI,
        line_input(seq!['/'] + "inbox"@) == InputView::Ask(AskView::Inbox),
        line_input(seq!['/'] + "participants"@) == InputView::Ask(AskView::Participants),
        line_input(seq!['/'] + "agents"@) == InputView::Ask(AskView::Agents(false)),
        line_input(seq!['/'] + "channels"@) == InputView::Ask(AskView::Channels(false)),
        line_input(seq!['/'] + "scheduled"@) == InputView::Ask(AskView::Scheduled),
        line_input(seq!['/'] + "status"@) == InputView::Ask(AskView::Status),
        line_input(seq!['/'] + "pause"@) == InputView::Ask(AskView::Pause),
        line_input(seq!['/'] + "resume"@) == InputView::Ask(AskView::Resume),
{
    lemma_names();
    let none = Seq::<char>::empty();
    lemma_command("help"@, none);
    lemma_command("?"@, none);
    lemma_command("quit"@, none);
    lemma_command("q"@, none);
    lemma_command("exit"@, none);
    lemma_command("whoami"@, none);
    lemma_command("inbox"@, none);
    lemma_command("participants"@, none);
    lemma_command("agents"@, none);
    lemma_command("channels"@, none);
    lemma_command("scheduled"@, none);
    lemma_command("status"@, none);
    lemma_command("pause"@, none);
    lemma_command("resume"@, none);
    reveal_strlit("--all");
    reveal_strlit("--details");
    assert(forall|i: int| !crate::text::stands_at(Seq::empty(), "--all"@, i));
    assert(forall|i: int| !crate::text::stands_at(Seq::empty(), "--details"@, i));
}

/// The commands that take all that stands behind their name.
pub proof fn law_commands_with_text(rest: Seq<char>, id: i64)
    requires
        rest.len() > 0,
        !is_space(rest[0]),
        !is_space(rest.last()),
    ensures
        line_input(line_of("switch"@, rest)) == InputView::Switch(rest),
        line_input(line_of("say"@, rest)) == InputView::Ask(AskView::Say(rest)),
        line_input(line_of("grep"@, rest)) == InputView::Ask(AskView::Grep(rest)),
        line_input(line_of("cancel"@, signed(id as int))) == InputView::Ask(AskView::Cancel(id)),
        line_input(line_of("inspect"@, signed(id as int))) == InputView::Ask(AskView::Inspect(id)),
        words(rest).len() > 0 ==> line_input(line_of("join"@, rest)) == InputView::Ask(
            AskView::Join(words(rest)),
        ) && line_input(line_of("leave"@, rest)) == InputView::Ask(AskView::Leave(words(rest))),
        asked_ops(AskView::Say(rest)) == seq![OpView::Send("*"@, rest, None, None)],
        asked_ops(AskView::Grep(rest)) == seq![OpView::Search(rest, 50)],
        asked_ops(AskView::Cancel(id)) == seq![OpView::Cancel(id)],
        asked_ops(AskView::Inspect(id)) == seq![OpView::Inspect(id)],
{
    lemma_names();
    lemma_command("switch"@, rest);
    lemma_command("say"@, rest);
    lemma_command("grep"@, rest);
    lemma_command("join"@, rest);
    lemma_command("leave"@, rest);
    let number = signed(id as int);
    let size = if id < 0 {
        (-id) as nat
    } else {
        id as nat
    };
    law_decimal(size);
    law_number_reads_back(size, 0);
    assert(number.len() > 0 && number.last() == decimal(size).last());
    assert(number[0] == if id < 0 {
        '-'
    } else {
        decimal(size)[0]
    });
    assert('0' as int <= decimal(size)[0] as int <= '9' as int);
    assert(!is_space(number[0]) && !is_space(number.last()));
    lemma_command("cancel"@, number);
    lemma_command("inspect"@, number);
}

/// Sending takes a recipient and a body, scheduling a recipient, a number of seconds and a body.
pub proof fn law_commands_that_send(to: Seq<char>, seconds: u64, body: Seq<char>)
    requires
        to.len() > 0,
        unbroken(to),
        body.len() > 0,
        !is_space(body[0]),
        !is_space(body.last()),
    ensures
        line_input(line_of("send"@, to + seq![' '] + body)) == InputView::Ask(
            AskView::Send(to, body),
        ),
        line_input(
            line_of("schedule"@, to + seq![' '] + (decimal(seconds as nat) + seq![' '] + body)),
        ) == InputView::Ask(AskView::Schedule(to, seconds, body)),
        asked_ops(AskView::Send(to, body)) == seq![OpView::Send(to, body, None, None)],
        asked_ops(AskView::Schedule(to, seconds, body)) == seq![
            OpView::Schedule(to, body, When::DelaySeconds { delay_seconds: seconds }),
        ],
{
    lemma_names();
    let rest = to + seq![' '] + body;
    let number = decimal(seconds as nat);
    let more = number + seq![' '] + body;
    let late = to + seq![' '] + more;
    assert(rest[0] == to[0] && rest.last() == body.last());
    assert(late[0] == to[0] && more.last() == body.last() && late.last() == more.last());
    lemma_command("send"@, rest);
    lemma_command("schedule"@, late);
    law_decimal(seconds as nat);
    law_number_reads_back(seconds as nat, u64::MAX as nat);
    assert forall|i: int| 0 <= i < number.len() implies !is_space(#[trigger] number[i]) by {
        assert('0' as int <= number[i] as int <= '9' as int);
    }
    law_cut(to, ' ', body);
    law_cut(to, ' ', more);
    law_cut(number, ' ', body);
    lemma_trimmed_fixed(body);
}

/// A history is asked for by a channel or by an agent, and holds 50 messages unless another
/// number is named.
pub proof fn law_history_options(name: Seq<char>, n: usize)
    requires
        name.len() > 0,
        unbroken(name),
    ensures
        history_options(seq!["--channel"@, name], 0, None, None, n) == (
            Some(name),
            None::<Seq<char>>,
            n,
        ),
        history_options(seq!["--with"@, name], 0, None, None, n) == (
            None::<Seq<char>>,
            Some(name),
            n,
        ),
        history_options(
            seq!["--channel"@, name, "--limit"@, decimal(n as nat)],
            0,
            None,
            None,
            50,
        ) == (Some(name), None::<Seq<char>>, n),
        crate::proto::DEFAULT_LIMIT == 50,
        asked_ops(AskView::History(Some(name), None, n)) == seq![
            OpView::History(Some(name), None, n),
        ],
        asked_ops(AskView::History(None, Some(name), n)) == seq![
            OpView::History(None, Some(name), n),
        ],
{
    reveal_strlit("--channel");
    reveal_strlit("--with");
    reveal_strlit("--limit");
    assert("--channel"@.len() == 9 && "--with"@.len() == 6 && "--limit"@.len() == 7);
    reveal_with_fuel(history_options, 3);
    law_number_reads_back(n as nat, usize::MAX as nat);
}

// ---- the console ----

proof fn lemma_paths()
    ensures
        ({
            let p = paths();
            &&& p.no_duplicates()
            &&& p.len() == 6
            &&& forall|i: int| 0 <= i < 6 ==> !("/api/messages/"@.is_prefix_of(#[trigger] p[i]))
        }),
        "GET"@ != "POST"@,
        "/api/messages/"@.len() == 14,
{
    reveal_strlit("GET");
    reveal_strlit("POST");
    reveal_strlit("/");
    reveal_strlit("/healthz");
    reveal_strlit("/api/status");
    reveal_strlit("/api/agents");
    reveal_strlit("/api/channels");
    reveal_strlit("/api/messages");
    reveal_strlit("/api/messages/");
    assert("GET"@.len() == 3 && "POST"@.len() == 4);
    let p = paths();
    assert(p[0].len() == 1 && p[1].len() == 8 && p[2].len() == 11 && p[3].len() == 11
        && p[4].len() == 13 && p[5].len() == 13);
    assert(p[2][5] == 's' && p[3][5] == 'a' && p[4][5] == 'c' && p[5][5] == 'm');
}

/// The paths of the console but for those of single messages.
pub open spec fn paths() -> Seq<Seq<char>> {
    seq![
        "/"@,
        "/healthz"@,
        "/api/status"@,
        "/api/agents"@,
        "/api/channels"@,
        "/api/messages"@,
    ]
}

/// What the console's paths ask for, and what the daemon is asked for them. What is neither
/// looked at nor sent is not found.
pub proof fn law_routes(r: RequestView, id: i64)
    ensures
        r.method == "GET"@ && r.path == "/"@ ==> asked(r) == RouteView::Page,
        r.method == "GET"@ && r.path == "/healthz"@ ==> asked(r) == RouteView::Health,
        r.method == "GET"@ && r.path == "/api/status"@ ==> asked_of_daemon(asked(r)) == Some(
            OpView::Status,
        ),
        r.method == "GET"@ && r.path == "/api/agents"@ ==> asked_of_daemon(asked(r)) == Some(
            OpView::Agents(true),
        ),
        r.method == "GET"@ && r.path == "/api/channels"@ ==> asked_of_daemon(asked(r)) == Some(
            OpView::ChannelsDetailed,
        ),
        r.method == "GET"@ && r.path == "/api/messages/"@ + signed(id as int) ==> asked_of_daemon(
            asked(r),
        ) == Some(OpView::Inspect(id)),
        r.method == "POST"@ && r.path == "/api/messages"@ <==> asked(r) == RouteView::Send,
        r.method != "GET"@ && r.method != "POST"@ ==> asked(r) == RouteView::NotFound,
        r.method == "GET"@ && !paths().contains(r.path) && !("/api/messages/"@.is_prefix_of(r.path))
            ==> asked(r) == RouteView::NotFound,
{
    lemma_paths();
    let p = paths();
    assert(p[0] == "/"@ && p[1] == "/healthz"@ && p[2] == "/api/status"@ && p[3] == "/api/agents"@
        && p[4] == "/api/channels"@ && p[5] == "/api/messages"@);
    let size = if id < 0 {
        (-id) as nat
    } else {
        id as nat
    };
    law_decimal(size);
    law_number_reads_back(size, 0);
    let named = "/api/messages/"@ + signed(id as int);
    assert(named.skip(14) =~= signed(id as int));
    assert(named.take(14) =~= "/api/messages/"@);
    if r.method == "GET"@ && !paths().contains(r.path) {
        assert(p.contains(p[0]) && p.contains(p[1]) && p.contains(p[2]) && p.contains(p[3])
            && p.contains(p[4]) && p.contains(p[5]));
    }
}

proof fn lemma_other_param(name: Seq<char>, value: Seq<char>, other: Seq<char>)
    requires
        other != name,
    ensures
        param(percent_encoded(name, true) + seq!['='] + percent_encoded(value, true), other)
            is None,
{
    let n = percent_encoded(name, true);
    let v = percent_encoded(value, true);
    let q = n + seq!['='] + v;
    let k = n.len() as int;
    lemma_escaped_chars(vstd::utf8::encode_utf8(name), true);
    lemma_escaped_chars(vstd::utf8::encode_utf8(value), true);
    assert forall|i: int| 0 <= i < q.len() implies #[trigger] q[i] != '&' by {
        if i < k {
            assert(q[i] == n[i]);
        } else if i > k {
            assert(q[i] == v[i - k - 1]);
        }
    }
    lemma_nowhere(q, 0, '&');
    assert(q.skip(0) =~= q);
    assert(pairs_from(q, 0) =~= seq![q]);
    assert forall|i: int| 0 <= i < k implies #[trigger] q[i] != '=' by {
        assert(q[i] == n[i]);
    }
    assert(q[k] == '=');
    lemma_first_there(q, 0, '=', k);
    assert(q.take(k) =~= n);
    crate::http::law_encoded_text_is_decoded(name, true);
    let pairs = pairs_from(q, 0);
    assert(pairs.last() == q);
    assert(value_in(pairs.drop_last(), other) is None);
}

/// The console's history is that of `#general` and of 100 messages, without their deliveries,
/// unless the query names another channel, another number, or asks for the deliveries.
pub proof fn law_console_history(r: RequestView, channel: Seq<char>, n: usize)
    requires
        r.method == "GET"@,
        r.path == "/api/messages"@,
    ensures
        r.query.len() == 0 ==> asked_of_daemon(asked(r)) == Some(
            OpView::History(Some("general"@), None, 100),
        ),
        r.query == percent_encoded("channel"@, true) + seq!['='] + percent_encoded(channel, true)
            ==> asked_of_daemon(asked(r)) == Some(OpView::History(Some(channel), None, 100)),
        r.query == percent_encoded("limit"@, true) + seq!['='] + percent_encoded(
            decimal(n as nat),
            true,
        ) ==> asked_of_daemon(asked(r)) == Some(OpView::History(Some("general"@), None, n)),
        r.query == percent_encoded("include_delivery"@, true) + seq!['='] + percent_encoded(
            "1"@,
            true,
        ) ==> asked_of_daemon(asked(r)) == Some(OpView::HistoryDetailed("general"@, 100)),
{
    lemma_paths();
    let p = paths();
    assert(p[0] == "/"@ && p[1] == "/healthz"@ && p[2] == "/api/status"@ && p[3] == "/api/agents"@
        && p[4] == "/api/channels"@ && p[5] == "/api/messages"@);
    reveal_strlit("channel");
    reveal_strlit("limit");
    reveal_strlit("include_delivery");
    assert("channel"@.len() == 7 && "limit"@.len() == 5 && "include_delivery"@.len() == 16);
    if r.query.len() == 0 {
        let none = r.query;
        assert(none.skip(0) =~= none);
        assert(pairs_from(none, 0) =~= seq![none]);
        let pairs = pairs_from(none, 0);
        assert(pairs.last() == none);
        assert forall|w: Seq<char>| #[trigger] param(none, w) is None by {
            assert(value_in(pairs.drop_last(), w) is None);
        }
    }
    law_query_reads_back("channel"@, channel, true);
    lemma_other_param("channel"@, channel, "limit"@);
    lemma_other_param("channel"@, channel, "include_delivery"@);
    law_query_reads_back("limit"@, decimal(n as nat), true);
    lemma_other_param("limit"@, decimal(n as nat), "channel"@);
    lemma_other_param("limit"@, decimal(n as nat), "include_delivery"@);
    law_query_reads_back("include_delivery"@, "1"@, true);
    lemma_other_param("include_delivery"@, "1"@, "channel"@);
    lemma_other_param("include_delivery"@, "1"@, "limit"@);
    law_number_reads_back(n as nat, usize::MAX as nat);
}

// ---- files ----

/// The daemon's directory is the one that `SIDEBAR_HOME` names, else `.sidebar` in the one that
/// `HOME` names; neither may be empty. Its files lie in it, with one slash between.
pub proof fn law_paths(dir: Seq<char>, home: Option<Seq<char>>, name: Seq<char>)
    requires
        dir.len() > 0,
        dir.last() != '/',
    ensures
        home_path(Some(dir), home) == Ok::<Seq<char>, PathError>(dir),
        home_path(None, Some(dir)) == Ok::<Seq<char>, PathError>(dir + seq!['/'] + ".sidebar"@),
        home_path(None, Some(dir + seq!['/'])) == home_path(None, Some(dir)),
        file_path(Some(dir), home, name) == Ok::<Seq<char>, PathError>(dir + seq!['/'] + name),
        file_path(None, Some(dir), name) == Ok::<Seq<char>, PathError>(
            dir + seq!['/'] + ".sidebar"@ + seq!['/'] + name,
        ),
        home_path(Some(Seq::empty()), home) == Err::<Seq<char>, PathError>(
            PathError::EmptySidebarHome,
        ),
        home_path(None, Some(Seq::empty())) == Err::<Seq<char>, PathError>(PathError::EmptyHome),
        home_path(None, None) == Err::<Seq<char>, PathError>(PathError::NoHome),
{
    reveal_strlit("/");
    reveal_strlit(".sidebar");
    assert("/"@ =~= seq!['/']);
    let base = dir + seq!['/'] + ".sidebar"@;
    assert(base.last() == 'r');
    assert((dir + seq!['/']).last() == '/');
}

// ---- supervisors ----

/// A turn is completed if and only if the command succeeded and wrote something but white space,
/// and then with what it wrote, without white space around it; a turn that is not has failed,
/// with what the command wrote as an error, where it wrote any.
pub proof fn law_outcome(success: bool, out: Seq<char>, err: Seq<char>, ended: Seq<char>)
    ensures
        ({
            let (status, response, error) = outcome(success, out, err, ended);
            &&& status == TurnStatus::ResponseCompleted <==> success && trimmed(out).len() > 0
            &&& status != TurnStatus::ResponseCompleted ==> status == TurnStatus::Failed
            &&& success && trimmed(out).len() > 0 ==> response == Some(trimmed(out)) && error is None
            &&& !(success && trimmed(out).len() > 0) ==> response is None && error == Some(
                if trimmed(err).len() > 0 {
                    trimmed(err)
                } else {
                    "host command exited with status "@ + ended
                },
            )
        }),
{
}

/// A supervisor that finds messages begins with the first; one that finds none looks again for
/// as long as it was told to, or stops, if it was to look once.
pub proof fn law_supervisor_looks(s: SupervisorView, h: HappeningView)
    requires
        s.phase is Polling,
        h matches HappeningView::Inbox(Some(_), _),
    ensures
        ({
            let list = h->Inbox_0->0;
            let next = advancing(s, h);
            &&& next.state.messages == list && next.state.at == 0
            &&& next.doing.says is None && next.doing.warns is None
            &&& list.len() > 0 ==> next.state.phase is Beginning && next.doing.action
                == crate::supervise::ActionView::Begin(
                list[0].id,
                "supervisor-"@ + decimal(s.process as nat) + "-"@ + signed(list[0].id as int),
            )
            &&& list.len() == 0 && s.once ==> next.state.phase is Stopped && next.doing.action
                == crate::supervise::ActionView::Stop(None)
            &&& list.len() == 0 && !s.once ==> next.state.phase is Polling && next.doing.action
                == crate::supervise::ActionView::Poll(s.wait_ms)
        }),
{
}

} // verus!
