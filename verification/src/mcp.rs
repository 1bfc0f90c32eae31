//! The tools and prompts that agents are offered.

use vstd::prelude::*;
use vstd::seq_lib::*;
use vstd::string::*;

use crate::clock::{moment_of, rfc3339_instant, rfc3339_text, to_rfc3339};
use crate::pieces::{strip_start, trim_start_char};
use crate::proto::{
    AgentDetails, AgentDetailsView, ChannelDetails, ChannelDetailsView, DataView, Op, OpView,
    Response, ResponseData, ResponseView, ScheduledRow, ScheduledRowView, StatusInfo, StatusView,
    When,
};
use crate::schedule::{choice_view, chosen, schedule_when, WhenError, WhenErrorView};
use crate::text::{
    chars_of, code_of, decimal, is_digit, join2, join3, parse_unsigned, parsed_unsigned, push_u64,
    string_of, trim, trimmed,
};
use crate::types::{
    intent_from_str, intent_of_word, intent_to_str, intent_word, opt_text, texts, views, Message,
    MessageView,
};

verus! {

// ---- intervals ----

/// Most seconds of an interval.
pub const MAX_INTERVAL_SECONDS: u64 = 3600;

/// Most seconds of a wait for the inbox.
pub const MAX_LISTEN_SECONDS: u64 = 300;

/// The seconds of a unit, if there is one of this name.
pub open spec fn unit_seconds(unit: char) -> Option<nat> {
    if unit == 's' {
        Some(1)
    } else if unit == 'm' {
        Some(60)
    } else if unit == 'h' {
        Some(3600)
    } else {
        None
    }
}

/// The number and the unit of an interval: the unit is its last character, or minutes where
/// that is a digit.
pub open spec fn number_and_unit(t: Seq<char>) -> (Seq<char>, char) {
    if is_digit(t.last()) {
        (t, 'm')
    } else {
        (t.drop_last(), t.last())
    }
}

/// An interval such as `5`, `5m`, `30s` or `1h`, in its plain form and in seconds. It is at
/// least a second and at most an hour long.
pub open spec fn interval(s: Seq<char>) -> Option<(Seq<char>, nat)> {
    let t = trimmed(s);
    if t.len() == 0 {
        None
    } else {
        let (digits, unit) = number_and_unit(t);
        match (parsed_unsigned(digits, u64::MAX as nat), unit_seconds(unit)) {
            (Some(n), Some(k)) => if 0 < n * k <= MAX_INTERVAL_SECONDS {
                Some((decimal(n).push(unit), n * k))
            } else {
                None
            },
            _ => None,
        }
    }
}

/// Reads an interval: its plain form, and its seconds.
pub fn parse_interval(s: &str) -> (r: Option<(String, u64)>)
    ensures
        match r {
            Some((human, secs)) => interval(s@) == Some((human@, secs as nat)) && 0 < secs
                <= MAX_INTERVAL_SECONDS,
            None => interval(s@) is None,
        },
{
    let t = trim(s);
    let chars = chars_of(t.as_str());
    let n: usize = chars.len();
    if n == 0 {
        return None;
    }
    let last: char = chars[n - 1];
    let code: u32 = code_of(last);
    let bare: bool = 48 <= code && code <= 57;
    let (digits, unit) = if bare {
        (t.clone(), 'm')
    } else {
        (string_of(&chars, 0, n - 1), last)
    };
    proof {
        assert(bare == is_digit(t@.last()));
        if !bare {
            assert(digits@ =~= t@.drop_last());
        }
        assert((digits@, unit) == number_and_unit(t@));
    }
    let num: u64 = match parse_unsigned(digits.as_str(), u64::MAX) {
        Some(num) => num,
        None => {
            return None;
        },
    };
    let k: u64 = if unit == 's' {
        1
    } else if unit == 'm' {
        60
    } else if unit == 'h' {
        3600
    } else {
        return None;
    };
    assert(unit_seconds(unit) == Some(k as nat));
    if num == 0 || num > MAX_INTERVAL_SECONDS {
        assert(!(0 < num * k <= MAX_INTERVAL_SECONDS)) by (nonlinear_arith)
            requires
                num == 0 || num > 3600,
                k >= 1,
                MAX_INTERVAL_SECONDS == 3600,
        ;
        return None;
    }
    assert(num * k <= 3600 * 3600) by (nonlinear_arith)
        requires
            num <= 3600,
            k <= 3600,
    ;
    assert(num * k > 0) by (nonlinear_arith)
        requires
            num > 0,
            k > 0,
    ;
    let secs: u64 = num * k;
    if secs > MAX_INTERVAL_SECONDS {
        return None;
    }
    let mut human = String::new();
    push_u64(&mut human, num);
    human.push(unit);
    assert(human@ =~= decimal(num as nat).push(unit));
    Some((human, secs))
}

// ---- prompts ----

/// The prompt for a session that checks its inbox at every turn.
pub const START_PROMPT: &'static str =
    "You are starting a sidebar session in this coding agent window.\n\nDo these in one short message:\n1. Call `mcp__sidebar__whoami` to confirm your name.\n2. Call `mcp__sidebar__participants` to see who else is around.\n3. Tell the user: who you are, who else is here, and that you're in per-turn mode (no scheduled polling).\n\nFor every turn from now on, before doing anything else, call `mcp__sidebar__inbox` (no `wait_ms`). For messages addressed to you (DMs, or `@<your-name>` in a channel/broadcast), respond concisely. If empty, continue with whatever the user asked.";

pub const POLL_EVERY: &'static str =
    "You are running a sidebar session with a scheduled inbox poll every ";

pub const POLL_FIRST: &'static str =
    ".\n\nIf this is the first call (no prior `whoami` yet), do these in one short message:\n1. Call `mcp__sidebar__whoami` to confirm your name.\n2. Call `mcp__sidebar__participants` to see who else is around.\n3. Tell the user you'll poll every ";

pub const POLL_FIRE: &'static str =
    ".\n\nOn every fire (including this one):\n1. Call `mcp__sidebar__inbox` (no `wait_ms`).\n2. For messages addressed to you (DMs or `@<your-name>` in channel/broadcast), respond concisely. Stay quiet on other channel chatter unless it changes something the user cares about.\n3. Call `ScheduleWakeup` with:\n   - `delaySeconds`: ";

pub const POLL_AGAIN: &'static str = "\n   - `prompt`: `/mcp__sidebar__sidebar-poll ";

pub const POLL_STOP: &'static str =
    "`\n   - `reason`: `sidebar inbox poll`\n\nStopping: if the user has just told you to \"stop checking sidebar\", \"stop the sidebar loop\", or \"pause sidebar polling\", do not call `ScheduleWakeup` on this fire. The loop dies because nothing re-armed it.\n\nIf `mcp__sidebar__inbox` returns `{\"ok\": false, ...}`, mention the error briefly and still re-arm — the daemon may have restarted and the next fire will likely succeed.";

/// The prompt for a session that polls its inbox.
pub open spec fn poll_prompt(human: Seq<char>, seconds: nat) -> Seq<char> {
    POLL_EVERY@ + human + POLL_FIRST@ + human + POLL_FIRE@ + decimal(seconds) + POLL_AGAIN@ + human
        + POLL_STOP@
}

fn render_sidebar_poll(human: &str, seconds: u64) -> (r: String)
    ensures
        r@ == poll_prompt(human@, seconds as nat),
{
    let mut r = String::new();
    r.append(POLL_EVERY);
    r.append(human);
    r.append(POLL_FIRST);
    r.append(human);
    r.append(POLL_FIRE);
    push_u64(&mut r, seconds);
    r.append(POLL_AGAIN);
    r.append(human);
    r.append(POLL_STOP);
    assert(r@ =~= poll_prompt(human@, seconds as nat));
    r
}

pub const LISTEN_FIRST: &'static str =
    "You are running a sidebar listen session — staying attentive by long-polling the inbox.\n\nIf this is the first call (no prior `whoami` yet), do these in one short message:\n1. Call `mcp__sidebar__whoami` to confirm your name.\n2. Call `mcp__sidebar__participants` to see who else is around.\n3. Tell the user you're listening with ";

pub const LISTEN_LOOP: &'static str =
    " long-polls.\n\nThen enter the listen loop:\n1. Call `mcp__sidebar__inbox` with `wait_ms`: ";

pub const LISTEN_BLOCKS: &'static str = ". The call blocks up to ";

pub const LISTEN_RETURN: &'static str =
    ".\n2. When it returns:\n   - For messages addressed to you (DMs, or `@<your-name>` in channel/broadcast), respond concisely. Stay quiet on other channel chatter unless it changes something the user cares about.\n   - If `messages` is empty (poll timed out), that's fine — just proceed.\n3. Immediately call `mcp__sidebar__inbox` again with the same `wait_ms`. Repeat until either:\n   - The user tells you to stop (\"stop listening\", \"stop checking sidebar\", \"that's enough\").\n   - Your turn budget runs out — the user can re-invoke `/mcp__sidebar__sidebar-listen ";

pub const LISTEN_END: &'static str =
    "` to resume.\n\nThis pattern doesn't need `ScheduleWakeup`; it works in Codex and any other MCP-compatible client. If `inbox` returns `{\"ok\": false, ...}` (e.g. daemon restarted), mention the error briefly and keep looping — the next call will likely succeed.";

/// The prompt for a session that waits for its inbox.
pub open spec fn listen_prompt(human: Seq<char>, seconds: nat) -> Seq<char> {
    LISTEN_FIRST@ + human + LISTEN_LOOP@ + decimal(seconds * 1000) + LISTEN_BLOCKS@ + human
        + LISTEN_RETURN@ + human + LISTEN_END@
}

fn render_sidebar_listen(human: &str, seconds: u64) -> (r: String)
    requires
        seconds <= MAX_LISTEN_SECONDS,
    ensures
        r@ == listen_prompt(human@, seconds as nat),
{
    let mut r = String::new();
    r.append(LISTEN_FIRST);
    r.append(human);
    r.append(LISTEN_LOOP);
    push_u64(&mut r, seconds * 1000);
    r.append(LISTEN_BLOCKS);
    r.append(human);
    r.append(LISTEN_RETURN);
    r.append(human);
    r.append(LISTEN_END);
    assert(r@ =~= listen_prompt(human@, seconds as nat));
    r
}

/// The words for a polling interval that cannot be read.
pub open spec fn bad_interval(raw: Seq<char>) -> Seq<char> {
    "The interval `"@ + raw
        + "` isn't a recognized format. Use values like `5` (minutes), `30s`, `5m`, `1h` (max 1 hour). Ask the user to re-run with a valid interval; do not call any tools or `ScheduleWakeup`."@
}

/// The words for a wait that cannot be read.
pub open spec fn bad_wait(raw: Seq<char>) -> Seq<char> {
    "The wait `"@ + raw
        + "` isn't a recognized format. Use values like `30s`, `1m`, `5m` (max 5 minutes). Ask the user to re-run with a valid wait; do not call any tools."@
}

/// The words for a wait that is too long.
pub open spec fn long_wait(raw: Seq<char>) -> Seq<char> {
    "Wait `"@ + raw
        + "` exceeds the 5-minute cap on `mcp__sidebar__inbox` long-polls. Use `5m` or smaller. Ask the user to re-run; do not call any tools."@
}

/// The prompt that a request for polling is answered with.
pub fn sidebar_poll(interval_text: &str) -> (r: String)
    ensures
        r@ == (match interval(trimmed(interval_text@)) {
            Some((human, secs)) => poll_prompt(human, secs),
            None => bad_interval(trimmed(interval_text@)),
        }),
{
    let raw = trim(interval_text);
    match parse_interval(raw.as_str()) {
        Some((human, secs)) => render_sidebar_poll(human.as_str(), secs),
        None => join3(
            "The interval `",
            raw.as_str(),
            "` isn't a recognized format. Use values like `5` (minutes), `30s`, `5m`, `1h` (max 1 hour). Ask the user to re-run with a valid interval; do not call any tools or `ScheduleWakeup`.",
        ),
    }
}

/// The prompt that a request for listening is answered with.
pub fn sidebar_listen(wait: &str) -> (r: String)
    ensures
        r@ == (match interval(trimmed(wait@)) {
            Some((human, secs)) => if secs > MAX_LISTEN_SECONDS {
                long_wait(trimmed(wait@))
            } else {
                listen_prompt(human, secs)
            },
            None => bad_wait(trimmed(wait@)),
        }),
{
    let raw = trim(wait);
    match parse_interval(raw.as_str()) {
        Some((human, secs)) => if secs > MAX_LISTEN_SECONDS {
            join3(
                "Wait `",
                raw.as_str(),
                "` exceeds the 5-minute cap on `mcp__sidebar__inbox` long-polls. Use `5m` or smaller. Ask the user to re-run; do not call any tools.",
            )
        } else {
            render_sidebar_listen(human.as_str(), secs)
        },
        None => join3(
            "The wait `",
            raw.as_str(),
            "` isn't a recognized format. Use values like `30s`, `1m`, `5m` (max 5 minutes). Ask the user to re-run with a valid wait; do not call any tools.",
        ),
    }
}

// ---- what tools ask ----

/// What the tool that sends asks. A word that names no intent counts as none.
pub fn send_asked(to: String, body: String, intent: &Option<String>, reply_to: Option<i64>) -> (op:
    Op)
    ensures
        op@ == OpView::Send(
            to@,
            body@,
            match *intent {
                Some(word) => intent_of_word(word@),
                None => None,
            },
            reply_to,
        ),
{
    let intent = match intent {
        Some(word) => intent_from_str(word.as_str()),
        None => None,
    };
    Op::Send { to, body, intent, reply_to }
}

/// The words of the tool that schedules for a time that is not clear.
pub open spec fn unclear(e: WhenErrorView) -> Seq<char> {
    match e {
        WhenErrorView::Both => "provide either `delay_seconds` or `at`, not both"@,
        WhenErrorView::Neither => "either `delay_seconds` or `at` is required"@,
        WhenErrorView::Unreadable(words) => "invalid `at` timestamp: "@ + words,
    }
}

/// What the tool that schedules asks, given what its delay and its time amount to.
pub open spec fn scheduling_asked(
    to: Seq<char>,
    body: Seq<char>,
    when: Result<When, WhenErrorView>,
) -> Result<OpView, Seq<char>> {
    match when {
        Ok(w) => Ok(OpView::Schedule(to, body, w)),
        Err(e) => Err(unclear(e)),
    }
}

/// The view of what is asked, or of the words for why nothing is.
pub open spec fn asked_view(r: Result<Op, String>) -> Result<OpView, Seq<char>> {
    match r {
        Ok(op) => Ok(op@),
        Err(words) => Err(words@),
    }
}

/// What the tool that schedules asks, given what its delay and its time amount to.
pub fn schedule_chosen(to: String, body: String, when: Result<When, WhenError>) -> (r: Result<
    Op,
    String,
>)
    ensures
        asked_view(r) == scheduling_asked(to@, body@, choice_view(when)),
{
    match when {
        Ok(when) => Ok(Op::Schedule { to, body, when }),
        Err(e) => Err(
            match &e {
                WhenError::Both => "provide either `delay_seconds` or `at`, not both".to_owned(),
                WhenError::Neither => "either `delay_seconds` or `at` is required".to_owned(),
                WhenError::Unreadable(words) => join2("invalid `at` timestamp: ", words.as_str()),
            },
        ),
    }
}

/// What the tool that schedules asks.
pub fn schedule_asked(
    to: String,
    body: String,
    delay_seconds: Option<u64>,
    at: &Option<String>,
) -> (r: Result<Op, String>)
    ensures
        asked_view(r) == scheduling_asked(
            to@,
            body@,
            chosen(
                delay_seconds,
                match *at {
                    Some(text) => Some(moment_of(rfc3339_instant(text@))),
                    None => None,
                },
            ),
        ),
{
    schedule_chosen(to, body, schedule_when(delay_seconds, at))
}

// ---- what tools return ----

/// A message as a tool returns it. The time is missing where it cannot be written.
#[derive(Clone, Debug)]
pub struct ToolMessage {
    pub id: i64,
    pub from: String,
    pub to: String,
    pub body: String,
    pub intent: Option<&'static str>,
    pub reply_to: Option<i64>,
    pub created_at: Option<String>,
}

/// A message as a tool returns it, with its texts as sequences of characters.
pub struct ToolMessageView {
    pub id: i64,
    pub from: Seq<char>,
    pub to: Seq<char>,
    pub body: Seq<char>,
    pub intent: Option<Seq<char>>,
    pub reply_to: Option<i64>,
    pub created_at: Option<Seq<char>>,
}

/// The text of an optional word.
pub open spec fn opt_word(s: Option<&'static str>) -> Option<Seq<char>> {
    match s {
        Some(w) => Some(w@),
        None => None,
    }
}

impl View for ToolMessage {
    type V = ToolMessageView;

    open spec fn view(&self) -> ToolMessageView {
        ToolMessageView {
            id: self.id,
            from: self.from@,
            to: self.to@,
            body: self.body@,
            intent: opt_word(self.intent),
            reply_to: self.reply_to,
            created_at: opt_text(self.created_at),
        }
    }
}

/// A message as a tool returns it.
pub open spec fn tool_message(m: MessageView) -> ToolMessageView {
    ToolMessageView {
        id: m.id,
        from: m.from,
        to: m.to.label(),
        body: m.body,
        intent: match m.intent {
            Some(i) => Some(intent_word(i)),
            None => None,
        },
        reply_to: m.reply_to,
        created_at: rfc3339_text(m.created_at.secs, m.created_at.nanos),
    }
}

/// A message as a tool returns it.
pub fn format_message(m: &Message) -> (r: ToolMessage)
    ensures
        r@ == tool_message(m@),
{
    let intent: Option<&'static str> = match m.intent {
        Some(i) => Some(intent_to_str(i)),
        None => None,
    };
    let created_at = to_rfc3339(m.created_at);
    assert(opt_text(created_at) == rfc3339_text(m.created_at.secs, m.created_at.nanos));
    ToolMessage {
        id: m.id,
        from: m.from.clone(),
        to: m.to.label(),
        body: m.body.clone(),
        intent,
        reply_to: m.reply_to,
        created_at,
    }
}

/// What a tool returns.
#[derive(Clone, Debug)]
pub enum ToolReply {
    Done,
    Sent { message_id: i64 },
    Messages { messages: Vec<ToolMessage> },
    Agents { agents: Vec<String> },
    AgentsDetailed { agents: Vec<AgentDetails> },
    Channels { channels: Vec<String> },
    ChannelsDetailed { channels: Vec<ChannelDetails> },
    Status(StatusInfo),
    Scheduled { scheduled: Vec<ScheduledRow> },
    Joined { joined: usize },
    Left { left: usize },
    Failed { error: String },
}

/// What a tool returns, as views.
pub enum ToolReplyView {
    Done,
    Sent(i64),
    Messages(Seq<ToolMessageView>),
    Agents(Seq<Seq<char>>),
    AgentsDetailed(Seq<AgentDetailsView>),
    Channels(Seq<Seq<char>>),
    ChannelsDetailed(Seq<ChannelDetailsView>),
    Status(StatusView),
    Scheduled(Seq<ScheduledRowView>),
    Joined(nat),
    Left(nat),
    Failed(Seq<char>),
}

impl View for ToolReply {
    type V = ToolReplyView;

    open spec fn view(&self) -> ToolReplyView {
        match *self {
            ToolReply::Done => ToolReplyView::Done,
            ToolReply::Sent { message_id } => ToolReplyView::Sent(message_id),
            ToolReply::Messages { messages } => ToolReplyView::Messages(views(messages@)),
            ToolReply::Agents { agents } => ToolReplyView::Agents(texts(agents@)),
            ToolReply::AgentsDetailed { agents } => ToolReplyView::AgentsDetailed(views(agents@)),
            ToolReply::Channels { channels } => ToolReplyView::Channels(texts(channels@)),
            ToolReply::ChannelsDetailed { channels } => ToolReplyView::ChannelsDetailed(
                views(channels@),
            ),
            ToolReply::Status(info) => ToolReplyView::Status(info@),
            ToolReply::Scheduled { scheduled } => ToolReplyView::Scheduled(views(scheduled@)),
            ToolReply::Joined { joined } => ToolReplyView::Joined(joined as nat),
            ToolReply::Left { left } => ToolReplyView::Left(left as nat),
            ToolReply::Failed { error } => ToolReplyView::Failed(error@),
        }
    }
}

/// The words for data that agents are not shown: who has read what.
pub const NOT_EXPOSED: &'static str = "inspect is not exposed to agents";

/// The words for an error that the daemon has none for.
pub const UNKNOWN_ERROR: &'static str = "unknown daemon error";

/// What a tool returns of the daemon's data. Who has read what is not shown to agents.
pub open spec fn data_reply(data: Option<DataView>) -> ToolReplyView {
    match data {
        None => ToolReplyView::Done,
        Some(DataView::SendOk(id)) => ToolReplyView::Sent(id),
        Some(DataView::Messages(m)) => ToolReplyView::Messages(
            m.map_values(|x: MessageView| tool_message(x)),
        ),
        Some(DataView::Agents(a)) => ToolReplyView::Agents(a),
        Some(DataView::AgentsDetailed(a)) => ToolReplyView::AgentsDetailed(a),
        Some(DataView::Channels(c)) => ToolReplyView::Channels(c),
        Some(DataView::ChannelsDetailed(c)) => ToolReplyView::ChannelsDetailed(c),
        Some(DataView::Status(s)) => ToolReplyView::Status(s),
        Some(DataView::Scheduled(s)) => ToolReplyView::Scheduled(s),
        Some(DataView::MessageDetail(_)) | Some(DataView::MessagesDetailed(_)) =>
            ToolReplyView::Failed(NOT_EXPOSED@),
    }
}

/// What a tool returns of the daemon's answer.
pub open spec fn answer_reply(r: ResponseView) -> ToolReplyView {
    if r.ok {
        data_reply(r.data)
    } else {
        ToolReplyView::Failed(
            match r.error {
                Some(words) => words,
                None => UNKNOWN_ERROR@,
            },
        )
    }
}

fn format_messages(list: &Vec<Message>) -> (out: Vec<ToolMessage>)
    ensures
        views(out@) == views(list@).map_values(|x: MessageView| tool_message(x)),
{
    let ghost all = views(list@).map_values(|x: MessageView| tool_message(x));
    let mut out: Vec<ToolMessage> = Vec::new();
    let mut i: usize = 0;
    assert(views(out@) =~= all.take(0));
    while i < list.len()
        invariant
            all == views(list@).map_values(|x: MessageView| tool_message(x)),
            i <= list@.len(),
            views(out@) == all.take(i as int),
        decreases list@.len() - i,
    {
        let m = format_message(&list[i]);
        assert(views(list@)[i as int] == list@[i as int]@);
        assert(all[i as int] == m@);
        let ghost done = out@;
        out.push(m);
        i = i + 1;
        assert(views(out@) =~= views(done).push(m@));
        assert(views(out@) =~= all.take(i as int));
    }
    assert(all.take(i as int) =~= all);
    out
}

/// What a tool returns of the daemon's data.
pub fn format_response_data(data: Option<ResponseData>) -> (r: ToolReply)
    ensures
        r@ == data_reply(crate::proto::data_view(data)),
{
    match data {
        None => ToolReply::Done,
        Some(d) => match d {
            ResponseData::SendOk { message_id } => ToolReply::Sent { message_id },
            ResponseData::Messages { messages } => ToolReply::Messages {
                messages: format_messages(&messages),
            },
            ResponseData::Agents { agents } => ToolReply::Agents { agents },
            ResponseData::AgentsDetailed { agents_detailed } => ToolReply::AgentsDetailed {
                agents: agents_detailed,
            },
            ResponseData::Channels { channels } => ToolReply::Channels { channels },
            ResponseData::ChannelsDetailed { channels_detailed } => ToolReply::ChannelsDetailed {
                channels: channels_detailed,
            },
            ResponseData::Status(info) => ToolReply::Status(info),
            ResponseData::Scheduled { scheduled } => ToolReply::Scheduled { scheduled },
            ResponseData::MessageDetail(_) => ToolReply::Failed { error: NOT_EXPOSED.to_owned() },
            ResponseData::MessagesDetailed { .. } => ToolReply::Failed {
                error: NOT_EXPOSED.to_owned(),
            },
        },
    }
}

/// What a tool returns of the daemon's answer.
pub fn tool_reply(response: Response) -> (r: ToolReply)
    ensures
        r@ == answer_reply(response@),
{
    if response.ok {
        format_response_data(response.data)
    } else {
        match response.error {
            Some(error) => ToolReply::Failed { error },
            None => ToolReply::Failed { error: UNKNOWN_ERROR.to_owned() },
        }
    }
}

// ---- joining and leaving channels ----

/// The next step of the tools that join and leave channels: a request, or what they return.
#[derive(Clone, Debug)]
pub enum ChannelStep {
    Ask(Op),
    Return(ToolReply),
}

/// The next step of the tools that join and leave channels, as views.
pub enum ChannelStepView {
    Ask(OpView),
    Return(ToolReplyView),
}

impl View for ChannelStep {
    type V = ChannelStepView;

    open spec fn view(&self) -> ChannelStepView {
        match *self {
            ChannelStep::Ask(op) => ChannelStepView::Ask(op@),
            ChannelStep::Return(r) => ChannelStepView::Return(r@),
        }
    }
}

/// The view of the reply to the last request, if one was made.
pub open spec fn last_view(last: Option<ToolReply>) -> Option<ToolReplyView> {
    match last {
        Some(r) => Some(r@),
        None => None,
    }
}

/// The next step when `done` requests were made and the last had the reply `last`: the first
/// failure is returned; without one, each channel is asked for in turn.
pub open spec fn next_step(
    channels: Seq<Seq<char>>,
    joining: bool,
    done: int,
    last: Option<ToolReplyView>,
) -> ChannelStepView {
    match last {
        Some(ToolReplyView::Failed(words)) => ChannelStepView::Return(
            ToolReplyView::Failed(words),
        ),
        _ => if 0 <= done < channels.len() {
            if joining {
                ChannelStepView::Ask(OpView::Join(strip_start(channels[done], '#')))
            } else {
                ChannelStepView::Ask(OpView::Leave(strip_start(channels[done], '#')))
            }
        } else if joining {
            ChannelStepView::Return(ToolReplyView::Joined(channels.len()))
        } else {
            ChannelStepView::Return(ToolReplyView::Left(channels.len()))
        },
    }
}

/// The next step of the tools that join and leave channels.
pub fn channel_step(
    channels: &Vec<String>,
    joining: bool,
    done: usize,
    last: Option<ToolReply>,
) -> (r: ChannelStep)
    ensures
        r@ == next_step(texts(channels@), joining, done as int, last_view(last)),
{
    match last {
        Some(ToolReply::Failed { error }) => {
            return ChannelStep::Return(ToolReply::Failed { error });
        },
        _ => {},
    }
    if done < channels.len() {
        assert(texts(channels@)[done as int] == channels@[done as int]@);
        let channel = trim_start_char(channels[done].as_str(), '#');
        if joining {
            ChannelStep::Ask(Op::Join { channel })
        } else {
            ChannelStep::Ask(Op::Leave { channel })
        }
    } else if joining {
        ChannelStep::Return(ToolReply::Joined { joined: channels.len() })
    } else {
        ChannelStep::Return(ToolReply::Left { left: channels.len() })
    }
}

// ---- the connection of an agent ----

/// An agent's connection to the daemon: the name that the agent has, or asks for, and whether
/// there is a connection.
#[derive(Clone, Debug)]
pub struct Stub {
    pub agent_name: String,
    pub connected: bool,
}

/// An agent's connection to the daemon, as views.
pub struct StubView {
    pub agent_name: Seq<char>,
    pub connected: bool,
}

impl View for Stub {
    type V = StubView;

    open spec fn view(&self) -> StubView {
        StubView { agent_name: self.agent_name@, connected: self.connected }
    }
}

impl StubView {
    /// The name that is asked for before the next request, if there is no connection.
    pub open spec fn asked_name(self) -> Option<Seq<char>> {
        if self.connected {
            None
        } else {
            Some(self.agent_name)
        }
    }

    /// A connection was made and the daemon gave a name.
    pub open spec fn named(self, assigned: Seq<char>) -> StubView {
        StubView { agent_name: assigned, connected: true }
    }

    /// A request failed, so the connection is given up.
    pub open spec fn lost(self) -> StubView {
        StubView { connected: false, ..self }
    }
}

impl Stub {
    /// An agent without a connection.
    pub fn new(requested: String) -> (r: Stub)
        ensures
            r@ == (StubView { agent_name: requested@, connected: false }),
    {
        Stub { agent_name: requested, connected: false }
    }

    /// The name that is asked for before the next request, if there is no connection.
    pub fn asked_name(&self) -> (r: Option<String>)
        ensures
            opt_text(r) == self@.asked_name(),
    {
        if self.connected {
            None
        } else {
            Some(self.agent_name.clone())
        }
    }

    /// A connection was made and the daemon gave a name.
    pub fn named(&mut self, assigned: String)
        ensures
            final(self)@ == old(self)@.named(assigned@),
    {
        self.agent_name = assigned;
        self.connected = true;
    }

    /// A request failed, so the connection is given up.
    pub fn lost(&mut self)
        ensures
            final(self)@ == old(self)@.lost(),
    {
        self.connected = false;
    }
}

/// The words for a daemon that cannot be reached.
pub fn unreachable_text(why: &str) -> (r: String)
    ensures
        r@ == "sidebar daemon not reachable: "@ + why@ + ". Start it with `sidebar serve`."@,
{
    join3("sidebar daemon not reachable: ", why, ". Start it with `sidebar serve`.")
}

/// After a request failed, the agent asks for the name again that it was given last.
pub proof fn law_asks_for_its_name_again(s: StubView, assigned: Seq<char>)
    ensures
        s.named(assigned).asked_name() is None,
        s.named(assigned).lost().asked_name() == Some(assigned),
{
}

/// An interval that was read is written in a form that is read as the same interval.
pub proof fn law_interval_reads_back(s: Seq<char>)
    requires
        interval(s) is Some,
    ensures
        ({
            let (human, secs) = interval(s)->0;
            interval(human) == Some((human, secs))
        }),
{
    let t = trimmed(s);
    let (digits, unit) = number_and_unit(t);
    let n = parsed_unsigned(digits, u64::MAX as nat)->0;
    let k = unit_seconds(unit)->0;
    let human = decimal(n).push(unit);
    crate::text::lemma_decimal_reads_back(n);
    assert(n <= 3600) by (nonlinear_arith)
        requires
            n * k <= 3600,
            k >= 1,
    ;
    assert(human.drop_last() =~= decimal(n));
    assert(human.last() == unit);
    crate::text::lemma_trimmed_fixed(human);
}

} // verus!
