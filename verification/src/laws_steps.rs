//! What supervisors do in turn, and what tools tell agents.

use vstd::prelude::*;
use vstd::seq_lib::*;

use crate::http::{MAX_REQUEST_BODY_BYTES, MAX_REQUEST_BYTES};
use crate::laws_shown::{lemma_behind, lemma_joins};
use crate::limits::{MAX_BODY_BYTES, MAX_DELAY_SECONDS, MAX_INBOX_WAIT_MS, MAX_RESULTS};
use crate::mcp::{
    answer_reply, bad_interval, bad_wait, data_reply, listen_prompt, long_wait, poll_prompt,
    tool_message, StubView, ToolReplyView, MAX_INTERVAL_SECONDS, MAX_LISTEN_SECONDS,
};
use crate::proto::{
    DataView, MessageDetailView, ResponseView, DEFAULT_LIMIT, DEFAULT_PRUNE_DAYS,
    DEFAULT_SEARCH_LIMIT,
};
use crate::supervise::{
    advancing, at_a_message, greeting, ActionView, HappeningView, PhaseView, SupervisorView, TurnStatus,
};
use crate::text::{decimal, has_part, signed};
use crate::types::{Intent, MessageView, RecipientView};
use crate::web::CONSOLE_LIMIT;
use crate::wire::mismatch;

verus! {

// ---- supervisors ----

/// What a supervisor does once it is done with a message: it begins with the next one; behind the
/// last it looks for messages again, or stops, if it was to look once.
pub open spec fn goes_on(s: SupervisorView, next: SupervisorView, action: ActionView) -> bool {
    &&& next.messages == s.messages && next.at == s.at + 1
    &&& next.wait_ms == s.wait_ms && next.once == s.once && next.process == s.process
    &&& if s.at + 1 < s.messages.len() {
        let id = s.messages[s.at + 1].id;
        next.phase is Beginning && action == ActionView::Begin(
            id,
            "supervisor-"@ + decimal(s.process as nat) + "-"@ + signed(id as int),
        )
    } else if s.once {
        next.phase is Stopped && action == ActionView::Stop(None)
    } else {
        next.phase is Polling && action == ActionView::Poll(s.wait_ms)
    }
}

/// A turn that could not begin is told with its message and the reason, and the supervisor goes
/// on.
pub proof fn law_turn_not_begun(
    s: SupervisorView,
    error: Option<Seq<char>>,
    turn: Option<Seq<char>>,
    shown: Seq<char>,
)
    requires
        at_a_message(s),
        s.phase is Beginning,
    ensures
        ({
            let step = advancing(s, HappeningView::Begun(false, error, turn, shown));
            &&& goes_on(s, step.state, step.doing.action)
            &&& step.doing.says is None
            &&& step.doing.warns == Some(
                "could not begin turn for message "@ + signed(s.messages[s.at].id as int) + ": "@ + (
                match error {
                    Some(words) => words,
                    None => "unknown error"@,
                }),
            )
        }),
{
}

/// When the end of a turn has been reported, it is told how it ended, and the supervisor goes on.
pub proof fn law_turn_finished(
    s: SupervisorView,
    turn: Seq<char>,
    succeeded: bool,
    ok: bool,
    error: Option<Seq<char>>,
)
    requires
        at_a_message(s),
        s.phase == PhaseView::Finishing(turn, succeeded),
    ensures
        ({
            let step = advancing(s, HappeningView::Updated(ok, error));
            &&& goes_on(s, step.state, step.doing.action)
            &&& ok && succeeded ==> step.doing.says == Some("turn "@ + turn + " completed"@)
                && step.doing.warns is None
            &&& ok && !succeeded ==> step.doing.says is None && step.doing.warns == Some(
                "turn "@ + turn + " failed: host produced no response"@,
            )
            &&& !ok ==> step.doing.says is None && step.doing.warns == Some(
                "could not finish turn "@ + turn + ": "@ + (match error {
                    Some(words) => words,
                    None => "unknown error"@,
                }),
            )
        }),
{
}

/// A turn counts as completed if and only if its command's outcome says so.
pub proof fn law_turn_runs(
    s: SupervisorView,
    turn: Seq<char>,
    update: (TurnStatus, Option<Seq<char>>, Option<Seq<char>>),
)
    requires
        s.phase == PhaseView::Running(turn),
    ensures
        ({
            let step = advancing(s, HappeningView::Ended(update));
            &&& step.state == (SupervisorView {
                phase: PhaseView::Finishing(turn, update.0 == TurnStatus::ResponseCompleted),
                ..s
            })
            &&& step.doing.action == ActionView::Report(turn, update)
            &&& step.doing.says is None && step.doing.warns is None
        }),
{
}

/// An answer that is none of those expected stops the supervisor, with the answer.
pub proof fn law_unexpected_answers(s: SupervisorView, error: Option<Seq<char>>, shown: Seq<char>)
    ensures
        s.phase is Polling ==> advancing(s, HappeningView::Inbox(None, shown)).doing.action
            == ActionView::Stop(Some("unexpected inbox response: "@ + shown)) && advancing(
            s,
            HappeningView::Inbox(None, shown),
        ).state.phase is Stopped,
        s.phase is Beginning ==> advancing(
            s,
            HappeningView::Begun(true, error, None, shown),
        ).doing.action == ActionView::Stop(Some("unexpected begin_turn response: "@ + shown))
            && advancing(s, HappeningView::Begun(true, error, None, shown)).state.phase is Stopped,
{
}

/// What does not belong to where a supervisor stands changes nothing, and nothing is done; a
/// supervisor that has stopped does nothing more.
pub proof fn law_out_of_turn(s: SupervisorView, h: HappeningView)
    requires
        s.phase is Stopped || (s.phase is Polling && !(h is Inbox)) || (s.phase is Beginning && !(
        h is Begun)) || (s.phase is Starting && !(h is Updated)) || (s.phase is Running && !(
        h is Ended)) || (s.phase is Finishing && !(h is Updated)),
    ensures
        advancing(s, h).state == s,
        advancing(s, h).doing.action is Nothing,
        advancing(s, h).doing.says is None && advancing(s, h).doing.warns is None,
{
}

// ---- tools ----

/// A message that a tool returns has the message's id, sender, body, reply and intent, and its
/// recipient as it is written.
pub proof fn law_tool_message(m: MessageView)
    ensures
        ({
            let t = tool_message(m);
            &&& t.id == m.id && t.from == m.from && t.body == m.body && t.reply_to == m.reply_to
            &&& t.to == match m.to {
                RecipientView::Agent(name) => seq!['@'] + name,
                RecipientView::Channel(name) => seq!['#'] + name,
                RecipientView::Broadcast => seq!['*'],
            }
            &&& t.intent == match m.intent {
                Some(Intent::Fyi) => Some("fyi"@),
                Some(Intent::Question) => Some("question"@),
                Some(Intent::Task) => Some("task"@),
                Some(Intent::Handoff) => Some("handoff"@),
                None => None,
            }
        }),
{
    reveal_strlit("@");
    reveal_strlit("#");
    reveal_strlit("*");
    assert("@"@ =~= seq!['@'] && "#"@ =~= seq!['#'] && "*"@ =~= seq!['*']);
}

/// A tool returns the messages that the daemon answered with, each in its place; who has read
/// what it does not return.
pub proof fn law_tool_replies(
    list: Seq<MessageView>,
    detail: MessageDetailView,
    details: Seq<MessageDetailView>,
    id: i64,
    k: int,
)
    ensures
        data_reply(Some(DataView::Messages(list))) matches ToolReplyView::Messages(out)
            && out.len() == list.len() && (0 <= k < list.len() ==> out[k] == tool_message(list[k])),
        data_reply(Some(DataView::SendOk(id))) == ToolReplyView::Sent(id),
        data_reply(None) == ToolReplyView::Done,
        data_reply(Some(DataView::MessageDetail(detail))) == ToolReplyView::Failed(
            "inspect is not exposed to agents"@,
        ),
        data_reply(Some(DataView::MessagesDetailed(details))) == ToolReplyView::Failed(
            "inspect is not exposed to agents"@,
        ),
{
}

/// A tool fails if and only if the daemon's answer is an error, or one that it does not return;
/// and then with the words of the error.
pub proof fn law_tool_failures(r: ResponseView, words: Seq<char>)
    ensures
        !r.ok && r.error == Some(words) ==> answer_reply(r) == ToolReplyView::Failed(words),
        !r.ok && r.error is None ==> answer_reply(r) == ToolReplyView::Failed(
            "unknown daemon error"@,
        ),
        r.ok ==> (answer_reply(r) is Failed <==> (r.data matches Some(DataView::MessageDetail(_)))
            || (r.data matches Some(DataView::MessagesDetailed(_)))),
        r.ok ==> answer_reply(r) == data_reply(r.data),
{
}

/// The prompt for polling tells the interval, and to wake after its seconds; the prompt for
/// listening tells to wait for its milliseconds.
pub proof fn law_prompts(human: Seq<char>, seconds: nat)
    ensures
        has_part(poll_prompt(human, seconds), human),
        has_part(poll_prompt(human, seconds), decimal(seconds)),
        has_part(listen_prompt(human, seconds), human),
        has_part(listen_prompt(human, seconds), decimal(seconds * 1000)),
{
    let a = crate::mcp::POLL_EVERY@ + human + crate::mcp::POLL_FIRST@ + human
        + crate::mcp::POLL_FIRE@;
    lemma_behind(a, decimal(seconds));
    lemma_behind(a + decimal(seconds), crate::mcp::POLL_AGAIN@);
    lemma_behind(a + decimal(seconds) + crate::mcp::POLL_AGAIN@, human);
    lemma_behind(
        a + decimal(seconds) + crate::mcp::POLL_AGAIN@ + human,
        crate::mcp::POLL_STOP@,
    );
    let b = crate::mcp::LISTEN_FIRST@ + human + crate::mcp::LISTEN_LOOP@;
    let c = b + decimal(seconds * 1000);
    lemma_behind(b, decimal(seconds * 1000));
    lemma_behind(c, crate::mcp::LISTEN_BLOCKS@);
    lemma_behind(c + crate::mcp::LISTEN_BLOCKS@, human);
    lemma_behind(c + crate::mcp::LISTEN_BLOCKS@ + human, crate::mcp::LISTEN_RETURN@);
    lemma_behind(
        c + crate::mcp::LISTEN_BLOCKS@ + human + crate::mcp::LISTEN_RETURN@,
        human,
    );
    lemma_behind(
        c + crate::mcp::LISTEN_BLOCKS@ + human + crate::mcp::LISTEN_RETURN@ + human,
        crate::mcp::LISTEN_END@,
    );
}

/// A connection asks for a name if and only if there is none, and keeps the name that it was
/// given whether or not it is lost.
pub proof fn law_connection(s: StubView, assigned: Seq<char>)
    ensures
        s.asked_name() is Some <==> !s.connected,
        !s.connected ==> s.asked_name() == Some(s.agent_name),
        s.named(assigned).agent_name == assigned && s.named(assigned).connected,
        s.lost().agent_name == s.agent_name && !s.lost().connected,
{
}

// ---- words ----

/// What could not be read is told as it was given.
pub proof fn law_unread_is_told(raw: Seq<char>)
    ensures
        has_part(bad_interval(raw), raw),
        has_part(bad_wait(raw), raw),
        has_part(long_wait(raw), raw),
        bad_interval(raw) != bad_wait(raw),
{
    let a = "The interval `"@;
    let b = "The wait `"@;
    let c = "Wait `"@;
    lemma_behind(a, raw);
    lemma_behind(b, raw);
    lemma_behind(c, raw);
    lemma_behind(
        a + raw,
        "` isn't a recognized format. Use values like `5` (minutes), `30s`, `5m`, `1h` (max 1 hour). Ask the user to re-run with a valid interval; do not call any tools or `ScheduleWakeup`."@,
    );
    lemma_behind(
        b + raw,
        "` isn't a recognized format. Use values like `30s`, `1m`, `5m` (max 5 minutes). Ask the user to re-run with a valid wait; do not call any tools."@,
    );
    lemma_behind(
        c + raw,
        "` exceeds the 5-minute cap on `mcp__sidebar__inbox` long-polls. Use `5m` or smaller. Ask the user to re-run; do not call any tools."@,
    );
    reveal_strlit("The interval `");
    reveal_strlit("The wait `");
    assert(bad_interval(raw)[4] == 'i' && bad_wait(raw)[4] == 'w');
}

/// A supervisor starts with its program, its name, and the milliseconds that it waits, which are
/// at most five minutes.
pub proof fn law_greeting(program: Seq<char>, name: Seq<char>, wait_ms: u64)
    ensures
        wait_ms <= 300000 ==> greeting(program, name, wait_ms) == "supervisor `"@ + program
            + "` listening as @"@ + name + " (wait "@ + decimal(wait_ms as nat) + "ms)"@,
        wait_ms > 300000 ==> greeting(program, name, wait_ms) == greeting(program, name, 300000),
{
}

/// An answer to another request is told with both numbers.
pub proof fn law_mismatch(expected: u64, got: u64)
    ensures
        has_part(mismatch(expected, got), "expected "@ + decimal(expected as nat)),
        has_part(mismatch(expected, got), ", got "@ + decimal(got as nat)),
{
    let a = "response id mismatch: expected "@;
    reveal_strlit("response id mismatch: expected ");
    reveal_strlit("expected ");
    let n = a.len() - 9;
    let head = a.take(n);
    let one = decimal(expected as nat);
    assert(a =~= head + "expected "@);
    lemma_joins(head, "expected "@, one);
    lemma_behind(head, "expected "@ + one);
    lemma_joins(a + one, ", got "@, decimal(got as nat));
    lemma_behind(a + one, ", got "@ + decimal(got as nat));
}

/// The limits go together: whatever a prompt tells an agent to wait for, an inbox call waits for;
/// and the console takes as long a body as a message may have.
pub proof fn law_limits_agree()
    ensures
        MAX_LISTEN_SECONDS == 300 && MAX_LISTEN_SECONDS * 1000 == MAX_INBOX_WAIT_MS,
        MAX_INTERVAL_SECONDS == 3600,
        MAX_REQUEST_BODY_BYTES == MAX_BODY_BYTES && MAX_BODY_BYTES == 65536,
        MAX_REQUEST_BYTES == 2 * MAX_REQUEST_BODY_BYTES,
        MAX_DELAY_SECONDS == 365 * 86400,
        DEFAULT_PRUNE_DAYS == 30 && DEFAULT_SEARCH_LIMIT == 50 && DEFAULT_LIMIT == 50,
        DEFAULT_SEARCH_LIMIT <= MAX_RESULTS && DEFAULT_LIMIT <= MAX_RESULTS && CONSOLE_LIMIT
            <= MAX_RESULTS,
{
}

} // verus!
