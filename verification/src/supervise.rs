//! Supervising a host command: the prompt that it is given for a message, and what becomes
//! of its turn.

use vstd::prelude::*;
use vstd::string::*;

use crate::limits::MAX_INBOX_WAIT_MS;
use crate::text::{
    chars_of, decimal, i64_text, join2, join3, lossy, push_i64, push_u64, read_text, signed, trim,
    trimmed,
};
use crate::types::{opt_text, texts, views, Message, MessageView};

verus! {

/// The state of a turn.
#[derive(Clone, Copy, Debug, PartialEq, Eq, Structural)]
pub enum TurnStatus {
    Started,
    ResponseCompleted,
    Failed,
}

/// What a turn's record is told at its end: its state, with the response or the error.
#[derive(Clone, Debug)]
pub struct TurnUpdate {
    pub status: TurnStatus,
    pub response: Option<String>,
    pub error: Option<String>,
}

/// The prompt for a message.
pub open spec fn prompt_for(m: MessageView) -> Seq<char> {
    "You are replying as a participant in a durable agent room.\n\nMessage id: "@ + signed(
        m.id as int,
    ) + "\nFrom: "@ + m.from + "\nTo: "@ + m.to.label() + "\n\nMessage:\n"@ + m.body
        + "\n\nReturn only the final human-readable response. Do not include supervisor metadata or tool logs."@
}

/// The prompt for a message.
pub fn supervisor_prompt(message: &Message) -> (r: String)
    ensures
        r@ == prompt_for(message@),
{
    let mut r = String::new();
    r.append("You are replying as a participant in a durable agent room.\n\nMessage id: ");
    push_i64(&mut r, message.id);
    r.append("\nFrom: ");
    r.append(message.from.as_str());
    r.append("\nTo: ");
    let to = message.to.label();
    r.append(to.as_str());
    r.append("\n\nMessage:\n");
    r.append(message.body.as_str());
    r.append(
        "\n\nReturn only the final human-readable response. Do not include supervisor metadata or tool logs.",
    );
    assert(r@ =~= prompt_for(message@));
    r
}

/// The id that a supervisor gives to the turn for a message.
pub open spec fn turn_id(process: nat, message: int) -> Seq<char> {
    "supervisor-"@ + decimal(process) + "-"@ + signed(message)
}

/// The id that a supervisor gives to the turn for a message.
pub fn client_turn_id(process: u32, message_id: i64) -> (r: String)
    ensures
        r@ == turn_id(process as nat, message_id as int),
{
    let mut r = String::new();
    r.append("supervisor-");
    push_u64(&mut r, process as u64);
    r.append("-");
    push_i64(&mut r, message_id);
    assert(r@ =~= turn_id(process as nat, message_id as int));
    r
}

/// What becomes of a turn whose command wrote `out` and `err`: it is completed with the
/// output, if the command succeeded and wrote any; otherwise it failed, with what the command
/// wrote as an error, or with the way in which it ended.
pub open spec fn outcome(success: bool, out: Seq<char>, err: Seq<char>, ended: Seq<char>) -> (
    TurnStatus,
    Option<Seq<char>>,
    Option<Seq<char>>,
) {
    if success && trimmed(out).len() > 0 {
        (TurnStatus::ResponseCompleted, Some(trimmed(out)), None)
    } else {
        (
            TurnStatus::Failed,
            None,
            Some(
                if trimmed(err).len() == 0 {
                    "host command exited with status "@ + ended
                } else {
                    trimmed(err)
                },
            ),
        )
    }
}

impl TurnUpdate {
    /// The update's parts, with their texts as characters.
    pub open spec fn parts(&self) -> (TurnStatus, Option<Seq<char>>, Option<Seq<char>>) {
        (self.status, opt_text(self.response), opt_text(self.error))
    }
}

/// What becomes of a turn whose command wrote these texts.
pub fn finish_turn(success: bool, out: &str, err: &str, ended: &str) -> (r: TurnUpdate)
    ensures
        r.parts() == outcome(success, out@, err@, ended@),
{
    let response = trim(out);
    let error = trim(err);
    if success && chars_of(response.as_str()).len() > 0 {
        TurnUpdate {
            status: TurnStatus::ResponseCompleted,
            response: Some(response),
            error: None,
        }
    } else if chars_of(error.as_str()).len() == 0 {
        TurnUpdate {
            status: TurnStatus::Failed,
            response: None,
            error: Some(join2("host command exited with status ", ended)),
        }
    } else {
        TurnUpdate { status: TurnStatus::Failed, response: None, error: Some(error) }
    }
}

/// What becomes of a turn whose command wrote these bytes.
pub fn turn_outcome(success: bool, stdout: &Vec<u8>, stderr: &Vec<u8>, ended: &str) -> (r:
    TurnUpdate)
    ensures
        r.parts() == outcome(success, read_text(stdout@), read_text(stderr@), ended@),
{
    let out = lossy(stdout.as_slice());
    let err = lossy(stderr.as_slice());
    finish_turn(success, out.as_str(), err.as_str(), ended)
}

/// The line with which a supervisor starts.
pub open spec fn greeting(program: Seq<char>, name: Seq<char>, wait_ms: u64) -> Seq<char> {
    "supervisor `"@ + program + "` listening as @"@ + name + " (wait "@ + decimal(
        (if wait_ms <= MAX_INBOX_WAIT_MS {
            wait_ms
        } else {
            MAX_INBOX_WAIT_MS
        }) as nat,
    ) + "ms)"@
}

/// The line with which a supervisor starts.
pub fn supervisor_greeting(program: &str, name: &str, wait_ms: u64) -> (r: String)
    ensures
        r@ == greeting(program@, name@, wait_ms),
{
    let ms: u64 = if wait_ms <= MAX_INBOX_WAIT_MS {
        wait_ms
    } else {
        MAX_INBOX_WAIT_MS
    };
    let mut r = String::new();
    r.append("supervisor `");
    r.append(program);
    r.append("` listening as @");
    r.append(name);
    r.append(" (wait ");
    push_u64(&mut r, ms);
    r.append("ms)");
    assert(r@ =~= greeting(program@, name@, wait_ms));
    r
}

// ---- the supervisor ----

/// The words for a supervisor without a command.
pub const NO_COMMAND: &'static str = "supervise requires a host command after `--`";

/// The program and its arguments.
pub fn host_command(command: &Vec<String>) -> (r: Result<(String, Vec<String>), &'static str>)
    ensures
        match r {
            Ok((program, args)) => command@.len() > 0 && program@ == command@[0]@ && texts(args@)
                == texts(command@).skip(1),
            Err(words) => command@.len() == 0 && words@ == NO_COMMAND@,
        },
{
    let n: usize = command.len();
    if n == 0 {
        return Err(NO_COMMAND);
    }
    let ghost all = texts(command@).skip(1);
    let mut args: Vec<String> = Vec::new();
    let mut i: usize = 1;
    assert(texts(args@) =~= all.take(0));
    while i < n
        invariant
            n == command@.len(),
            all == texts(command@).skip(1),
            1 <= i <= n,
            texts(args@) == all.take(i - 1),
        decreases n - i,
    {
        let arg = command[i].clone();
        assert(all[i - 1] == arg@);
        let ghost done = args@;
        args.push(arg);
        i = i + 1;
        assert(texts(args@) =~= texts(done).push(arg@));
        assert(texts(args@) =~= all.take(i - 1));
    }
    assert(all.take(n - 1) =~= all);
    Ok((command[0].clone(), args))
}

/// Where a supervisor stands: it waits for messages, or for the answer or the end of what it
/// does for the message that it is at.
#[derive(Clone, Debug)]
pub enum Phase {
    Polling,
    Beginning,
    Starting { turn_id: String },
    Running { turn_id: String },
    Finishing { turn_id: String, succeeded: bool },
    Stopped,
}

/// Where a supervisor stands, as views.
pub enum PhaseView {
    Polling,
    Beginning,
    Starting(Seq<char>),
    Running(Seq<char>),
    Finishing(Seq<char>, bool),
    Stopped,
}

impl View for Phase {
    type V = PhaseView;

    open spec fn view(&self) -> PhaseView {
        match *self {
            Phase::Polling => PhaseView::Polling,
            Phase::Beginning => PhaseView::Beginning,
            Phase::Starting { turn_id } => PhaseView::Starting(turn_id@),
            Phase::Running { turn_id } => PhaseView::Running(turn_id@),
            Phase::Finishing { turn_id, succeeded } => PhaseView::Finishing(turn_id@, succeeded),
            Phase::Stopped => PhaseView::Stopped,
        }
    }
}

/// What happened: an answer came, or the command ended. `shown` is an answer as it is printed.
#[derive(Clone, Debug)]
pub enum Happening {
    Inbox { messages: Option<Vec<Message>>, shown: String },
    Begun { ok: bool, error: Option<String>, turn_id: Option<String>, shown: String },
    Updated { ok: bool, error: Option<String> },
    Ended { update: TurnUpdate },
}

/// What happened, as views.
pub enum HappeningView {
    Inbox(Option<Seq<MessageView>>, Seq<char>),
    Begun(bool, Option<Seq<char>>, Option<Seq<char>>, Seq<char>),
    Updated(bool, Option<Seq<char>>),
    Ended((TurnStatus, Option<Seq<char>>, Option<Seq<char>>)),
}

impl View for Happening {
    type V = HappeningView;

    open spec fn view(&self) -> HappeningView {
        match *self {
            Happening::Inbox { messages, shown } => HappeningView::Inbox(
                match messages {
                    Some(list) => Some(views(list@)),
                    None => None,
                },
                shown@,
            ),
            Happening::Begun { ok, error, turn_id, shown } => HappeningView::Begun(
                ok,
                opt_text(error),
                opt_text(turn_id),
                shown@,
            ),
            Happening::Updated { ok, error } => HappeningView::Updated(ok, opt_text(error)),
            Happening::Ended { update } => HappeningView::Ended(update.parts()),
        }
    }
}

/// What a supervisor does next.
#[derive(Clone, Debug)]
pub enum Action {
    Poll { wait_ms: u64 },
    Begin { message_id: i64, client_turn_id: String },
    Report { turn_id: String, update: TurnUpdate },
    Run { turn_id: String, message_id: i64, prompt: String },
    Stop { error: Option<String> },
    Nothing,
}

/// What a supervisor does next, as views.
pub enum ActionView {
    Poll(u64),
    Begin(i64, Seq<char>),
    Report(Seq<char>, (TurnStatus, Option<Seq<char>>, Option<Seq<char>>)),
    Run(Seq<char>, i64, Seq<char>),
    Stop(Option<Seq<char>>),
    Nothing,
}

impl View for Action {
    type V = ActionView;

    open spec fn view(&self) -> ActionView {
        match *self {
            Action::Poll { wait_ms } => ActionView::Poll(wait_ms),
            Action::Begin { message_id, client_turn_id } => ActionView::Begin(
                message_id,
                client_turn_id@,
            ),
            Action::Report { turn_id, update } => ActionView::Report(turn_id@, update.parts()),
            Action::Run { turn_id, message_id, prompt } => ActionView::Run(
                turn_id@,
                message_id,
                prompt@,
            ),
            Action::Stop { error } => ActionView::Stop(opt_text(error)),
            Action::Nothing => ActionView::Nothing,
        }
    }
}

/// What a supervisor does next, and what it prints before: a line of its output, or a line for
/// an error.
#[derive(Clone, Debug)]
pub struct Doing {
    pub says: Option<String>,
    pub warns: Option<String>,
    pub action: Action,
}

/// What a supervisor does next, as views.
pub struct DoingView {
    pub says: Option<Seq<char>>,
    pub warns: Option<Seq<char>>,
    pub action: ActionView,
}

impl View for Doing {
    type V = DoingView;

    open spec fn view(&self) -> DoingView {
        DoingView {
            says: opt_text(self.says),
            warns: opt_text(self.warns),
            action: self.action@,
        }
    }
}

/// A supervisor: what it was started with, the messages that it works on, and where it stands.
#[derive(Clone, Debug)]
pub struct Supervisor {
    pub wait_ms: u64,
    pub once: bool,
    pub process: u32,
    pub messages: Vec<Message>,
    pub at: usize,
    pub phase: Phase,
}

/// A supervisor, as views.
pub struct SupervisorView {
    pub wait_ms: u64,
    pub once: bool,
    pub process: u32,
    pub messages: Seq<MessageView>,
    pub at: int,
    pub phase: PhaseView,
}

impl View for Supervisor {
    type V = SupervisorView;

    open spec fn view(&self) -> SupervisorView {
        SupervisorView {
            wait_ms: self.wait_ms,
            once: self.once,
            process: self.process,
            messages: views(self.messages@),
            at: self.at as int,
            phase: self.phase@,
        }
    }
}

/// A supervisor with what it does next.
pub struct Progress {
    pub state: SupervisorView,
    pub doing: DoingView,
}

/// A step that prints nothing.
pub open spec fn quietly(action: ActionView) -> DoingView {
    DoingView { says: None, warns: None, action }
}

/// A supervisor is at the message at a position: its turn begins, or, if there is none, the
/// supervisor looks for messages again, unless it was to do so once.
pub open spec fn moving_on(s: SupervisorView, at: int, says: Option<Seq<char>>, warns: Option<
    Seq<char>,
>) -> Progress {
    if 0 <= at < s.messages.len() {
        let id = s.messages[at].id;
        Progress {
            state: SupervisorView { at, phase: PhaseView::Beginning, ..s },
            doing: DoingView {
                says,
                warns,
                action: ActionView::Begin(id, turn_id(s.process as nat, id as int)),
            },
        }
    } else if s.once {
        Progress {
            state: SupervisorView { at, phase: PhaseView::Stopped, ..s },
            doing: DoingView { says, warns, action: ActionView::Stop(None) },
        }
    } else {
        Progress {
            state: SupervisorView { at, phase: PhaseView::Polling, ..s },
            doing: DoingView { says, warns, action: ActionView::Poll(s.wait_ms) },
        }
    }
}

/// A supervisor stops with an error.
pub open spec fn giving_up(s: SupervisorView, words: Seq<char>) -> Progress {
    Progress {
        state: SupervisorView { phase: PhaseView::Stopped, ..s },
        doing: quietly(ActionView::Stop(Some(words))),
    }
}

/// The words of an answer's error.
pub open spec fn reason(error: Option<Seq<char>>) -> Seq<char> {
    match error {
        Some(words) => words,
        None => "unknown error"@,
    }
}

/// What becomes of a supervisor when something happens. What does not belong to where it
/// stands changes nothing.
pub open spec fn advancing(s: SupervisorView, h: HappeningView) -> Progress {
    match (s.phase, h) {
        (PhaseView::Polling, HappeningView::Inbox(Some(list), _)) => moving_on(
            SupervisorView { messages: list, ..s },
            0,
            None,
            None,
        ),
        (PhaseView::Polling, HappeningView::Inbox(None, shown)) => giving_up(
            s,
            "unexpected inbox response: "@ + shown,
        ),
        (PhaseView::Beginning, HappeningView::Begun(false, error, _, _)) => if 0 <= s.at
            < s.messages.len() {
            moving_on(
                s,
                s.at + 1,
                None,
                Some(
                    "could not begin turn for message "@ + signed(s.messages[s.at].id as int)
                        + ": "@ + reason(error),
                ),
            )
        } else {
            Progress { state: s, doing: quietly(ActionView::Nothing) }
        },
        (PhaseView::Beginning, HappeningView::Begun(true, _, Some(turn), _)) => Progress {
            state: SupervisorView { phase: PhaseView::Starting(turn), ..s },
            doing: quietly(ActionView::Report(turn, (TurnStatus::Started, None, None))),
        },
        (PhaseView::Beginning, HappeningView::Begun(true, _, None, shown)) => giving_up(
            s,
            "unexpected begin_turn response: "@ + shown,
        ),
        (PhaseView::Starting(turn), HappeningView::Updated(_, _)) => if 0 <= s.at
            < s.messages.len() {
            Progress {
                state: SupervisorView { phase: PhaseView::Running(turn), ..s },
                doing: quietly(
                    ActionView::Run(turn, s.messages[s.at].id, prompt_for(s.messages[s.at])),
                ),
            }
        } else {
            Progress { state: s, doing: quietly(ActionView::Nothing) }
        },
        (PhaseView::Running(turn), HappeningView::Ended(update)) => Progress {
            state: SupervisorView {
                phase: PhaseView::Finishing(turn, update.0 == TurnStatus::ResponseCompleted),
                ..s
            },
            doing: quietly(ActionView::Report(turn, update)),
        },
        (PhaseView::Finishing(turn, succeeded), HappeningView::Updated(ok, error)) => if 0 <= s.at
            < s.messages.len() {
            if ok && succeeded {
                moving_on(s, s.at + 1, Some("turn "@ + turn + " completed"@), None)
            } else if ok {
                moving_on(
                    s,
                    s.at + 1,
                    None,
                    Some("turn "@ + turn + " failed: host produced no response"@),
                )
            } else {
                moving_on(
                    s,
                    s.at + 1,
                    None,
                    Some("could not finish turn "@ + turn + ": "@ + reason(error)),
                )
            }
        } else {
            Progress { state: s, doing: quietly(ActionView::Nothing) }
        },
        _ => Progress { state: s, doing: quietly(ActionView::Nothing) },
    }
}

fn reason_text(error: Option<String>) -> (r: String)
    ensures
        r@ == reason(opt_text(error)),
{
    match error {
        Some(words) => words,
        None => "unknown error".to_owned(),
    }
}

fn quiet(action: Action) -> (r: Doing)
    ensures
        r@ == quietly(action@),
{
    Doing { says: None, warns: None, action }
}

impl Supervisor {
    /// A supervisor that is about to look for messages.
    pub fn new(wait_ms: u64, once: bool, process: u32) -> (r: Supervisor)
        ensures
            r@ == (SupervisorView {
                wait_ms,
                once,
                process,
                messages: seq![],
                at: 0,
                phase: PhaseView::Polling,
            }),
    {
        let r = Supervisor {
            wait_ms,
            once,
            process,
            messages: Vec::new(),
            at: 0,
            phase: Phase::Polling,
        };
        assert(r@.messages =~= seq![]);
        r
    }

    fn move_on(&mut self, at: usize, says: Option<String>, warns: Option<String>) -> (r: Doing)
        ensures
            (Progress { state: final(self)@, doing: r@ }) == moving_on(
                old(self)@,
                at as int,
                opt_text(says),
                opt_text(warns),
            ),
    {
        self.at = at;
        if at < self.messages.len() {
            let id: i64 = self.messages[at].id;
            assert(views(self.messages@)[at as int] == self.messages@[at as int]@);
            self.phase = Phase::Beginning;
            let client_turn_id = client_turn_id(self.process, id);
            Doing { says, warns, action: Action::Begin { message_id: id, client_turn_id } }
        } else if self.once {
            self.phase = Phase::Stopped;
            Doing { says, warns, action: Action::Stop { error: None } }
        } else {
            self.phase = Phase::Polling;
            Doing { says, warns, action: Action::Poll { wait_ms: self.wait_ms } }
        }
    }

    fn give_up(&mut self, words: String) -> (r: Doing)
        ensures
            (Progress { state: final(self)@, doing: r@ }) == giving_up(old(self)@, words@),
    {
        self.phase = Phase::Stopped;
        quiet(Action::Stop { error: Some(words) })
    }

    fn begun(&mut self, ok: bool, error: Option<String>, turn: Option<String>, shown: String) -> (r:
        Doing)
        requires
            old(self)@.phase is Beginning,
        ensures
            (Progress { state: final(self)@, doing: r@ }) == advancing(
                old(self)@,
                HappeningView::Begun(ok, opt_text(error), opt_text(turn), shown@),
            ),
    {
        let at: usize = self.at;
        let n: usize = self.messages.len();
        if !ok {
            if at >= n {
                return quiet(Action::Nothing);
            }
            assert(views(self.messages@)[at as int] == self.messages@[at as int]@);
            let number = i64_text(self.messages[at].id);
            let why = reason_text(error);
            let mut words = join3("could not begin turn for message ", number.as_str(), ": ");
            words.append(why.as_str());
            return self.move_on(at + 1, None, Some(words));
        }
        match turn {
            Some(turn) => {
                self.phase = Phase::Starting { turn_id: turn.clone() };
                quiet(
                    Action::Report {
                        turn_id: turn,
                        update: TurnUpdate {
                            status: TurnStatus::Started,
                            response: None,
                            error: None,
                        },
                    },
                )
            },
            None => self.give_up(join2("unexpected begin_turn response: ", shown.as_str())),
        }
    }

    fn run(&mut self, turn: String) -> (r: Doing)
        requires
            old(self)@.phase == PhaseView::Starting(turn@),
        ensures
            forall|ok: bool, error: Option<Seq<char>>|
                (Progress { state: final(self)@, doing: r@ }) == #[trigger] advancing(
                    old(self)@,
                    HappeningView::Updated(ok, error),
                ),
    {
        let at: usize = self.at;
        if at >= self.messages.len() {
            return quiet(Action::Nothing);
        }
        assert(views(self.messages@)[at as int] == self.messages@[at as int]@);
        let message_id: i64 = self.messages[at].id;
        let prompt = supervisor_prompt(&self.messages[at]);
        self.phase = Phase::Running { turn_id: turn.clone() };
        quiet(Action::Run { turn_id: turn, message_id, prompt })
    }

    fn finished(&mut self, turn: String, succeeded: bool, ok: bool, error: Option<String>) -> (r:
        Doing)
        requires
            old(self)@.phase == PhaseView::Finishing(turn@, succeeded),
        ensures
            (Progress { state: final(self)@, doing: r@ }) == advancing(
                old(self)@,
                HappeningView::Updated(ok, opt_text(error)),
            ),
    {
        let at: usize = self.at;
        let n: usize = self.messages.len();
        if at >= n {
            return quiet(Action::Nothing);
        }
        if ok && succeeded {
            let words = join3("turn ", turn.as_str(), " completed");
            self.move_on(at + 1, Some(words), None)
        } else if ok {
            let words = join3("turn ", turn.as_str(), " failed: host produced no response");
            self.move_on(at + 1, None, Some(words))
        } else {
            let why = reason_text(error);
            let mut words = join3("could not finish turn ", turn.as_str(), ": ");
            words.append(why.as_str());
            self.move_on(at + 1, None, Some(words))
        }
    }

    /// What the supervisor does next, when something happened.
    pub fn advance(&mut self, happening: Happening) -> (r: Doing)
        ensures
            (Progress { state: final(self)@, doing: r@ }) == advancing(old(self)@, happening@),
    {
        let mut phase = Phase::Stopped;
        std::mem::swap(&mut phase, &mut self.phase);
        match (phase, happening) {
            (Phase::Polling, Happening::Inbox { messages: Some(list), .. }) => {
                self.phase = Phase::Polling;
                self.messages = list;
                self.move_on(0, None, None)
            },
            (Phase::Polling, Happening::Inbox { messages: None, shown }) => {
                self.phase = Phase::Polling;
                self.give_up(join2("unexpected inbox response: ", shown.as_str()))
            },
            (Phase::Beginning, Happening::Begun { ok, error, turn_id, shown }) => {
                self.phase = Phase::Beginning;
                self.begun(ok, error, turn_id, shown)
            },
            (Phase::Starting { turn_id }, Happening::Updated { .. }) => {
                self.phase = Phase::Starting { turn_id: turn_id.clone() };
                self.run(turn_id)
            },
            (Phase::Running { turn_id }, Happening::Ended { update }) => {
                let succeeded = update.status == TurnStatus::ResponseCompleted;
                self.phase = Phase::Finishing { turn_id: turn_id.clone(), succeeded };
                quiet(Action::Report { turn_id, update })
            },
            (Phase::Finishing { turn_id, succeeded }, Happening::Updated { ok, error }) => {
                self.phase = Phase::Finishing { turn_id: turn_id.clone(), succeeded };
                self.finished(turn_id, succeeded, ok, error)
            },
            (phase, _) => {
                self.phase = phase;
                quiet(Action::Nothing)
            },
        }
    }
}

/// A supervisor that works on a message is at one of its messages.
pub open spec fn at_a_message(s: SupervisorView) -> bool {
    (s.phase is Beginning || s.phase is Starting || s.phase is Running || s.phase is Finishing)
        ==> 0 <= s.at < s.messages.len()
}

/// Whatever happens, a supervisor that works on a message is at one of its messages.
pub proof fn law_stays_at_a_message(s: SupervisorView, h: HappeningView)
    requires
        at_a_message(s),
    ensures
        at_a_message(advancing(s, h).state),
{
}

/// A supervisor takes its messages one at a time, in order: it goes on to the next one only
/// when the turn for this one has been reported at its end, or could not begin.
pub proof fn law_one_at_a_time(s: SupervisorView, h: HappeningView)
    requires
        at_a_message(s),
        !(s.phase is Polling),
    ensures
        advancing(s, h).state.messages == s.messages,
        advancing(s, h).state.at == s.at || advancing(s, h).state.at == s.at + 1,
        advancing(s, h).state.at != s.at ==> {
            ||| s.phase is Finishing && h is Updated
            ||| s.phase is Beginning && (h matches HappeningView::Begun(ok, _, _, _) && !ok)
        },
{
}

/// A turn that began is reported as started, the command is run once with the message's
/// prompt, and what became of it is reported, whatever it was.
pub proof fn law_begun_turn_is_reported(
    s: SupervisorView,
    turn: Seq<char>,
    shown: Seq<char>,
    error: Option<Seq<char>>,
    answered: HappeningView,
    update: (TurnStatus, Option<Seq<char>>, Option<Seq<char>>),
)
    requires
        at_a_message(s),
        s.phase is Beginning,
        answered is Updated,
    ensures
        ({
            let begun = advancing(s, HappeningView::Begun(true, error, Some(turn), shown));
            let running = advancing(begun.state, answered);
            let ended = advancing(running.state, HappeningView::Ended(update));
            &&& begun.doing.action == ActionView::Report(turn, (TurnStatus::Started, None, None))
            &&& running.doing.action == ActionView::Run(
                turn,
                s.messages[s.at].id,
                prompt_for(s.messages[s.at]),
            )
            &&& ended.doing.action == ActionView::Report(turn, update)
        }),
{
}

/// A supervisor that was to look for messages once stops after the last of them.
pub proof fn law_once_is_once(s: SupervisorView, h: HappeningView)
    requires
        s.once,
        !(s.phase is Polling),
    ensures
        !(advancing(s, h).doing.action is Poll),
        !(advancing(s, h).state.phase is Polling),
{
}

} // verus!
