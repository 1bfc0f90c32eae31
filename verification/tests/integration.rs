//! Scenarios: commands that are planned, carried out by a daemon and printed.

use sidebar::cli::{agent_name, failure_text, plan, show, wants_json, Command, Plan, Shown};
use sidebar::clock::Timestamp;
use sidebar::daemon::journal::Change;
use sidebar::daemon::server::{
    empty_inbox, starts_events, wakes, Daemon, Started, Step, Surroundings, Welcome,
};
use sidebar::daemon::tables::{Delivery, ScheduledStatus, Tables};
use sidebar::mcp::{
    channel_step, send_asked, tool_reply, unreachable_text, ChannelStep, Stub, ToolReply,
};
use sidebar::paths::{db, home, socket};
use sidebar::proto::{Event, Hello, Op, Request, Response, ResponseData, When};
use sidebar::report::{
    detail_text, down_text, message_line, scheduled_table, tail_line, DeliveryText, ScheduledText,
};
use sidebar::types::{Message, Recipient};

const START: i64 = 1_700_000_000;

struct Bus {
    daemon: Daemon,
    now: Timestamp,
    next_id: u64,
    events: Vec<Event>,
}

fn open(tables: Tables, now: Timestamp) -> Started {
    match Daemon::start(tables, now) {
        Ok(started) => started,
        Err(_) => panic!("the tables are refused"),
    }
}

fn words(text: &str) -> String {
    text.to_string()
}

impl Bus {
    fn new() -> Bus {
        let now = Timestamp { secs: START, nanos: 0 };
        Bus { daemon: open(Tables::empty(), now).daemon, now, next_id: 1, events: Vec::new() }
    }

    fn pass(&mut self, seconds: i64) {
        self.now = Timestamp { secs: self.now.secs + seconds, nanos: self.now.nanos };
    }

    fn surroundings(&self) -> Surroundings {
        Surroundings {
            now: self.now,
            uptime_seconds: 61,
            db_path: words("/h/sidebar.db"),
            socket_path: words("/h/sidebar.sock"),
        }
    }

    fn greet(&mut self, hello: Hello) -> Result<Welcome, String> {
        self.daemon.greet(&hello, self.now)
    }

    /// The step for a request of an agent on the command line.
    fn step(&mut self, who: &str, op: Op) -> Step {
        let welcome = match self.greet(Hello::Cli { speaking_as: words(who) }) {
            Ok(w) => w,
            Err(e) => panic!("refused: {e}"),
        };
        let id = self.next_id;
        self.next_id += 1;
        let s = self.surroundings();
        self.daemon.dispatch(&s, &welcome.agent, &Request { id, op })
    }

    fn respond(&mut self, who: &str, op: Op) -> Response {
        match self.step(who, op) {
            Step::Answer { response, event } => {
                if let Some(e) = event {
                    self.events.push(e);
                }
                response
            }
            Step::Wait { .. } => empty_inbox(self.next_id - 1),
        }
    }

    /// What a command prints, or the words of its error.
    fn run(&mut self, cmd: Command) -> Result<String, String> {
        let (who, ops) = match plan(cmd.clone()) {
            Plan::Ask { speaking_as, ops } => (speaking_as, ops),
            Plan::Refused { words } => return Err(words),
            Plan::Local(_) => panic!("nothing is asked"),
        };
        let mut out = String::new();
        for (n, op) in ops.into_iter().enumerate() {
            let response = self.respond(&who, op);
            if !response.ok {
                return Err(failure_text(&cmd, n, &response));
            }
            match show(&cmd, n, &response.data, &self.now) {
                Shown::Text(s) => out.push_str(&s),
                Shown::Timed => out.push_str(&timed(response.data)),
                Shown::Unexpected => panic!("unexpected answer"),
            }
        }
        Ok(out)
    }

    fn stdout(&mut self, cmd: Command) -> String {
        match self.run(cmd) {
            Ok(s) => s,
            Err(e) => panic!("command failed: {e}"),
        }
    }

    fn data(&mut self, cmd: Command) -> ResponseData {
        assert!(wants_json(&cmd));
        match plan(cmd) {
            Plan::Ask { speaking_as, mut ops } => {
                let response = self.respond(&speaking_as, ops.remove(0));
                response.data.unwrap()
            }
            _ => panic!("nothing is asked"),
        }
    }

    fn send(&mut self, to: &str, body: &str) {
        self.stdout(send(to, body));
    }

    fn drain(&mut self, who: &str) -> String {
        self.stdout(inbox(who))
    }

    fn names(&mut self) -> Vec<String> {
        let out = self.stdout(Command::Participants { json: false });
        out.lines().map(|l| l.to_string()).collect()
    }

    fn tick(&mut self) -> Vec<Event> {
        match self.daemon.tick(self.now) {
            Ok(events) => events,
            Err(_) => panic!("the tick failed"),
        }
    }
}

fn timed(data: Option<ResponseData>) -> String {
    let mut out = String::new();
    match data {
        Some(ResponseData::Messages { messages }) => {
            for m in &messages {
                out.push_str(&message_line("12:00:00", m));
                out.push('\n');
            }
        }
        Some(ResponseData::MessageDetail(d)) => {
            let list: Vec<DeliveryText> = d
                .deliveries
                .iter()
                .map(|x| DeliveryText {
                    agent: x.agent.clone(),
                    delivered: x.delivered_at.map(|_| words("12:00:00")),
                    read: x.read_at.map(|_| words("12:00:01")),
                })
                .collect();
            out.push_str(&detail_text(&d.message, "2023-11-14 12:00:00", &list, true));
        }
        Some(ResponseData::Scheduled { scheduled }) => {
            let list: Vec<ScheduledText> = scheduled
                .iter()
                .map(|s| ScheduledText {
                    id: s.id,
                    time: words("2023-11-14 13:00:00"),
                    from: s.from.clone(),
                    to: s.to.clone(),
                    body: s.body.clone(),
                })
                .collect();
            out.push_str(&scheduled_table(&list));
        }
        _ => panic!("nothing with a time"),
    }
    out
}

fn send(to: &str, body: &str) -> Command {
    Command::Send { to: words(to), body: words(body) }
}

fn inbox(who: &str) -> Command {
    Command::Inbox { as_name: words(who), wait_ms: None, mentions_only: false, json: false }
}

fn history(channel: &str, limit: usize) -> Command {
    Command::History { channel: Some(words(channel)), with: None, limit, json: false }
}

fn join(channels: &[&str], who: &str) -> Command {
    Command::Join {
        channels: channels.iter().map(|c| words(c)).collect(),
        as_name: words(who),
    }
}

fn leave(channels: &[&str], who: &str) -> Command {
    Command::Leave {
        channels: channels.iter().map(|c| words(c)).collect(),
        as_name: words(who),
    }
}

fn schedule(who: &str, to: &str, seconds: u64, body: &str) -> Command {
    Command::Schedule {
        to: words(to),
        body: words(body),
        in_seconds: Some(seconds),
        at: None,
        as_name: words(who),
    }
}

fn schedule_at(to: &str, at: &str, body: &str) -> Command {
    Command::Schedule {
        to: words(to),
        body: words(body),
        in_seconds: None,
        at: Some(words(at)),
        as_name: words("master"),
    }
}

fn grep(query: &str, limit: usize) -> Command {
    Command::Grep { query: words(query), limit, json: false }
}

fn scheduled() -> Command {
    Command::Scheduled { as_name: words("master"), json: false }
}

fn cancel(id: i64, who: &str) -> Command {
    Command::Cancel { scheduled_id: id, as_name: words(who) }
}

#[test]
fn participants_returns_master_on_fresh_daemon() {
    let mut sb = Bus::new();
    let out = sb.stdout(Command::Participants { json: false });
    assert_eq!(out.trim(), "master");
}

#[test]
fn send_then_history_round_trips() {
    let mut sb = Bus::new();
    sb.send("#general", "hello world");
    sb.send("#general", "second line");

    let history = sb.stdout(history("general", 10));
    assert!(history.contains("hello world"), "history missing first: {history}");
    assert!(history.contains("second line"), "history missing second: {history}");
    assert!(history.contains("master"), "history missing sender: {history}");
}

#[test]
fn sending_to_unknown_agent_auto_creates_them() {
    let mut sb = Bus::new();
    sb.send("@bob", "hi bob");

    let participants = sb.names();
    assert!(participants.contains(&words("master")));
    assert!(participants.contains(&words("bob")));
}

#[test]
fn broadcast_creates_no_extra_agents() {
    let mut sb = Bus::new();
    sb.stdout(Command::Say { body: words("anyone home") });
    let participants = sb.names();
    assert_eq!(participants.len(), 1, "broadcast shouldn't create agents; got: {participants:?}");
}

#[test]
fn send_rejects_overlong_agent_name() {
    let mut sb = Bus::new();
    let too_long = "x".repeat(65);
    let target = format!("@{too_long}");
    let err = sb.run(send(&target, "hi")).unwrap_err();
    assert!(err.contains("64 characters"), "expected length error, got: {err}");

    let participants = sb.names();
    assert!(!participants.contains(&too_long), "leaked: {participants:?}");
}

#[test]
fn join_rejects_overlong_channel_name() {
    let mut sb = Bus::new();
    sb.send("@alice", "create alice");
    let too_long = "y".repeat(80);
    assert!(sb.run(join(&[&too_long], "alice")).is_err(), "overlong channel name should fail");
}

#[test]
fn empty_sidebar_home_env_var_errors_clearly() {
    let err = socket(&Some(String::new()), &Some(words("/root"))).unwrap_err().message();
    assert!(err.contains("SIDEBAR_HOME is set but empty"), "expected clear error, got: {err}");
    let err = home(&Some(String::new()), &None).unwrap_err().message();
    assert_eq!(err, "SIDEBAR_HOME is set but empty; unset it or set a real path");
    let err = db(&None, &Some(String::new())).unwrap_err().message();
    assert_eq!(err, "HOME is set but empty; unset it or set a real path");
    let err = home(&None, &None).unwrap_err().message();
    assert_eq!(err, "HOME not set");
}

#[test]
fn mentions_cannot_bypass_name_length_cap() {
    let mut sb = Bus::new();
    let long_name = "z".repeat(70);
    sb.send("#general", &format!("hi @{long_name}"));

    let participants = sb.names();
    assert!(
        !participants.contains(&long_name),
        "mention-created agent bypassed the name cap: {participants:?}"
    );
    assert_eq!(participants, vec!["master"]);
}

#[test]
fn inbox_batch_capped_at_500() {
    let mut sb = Bus::new();
    for i in 0..501 {
        sb.send("@idle", &format!("msg-{i:03}"));
    }

    let first = sb.drain("idle");
    let line_count = first.lines().count();
    assert_eq!(line_count, 500, "first batch should be 500, got {line_count}");

    let second = sb.drain("idle");
    let remaining = second.lines().count();
    assert_eq!(remaining, 1, "expected 1 leftover, got {remaining}");
    assert!(second.contains("msg-500"), "wrong leftover: {second}");

    let third = sb.drain("idle");
    assert!(third.is_empty(), "expected empty, got: {third:?}");
}

#[test]
fn many_mentions_capped_at_32_recipients() {
    let mut sb = Bus::new();
    let body = (0..50).map(|i| format!("@m{i:02}")).collect::<Vec<_>>().join(" ");
    sb.send("#general", &body);

    let parts = sb.stdout(Command::Participants { json: false });
    let names: Vec<&str> = parts.lines().filter(|l| !l.is_empty()).collect();
    let mention_agents: Vec<&&str> =
        names.iter().filter(|n| n.starts_with('m') && n.len() == 3).collect();
    assert_eq!(
        mention_agents.len(),
        32,
        "expected 32 mention agents to be created, got {}: {parts}",
        mention_agents.len()
    );
    assert!(
        !parts.contains("\nm32\n") && !parts.contains("\nm49\n"),
        "uncapped mention escaped: {parts}"
    );
}

#[test]
fn history_rejects_excessive_limit() {
    let mut sb = Bus::new();
    let err = sb.run(history("general", 1001)).unwrap_err();
    assert!(err.contains("exceeds max of 1000"), "got: {err}");
    assert!(sb.run(history("general", 1000)).is_ok(), "1000 should succeed");
}

#[test]
fn grep_rejects_excessive_query_length_and_limit() {
    let mut sb = Bus::new();
    let long_query = "x".repeat(257);
    let err = sb.run(grep(&long_query, 50)).unwrap_err();
    assert!(err.contains("256"), "expected query-length error, got: {err}");
    assert!(sb.run(grep("foo", 1001)).is_err(), "limit > 1000 should fail");
    assert!(sb.run(grep(&"x".repeat(256), 1000)).is_ok());
}

#[test]
fn inspect_shows_per_recipient_delivery_state() {
    let mut sb = Bus::new();
    sb.send("@alice", "create alice");
    sb.send("@bob", "create bob");
    sb.stdout(join(&["deploys"], "alice"));
    sb.stdout(join(&["deploys"], "bob"));

    sb.send("#deploys", "shipping v1");
    sb.drain("alice");

    let data = sb.data(Command::History {
        channel: Some(words("deploys")),
        with: None,
        limit: 50,
        json: true,
    });
    let msg_id = match data {
        ResponseData::Messages { messages } => messages[0].id,
        _ => panic!("no messages"),
    };

    let out = sb.stdout(Command::Inspect { message_id: msg_id, json: false });
    assert!(out.contains(&format!("message {msg_id}")), "header missing: {out}");
    assert!(out.contains("shipping v1"), "body missing: {out}");
    assert!(out.contains("alice"), "alice delivery missing: {out}");
    assert!(out.contains("bob"), "bob delivery missing: {out}");
    assert!(out.contains("read"), "alice's read marker missing: {out}");
    assert!(out.contains("unread"), "bob's unread marker missing: {out}");

    let err = sb.run(Command::Inspect { message_id: 999, json: false }).unwrap_err();
    assert!(err.contains("no message with id 999"), "wrong error: {err}");
}

#[test]
fn tail_filter_only_prints_matching_lines() {
    let mut sb = Bus::new();
    sb.send("#general", "build is green");
    sb.send("#general", "unrelated chatter");
    sb.send("#general", "reBUILDing the index");

    let filter = Some(words("build"));
    let mut stdout = String::new();
    for e in sb.events {
        if let Some(line) = tail_line(false, "{}", &Some(e), "12:00:00", &filter) {
            stdout.push_str(&line);
            stdout.push('\n');
        }
    }
    assert!(stdout.contains("build is green"), "missing first match: {stdout}");
    assert!(stdout.contains("reBUILDing"), "missing case-insensitive match: {stdout}");
    assert!(!stdout.contains("unrelated chatter"), "slipped past the filter: {stdout}");
    // Frames that are no events are passed over; as JSON, every frame is printed as it came.
    assert_eq!(tail_line(false, "{}", &None, "12:00:00", &None), None);
    assert_eq!(tail_line(true, "{}", &None, "12:00:00", &filter), Some(words("{}")));
}

#[test]
fn scheduled_list_and_cancel() {
    let mut sb = Bus::new();
    sb.stdout(schedule("master", "@alpha", 3600, "remind alpha"));
    sb.stdout(schedule("master", "@beta", 3600, "remind beta"));

    let listed = sb.stdout(scheduled());
    assert!(listed.contains("remind alpha"), "missing alpha row: {listed}");
    assert!(listed.contains("remind beta"), "missing beta row: {listed}");

    let out = sb.stdout(cancel(1, "master"));
    assert!(out.contains("cancelled"), "wrong msg: {out}");

    let after = sb.stdout(scheduled());
    assert!(!after.contains("remind alpha"), "alpha still listed: {after}");
    assert!(after.contains("remind beta"), "beta missing: {after}");

    let err = sb.run(cancel(999, "master")).unwrap_err();
    assert!(err.contains("not found"), "wrong error: {err}");
}

#[test]
fn cancel_respects_ownership() {
    let mut sb = Bus::new();
    sb.send("@alice", "create alice");
    sb.stdout(schedule("master", "@bob", 3600, "master's reminder"));

    assert!(sb.run(cancel(1, "alice")).is_err(), "alice shouldn't cancel master's row");
    let ok = sb.stdout(cancel(1, "master"));
    assert!(ok.contains("cancelled"));
}

#[test]
fn schedule_rejects_unreasonable_future() {
    let mut sb = Bus::new();
    let two_years = 60 * 60 * 24 * 365 * 2;
    let err = sb.run(schedule("master", "@bob", two_years, "go fish")).unwrap_err();
    assert!(err.contains("max is 365"), "expected delay-cap error, got: {err}");

    assert!(
        sb.run(schedule_at("@bob", "9999-01-01T00:00:00Z", "ping")).is_err(),
        "year-9999 schedule should fail"
    );

    let ok = 60 * 60 * 24 * 364;
    assert!(
        sb.run(schedule("master", "@bob", ok, "ok")).is_ok(),
        "at-limit schedule should succeed"
    );
}

#[test]
fn send_rejects_oversized_body() {
    let mut sb = Bus::new();
    let huge = "x".repeat(64 * 1024 + 1);
    let err = sb.run(send("@anybody", &huge)).unwrap_err();
    assert!(
        err.contains("max is") && err.contains("65536"),
        "expected size-cap error, got: {err}"
    );
    let ok = "x".repeat(64 * 1024);
    assert!(sb.run(send("@anybody", &ok)).is_ok(), "at-limit send should succeed");
}

#[test]
fn send_rejects_empty_or_whitespace_recipient() {
    let mut sb = Bus::new();
    for bad in &["", "@", "#", "@   ", "#  "] {
        let err = match sb.run(send(bad, "ghost")) {
            Ok(_) => panic!("send to {bad:?} should fail but succeeded"),
            Err(e) => e,
        };
        assert!(err.contains("invalid recipient"), "wrong error for {bad:?}: {err}");
    }

    let participants = sb.names();
    assert_eq!(participants.len(), 1, "stray agents created: {participants:?}");

    let channels = sb.stdout(Command::Channels { details: false, json: false });
    for line in channels.lines() {
        assert!(line.trim().len() > 1, "empty channel slipped through: {channels:?}");
    }
}

#[test]
fn status_reports_counts_and_paused_state() {
    let mut sb = Bus::new();
    sb.send("@iris", "msg1");
    sb.send("@iris", "msg2");
    sb.stdout(schedule("master", "@iris", 60, "later"));
    sb.stdout(Command::Pause);

    let out = sb.stdout(Command::Status { json: false });
    assert!(out.contains("daemon:      running"), "status missing daemon line: {out}");
    assert!(out.contains("paused:      true"), "status didn't report paused: {out}");
    assert!(out.contains("unread msgs: 2"), "wrong unread count: {out}");
    assert!(out.contains("scheduled:   1 pending"), "wrong scheduled count: {out}");
}

#[test]
fn status_reports_friendly_message_when_daemon_down() {
    let stdout = down_text("connection refused");
    assert!(stdout.contains("not running"), "expected friendly down message: {stdout}");
    assert_eq!(
        stdout,
        "daemon: not running (connection refused)\nstart it with `sidebar serve` in another terminal\n"
    );
}

#[test]
fn inbox_mentions_only_filters_to_addressed_messages() {
    let mut sb = Bus::new();
    sb.send("@alice", "create alice");
    sb.drain("alice");
    sb.stdout(join(&["standup"], "alice"));

    sb.send("#standup", "general announcement");
    sb.send("@alice", "private question for you");
    sb.send("#standup", "team, please review @alice's PR");
    sb.send("#standup", "also unrelated");

    let out = sb.stdout(Command::Inbox {
        as_name: words("alice"),
        wait_ms: None,
        mentions_only: true,
        json: false,
    });
    assert!(out.contains("private question"), "missing DM: {out}");
    assert!(out.contains("review @alice"), "missing mention: {out}");
    assert!(!out.contains("general announcement"), "unfiltered noise: {out}");
    assert!(!out.contains("also unrelated"), "unfiltered noise: {out}");

    let out2 = sb.drain("alice");
    assert!(out2.contains("general announcement"));
    assert!(out2.contains("also unrelated"));
    assert!(
        !out2.contains("private question"),
        "previously-drained message reappeared: {out2}"
    );
}

#[test]
fn prune_removes_ghost_agents_only() {
    let mut sb = Bus::new();
    sb.send("#general", "hello @ghost");
    sb.send("@chatty", "create chatty");
    sb.send("@chatty", "another message for chatty");

    sb.pass(86400 * 400);

    let dry = sb.stdout(Command::Prune { inactive_days: 1, dry_run: true });
    assert!(dry.contains("would prune 1"), "dry-run wrong count: {dry}");
    assert!(dry.contains("ghost"), "dry-run didn't name ghost: {dry}");
    assert!(!dry.contains("chatty"), "dry-run included chatty: {dry}");
    let still_there = sb.names();
    assert!(still_there.contains(&words("ghost")), "dry-run deleted: {still_there:?}");

    let out = sb.stdout(Command::Prune { inactive_days: 1, dry_run: false });
    assert!(out.contains("pruned 1"), "expected 1 pruned, got: {out}");

    let participants = sb.names();
    assert!(participants.contains(&words("master")), "master got pruned: {participants:?}");
    assert!(participants.contains(&words("chatty")), "chatty got pruned: {participants:?}");
    assert!(!participants.contains(&words("ghost")), "ghost survived: {participants:?}");
}

#[test]
fn channels_details_shows_member_count_and_activity() {
    let mut sb = Bus::new();
    sb.send("@alice", "create alice");
    sb.stdout(join(&["deploys"], "alice"));
    sb.send("#deploys", "first deploy log");

    let names = sb.stdout(Command::Channels { details: false, json: false });
    assert!(names.contains("#general"));
    assert!(names.contains("#deploys"));

    let det = sb.stdout(Command::Channels { details: true, json: false });
    assert!(det.contains("CHANNEL"), "missing header: {det}");
    assert!(det.contains("members"), "missing members col: {det}");
    assert!(det.contains("#deploys"), "missing channel: {det}");
    assert!(det.contains("just now") || det.contains("s ago"));

    let data = sb.data(Command::Channels { details: true, json: true });
    let list = match data {
        ResponseData::ChannelsDetailed { channels_detailed } => channels_detailed,
        _ => panic!("no channels"),
    };
    let deploys = list.iter().find(|c| c.name == "deploys").expect("missing deploys entry");
    assert!(deploys.member_count >= 1);
    assert!(deploys.last_message_at.is_some());
}

#[test]
fn channel_mention_pings_nonmember() {
    let mut sb = Bus::new();
    sb.send("@alice", "create alice");
    sb.drain("alice");

    sb.send("#project", "hey @alice, can you look at this?");
    let inbox = sb.drain("alice");
    assert!(inbox.contains("hey @alice"), "@-mention didn't ping non-member: {inbox}");
}

#[test]
fn scheduled_channel_mention_pings_nonmember() {
    let mut sb = Bus::new();
    sb.send("@bob", "create bob");
    sb.drain("bob");
    sb.stdout(join(&["standup"], "alice"));

    sb.stdout(schedule("alice", "#standup", 1, "scheduled ping @bob"));
    sb.pass(1);
    assert_eq!(sb.tick().len(), 1);
    let inbox = sb.drain("bob");
    assert!(
        inbox.contains("scheduled ping @bob"),
        "scheduled @-mention didn't ping non-member: {inbox}"
    );
}

#[test]
fn dm_mention_does_not_create_extra_deliveries() {
    let mut sb = Bus::new();
    sb.send("@bob", "create bob");
    sb.send("@charlie", "create charlie");
    sb.drain("bob");
    sb.drain("charlie");

    sb.send("@bob", "hey @charlie said hi");

    let charlie_inbox = sb.drain("charlie");
    assert!(
        charlie_inbox.is_empty(),
        "@-mention in a DM leaked to mentioned agent: {charlie_inbox}"
    );
    let bob_inbox = sb.drain("bob");
    assert!(bob_inbox.contains("@charlie said hi"), "bob missed his DM");
}

#[test]
fn join_can_subscribe_to_multiple_channels_in_one_call() {
    let mut sb = Bus::new();
    sb.send("@gwen", "create gwen");
    sb.drain("gwen");

    let out = sb.stdout(join(&["alpha", "beta", "gamma"], "gwen"));
    assert!(out.contains("joined #alpha"));
    assert!(out.contains("joined #beta"));
    assert!(out.contains("joined #gamma"));

    sb.send("#alpha", "to alpha");
    sb.send("#beta", "to beta");
    sb.send("#gamma", "to gamma");
    let inbox = sb.drain("gwen");
    assert!(inbox.contains("to alpha"));
    assert!(inbox.contains("to beta"));
    assert!(inbox.contains("to gamma"));

    sb.stdout(leave(&["alpha", "beta"], "gwen"));
    sb.send("#alpha", "alpha after leave");
    sb.send("#gamma", "gamma after leave");
    let inbox = sb.drain("gwen");
    assert!(!inbox.contains("alpha after leave"), "leave didn't unsubscribe alpha: {inbox}");
    assert!(inbox.contains("gamma after leave"), "still-joined gamma missed: {inbox}");
}

#[test]
fn channel_join_delivers_to_member_leave_stops_delivery() {
    let mut sb = Bus::new();
    sb.send("@dave", "create dave");
    sb.drain("dave");

    sb.send("#foo", "before join");
    let inbox = sb.drain("dave");
    assert!(!inbox.contains("before join"), "dave received #foo without joining: {inbox}");

    sb.stdout(join(&["foo"], "dave"));
    sb.send("#foo", "after join");
    let inbox = sb.drain("dave");
    assert!(inbox.contains("after join"), "join didn't subscribe: {inbox}");

    sb.stdout(leave(&["foo"], "dave"));
    sb.send("#foo", "after leave");
    let inbox = sb.drain("dave");
    assert!(!inbox.contains("after leave"), "leave didn't unsubscribe: {inbox}");
}

#[test]
fn grep_finds_message_bodies_case_insensitive() {
    let mut sb = Bus::new();
    sb.send("@team", "The Build Is Green");
    sb.send("@team", "rebooting now");
    sb.send("@team", "build failed at step 3");

    let out = sb.stdout(grep("build", 50));
    assert!(out.contains("Build Is Green"), "missing first match: {out}");
    assert!(out.contains("build failed"), "missing second match: {out}");
    assert!(!out.contains("rebooting"), "unrelated message in match: {out}");

    let data = sb.data(Command::Grep { query: words("BUILD"), limit: 50, json: true });
    match data {
        ResponseData::Messages { messages } => assert_eq!(messages.len(), 2),
        _ => panic!("no messages"),
    }
}

#[test]
fn participants_supports_json() {
    let mut sb = Bus::new();
    sb.send("@xena", "hi");
    match sb.data(Command::Participants { json: true }) {
        ResponseData::Agents { agents } => {
            assert!(agents.contains(&words("master")));
            assert!(agents.contains(&words("xena")));
        }
        _ => panic!("no agents"),
    }
}

#[test]
fn history_supports_json() {
    let mut sb = Bus::new();
    sb.send("#general", "alpha");
    sb.send("#general", "beta");
    let data = sb.data(Command::History {
        channel: Some(words("general")),
        with: None,
        limit: 50,
        json: true,
    });
    match data {
        ResponseData::Messages { messages } => {
            let bodies: Vec<&str> = messages.iter().map(|m| m.body.as_str()).collect();
            assert!(bodies.contains(&"alpha"));
            assert!(bodies.contains(&"beta"));
        }
        _ => panic!("no messages"),
    }
}

#[test]
fn agents_command_shows_last_seen() {
    let mut sb = Bus::new();
    sb.send("@alice", "hi");
    sb.send("@bob", "hi");

    let table = sb.stdout(Command::Agents { all: false, json: false });
    assert!(table.contains("NAME"), "missing header: {table}");
    assert!(table.contains("alice"), "missing alice: {table}");
    assert!(table.contains("bob"), "missing bob: {table}");
    assert!(
        table.contains("just now") || table.contains("s ago"),
        "missing relative time: {table}"
    );

    match sb.data(Command::Agents { all: false, json: true }) {
        ResponseData::AgentsDetailed { agents_detailed } => {
            let names: Vec<&str> = agents_detailed.iter().map(|a| a.name.as_str()).collect();
            assert!(names.contains(&"alice"));
            assert!(names.contains(&"bob"));
        }
        _ => panic!("no agents"),
    }
}

#[test]
fn status_json_is_well_formed() {
    let mut sb = Bus::new();
    sb.send("@iris", "msg1");
    match sb.data(Command::Status { json: true }) {
        ResponseData::Status(s) => {
            assert_eq!(s.paused, false);
            assert!(s.unread_count >= 1);
            assert_eq!(s.socket_path, "/h/sidebar.sock");
        }
        _ => panic!("no status"),
    }
}

#[test]
fn pause_blocks_sends_and_resume_unblocks() {
    let mut sb = Bus::new();
    sb.stdout(Command::Pause);

    let err = sb.run(send("@nobody", "this should be rejected")).unwrap_err();
    assert!(err.contains("paused"), "expected paused error, got: {err}");

    sb.stdout(Command::Resume);
    sb.send("@nobody", "ok now");
    let history = sb.stdout(Command::History {
        channel: None,
        with: Some(words("nobody")),
        limit: 50,
        json: false,
    });
    assert!(history.contains("ok now"));
}

#[test]
fn a_pause_holds_scheduled_messages() {
    let mut sb = Bus::new();
    sb.stdout(schedule("master", "@eve", 1, "held"));
    sb.stdout(Command::Pause);
    sb.pass(5);
    assert!(sb.tick().is_empty());
    assert_eq!(sb.drain("eve"), "");
    sb.stdout(Command::Resume);
    assert_eq!(sb.tick().len(), 1);
    assert!(sb.drain("eve").contains("held"));
}

#[test]
fn inbox_wait_returns_at_timeout_when_empty() {
    let mut sb = Bus::new();
    let op = Op::Inbox { wait_ms: Some(300), mentions_only: false };
    match sb.step("alone", op) {
        Step::Wait { wait_ms } => assert_eq!(wait_ms, 300),
        Step::Answer { .. } => panic!("returned too early"),
    }
    let reply = empty_inbox(7);
    assert_eq!(reply.id, 7);
    assert!(reply.ok);
    match reply.data {
        Some(ResponseData::Messages { messages }) => assert!(messages.is_empty()),
        _ => panic!("expected empty inbox"),
    }
}

#[test]
fn inbox_wait_wakes_when_message_arrives() {
    let mut sb = Bus::new();
    let op = Op::Inbox { wait_ms: Some(5000), mentions_only: false };
    assert!(matches!(sb.step("bob", op), Step::Wait { wait_ms: 5000 }));

    sb.send("@carol", "not for bob");
    assert!(wakes(&sb.events[0]));
    assert!(sb.daemon.poll_inbox(1, "bob", false, sb.now).is_none());

    sb.send("@bob", "wake up bob");
    assert!(wakes(&sb.events[1]));
    match sb.daemon.poll_inbox(1, "bob", false, sb.now) {
        Some(reply) => match reply.data {
            Some(ResponseData::Messages { messages }) => {
                assert_eq!(messages.len(), 1);
                assert_eq!(messages[0].body, "wake up bob");
            }
            _ => panic!("no messages"),
        },
        None => panic!("long-poll not actually triggering"),
    }
}

#[test]
fn schedule_in_delivers_after_the_delay() {
    let mut sb = Bus::new();
    sb.stdout(schedule("master", "@eve", 1, "scheduled-hello"));
    assert!(sb.tick().is_empty(), "delivered too early");
    assert!(sb.drain("eve").is_empty());

    sb.pass(1);
    assert_eq!(sb.tick().len(), 1);
    let out = sb.drain("eve");
    assert!(out.contains("scheduled-hello"), "missing body: {out}");
    assert!(sb.tick().is_empty(), "delivered twice");
}

#[test]
fn self_scheduled_message_wakes_long_poll() {
    let mut sb = Bus::new();
    sb.stdout(schedule("alice", "@alice", 1, "self-reminder"));
    let op = Op::Inbox { wait_ms: Some(3000), mentions_only: false };
    assert!(matches!(sb.step("alice", op), Step::Wait { wait_ms: 3000 }));
    sb.pass(1);
    let events = sb.tick();
    assert_eq!(events.len(), 1);
    assert!(wakes(&events[0]));
    let reply = sb.daemon.poll_inbox(1, "alice", false, sb.now);
    match reply.and_then(|r| r.data) {
        Some(ResponseData::Messages { messages }) => assert_eq!(messages[0].body, "self-reminder"),
        _ => panic!("self-message was not returned"),
    }
}

#[test]
fn schedule_at_past_timestamp_delivers_on_next_tick() {
    let mut sb = Bus::new();
    sb.stdout(schedule_at("@fred", "2020-01-01T00:00:00Z", "from-the-past"));
    sb.tick();
    let out = sb.drain("fred");
    assert!(out.contains("from-the-past"), "missing body: {out}");
}

#[test]
fn concurrent_sends_all_land_in_history() {
    const N: usize = 64;
    let mut sb = Bus::new();
    for i in 0..N {
        sb.send("#general", &format!("concurrent-msg-{i:03}"));
    }
    let history = sb.stdout(history("general", 200));
    for i in 0..N {
        let needle = format!("concurrent-msg-{i:03}");
        assert!(history.contains(&needle), "lost message: {needle}");
    }
    let count = history.matches("concurrent-msg-").count();
    assert_eq!(count, N, "expected {N} messages, got {count}\n{history}");
}

fn mcp(agent: &str) -> Hello {
    Hello::Mcp { agent: words(agent), version: words("0.1") }
}

#[test]
fn two_mcp_stubs_can_exchange_messages() {
    let mut sb = Bus::new();
    let alice = sb.greet(mcp("alice")).unwrap();
    let op = send_asked(words("@bob"), words("hello bob from alice"), &None, None);
    let s = sb.surroundings();
    let reply = match sb.daemon.dispatch(&s, &alice.agent, &Request { id: 2, op }) {
        Step::Answer { response, .. } => tool_reply(response),
        Step::Wait { .. } => panic!("alice send had no response"),
    };
    assert!(matches!(reply, ToolReply::Sent { message_id: 1 }), "no message id");

    let bob = sb.greet(mcp("bob")).unwrap();
    let op = Op::Inbox { wait_ms: Some(1000), mentions_only: false };
    let reply = match sb.daemon.dispatch(&s, &bob.agent, &Request { id: 2, op }) {
        Step::Answer { response, .. } => tool_reply(response),
        Step::Wait { .. } => panic!("bob's inbox missed alice's message"),
    };
    match reply {
        ToolReply::Messages { messages } => {
            assert_eq!(messages.len(), 1);
            assert_eq!(messages[0].body, "hello bob from alice");
            assert_eq!(messages[0].from, "alice");
            assert_eq!(messages[0].to, "@bob");
            assert_eq!(messages[0].created_at.as_deref(), Some("2023-11-14T22:13:20+00:00"));
        }
        _ => panic!("no messages"),
    }
}

#[test]
fn mcp_stubs_get_unique_names_on_collision() {
    let mut sb = Bus::new();
    let first = sb.greet(mcp("clara-code")).unwrap();
    let second = sb.greet(mcp("clara-code")).unwrap();
    assert_eq!(second.agent, "clara-code-2");
    assert_eq!(first.agent, "clara-code");
    assert_eq!(sb.greet(mcp("clara-code")).unwrap().agent, "clara-code-3");
}

#[test]
fn name_is_released_on_disconnect() {
    let mut sb = Bus::new();
    let first = sb.greet(mcp("lonely")).unwrap();
    assert_eq!(first.agent, "lonely");
    sb.daemon.see_off(&first, sb.now);
    let second = sb.greet(mcp("lonely")).unwrap();
    assert_eq!(second.agent, "lonely");
    // Agents on the command line hold no name.
    let cli = sb.greet(Hello::Cli { speaking_as: words("lonely") }).unwrap();
    assert_eq!((cli.agent.as_str(), cli.session, cli.holds_name), ("lonely", None, false));
}

#[test]
fn mcp_stub_reconnects_after_daemon_restart() {
    let mut stub = Stub::new(words("alice"));
    assert_eq!(stub.asked_name(), Some(words("alice")));
    stub.named(words("alice-2"));
    assert_eq!(stub.asked_name(), None);
    stub.lost();
    assert_eq!(stub.asked_name(), Some(words("alice-2")));
}

#[test]
fn mcp_stub_survives_missing_daemon() {
    let text = unreachable_text("no such file");
    assert!(text.contains("daemon not reachable"), "expected friendly error, got: {text}");
    assert_eq!(
        text,
        "sidebar daemon not reachable: no such file. Start it with `sidebar serve`."
    );
}

#[test]
fn a_refused_hello_takes_no_name() {
    let mut sb = Bus::new();
    let long = "n".repeat(65);
    assert!(sb.greet(mcp(&long)).is_err());
    assert!(sb.greet(mcp("two words")).is_err());
    assert!(sb.greet(Hello::Cli { speaking_as: String::new() }).is_err());
    assert_eq!(sb.names(), vec!["master"]);
}

#[test]
fn tools_join_channels_until_one_is_refused() {
    let mut sb = Bus::new();
    let channels = vec![words("#ops"), words("two words"), words("never")];
    let mut done = 0;
    let mut last = None;
    let returned = loop {
        match channel_step(&channels, true, done, last) {
            ChannelStep::Ask(op) => {
                last = Some(tool_reply(sb.respond("zoe", op)));
                done += 1;
            }
            ChannelStep::Return(r) => break r,
        }
    };
    assert_eq!(done, 2);
    assert!(matches!(returned, ToolReply::Failed { .. }));
    let list = sb.stdout(Command::Channels { details: false, json: false });
    assert_eq!(list, "#general\n#ops\n");
    let done = channel_step(&vec![words("a"), words("b")], false, 2, Some(ToolReply::Done));
    assert!(matches!(done, ChannelStep::Return(ToolReply::Left { left: 2 })));
}

#[test]
fn subscribing_starts_events() {
    let mut sb = Bus::new();
    let response = sb.respond("master", Op::Subscribe);
    let request = Request { id: 1, op: Op::Subscribe };
    assert!(starts_events(&request, &response));
    let other = Request { id: 1, op: Op::Status };
    assert!(!starts_events(&other, &response));
    sb.stdout(Command::Pause);
    sb.stdout(Command::Pause);
    sb.stdout(Command::Resume);
    assert!(matches!(sb.events[0], Event::Paused));
    assert!(matches!(sb.events.last(), Some(Event::Resumed)));
    assert!(!wakes(&Event::Paused));
    assert!(!sb.daemon.is_paused());
}

#[test]
fn events_name_the_recipient() {
    let mut sb = Bus::new();
    sb.send(" #general ", "hi");
    match &sb.events[0] {
        Event::Message { to, from, body, message_id } => {
            assert!(matches!(to, Recipient::Channel(c) if c == "general"));
            assert_eq!((from.as_str(), body.as_str(), *message_id), ("master", "hi", 1));
        }
        _ => panic!("no message"),
    }
}

#[test]
fn schedules_need_one_time() {
    let mut sb = Bus::new();
    let both = Command::Schedule {
        to: words("@a"),
        body: words("b"),
        in_seconds: Some(1),
        at: Some(words("2020-01-01T00:00:00Z")),
        as_name: words("master"),
    };
    assert_eq!(sb.run(both).unwrap_err(), "use --in or --at, not both");
    let neither = Command::Schedule {
        to: words("@a"),
        body: words("b"),
        in_seconds: None,
        at: None,
        as_name: words("master"),
    };
    assert_eq!(
        sb.run(neither).unwrap_err(),
        "either --in <seconds> or --at <ISO8601> is required"
    );
    let err = sb.run(schedule_at("@a", "tomorrow", "b")).unwrap_err();
    assert!(err.starts_with("invalid --at timestamp: "), "got: {err}");
    assert!(err.len() > "invalid --at timestamp: ".len());
}

#[test]
fn histories_need_a_channel_or_an_agent() {
    let mut sb = Bus::new();
    let neither = Command::History { channel: None, with: None, limit: 5, json: false };
    assert!(sb.run(neither).is_err());
    assert_eq!(sb.stdout(history("nowhere", 5)), "");
}

/// Writes a change as whoever keeps the tables on disk would.
fn write(t: &mut Tables, change: Change) {
    match change {
        Change::AddAgent(row) => {
            t.next_agent = row.id + 1;
            t.agents.push(row);
        }
        Change::SeeAgent { id, at } => {
            for a in t.agents.iter_mut().filter(|a| a.id == id) {
                a.last_seen = at;
            }
        }
        Change::AddChannel(row) => {
            t.next_channel = row.id + 1;
            t.channels.push(row);
        }
        Change::AddMember(row) => {
            if !t.members.iter().any(|m| m.agent == row.agent && m.channel == row.channel) {
                t.members.push(row);
            }
        }
        Change::DropMember { agent, channel } => {
            t.members.retain(|m| m.agent != agent || m.channel != channel);
        }
        Change::AddMessage(row) => {
            t.next_message = row.id + 1;
            t.messages.push(row);
        }
        Change::AddDeliveries { message, agents, at } => {
            for agent in agents {
                t.deliveries.push(Delivery {
                    message,
                    agent,
                    delivered_at: Some(at),
                    read_at: None,
                });
            }
        }
        Change::MarkRead { agent, messages, at } => {
            for d in t.deliveries.iter_mut() {
                if d.agent == agent && messages.contains(&d.message) {
                    d.read_at = Some(at);
                }
            }
        }
        Change::AddScheduled(row) => {
            t.next_scheduled = row.id + 1;
            t.scheduled.push(row);
        }
        Change::SetScheduled { id, status } => {
            for s in t.scheduled.iter_mut().filter(|s| s.id == id) {
                s.status = status;
            }
        }
        Change::AddSession(row) => {
            t.next_session = row.id + 1;
            t.sessions.push(row);
        }
        Change::EndSession { id, at } => {
            for s in t.sessions.iter_mut().filter(|s| s.id == id) {
                s.ended_at = Some(at);
            }
        }
        Change::EndAllSessions { at } => {
            for s in t.sessions.iter_mut().filter(|s| s.ended_at.is_none()) {
                s.ended_at = Some(at);
            }
        }
        Change::DropMessages { ids } => {
            t.messages.retain(|m| !ids.contains(&m.id));
            t.deliveries.retain(|d| !ids.contains(&d.message));
        }
        Change::DropScheduled { ids } => t.scheduled.retain(|s| !ids.contains(&s.id)),
        Change::DropSessions { ids } => t.sessions.retain(|s| !ids.contains(&s.id)),
        Change::DropAgents { ids } => t.agents.retain(|a| !ids.contains(&a.id)),
    }
}

#[test]
fn schedule_persists_across_daemon_restart() {
    let mut sb = Bus::new();
    sb.stdout(schedule("master", "@gwen", 10, "survives-restart"));
    let session = sb.greet(mcp("gwen")).unwrap();
    assert_eq!(session.session, Some(1));

    let mut disk = Tables::empty();
    for change in sb.daemon.take_journal() {
        write(&mut disk, change);
    }
    assert!(sb.daemon.take_journal().is_empty());

    // The daemon is gone; another one starts on what was written.
    let now = Timestamp { secs: START + 11, nanos: 0 };
    let started = open(disk, now);
    assert_eq!((started.closed, started.dropped), (1, 0));
    let mut sb = Bus { daemon: started.daemon, now, next_id: 1, events: Vec::new() };
    sb.stdout(schedule_at("@gwen", "2020-01-01T00:00:00Z", "delivered-after-restart"));
    assert_eq!(sb.tick().len(), 2);
    let stdout = sb.drain("gwen");
    assert!(stdout.contains("survives-restart"), "lost: {stdout}");
    assert!(stdout.contains("delivered-after-restart"), "scheduler not running: {stdout}");
}

#[test]
fn what_is_delivered_is_written() {
    let mut sb = Bus::new();
    sb.stdout(schedule("master", "@gwen", 10, "later"));
    sb.pass(10);
    sb.tick();
    let mut disk = Tables::empty();
    for change in sb.daemon.take_journal() {
        write(&mut disk, change);
    }
    assert_eq!(disk.scheduled[0].status, ScheduledStatus::Delivered);
    assert_eq!(disk.messages[0].body, "later");
    assert_eq!(disk.deliveries.len(), 1);
}

#[test]
fn tables_that_contradict_themselves_are_refused() {
    let mut t = Tables::empty();
    t.deliveries.push(Delivery { message: 1, agent: 1, delivered_at: None, read_at: None });
    let now = Timestamp { secs: START, nanos: 0 };
    assert!(Daemon::start(t, now).is_err());
}

#[test]
fn the_agent_of_a_session_is_named() {
    assert_eq!(agent_name(Some(words("a")), Some(words("b")), 7), "a");
    assert_eq!(agent_name(None, Some(words("b")), 7), "b");
    assert_eq!(agent_name(None, None, 7), "agent-7");
}

#[test]
fn local_commands_ask_nothing() {
    assert!(matches!(plan(Command::Serve), Plan::Local(Command::Serve)));
    assert!(matches!(
        plan(Command::Completions { shell: words("zsh") }),
        Plan::Local(Command::Completions { .. })
    ));
}

#[test]
fn message_lines_are_plain() {
    let m = Message {
        id: 1,
        from: words("a"),
        to: Recipient::Broadcast,
        body: words("x **y**"),
        intent: None,
        reply_to: None,
        created_at: Timestamp { secs: 0, nanos: 0 },
    };
    assert_eq!(message_line("01:02:03", &m), "[01:02:03] a → *: x **y**");
}
