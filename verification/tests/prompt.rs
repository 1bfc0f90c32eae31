//! The interactive prompt: what lines ask for, and what is printed.

use sidebar::cli::Shown;
use sidebar::clock::Timestamp;
use sidebar::proto::{Event, Op, Response, ResponseData, StatusInfo, When};
use sidebar::repl::{ops_of, parse_line, Ask, Input};
use sidebar::screen::{answer_text, banner, chat_text, event_text, help_rows, help_text, prompt};
use sidebar::types::{Message, Recipient};

fn s(text: &str) -> String {
    text.to_string()
}

fn notice(line: &str) -> String {
    match parse_line(line) {
        Input::Notice { text } => text,
        _ => panic!("no notice for {line:?}"),
    }
}

fn ask(line: &str) -> Ask {
    match parse_line(line) {
        Input::Ask(a) => a,
        _ => panic!("nothing asked by {line:?}"),
    }
}

fn op(line: &str) -> Op {
    let mut ops = ops_of(&ask(line));
    assert_eq!(ops.len(), 1);
    ops.remove(0)
}

#[test]
fn lines_without_a_slash_go_to_general() {
    match op("  hello /there ") {
        Op::Send { to, body, intent, reply_to } => {
            assert_eq!((to.as_str(), body.as_str()), ("#general", "hello /there"));
            assert!(intent.is_none() && reply_to.is_none());
        }
        _ => panic!("no send"),
    }
    assert!(matches!(parse_line(" \t "), Input::Blank));
}

#[test]
fn sessions_have_commands() {
    assert!(matches!(parse_line("/help"), Input::Help));
    assert!(matches!(parse_line("/? me"), Input::Help));
    for line in ["/quit", "/q", "/exit"] {
        assert!(matches!(parse_line(line), Input::Quit));
    }
    assert!(matches!(parse_line("/whoami"), Input::WhoAmI));
    assert!(matches!(parse_line("/switch  bob "), Input::Switch { name } if name == "bob"));
    assert_eq!(notice("/switch"), "usage: /switch <agent-name>");
    assert_eq!(notice("/nope now"), "unknown command: /nope. /help for the list.");
    assert_eq!(notice("/"), "unknown command: /. /help for the list.");
}

#[test]
fn sends_need_a_body() {
    match op("/send @bob  hi there ") {
        Op::Send { to, body, .. } => assert_eq!((to.as_str(), body.as_str()), ("@bob", "hi there")),
        _ => panic!("no send"),
    }
    assert_eq!(notice("/send @bob"), "usage: /send <to> <body>");
    match op("/say hello all") {
        Op::Send { to, body, .. } => assert_eq!((to.as_str(), body.as_str()), ("*", "hello all")),
        _ => panic!("no send"),
    }
    assert_eq!(notice("/say "), "usage: /say <body>");
}

#[test]
fn histories_have_options() {
    match op("/history --limit 7 --channel ops --limit x --with") {
        Op::History { channel, with, limit } => {
            assert_eq!((channel.as_deref(), with, limit), (Some("ops"), None, 7));
        }
        _ => panic!("no history"),
    }
    match op("/history noise --with bob") {
        Op::History { channel, with, limit } => {
            assert_eq!((channel, with.as_deref(), limit), (None, Some("bob"), 50));
        }
        _ => panic!("no history"),
    }
    assert_eq!(
        notice("/history --limit 5"),
        "usage: /history --channel <name>  OR  /history --with <agent>"
    );
}

#[test]
fn schedules_have_seconds() {
    match op("/schedule @bob 60 later on") {
        Op::Schedule { to, body, when } => {
            assert_eq!((to.as_str(), body.as_str()), ("@bob", "later on"));
            assert!(matches!(when, When::DelaySeconds { delay_seconds: 60 }));
        }
        _ => panic!("no schedule"),
    }
    assert_eq!(notice("/schedule @bob 60"), "usage: /schedule <to> <seconds> <body>");
    assert_eq!(notice("/schedule @bob soon x"), "seconds must be a non-negative integer");
    assert!(matches!(op("/scheduled"), Op::Scheduled));
    assert!(matches!(op("/cancel 3"), Op::Cancel { scheduled_id: 3 }));
    assert_eq!(notice("/cancel three"), "usage: /cancel <scheduled-id>");
}

#[test]
fn channels_are_joined_and_left() {
    let ops = ops_of(&ask("/join #a b"));
    assert_eq!(ops.len(), 2);
    assert!(matches!(&ops[0], Op::Join { channel } if channel == "a"));
    assert!(matches!(&ops[1], Op::Join { channel } if channel == "b"));
    let ops = ops_of(&ask("/leave #a"));
    assert!(matches!(&ops[0], Op::Leave { channel } if channel == "a"));
    assert_eq!(notice("/join"), "usage: /join <channel> [channel...]");
    assert_eq!(notice("/leave  "), "usage: /leave <channel> [channel...]");
    assert!(matches!(op("/channels"), Op::Channels));
    assert!(matches!(op("/channels --details"), Op::ChannelsDetailed));
    assert!(matches!(op("/agents"), Op::Agents { include_stale: false }));
    assert!(matches!(op("/agents --all"), Op::Agents { include_stale: true }));
    assert!(matches!(op("/participants"), Op::Participants));
}

#[test]
fn operators_have_commands() {
    assert!(matches!(op("/status"), Op::Status));
    assert!(matches!(op("/pause"), Op::Pause));
    assert!(matches!(op("/resume"), Op::Resume));
    assert!(matches!(op("/inspect 12"), Op::Inspect { message_id: 12 }));
    assert_eq!(notice("/inspect"), "usage: /inspect <message-id>");
    assert!(matches!(op("/inbox now"), Op::Inbox { wait_ms: None, mentions_only: false }));
    assert!(matches!(op("/grep a b"), Op::Search { query, limit: 50 } if query == "a b"));
    assert_eq!(notice("/grep"), "usage: /grep <substring>");
}

fn ok(data: Option<ResponseData>) -> Response {
    Response { id: 1, ok: true, error: None, data }
}

fn failed(words: &str) -> Response {
    Response { id: 1, ok: false, error: Some(s(words)), data: None }
}

fn printed(line: &str, n: usize, response: &Response) -> String {
    let now = Timestamp { secs: 100, nanos: 0 };
    match answer_text(&ask(line), n, response, "me", &now) {
        Shown::Text(text) => text,
        Shown::Timed => s("(timed)"),
        Shown::Unexpected => s("(unexpected)"),
    }
}

#[test]
fn answers_are_printed() {
    let sent = ok(Some(ResponseData::SendOk { message_id: 4 }));
    assert_eq!(printed("hello", 0, &sent), "");
    assert_eq!(printed("hello", 0, &failed("no")), "send failed: no\n");
    assert_eq!(printed("/send @a b", 0, &sent), "sent (id 4)\n");
    assert_eq!(printed("/say b", 0, &failed("no")), "broadcast failed: no\n");
    assert_eq!(printed("/schedule @a 1 b", 0, &sent), "scheduled id 4\n");
    assert_eq!(printed("/schedule @a 1 b", 0, &failed("no")), "(error: no)\n");
    assert_eq!(printed("/cancel 4", 0, &ok(None)), "cancelled scheduled id 4\n");
    assert_eq!(printed("/cancel 4", 0, &failed("no")), "(no)\n");
    assert_eq!(printed("/pause", 0, &ok(None)), "paused\n");
    assert_eq!(printed("/resume", 0, &failed("no")), "(error: no)\n");
    assert_eq!(printed("/join a #b", 1, &ok(None)), "me joined #b\n");
    assert_eq!(printed("/leave a", 0, &failed("no")), "(leave #a failed: no)\n");
    let none = ok(Some(ResponseData::Messages { messages: Vec::new() }));
    assert_eq!(printed("/inbox", 0, &none), "(empty)\n");
    assert_eq!(printed("/inbox", 0, &failed("no")), "(daemon error: no)\n");
    assert_eq!(printed("/grep x", 0, &none), "(no matches)\n");
    assert_eq!(printed("/history --with a", 0, &failed("no")), "(no)\n");
    let agents = ok(Some(ResponseData::Agents { agents: vec![s("a"), s("b")] }));
    assert_eq!(printed("/participants", 0, &agents), "  a\n  b\n");
    let channels = ok(Some(ResponseData::Channels { channels: vec![s("a")] }));
    assert_eq!(printed("/channels", 0, &channels), "#a\n");
    let nobody = ok(Some(ResponseData::AgentsDetailed { agents_detailed: Vec::new() }));
    assert_eq!(
        printed("/agents", 0, &nobody),
        "(no agents seen in the last 7 days; /agents --all to include stale)\n"
    );
    assert_eq!(printed("/agents", 0, &failed("no")), "(error)\n");
    assert_eq!(printed("/inspect 1", 0, &failed("no")), "(no)\n");
    let status = ok(Some(ResponseData::Status(StatusInfo {
        paused: false,
        agent_count: 1,
        channel_count: 2,
        unread_count: 3,
        pending_scheduled: 4,
        uptime_seconds: 3661,
        db_path: s("d"),
        socket_path: s("k"),
    })));
    assert_eq!(
        printed("/status", 0, &status),
        "uptime 1h 1m 1s · paused false · agents 1 · channels 2 · unread 3 · scheduled 4\n"
    );
}

fn message() -> Message {
    Message {
        id: 1,
        from: s("bob"),
        to: Recipient::Channel(s("ops")),
        body: s("a `b`"),
        intent: None,
        reply_to: None,
        created_at: Timestamp { secs: 0, nanos: 0 },
    }
}

#[test]
fn messages_and_events_are_printed() {
    assert_eq!(chat_text("12:00:00", &message(), "H", false), "[12:00:00] @bob: a `b`  (#ops)");
    assert_eq!(
        chat_text("12:00:00", &message(), "H", true),
        "\x1b[2m[12:00:00]\x1b[0m \x1b[1mH@bob\x1b[0m: a \x1b[35mb\x1b[0m\x1b[2m  (#ops)\x1b[0m"
    );
    assert_eq!(event_text("1", &Event::Paused, "", false), "[1] (paused)\n");
    assert_eq!(
        event_text("1", &Event::Resumed, "", true),
        "\x1b[2m[1]\x1b[0m \x1b[33m(resumed)\x1b[0m\n"
    );
    let event = Event::Message {
        to: Recipient::Broadcast,
        from: s("a"),
        body: s("x"),
        message_id: 1,
    };
    assert_eq!(event_text("1", &event, "H", false), "[1] @a: x  (broadcast)\n");
}

#[test]
fn the_prompt_names_the_agent() {
    assert_eq!(prompt("bob", "H", false), "bob> ");
    assert_eq!(prompt("bob", "H", true), "\x1b[1mHbob\x1b[0m\x1b[2m ❯ \x1b[0m");
}

#[test]
fn help_lists_every_command() {
    assert_eq!(help_rows().len(), 26);
    let plain = help_text(false);
    assert!(plain.starts_with("\nsession:\n  /help                             this list\n"));
    assert!(plain.contains("\nchannels & agents:\n"));
    assert!(plain.ends_with("\nanything not starting with / is broadcast to #general.\n"));
    let color = help_text(true);
    assert!(color.starts_with("\n\x1b[1m\x1b[36msession:\x1b[0m\n"));
}

#[test]
fn the_banner_says_who_is_connected() {
    let text = banner("bob", "H", "1.2.3", false);
    assert!(text.starts_with("\n ___ ___ ___"));
    assert!(text.contains("|___/___|___/|___|___/_/ \\_\\_|_\\\n\nlocal MCP bus"));
    assert!(text.contains("v1.2.3\nconnected as @bob. /help for commands."));
    assert!(text.ends_with(" to quit.\n─────────────────────────────────────────────\n"));
}
