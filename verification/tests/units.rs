//! Mentions, markdown, recipients, queries and the smaller formats.

use sidebar::clock::{parse_rfc3339, parse_ts, to_rfc3339, Timestamp};
use sidebar::http::{
    hex_value, parse_request, percent_bytes, percent_decode, query_param, status_reason,
    HttpRequest, HttpResponse, Parsed,
};
use sidebar::limits::{
    count_bytes, validate_body, validate_limit, validate_name, validate_query, NameError,
};
use sidebar::markdown::render_markdown_inner;
use sidebar::mcp::{parse_interval, sidebar_listen, sidebar_poll};
use sidebar::mentions::extract_mentions;
use sidebar::paths::{db, home, socket};
use sidebar::pieces::{cut_at_space, find_run, split_lines, split_words};
use sidebar::proto::{Op, When};
use sidebar::report::{format_relative, passes_filter};
use sidebar::schedule::{choose_when, schedule_when, WhenError};
use sidebar::style::{name_hue, paint, paint_name, recipient_suffix};
use sidebar::supervise::{
    client_turn_id, finish_turn, host_command, supervisor_greeting, supervisor_prompt,
    turn_outcome, Action, Happening, Supervisor, TurnStatus,
};
use sidebar::text::{i64_text, parse_signed, parse_unsigned, trim};
use sidebar::types::{intent_from_str, intent_to_str, Intent, Message, Recipient};
use sidebar::web::{console_send, daemon_op, route, Route};
use sidebar::wire::{bad_request, check_reply, is_blank, parse_id_best_effort};

fn s(text: &str) -> String {
    text.to_string()
}

// ---- mentions ----

#[test]
fn any_white_space_stands_before_a_mention() {
    assert_eq!(extract_mentions("ping\r@bob"), vec!["bob"]);
    assert_eq!(extract_mentions("one\r\n@two"), vec!["two"]);
    assert_eq!(extract_mentions("a\t@b\u{b}@c\u{c}@d\u{a0}@e\u{2003}@f"), vec!["b", "c", "d", "e", "f"]);
    assert!(extract_mentions("ping.@bob (@carol) @@dave").is_empty());
}

#[test]
fn mentions_of_two_bodies() {
    let a = "@one and @two";
    let b = "@two, @three @one";
    let both = format!("{a} {b}");
    assert_eq!(extract_mentions(&both), vec!["one", "two", "three"]);
    assert_eq!(extract_mentions("x @a @"), vec!["a"]);
    assert_eq!(extract_mentions("x @a @ @b"), vec!["a", "b"]);
}

#[test]
fn runs_are_found() {
    let chars: Vec<char> = "a**b***".chars().collect();
    assert_eq!(find_run(&chars, 0, '*', 2), Some(1));
    assert_eq!(find_run(&chars, 2, '*', 2), Some(4));
    assert_eq!(find_run(&chars, 2, '*', 3), Some(4));
    assert_eq!(find_run(&chars, 5, '*', 3), None);
    assert_eq!(find_run(&chars, 8, '*', 1), None);
    assert_eq!(find_run(&chars, usize::MAX, '*', usize::MAX), None);
    assert_eq!(find_run(&chars, 3, '*', 0), Some(3));
    assert_eq!(find_run(&chars, 7, '*', 0), Some(7));
    assert_eq!(find_run(&chars, 8, '*', 0), None);
}

#[test]
fn labels_parse_back() {
    for name in ["a", "two words", " lead", "@at", "*", ""] {
        let agent = Recipient::Agent(name.to_string());
        assert!(matches!(Recipient::parse(&agent.label()), Recipient::Agent(n) if n == name));
        let channel = Recipient::Channel(name.to_string());
        assert!(matches!(Recipient::parse(&channel.label()), Recipient::Channel(n) if n == name));
    }
    assert!(matches!(Recipient::parse("*"), Recipient::Broadcast));
}

#[test]
fn simple_mention() {
    assert_eq!(extract_mentions("hi @codex check this"), vec!["codex"]);
}

#[test]
fn at_start_of_message() {
    assert_eq!(extract_mentions("@alice ping"), vec!["alice"]);
}

#[test]
fn multiple_mentions_deduped() {
    assert_eq!(extract_mentions("@alice and @bob, also @alice"), vec!["alice", "bob"]);
}

#[test]
fn email_is_not_a_mention() {
    assert!(extract_mentions("reach me at user@example.com").is_empty());
}

#[test]
fn trailing_punctuation_stripped() {
    assert_eq!(extract_mentions("@codex, look!"), vec!["codex"]);
}

#[test]
fn allows_dashes_and_underscores() {
    assert_eq!(
        extract_mentions("hey @clara-code-2 and @bob_jr"),
        vec!["clara-code-2", "bob_jr"]
    );
}

#[test]
fn bare_at_no_match() {
    assert!(extract_mentions("@ what is this").is_empty());
}

#[test]
fn mentions_end_at_other_characters() {
    assert_eq!(extract_mentions("(@a) \n@b: @c's"), vec!["b", "c"]);
    assert!(extract_mentions("").is_empty());
    assert!(extract_mentions("@").is_empty());
}

// ---- markdown ----

#[test]
fn no_color_passthrough() {
    assert_eq!(render_markdown_inner("hello **world**", false), "hello **world**");
}

#[test]
fn inline_code_is_magenta() {
    let out = render_markdown_inner("run `sidebar serve` now", true);
    assert!(out.contains("\x1b[35msidebar serve\x1b[0m"), "got: {out:?}");
}

#[test]
fn bold_is_bolded() {
    let out = render_markdown_inner("the **important** bit", true);
    assert!(out.contains("\x1b[1mimportant\x1b[0m"), "got: {out:?}");
}

#[test]
fn link_text_is_underlined_url_hidden() {
    let out = render_markdown_inner("see [docs](https://example.com) here", true);
    assert!(out.contains("\x1b[4mdocs\x1b[0m"), "got: {out:?}");
    assert!(!out.contains("example.com"), "url should be hidden: {out:?}");
}

#[test]
fn fenced_block_each_line_dim_indented() {
    let out = render_markdown_inner("before\n```\nline1\nline2\n```\nafter", true);
    assert!(out.contains("\x1b[2m    line1\x1b[0m"), "got: {out:?}");
    assert!(out.contains("\x1b[2m    line2\x1b[0m"), "got: {out:?}");
}

#[test]
fn unclosed_backtick_left_alone() {
    let out = render_markdown_inner("a ` lonely backtick", true);
    assert_eq!(out, "a ` lonely backtick");
}

#[test]
fn escaped_backtick_renders_literal() {
    let out = render_markdown_inner(r"escaped \` here", true);
    assert_eq!(out, "escaped ` here");
}

#[test]
fn empty_input() {
    assert_eq!(render_markdown_inner("", true), "");
}

#[test]
fn markdown_edges() {
    assert_eq!(render_markdown_inner("[a](b", true), "[a](b");
    assert_eq!(render_markdown_inner("[a] (b)", true), "[a] (b)");
    assert_eq!(render_markdown_inner("** open", true), "** open");
    assert_eq!(render_markdown_inner("end\\", true), "end\\");
    assert_eq!(render_markdown_inner("````", true), "\x1b[35m\x1b[0m\x1b[35m\x1b[0m");
    assert_eq!(
        render_markdown_inner("x\n```\na\r\nb```y", true),
        "x\n\n\x1b[2m    a\x1b[0m\n\x1b[2m    b\x1b[0m\ny"
    );
}

// ---- recipients ----

#[test]
fn parses_at_as_agent() {
    assert!(matches!(Recipient::parse("@clara"), Recipient::Agent(n) if n == "clara"));
}

#[test]
fn parses_hash_as_channel() {
    assert!(matches!(Recipient::parse("#general"), Recipient::Channel(n) if n == "general"));
}

#[test]
fn parses_star_as_broadcast() {
    assert!(matches!(Recipient::parse("*"), Recipient::Broadcast));
}

#[test]
fn parses_bare_as_agent() {
    assert!(matches!(Recipient::parse("codex"), Recipient::Agent(n) if n == "codex"));
}

#[test]
fn empty_string_is_agent_with_empty_name() {
    assert!(matches!(Recipient::parse(""), Recipient::Agent(n) if n.is_empty()));
}

#[test]
fn recipients_are_written_as_they_are_read() {
    for text in ["@clara", "#general", "*"] {
        assert_eq!(Recipient::parse(text).label(), text);
    }
    assert_eq!(Recipient::parse("  #general ").label(), "#general");
}

#[test]
fn intents_are_written_as_they_are_read() {
    for i in [Intent::Fyi, Intent::Question, Intent::Task, Intent::Handoff] {
        assert_eq!(intent_from_str(intent_to_str(i)), Some(i));
    }
    assert_eq!(intent_from_str("FYI"), None);
}

// ---- queries ----

#[test]
fn decodes_query_values() {
    assert_eq!(
        query_param("channel=agent%20room&limit=10", "channel").as_deref(),
        Some("agent room")
    );
    assert_eq!(query_param("channel=general", "missing"), None);
    assert_eq!(percent_decode("hello+world%21"), "hello world!");
}

#[test]
fn query_values_read_back() {
    assert_eq!(query_param("a%26b=1%3D2%2B3", "a&b").as_deref(), Some("1=2+3"));
    assert_eq!(query_param("x=1&a=%C3%A9&a=2", "a").as_deref(), Some("é"));
}

#[test]
fn percent_signs_without_digits_stay() {
    assert_eq!(percent_decode("100%"), "100%");
    assert_eq!(percent_decode("%zz%4"), "%zz%4");
    assert_eq!(percent_bytes("%c3%A9"), vec![0xc3, 0xa9]);
    assert_eq!(percent_decode("%c3%A9"), "é");
    assert_eq!(percent_decode("%ff"), "\u{fffd}");
    assert_eq!(hex_value(b'f'), Some(15));
    assert_eq!(hex_value(b'g'), None);
}

fn parsed(text: &str) -> Parsed {
    parse_request(&text.as_bytes().to_vec())
}

#[test]
fn requests_are_read_to_their_end() {
    assert!(matches!(parsed("GET / HTTP/1.1\r\n"), Parsed::More));
    let whole = "POST /api/send?x=1 HTTP/1.1\r\nHost: a\r\nContent-Length: 4\r\n\r\nbody";
    assert!(matches!(parsed(&whole[..whole.len() - 1]), Parsed::More));
    match parsed(whole) {
        Parsed::Done(r) => {
            assert_eq!((r.method.as_str(), r.path.as_str(), r.query.as_str()), (
                "POST",
                "/api/send",
                "x=1"
            ));
            assert_eq!(r.body, b"body".to_vec());
        }
        _ => panic!("not read"),
    }
    assert!(matches!(
        parsed("GET / HTTP/1.1\r\nContent-Length: 65537\r\n\r\n"),
        Parsed::Bad(_)
    ));
    let mut noise = parse_request(&vec![0xff, 0x0d, 0x0a, 0x0d, 0x0a]);
    assert!(matches!(noise, Parsed::Bad(_)));
    noise = parse_request(&vec![b'a'; 131073]);
    assert!(matches!(noise, Parsed::Bad(_)));
}

fn get(path: &str, query: &str) -> HttpRequest {
    HttpRequest { method: s("GET"), path: s(path), query: s(query), body: Vec::new() }
}

#[test]
fn routes_ask_the_daemon() {
    assert!(matches!(route(&get("/", "")), Route::Page));
    assert!(matches!(daemon_op(route(&get("/api/status", ""))), Some(Op::Status)));
    match daemon_op(route(&get("/api/messages", "channel=ops&limit=7"))) {
        Some(Op::History { channel, with, limit }) => {
            assert_eq!((channel.as_deref(), with, limit), (Some("ops"), None, 7));
        }
        Some(Op::HistoryDetailed { channel, limit }) => {
            assert_eq!((channel.as_str(), limit), ("ops", 7));
        }
        _ => panic!("no history"),
    }
    assert!(matches!(route(&get("/nope", "")), Route::NotFound));
    assert!(daemon_op(Route::NotFound).is_none());
}

#[test]
fn console_sends_need_a_recipient_and_a_body() {
    assert!(matches!(
        console_send(s(" "), s("x"), None, None),
        Err("recipient and body are required")
    ));
    assert!(console_send(s("@a"), s("\n"), None, None).is_err());
    match console_send(s("@a"), s("x"), Some(Intent::Task), Some(3)) {
        Ok(Op::Send { to, body, intent, reply_to }) => {
            assert_eq!((to.as_str(), body.as_str(), intent, reply_to), (
                "@a",
                "x",
                Some(Intent::Task),
                Some(3)
            ));
        }
        _ => panic!("refused"),
    }
}

#[test]
fn responses_have_heads() {
    let head = HttpResponse::text("ok").head();
    assert!(head.starts_with("HTTP/1.1 200 OK\r\n"), "got: {head}");
    assert!(head.contains("Content-Length: 2\r\n"), "got: {head}");
    assert!(head.ends_with("\r\n\r\n"));
    assert_eq!(HttpResponse::not_found().status, 404);
    assert_eq!(status_reason(200), "OK");
    assert_eq!(status_reason(404), "Not Found");
    let json = HttpResponse::json(400, b"{}".to_vec());
    assert!(json.head().contains("application/json"));
    assert!(HttpResponse::html("<p>").head().contains("text/html"));
}

// ---- times ----

#[test]
fn times_are_read_and_written() {
    let t = parse_rfc3339("2020-01-01T00:00:00Z").unwrap();
    assert_eq!((t.secs, t.nanos), (1_577_836_800, 0));
    assert_eq!(to_rfc3339(t).as_deref(), Some("2020-01-01T00:00:00+00:00"));
    let t = parse_rfc3339("2020-01-01T01:00:00.5+01:00").unwrap();
    assert_eq!((t.secs, t.nanos), (1_577_836_800, 500_000_000));
    assert_eq!(to_rfc3339(t).as_deref(), Some("2020-01-01T00:00:00.500+00:00"));
    assert!(!parse_rfc3339("yesterday").unwrap_err().is_empty());
    assert_eq!(to_rfc3339(Timestamp { secs: i64::MAX, nanos: 0 }), None);
}

#[test]
fn unreadable_times_are_now() {
    let now = Timestamp { secs: 5, nanos: 6 };
    let t = parse_ts("nonsense", now);
    assert_eq!((t.secs, t.nanos), (5, 6));
    let t = parse_ts("1970-01-01T00:00:01Z", now);
    assert_eq!((t.secs, t.nanos), (1, 0));
}

#[test]
fn times_compare() {
    let a = Timestamp { secs: 10, nanos: 999_999_999 };
    let b = Timestamp { secs: 11, nanos: 0 };
    assert!(a.before(&b) && !b.before(&a) && !a.before(&a));
    assert_eq!(b.instant() - a.instant(), 1);
    assert_eq!(b.seconds_since(&a), 0);
    assert_eq!(a.plus_seconds(60).unwrap().secs, 70);
    assert!(a.older_than_days(&Timestamp { secs: 86411, nanos: 0 }, 1));
    assert!(!a.older_than_days(&Timestamp { secs: 86410, nanos: 0 }, 1));
}

#[test]
fn ages_are_put_in_words() {
    for (secs, text) in [
        (-3, "just now"),
        (4, "just now"),
        (5, "5s ago"),
        (59, "59s ago"),
        (60, "1m ago"),
        (3599, "59m ago"),
        (3600, "1h ago"),
        (172_799, "47h ago"),
        (172_800, "2d ago"),
    ] {
        assert_eq!(format_relative(secs), text);
    }
}

#[test]
fn a_delay_or_a_time_is_chosen() {
    assert!(matches!(
        schedule_when(Some(5), &None),
        Ok(When::DelaySeconds { delay_seconds: 5 })
    ));
    match schedule_when(None, &Some(s("1970-01-01T00:01:00Z"))) {
        Ok(When::At { at }) => assert_eq!(at.secs, 60),
        _ => panic!("not read"),
    }
    assert!(matches!(schedule_when(None, &None), Err(WhenError::Neither)));
    assert!(matches!(
        schedule_when(Some(1), &Some(s("nonsense"))),
        Err(WhenError::Both)
    ));
    assert!(matches!(
        schedule_when(None, &Some(s("nonsense"))),
        Err(WhenError::Unreadable(_))
    ));
    match choose_when(None, Some(Err(s("why")))) {
        Err(WhenError::Unreadable(w)) => assert_eq!(w, "why"),
        _ => panic!("chosen"),
    }
}

#[test]
fn intervals_are_read() {
    assert_eq!(parse_interval("5"), Some((s("5m"), 300)));
    assert_eq!(parse_interval(" 30s "), Some((s("30s"), 30)));
    assert_eq!(parse_interval("1h"), Some((s("1h"), 3600)));
    assert_eq!(parse_interval("007m"), Some((s("7m"), 420)));
    for bad in ["", "0", "61m", "2h", "5d", "m", "-1s", "1 h"] {
        assert_eq!(parse_interval(bad), None, "{bad}");
    }
}

#[test]
fn prompts_hold_the_interval() {
    let text = sidebar_poll(" 5m");
    assert!(text.contains("every 5m.") && text.contains("`delaySeconds`: 300"));
    assert!(text.contains("`{\"ok\": false, ...}`"));
    assert!(sidebar_poll("x").starts_with("The interval `x` isn't a recognized format."));
    let text = sidebar_listen("1m");
    assert!(text.contains("`wait_ms`: 60000"));
    assert!(sidebar_listen("6m").starts_with("Wait `6m` exceeds the 5-minute cap"));
    assert!(sidebar_listen("x").starts_with("The wait `x` isn't a recognized format."));
}

// ---- limits ----

#[test]
fn names_are_checked() {
    assert!(validate_name("clara-code").is_ok());
    assert!(validate_name(&"n".repeat(64)).is_ok());
    assert!(validate_name(&"é".repeat(64)).is_ok());
    for (name, want) in [("", "empty"), ("a b", "whitespace")] {
        let e: NameError = validate_name(name).unwrap_err();
        let text = e.message();
        assert!(text.contains(want), "{name:?}: {text}");
    }
    let e = validate_name(&"n".repeat(65)).unwrap_err();
    assert!(e.message().contains("64 characters"));
}

#[test]
fn sizes_are_checked() {
    assert_eq!(count_bytes("aé→"), 6);
    assert!(validate_body(&"x".repeat(65536)).is_ok());
    assert!(validate_body(&"é".repeat(32769)).unwrap_err().contains("65538"));
    assert!(validate_limit(1000).is_ok());
    assert_eq!(validate_limit(1001).unwrap_err(), "limit 1001 exceeds max of 1000");
    assert!(validate_query(&"é".repeat(256)).is_ok());
    assert!(validate_query(&"x".repeat(257)).unwrap_err().contains("257"));
}

// ---- colours ----

#[test]
fn names_have_a_stable_hue() {
    // FNV-1a of the bytes, then the two mixing rounds, on a 320 degree arc from 20.
    let hue = |name: &str| -> u16 {
        let mut h: u32 = 2_166_136_261;
        for b in name.bytes() {
            h ^= u32::from(b);
            h = h.wrapping_mul(16_777_619);
        }
        h ^= h >> 16;
        h = h.wrapping_mul(0x7feb_352d);
        h ^= h >> 15;
        20 + (h % 320) as u16
    };
    for name in ["", "master", "clara-code", "clara-code-2", "é"] {
        assert_eq!(name_hue(name), hue(name));
    }
}

#[test]
fn names_and_suffixes_are_painted() {
    assert_eq!(paint("\x1b[2m", "x", true), "\x1b[2mx\x1b[0m");
    assert_eq!(paint("\x1b[2m", "x", false), "x");
    assert_eq!(paint_name("a", "H", true), "\x1b[1mH@a\x1b[0m");
    assert_eq!(paint_name("a", "H", false), "@a");
    assert_eq!(recipient_suffix(&Recipient::parse("#c"), true), "\x1b[2m  (#c)\x1b[0m");
    assert_eq!(recipient_suffix(&Recipient::parse("*"), false), "  (broadcast)");
    assert_eq!(recipient_suffix(&Recipient::parse("@a"), true), "");
}

// ---- texts ----

#[test]
fn numbers_are_written_and_read() {
    for n in [0, 7, -7, i64::MAX, i64::MIN] {
        assert_eq!(i64_text(n), n.to_string());
        assert_eq!(parse_signed(&n.to_string()), Some(n));
    }
    assert_eq!(parse_unsigned("+5", 10), Some(5));
    assert_eq!(parse_unsigned("11", 10), None);
    assert_eq!(parse_unsigned("", 10), None);
    assert_eq!(parse_unsigned("-1", 10), None);
    assert_eq!(parse_signed("9223372036854775808"), None);
    assert_eq!(parse_signed("-"), None);
}

#[test]
fn texts_are_cut() {
    assert_eq!(trim("\u{3000} a b\t\n"), "a b");
    assert_eq!(split_words("  a\tb \n c"), vec!["a", "b", "c"]);
    assert_eq!(split_lines("a\r\nb\n\nc"), vec!["a", "b", "", "c"]);
    assert_eq!(cut_at_space("a  b"), (s("a"), Some(s(" b"))));
    assert_eq!(cut_at_space("ab"), (s("ab"), None));
}

#[test]
fn filters_do_not_mind_capitals() {
    assert!(passes_filter("ÄPFEL", &Some(s("äpf"))));
    assert!(!passes_filter("birnen", &Some(s("äpf"))));
    assert!(passes_filter("birnen", &None));
}

// ---- frames ----

#[test]
fn numbers_are_read_from_bad_requests() {
    assert_eq!(parse_id_best_effort("{\"id\": 42, \"op\": \"nonsense\"}"), 42);
    assert_eq!(parse_id_best_effort("{\"id\": -1}"), 0);
    assert_eq!(parse_id_best_effort("{\"id\": \"7\"}"), 0);
    assert_eq!(parse_id_best_effort("no json"), 0);
    assert_eq!(parse_id_best_effort("[1]"), 0);
    let r = bad_request(42, "unknown op");
    assert_eq!((r.id, r.ok, r.error.as_deref()), (42, false, Some("bad request: unknown op")));
    assert!(r.data.is_none());
    assert!(is_blank(" \t") && is_blank("") && !is_blank(" x"));
}

#[test]
fn answers_belong_to_their_requests() {
    assert!(check_reply(3, 3).is_ok());
    assert_eq!(
        check_reply(3, 4).unwrap_err(),
        "response id mismatch: expected 3, got 4"
    );
}

#[test]
fn files_stand_in_the_home_directory() {
    let set = Some(s("/tmp/s"));
    let user = Some(s("/root"));
    assert_eq!(socket(&set, &user).unwrap(), "/tmp/s/sidebar.sock");
    assert_eq!(db(&set, &user).unwrap(), "/tmp/s/sidebar.db");
    assert_eq!(home(&None, &user).unwrap(), "/root/.sidebar");
    assert_eq!(socket(&None, &Some(s("/"))).unwrap(), "/.sidebar/sidebar.sock");
}

// ---- supervisors ----

fn message(id: i64, body: &str) -> Message {
    Message {
        id,
        from: s("bob"),
        to: Recipient::Agent(s("host")),
        body: s(body),
        intent: None,
        reply_to: None,
        created_at: Timestamp { secs: 0, nanos: 0 },
    }
}

#[test]
fn prompts_hold_the_message() {
    assert_eq!(
        supervisor_prompt(&message(9, "hi")),
        "You are replying as a participant in a durable agent room.\n\nMessage id: 9\nFrom: bob\nTo: @host\n\nMessage:\nhi\n\nReturn only the final human-readable response. Do not include supervisor metadata or tool logs."
    );
    assert_eq!(client_turn_id(7, 9), "supervisor-7-9");
    assert_eq!(
        supervisor_greeting("cat", "host", 400_000),
        "supervisor `cat` listening as @host (wait 300000ms)"
    );
    assert_eq!(
        host_command(&Vec::new()).unwrap_err(),
        "supervise requires a host command after `--`"
    );
    assert_eq!(
        host_command(&vec![s("a"), s("b")]).unwrap(),
        (s("a"), vec![s("b")])
    );
}

#[test]
fn turns_end_with_a_response_or_an_error() {
    let done = finish_turn(true, " yes\n", "noise", "exit status: 0");
    assert_eq!(done.status, TurnStatus::ResponseCompleted);
    assert_eq!((done.response.as_deref(), done.error), (Some("yes"), None));
    let failed = finish_turn(true, "", "", "exit status: 0");
    assert_eq!(failed.status, TurnStatus::Failed);
    assert_eq!(
        failed.error.as_deref(),
        Some("host command exited with status exit status: 0")
    );
    let failed = turn_outcome(false, &b"out".to_vec(), &vec![b'b', 0xff], "exit status: 1");
    assert_eq!(failed.error.as_deref(), Some("b\u{fffd}"));
    assert_eq!(failed.response, None);
}

#[test]
fn a_supervisor_works_through_its_messages() {
    let mut sup = Supervisor::new(1000, true, 7);
    let doing = sup.advance(Happening::Inbox {
        messages: Some(vec![message(1, "one"), message(2, "two")]),
        shown: String::new(),
    });
    match doing.action {
        Action::Begin { message_id, client_turn_id } => {
            assert_eq!((message_id, client_turn_id.as_str()), (1, "supervisor-7-1"));
        }
        _ => panic!("no turn"),
    }
    // What does not belong here changes nothing.
    let doing = sup.advance(Happening::Updated { ok: true, error: None });
    assert!(matches!(doing.action, Action::Nothing));

    let doing = sup.advance(Happening::Begun {
        ok: false,
        error: Some(s("busy")),
        turn_id: None,
        shown: String::new(),
    });
    assert_eq!(doing.warns.as_deref(), Some("could not begin turn for message 1: busy"));
    assert!(matches!(doing.action, Action::Begin { message_id: 2, .. }));

    let doing = sup.advance(Happening::Begun {
        ok: true,
        error: None,
        turn_id: Some(s("t2")),
        shown: String::new(),
    });
    match doing.action {
        Action::Report { turn_id, update } => {
            assert_eq!((turn_id.as_str(), update.status), ("t2", TurnStatus::Started));
        }
        _ => panic!("not reported"),
    }
    let doing = sup.advance(Happening::Updated { ok: true, error: None });
    match doing.action {
        Action::Run { turn_id, message_id, prompt } => {
            assert_eq!((turn_id.as_str(), message_id), ("t2", 2));
            assert!(prompt.contains("two"));
        }
        _ => panic!("not run"),
    }
    let update = finish_turn(true, "answer", "", "exit status: 0");
    let doing = sup.advance(Happening::Ended { update });
    assert!(matches!(doing.action, Action::Report { .. }));
    let doing = sup.advance(Happening::Updated { ok: true, error: None });
    assert_eq!(doing.says.as_deref(), Some("turn t2 completed"));
    assert!(matches!(doing.action, Action::Stop { error: None }));
}

#[test]
fn a_supervisor_gives_up_on_strange_answers() {
    let mut sup = Supervisor::new(1000, false, 7);
    let doing = sup.advance(Happening::Inbox { messages: Some(Vec::new()), shown: s("") });
    assert!(matches!(doing.action, Action::Poll { wait_ms: 1000 }));
    let doing = sup.advance(Happening::Inbox { messages: None, shown: s("odd") });
    match doing.action {
        Action::Stop { error } => {
            assert_eq!(error.as_deref(), Some("unexpected inbox response: odd"));
        }
        _ => panic!("not stopped"),
    }
}
