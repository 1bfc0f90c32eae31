//! What holds of the store and the daemon, on chosen values.

use sidebar::clock::Timestamp;
use sidebar::daemon::order::{sort_keyed, Keyed};
use sidebar::daemon::rows::{row_intent, row_status, row_target, status_word, target_columns};
use sidebar::daemon::server::{delivery_time, inbox_wait, Daemon, Step, Surroundings};
use sidebar::daemon::store::opening::OpenError;
use sidebar::daemon::store::{Store, StoreError};
use sidebar::daemon::tables::{ScheduledEntry, ScheduledStatus, Session, Tables, Target};
use sidebar::http::{parse_request, percent_decode, Parsed};
use sidebar::markdown::render_markdown_inner;
use sidebar::mcp::{parse_interval, schedule_asked, send_asked};
use sidebar::mentions::extract_mentions;
use sidebar::proto::{Hello, Op, Request, Response, ResponseData, When};
use sidebar::types::{Intent, Message, Recipient};

fn at(secs: i64) -> Timestamp {
    Timestamp { secs, nanos: 0 }
}

fn store() -> Store {
    match Store::open(Tables::empty(), at(0)) {
        Ok(store) => store,
        Err(_) => panic!("refused"),
    }
}

fn post(store: &mut Store, from: &str, to: &str, body: &str, now: i64) -> i64 {
    let to = Recipient::parse(to);
    match store.send_message(from, &to, body, None, None, at(now)) {
        Ok(id) => id,
        Err(e) => panic!("refused: {}", e.message()),
    }
}

fn read(store: &mut Store, who: &str, mentions_only: bool, now: i64) -> Vec<Message> {
    match store.fetch_inbox(who, mentions_only, at(now)) {
        Ok(list) => list,
        Err(e) => panic!("refused: {}", e.message()),
    }
}

fn bodies(list: &Vec<Message>) -> Vec<String> {
    list.iter().map(|m| m.body.clone()).collect()
}

#[test]
fn a_message_is_read_as_it_was_written() {
    let mut s = store();
    let first = post(&mut s, "a", "@b", "one", 1);
    let id = s
        .send_message(
            "a",
            &Recipient::parse("@b"),
            "two",
            Some(Intent::Task),
            Some(first),
            Timestamp { secs: 2, nanos: 3 },
        )
        .ok()
        .unwrap();
    let list = read(&mut s, "b", false, 9);
    assert_eq!(list.len(), 2);
    let m = &list[1];
    assert_eq!((m.id, m.from.as_str(), m.body.as_str()), (id, "a", "two"));
    assert_eq!((m.intent, m.reply_to), (Some(Intent::Task), Some(first)));
    assert_eq!((m.created_at.secs, m.created_at.nanos), (2, 3));
    assert!(matches!(&m.to, Recipient::Agent(n) if n == "b"));
}

#[test]
fn a_message_is_read_once_oldest_first() {
    let mut s = store();
    for i in 0..5 {
        post(&mut s, "a", "@b", &format!("{i}"), i);
    }
    assert_eq!(bodies(&read(&mut s, "b", false, 9)), vec!["0", "1", "2", "3", "4"]);
    assert!(read(&mut s, "b", false, 9).is_empty());
}

#[test]
fn a_direct_message_goes_to_one() {
    let mut s = store();
    post(&mut s, "x", "@c", "known", 1);
    read(&mut s, "c", false, 1);
    post(&mut s, "a", "@b", "hi @c", 2);
    assert_eq!(read(&mut s, "b", false, 3).len(), 1);
    assert!(read(&mut s, "c", false, 3).is_empty());
    assert!(read(&mut s, "a", false, 3).is_empty());
    assert!(read(&mut s, "master", false, 3).is_empty());
}

#[test]
fn a_channel_message_goes_to_members_and_to_those_it_calls() {
    let mut s = store();
    s.join_channel("a", "ops", at(1)).ok().unwrap();
    s.join_channel("b", "ops", at(1)).ok().unwrap();
    post(&mut s, "a", "#ops", "hello @c", 2);
    assert!(read(&mut s, "a", false, 3).is_empty());
    assert_eq!(bodies(&read(&mut s, "b", false, 3)), vec!["hello @c"]);
    assert_eq!(bodies(&read(&mut s, "c", false, 3)), vec!["hello @c"]);
    assert!(read(&mut s, "master", false, 3).is_empty());
}

#[test]
fn a_broadcast_goes_to_all_others() {
    let mut s = store();
    s.ensure_agent("a", at(1)).ok().unwrap();
    s.ensure_agent("b", at(1)).ok().unwrap();
    post(&mut s, "a", "*", "all", 2);
    assert!(read(&mut s, "a", false, 3).is_empty());
    assert_eq!(read(&mut s, "b", false, 3).len(), 1);
    assert_eq!(read(&mut s, "master", false, 3).len(), 1);
}

#[test]
fn mentions_alone_leave_the_rest() {
    let mut s = store();
    s.join_channel("b", "ops", at(1)).ok().unwrap();
    post(&mut s, "a", "#ops", "noise", 2);
    post(&mut s, "a", "#ops", "@b look", 3);
    post(&mut s, "a", "@b", "direct", 4);
    assert_eq!(bodies(&read(&mut s, "b", true, 5)), vec!["@b look", "direct"]);
    assert_eq!(bodies(&read(&mut s, "b", false, 6)), vec!["noise"]);
}

#[test]
fn histories_hold_the_last_messages() {
    let mut s = store();
    for i in 0..5 {
        post(&mut s, "a", "#ops", &format!("{i}"), i);
    }
    assert_eq!(bodies(&s.history_channel("ops", 3)), vec!["2", "3", "4"]);
    assert_eq!(s.history_channel("ops", 9).len(), 5);
    assert!(s.history_channel("nowhere", 9).is_empty());
    post(&mut s, "a", "@b", "to b", 6);
    post(&mut s, "b", "@a", "to a", 7);
    post(&mut s, "b", "@c", "to c", 8);
    let list = s.history_dm("a", "b", 9, at(9)).ok().unwrap();
    assert_eq!(bodies(&list), vec!["to b", "to a"]);
    assert_eq!(bodies(&s.history_dm("b", "a", 1, at(9)).ok().unwrap()), vec!["to a"]);
}

#[test]
fn joining_and_leaving_twice() {
    let mut s = store();
    let first = s.ensure_agent("a", at(1)).ok().unwrap();
    assert_eq!(s.ensure_agent("a", at(2)).ok(), Some(first));
    let members = |s: &Store| {
        s.channels_detailed().iter().find(|c| c.name == "ops").unwrap().member_count
    };
    s.join_channel("a", "ops", at(3)).ok().unwrap();
    s.join_channel("a", "ops", at(4)).ok().unwrap();
    assert_eq!(members(&s), 1);
    s.leave_channel("a", "ops");
    s.leave_channel("a", "ops");
    assert_eq!(members(&s), 0);
}

#[test]
fn scheduled_messages_are_listed_until_cancelled() {
    let mut s = store();
    let id = s.schedule("a", "@b", "later", None, None, at(9), at(1)).ok().unwrap();
    assert_eq!(s.list_scheduled("a")[0].body, "later");
    assert_eq!(s.list_scheduled("master")[0].id, id);
    assert!(s.list_scheduled("b").is_empty());
    s.cancel(id, "a").ok().unwrap();
    assert!(s.list_scheduled("master").is_empty());
    assert_eq!(s.cancel(id, "master").err(), Some(StoreError::NoScheduled(id)));
}

#[test]
fn second_passes_find_nothing() {
    let mut s = store();
    post(&mut s, "a", "@b", "x", 1);
    read(&mut s, "b", false, 2);
    s.ensure_agent("ghost", at(2)).ok().unwrap();
    let now = at(86400 * 31);
    assert_eq!(s.cleanup_old(30, now), 1);
    assert_eq!(s.cleanup_old(30, now), 0);
    assert_eq!(s.prune(30, false, now).len(), 3);
    assert!(s.prune(30, false, now).is_empty());
}

#[test]
fn direct_history_has_two_sides() {
    let mut s = store();
    for i in 0..6 {
        let (from, to) = if i % 2 == 0 { ("a", "@b") } else { ("b", "@a") };
        post(&mut s, from, to, &format!("{i}"), i);
        post(&mut s, from, "#ops", "to the channel", i);
        post(&mut s, from, "*", "to everyone", i);
        post(&mut s, "c", "@a", "from another", i);
    }
    for limit in [0, 1, 4, 6, 9] {
        let one = bodies(&s.history_dm("a", "b", limit, at(9)).ok().unwrap());
        let two = bodies(&s.history_dm("b", "a", limit, at(9)).ok().unwrap());
        assert_eq!(one, two);
        let all = ["0", "1", "2", "3", "4", "5"];
        assert_eq!(one, all[all.len() - limit.min(6)..].to_vec());
    }
    assert!(s.history_dm("new", "newer", 5, at(9)).ok().unwrap().is_empty());
}

#[test]
fn plain_text_before_markup_passes() {
    for body in ["**b** `c`", "[x](y) end", "```\na\n```", "** open", "\\*", ""] {
        let alone = render_markdown_inner(body, true);
        assert_eq!(render_markdown_inner(&format!("plain, {body}"), true), format!("plain, {alone}"));
    }
}

#[test]
fn decoding_undoes_encoding() {
    for text in ["", "a b+c%d", "é/ü?=&#", "100% \u{1f600}", "plain-._~"] {
        let mut upper = String::new();
        let mut lower = String::new();
        for byte in text.bytes() {
            if byte.is_ascii_alphanumeric() || b"-._~".contains(&byte) {
                upper.push(byte as char);
                lower.push(byte as char);
            } else {
                upper.push_str(&format!("%{byte:02X}"));
                lower.push_str(&format!("%{byte:02x}"));
            }
        }
        assert_eq!(percent_decode(&upper), text);
        assert_eq!(percent_decode(&lower), text);
    }
}

#[test]
fn searches_find_the_newest_first() {
    let mut s = store();
    post(&mut s, "a", "#ops", "Alpha", 1);
    post(&mut s, "a", "#ops", "beta", 2);
    post(&mut s, "a", "#ops", "alphabet", 3);
    assert_eq!(bodies(&s.search_messages("ALPHA", 9)), vec!["alphabet", "Alpha"]);
    assert_eq!(bodies(&s.search_messages("alpha", 1)), vec!["alphabet"]);
    assert!(s.search_messages("a%a", 9).is_empty());
    assert_eq!(s.search_messages("", 9).len(), 3);
    assert_eq!(bodies(&s.search_messages("_", 9)).len(), 0);
    post(&mut s, "a", "#c", "ΑΣ", 9);
    assert_eq!(bodies(&s.search_messages("Σ", 9)), vec!["ΑΣ"]);
    assert!(s.search_messages("σ", 9).is_empty());
    post(&mut s, "a", "#c", "zwei Äpfel", 9);
    assert_eq!(bodies(&s.search_messages("Äpfel", 9)), vec!["zwei Äpfel"]);
    assert_eq!(bodies(&s.search_messages("ZWEI ÄPFEL", 9)), vec!["zwei Äpfel"]);
    assert!(s.search_messages("äpfel", 9).is_empty());
}

#[test]
fn scheduled_messages_wait_for_their_time() {
    let mut s = store();
    let id = s.schedule("a", "@b", "later", None, None, at(10), at(1)).ok().unwrap();
    assert_eq!(s.list_scheduled("a").len(), 1);
    assert!(s.deliver_due(at(9)).ok().unwrap().is_empty());
    let done = s.deliver_due(at(10)).ok().unwrap();
    assert_eq!(done.len(), 1);
    assert_eq!((done[0].from.as_str(), done[0].body.as_str()), ("a", "later"));
    assert!(s.deliver_due(at(11)).ok().unwrap().is_empty());
    assert_eq!(read(&mut s, "b", false, 12).len(), 1);
    assert!(s.list_scheduled("a").is_empty());
    assert!(matches!(s.cancel(id, "a"), Err(StoreError::NoScheduled(n)) if n == id));
}

#[test]
fn cancelled_messages_are_not_sent() {
    let mut s = store();
    let id = s.schedule("a", "@b", "later", None, None, at(10), at(1)).ok().unwrap();
    let err = s.cancel(id, "b").err().unwrap();
    assert_eq!(err.message(), format!("pending scheduled message {id} not found"));
    assert!(s.cancel(id, "a").is_ok());
    assert!(s.deliver_due(at(10)).ok().unwrap().is_empty());
    let id = s.schedule("a", "@b", "later", None, None, at(10), at(1)).ok().unwrap();
    assert!(s.cancel(id, "master").is_ok());
}

#[test]
fn what_was_read_is_dropped_after_its_retention() {
    let mut s = store();
    let old = post(&mut s, "a", "@b", "old", 1);
    read(&mut s, "b", false, 2);
    post(&mut s, "a", "@b", "old and unread", 1);
    let reply = s
        .send_message("b", &Recipient::parse("@a"), "re", None, Some(old), at(86400 * 40))
        .ok()
        .unwrap();
    assert_eq!(s.cleanup_old(30, at(86400 * 40)), 1);
    assert!(matches!(s.inspect(old), Err(StoreError::NoMessage(n)) if n == old));
    assert_eq!(bodies(&read(&mut s, "b", false, 9)), vec!["old and unread"]);
    assert_eq!(s.inspect(reply).ok().unwrap().message.reply_to, None);
    assert_eq!(s.cleanup_old(30, at(86400 * 40)), 1);
}

#[test]
fn pruning_keeps_who_has_mail() {
    let mut s = store();
    s.ensure_agent("idle", at(1)).ok().unwrap();
    post(&mut s, "a", "@b", "hi", 1);
    let day = 86400;
    assert_eq!(s.prune(1, true, at(2 * day)), vec!["idle"]);
    assert_eq!(s.agent_names().len(), 4);
    assert_eq!(s.prune(1, false, at(2 * day)), vec!["idle"]);
    let mut names = s.agent_names();
    names.sort();
    assert_eq!(names, vec!["a", "b", "master"]);
}

#[test]
fn refused_posts_change_nothing() {
    let mut s = store();
    let to = Recipient::parse("two words");
    let err = s.send_message("a", &to, "x", None, None, at(1)).err().unwrap();
    assert!(matches!(err, StoreError::Name(_)));
    let to = Recipient::parse("@b");
    let err = s.send_message("a", &to, "x", None, Some(77), at(1)).err().unwrap();
    assert!(matches!(err, StoreError::UnknownReply));
    assert_eq!(s.agent_names(), vec!["master"]);
    assert_eq!(s.take_journal().len() > 0, true);
    assert!(s.take_journal().is_empty());
}

#[test]
fn full_tables_are_refused() {
    let mut t = Tables::empty();
    t.next_agent = i64::MAX;
    assert!(matches!(Store::open(t, at(0)), Err(OpenError::Full)));
    let mut t = Tables::empty();
    t.next_channel = i64::MAX;
    assert!(matches!(Store::open(t, at(0)), Err(OpenError::Full)));
    let mut t = Tables::empty();
    t.next_message = i64::MAX;
    t.next_scheduled = i64::MAX;
    t.next_session = i64::MAX;
    let mut s = Store::open(t, at(0)).ok().unwrap();
    let to = Recipient::parse("@b");
    let sent = s.send_message("a", &to, "x", None, None, at(1));
    assert_eq!(sent.err(), Some(StoreError::Full));
    let put = s.schedule("a", "@b", "x", None, None, at(2), at(1));
    assert_eq!(put.err(), Some(StoreError::Full));
    assert_eq!(s.open_session("a", at(1)).err(), Some(StoreError::Full));
    assert!(s.ensure_agent("a", at(1)).is_ok());
    assert!(s.join_channel("a", "ops", at(1)).is_ok());
    assert!(read(&mut s, "a", false, 2).is_empty());
}

#[test]
fn the_last_id_is_given_out() {
    let mut t = Tables::empty();
    t.next_message = i64::MAX - 1;
    let mut s = Store::open(t, at(0)).ok().unwrap();
    assert_eq!(post(&mut s, "a", "@b", "x", 1), i64::MAX - 1);
    s.take_journal();
    let to = Recipient::parse("@b");
    let sent = s.send_message("c", &to, "y", None, None, at(2));
    assert_eq!(sent.err(), Some(StoreError::Full));
    assert!(s.take_journal().is_empty());
    assert_eq!(bodies(&read(&mut s, "b", false, 3)), vec!["x"]);
}

#[test]
fn ids_are_asked_for_as_they_are_needed() {
    let mut t = Tables::empty();
    t.next_agent = i64::MAX - 2;
    let mut s = Store::open(t, at(0)).ok().unwrap();
    let full = Some(StoreError::Full);
    let general = Recipient::parse("#general");
    assert_eq!(s.history_dm("x", "y", 5, at(1)).err(), full);
    let sent = s.send_message("master", &general, "@x and @y", None, None, at(1));
    assert_eq!(sent.err(), full);
    let sent = s.send_message("x", &Recipient::parse("@y"), "hi", None, None, at(1));
    assert_eq!(sent.err(), full);
    post(&mut s, "master", "#general", "@x and @x and @master", 1);
    assert_eq!(s.ensure_agent("x", at(2)).ok(), Some(i64::MAX - 1));
    assert_eq!(s.ensure_agent("y", at(2)).err(), full);
    assert_eq!(s.join_channel("y", "ops", at(2)).err(), full);
    assert_eq!(s.open_session("y", at(2)).err(), full);
    assert_eq!(s.fetch_inbox("y", false, at(2)).err(), full);
    assert_eq!(s.history_dm("y", "y", 5, at(2)).err(), full);
    assert!(s.history_dm("x", "x", 5, at(2)).is_ok());
    post(&mut s, "x", "@master", "still here", 3);
    post(&mut s, "x", "#ops", "a new channel", 3);
}

#[test]
fn a_pass_without_ids_delivers_nothing() {
    let mut t = Tables::empty();
    t.next_message = i64::MAX - 2;
    let mut s = Store::open(t, at(0)).ok().unwrap();
    for body in ["one", "two", "three"] {
        s.schedule("a", "@b", body, None, None, at(5), at(1)).ok().unwrap();
    }
    s.take_journal();
    assert_eq!(s.deliver_due(at(5)).err(), Some(StoreError::Full));
    assert!(s.take_journal().is_empty());
    s.cancel(2, "a").ok().unwrap();
    let done = s.deliver_due(at(5)).ok().unwrap();
    assert_eq!(done.len(), 2);
    assert_eq!(bodies(&read(&mut s, "b", false, 6)), vec!["one", "three"]);
}

#[test]
fn a_pass_delivers_all_that_is_due() {
    let mut s = store();
    for i in 0..250 {
        let due = at(10 + (i * 7) % 40);
        s.schedule("a", "@b", &format!("n{i}"), None, None, due, at(1)).ok().unwrap();
    }
    s.schedule("a", "@b", "later", None, None, at(61), at(1)).ok().unwrap();
    let done = s.deliver_due(at(60)).ok().unwrap();
    assert_eq!(done.len(), 250);
    assert_eq!(done[0].body, "n0");
    assert_eq!(done[1].body, "n40");
    assert_eq!(s.status_counts().3, 1);
    assert!(s.deliver_due(at(60)).ok().unwrap().is_empty());
    assert_eq!(s.deliver_due(at(61)).ok().unwrap().len(), 1);
}

#[test]
fn a_pass_may_reply_to_what_it_delivered() {
    let mut s = store();
    s.schedule("a", "@b", "first", None, None, at(5), at(1)).ok().unwrap();
    s.schedule("b", "@a", "second", None, Some(1), at(6), at(1)).ok().unwrap();
    let done = s.deliver_due(at(9)).ok().unwrap();
    assert_eq!((done[0].message_id, done[1].message_id), (1, 2));
    assert_eq!(read(&mut s, "a", false, 10)[0].reply_to, Some(1));
    s.schedule("b", "@a", "to nothing", None, Some(9), at(11), at(10)).ok().unwrap();
    assert_eq!(s.deliver_due(at(11)).err(), Some(StoreError::UnknownReply));
}

#[test]
fn unreadable_schedules_fail_and_others_are_delivered() {
    let mut t = Tables::empty();
    t.next_scheduled = 2;
    t.scheduled.push(ScheduledEntry {
        id: 1,
        payload: None,
        deliver_at: at(1),
        created_at: at(1),
        status: ScheduledStatus::Pending,
    });
    let mut s = Store::open(t, at(0)).ok().unwrap();
    s.schedule("a", "@b", "later", None, None, at(2), at(1)).ok().unwrap();
    assert_eq!(s.deliver_due(at(3)).ok().unwrap().len(), 1);
    assert!(s.deliver_due(at(3)).ok().unwrap().is_empty());
    assert_eq!(s.status_counts().3, 0);
}

#[test]
fn sessions_are_opened_and_closed() {
    let mut s = store();
    let one = s.open_session("a", at(1)).ok().unwrap();
    s.open_session("b", at(1)).ok().unwrap();
    let list = s.list_agents_detailed(true, 7, at(2));
    let a = list.iter().find(|x| x.name == "a").unwrap();
    assert_eq!(a.active_sessions, 1);
    s.close_session(one, at(2));
    assert_eq!(s.close_dangling_sessions(at(3)), 1);
    assert_eq!(s.close_dangling_sessions(at(3)), 0);
    let session = Session { id: 1, agent: 1, started_at: at(0), ended_at: None };
    assert!(session.ended_at.is_none());
}

#[test]
fn stale_agents_are_hidden() {
    let mut s = store();
    s.ensure_agent("old", at(1)).ok().unwrap();
    s.ensure_agent("new", at(86400 * 8)).ok().unwrap();
    let now = at(86400 * 8);
    let names: Vec<String> =
        s.list_agents_detailed(false, 7, now).into_iter().map(|a| a.name).collect();
    assert_eq!(names, vec!["new"]);
    assert_eq!(s.list_agents_detailed(true, 7, now).len(), 3);
}

#[test]
fn channels_are_counted() {
    let mut s = store();
    s.join_channel("a", "ops", at(1)).ok().unwrap();
    s.join_channel("a", "ops", at(2)).ok().unwrap();
    post(&mut s, "a", "#ops", "x", 5);
    post(&mut s, "a", "#ops", "y", 4);
    let list = s.channels_detailed();
    let ops = list.iter().find(|c| c.name == "ops").unwrap();
    assert_eq!(ops.member_count, 1);
    assert_eq!(ops.last_message_at.unwrap().secs, 5);
    assert_eq!(s.list_channels(), vec!["general", "ops"]);
    let rows = s.list_agents();
    assert_eq!((rows[0].name.as_str(), rows[0].display_name.as_deref()), ("master", Some("master")));
    assert_eq!((rows[1].id, rows[1].name.as_str(), rows[1].display_name.as_deref()), (2, "a", None));
    s.leave_channel("a", "ops");
    s.leave_channel("nobody", "nowhere");
    let counts = s.status_counts();
    assert_eq!(counts, (2, 2, 0, 0));
}

#[test]
fn details_of_a_history() {
    let mut s = store();
    s.join_channel("b", "ops", at(1)).ok().unwrap();
    post(&mut s, "a", "#ops", "x", 2);
    read(&mut s, "b", false, 3);
    let list = s.history_detailed("ops", 5);
    assert_eq!(list.len(), 1);
    assert_eq!(list[0].deliveries.len(), 1);
    assert_eq!(list[0].deliveries[0].agent, "b");
    assert_eq!(list[0].deliveries[0].read_at.unwrap().secs, 3);
}

#[test]
fn sorting_keeps_equals_in_place() {
    let items = vec![
        Keyed { key: 2, at: 0 },
        Keyed { key: 1, at: 1 },
        Keyed { key: 2, at: 2 },
        Keyed { key: 1, at: 3 },
    ];
    let rows: Vec<usize> = sort_keyed(&items).iter().map(|k| k.at).collect();
    assert_eq!(rows, vec![1, 3, 0, 2]);
}

// ---- the daemon ----

fn daemon() -> Daemon {
    match Daemon::start(Tables::empty(), at(0)) {
        Ok(started) => started.daemon,
        Err(_) => panic!("refused"),
    }
}

fn ask(d: &mut Daemon, who: &str, op: Op) -> Response {
    let s = Surroundings {
        now: at(100),
        uptime_seconds: 1,
        db_path: String::new(),
        socket_path: String::new(),
    };
    match d.dispatch(&s, who, &Request { id: 1, op }) {
        Step::Answer { response, .. } => response,
        Step::Wait { .. } => panic!("a wait"),
    }
}

fn send(to: &str) -> Op {
    Op::Send { to: to.to_string(), body: "x".to_string(), intent: None, reply_to: None }
}

#[test]
fn a_paused_daemon_refuses_sends() {
    let mut d = daemon();
    assert!(ask(&mut d, "master", Op::Pause).ok);
    let r = ask(&mut d, "master", send("@b"));
    assert_eq!(r.error.as_deref(), Some("daemon is paused; resume with `sidebar resume`"));
    assert!(d.is_paused());
    assert!(ask(&mut d, "master", Op::Resume).ok);
    assert!(ask(&mut d, "master", send("@b")).ok);
}

#[test]
fn what_is_due_while_paused_waits_for_the_resume() {
    let mut d = daemon();
    for i in 0..150 {
        let op = Op::Schedule {
            to: "@b".to_string(),
            body: format!("n{i}"),
            when: When::At { at: at(101) },
        };
        assert!(ask(&mut d, "a", op).ok);
    }
    assert!(ask(&mut d, "master", Op::Pause).ok);
    assert!(d.tick(at(200)).ok().unwrap().is_empty());
    assert!(ask(&mut d, "master", Op::Resume).ok);
    assert_eq!(d.tick(at(200)).ok().unwrap().len(), 150);
    assert!(d.tick(at(201)).ok().unwrap().is_empty());
}

#[test]
fn refused_requests_change_nothing() {
    let mut d = daemon();
    d.take_journal();
    for op in [
        send("@two words"),
        Op::History { channel: None, with: None, limit: 5 },
        Op::History { channel: Some("c".to_string()), with: None, limit: 1001 },
        Op::Search { query: "q".repeat(257), limit: 5 },
        Op::Join { channel: String::new() },
        Op::Inspect { message_id: 5 },
        Op::Cancel { scheduled_id: 5 },
        Op::Schedule {
            to: "@b".to_string(),
            body: "x".to_string(),
            when: When::DelaySeconds { delay_seconds: u64::MAX },
        },
    ] {
        let r = ask(&mut d, "master", op);
        assert!(!r.ok && r.error.is_some() && r.data.is_none());
        assert!(d.take_journal().is_empty());
    }
}

#[test]
fn waits_are_bounded() {
    assert_eq!(inbox_wait(None), 0);
    assert_eq!(inbox_wait(Some(5)), 5);
    assert_eq!(inbox_wait(Some(u64::MAX)), 300_000);
}

#[test]
fn delivery_times_are_bounded() {
    let now = at(1000);
    let year = 365 * 86400;
    let delay = |s: u64| delivery_time(When::DelaySeconds { delay_seconds: s }, now);
    assert_eq!(delay(5).unwrap().secs, 1005);
    assert_eq!(delay(year).unwrap().secs, 1000 + year as i64);
    assert!(delay(year + 1).is_none());
    assert_eq!(delivery_time(When::At { at: at(1) }, now).unwrap().secs, 1);
    assert!(delivery_time(When::At { at: at(1001 + year as i64) }, now).is_none());
}

#[test]
fn names_are_given_once() {
    let mut d = daemon();
    assert_eq!(d.reserve_unique_name("a"), "a");
    assert_eq!(d.reserve_unique_name("a"), "a-2");
    assert_eq!(d.reserve_unique_name("a"), "a-3");
    d.release_name("a-2");
    assert_eq!(d.reserve_unique_name("a"), "a-2");
    d.release_name("a");
    assert_eq!(d.reserve_unique_name("a"), "a");
}

#[test]
fn starting_again_changes_nothing() {
    let mut d = daemon();
    let hello = Hello::Mcp { agent: "a".to_string(), version: String::new() };
    let who = d.greet(&hello, at(1)).unwrap();
    assert!(ask(&mut d, &who.agent, send("@b")).ok);
    assert_eq!(d.stop(at(2)), 1);
    assert_eq!(d.clean_up(at(3)), 0);
    match ask(&mut d, "master", Op::Participants).data {
        Some(ResponseData::Agents { agents }) => assert_eq!(agents.len(), 3),
        _ => panic!("no agents"),
    }
}

// ---- formats ----

#[test]
fn plain_texts_are_unchanged() {
    let text = "nothing special here, really: 1 + 2 = 3!";
    assert_eq!(render_markdown_inner(text, true), text);
    assert_eq!(percent_decode("plain-text_1.0"), "plain-text_1.0");
    assert_eq!(percent_decode("schön & gut"), "schön & gut");
}

#[test]
fn more_bytes_change_no_request() {
    let whole = b"GET /a HTTP/1.1\r\nContent-Length: 1\r\n\r\nx".to_vec();
    let mut longer = whole.clone();
    longer.extend_from_slice(b"trailing");
    match (parse_request(&whole), parse_request(&longer)) {
        (Parsed::Done(a), Parsed::Done(b)) => {
            assert_eq!((a.path, a.body), (b.path, b.body));
        }
        _ => panic!("not read"),
    }
}

#[test]
fn intervals_are_read_back() {
    for text in ["5", "30s", "60m", "1h", "0007"] {
        let (human, secs) = parse_interval(text).unwrap();
        assert_eq!(parse_interval(&human), Some((human.clone(), secs)));
    }
}

#[test]
fn mentions_are_found_once_each() {
    let list = extract_mentions("@a @b @a\t@c @b");
    assert_eq!(list, vec!["a", "b", "c"]);
}

#[test]
fn columns_are_read_back() {
    for target in [Target::Agent(3), Target::Channel(4), Target::Broadcast] {
        let (to_agent, to_channel, is_broadcast) = target_columns(target);
        assert_eq!(row_target(to_agent, to_channel, is_broadcast), target);
    }
    assert_eq!(row_target(None, None, 0), Target::Broadcast);
    assert_eq!(row_target(Some(1), Some(2), 0), Target::Channel(2));
    for status in [
        ScheduledStatus::Pending,
        ScheduledStatus::Delivered,
        ScheduledStatus::Failed,
        ScheduledStatus::Cancelled,
    ] {
        assert_eq!(row_status(status_word(status)), status);
    }
    assert_eq!(row_status("lost"), ScheduledStatus::Cancelled);
    assert_eq!(row_intent(&Some("task".to_string())), Some(Intent::Task));
    assert_eq!(row_intent(&Some("other".to_string())), None);
    assert_eq!(row_intent(&None), None);
}

#[test]
fn tools_ask_for_a_clear_time() {
    let asked = |delay: Option<u64>, at: Option<&str>| {
        schedule_asked("@b".to_string(), "x".to_string(), delay, &at.map(|t| t.to_string()))
    };
    match asked(Some(5), None) {
        Ok(Op::Schedule { to, body, when }) => {
            assert_eq!((to.as_str(), body.as_str()), ("@b", "x"));
            assert_eq!(when, When::DelaySeconds { delay_seconds: 5 });
        }
        _ => panic!("not asked"),
    }
    match asked(None, Some("1970-01-01T00:00:07Z")) {
        Ok(Op::Schedule { when, .. }) => assert_eq!(when, When::At { at: at(7) }),
        _ => panic!("not asked"),
    }
    assert_eq!(
        asked(Some(5), Some("soon")).unwrap_err(),
        "provide either `delay_seconds` or `at`, not both"
    );
    assert_eq!(asked(None, None).unwrap_err(), "either `delay_seconds` or `at` is required");
    assert!(asked(None, Some("soon")).unwrap_err().starts_with("invalid `at` timestamp: "));
}

#[test]
fn tools_pass_over_unknown_intents() {
    let intent = |word: &str| {
        let word = Some(word.to_string());
        match send_asked("@b".to_string(), "x".to_string(), &word, Some(4)) {
            Op::Send { intent, reply_to, .. } => {
                assert_eq!(reply_to, Some(4));
                intent
            }
            _ => panic!("no send"),
        }
    };
    assert_eq!(intent("handoff"), Some(Intent::Handoff));
    assert_eq!(intent("urgent"), None);
}
