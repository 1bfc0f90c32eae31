//! Tables and summaries, to the letter.

use sidebar::clock::Timestamp;
use sidebar::proto::{AgentDetails, ChannelDetails, Event, StatusInfo};
use sidebar::report::{
    agents_table, channels_table, detail_text, event_line, list_text, prunable_text,
    scheduled_table, status_text, DeliveryText, ScheduledText,
};
use sidebar::types::{Intent, Message, Recipient};

fn s(text: &str) -> String {
    text.to_string()
}

fn at(secs: i64) -> Timestamp {
    Timestamp { secs, nanos: 0 }
}

#[test]
fn agents_stand_in_columns() {
    let agent = |name: &str, seen: i64| AgentDetails {
        name: s(name),
        first_seen: at(0),
        last_seen: at(seen),
        active_sessions: 0,
    };
    let list = vec![agent("al", 990), agent("barbara", 100)];
    assert_eq!(
        agents_table(&list, &at(1000), "nobody"),
        "NAME     last seen\nal       10s ago\nbarbara  15m ago\n"
    );
    assert_eq!(agents_table(&Vec::new(), &at(1000), "nobody"), "nobody\n");
}

#[test]
fn channels_stand_in_columns() {
    let list = vec![
        ChannelDetails {
            name: s("general"),
            created_at: at(0),
            member_count: 12,
            last_message_at: Some(at(999)),
        },
        ChannelDetails { name: s("a"), created_at: at(0), member_count: 0, last_message_at: None },
    ];
    assert_eq!(
        channels_table(&list, &at(1000)),
        "CHANNEL   members  last activity\n#general       12  just now\n#a              0  —\n"
    );
    assert_eq!(channels_table(&Vec::new(), &at(1000)), "(no channels)\n");
}

#[test]
fn the_state_is_told() {
    let info = StatusInfo {
        paused: true,
        agent_count: 1,
        channel_count: 2,
        unread_count: 3,
        pending_scheduled: 4,
        uptime_seconds: 7384,
        db_path: s("/h/sidebar.db"),
        socket_path: s("/h/sidebar.sock"),
    };
    assert_eq!(
        status_text(&info),
        "daemon:      running\nuptime:      2h 3m 4s\npaused:      true\nagents:      1\nchannels:    2\nunread msgs: 3\nscheduled:   4 pending\nsocket:      /h/sidebar.sock\ndb:          /h/sidebar.db\n"
    );
}

#[test]
fn a_message_is_told_in_detail() {
    let m = Message {
        id: 7,
        from: s("a"),
        to: Recipient::Channel(s("ops")),
        body: s("one\ntwo"),
        intent: Some(Intent::Task),
        reply_to: Some(3),
        created_at: at(0),
    };
    let list = vec![
        DeliveryText { agent: s("bob"), delivered: Some(s("12:00:00")), read: Some(s("12:01:00")) },
        DeliveryText { agent: s("al"), delivered: None, read: None },
    ];
    assert_eq!(
        detail_text(&m, "T", &list, true),
        "message 7 — a → #ops at T\nintent: Task\nreply_to: 3\nbody:\n  one\n  two\n\ndeliveries:\n  bob  delivered 12:00:00  read 12:01:00\n  al   delivered (undelivered)  unread\n"
    );
    assert_eq!(
        detail_text(&m, "T", &Vec::new(), false),
        "message 7 — a → #ops at T\nbody:\n  one\n  two\n"
    );
    assert!(detail_text(&m, "T", &Vec::new(), true)
        .ends_with("\n\n(no deliveries — message went nowhere)\n"));
}

#[test]
fn scheduled_messages_stand_in_columns() {
    let list = vec![ScheduledText {
        id: 4,
        time: s("T"),
        from: s("a"),
        to: s("@b"),
        body: "x".repeat(50),
    }];
    assert_eq!(
        scheduled_table(&list),
        format!(
            "ID    FIRES                       FROM → TO         BODY\n4     T  a → @b  {}\n",
            "x".repeat(40)
        )
    );
    assert_eq!(scheduled_table(&Vec::new()), "(no pending scheduled messages)\n");
}

#[test]
fn lists_are_told() {
    let names = vec![s("a"), s("b")];
    assert_eq!(list_text("#", &names), "#a\n#b\n");
    assert_eq!(
        prunable_text(&names),
        "would prune 2 agent(s) (use without --dry-run to apply):\n  a\n  b\n"
    );
    assert_eq!(prunable_text(&Vec::new()), "(no inactive agents would be pruned)\n");
    assert_eq!(event_line("T", &Event::Paused), "[T] (paused)");
    assert_eq!(event_line("T", &Event::Resumed), "[T] (resumed)");
}
