//! What the daemon and its clients say to each other: one frame per line.

use vstd::prelude::*;

use crate::clock::Timestamp;
use crate::types::{
    opt_text, texts, views, Intent, Message, MessageView, Recipient, RecipientView,
};

verus! {

/// The first frame of a connection.
#[derive(Clone, Debug)]
pub enum Hello {
    Mcp { agent: String, version: String },
    Cli { speaking_as: String },
}

/// The answer to a hello: the name that the daemon assigned. A session whose name is in use
/// gets it with a suffix.
#[derive(Clone, Debug)]
pub struct HelloAck {
    pub agent: String,
}

/// A request. The answer carries its id.
#[derive(Clone, Debug)]
pub struct Request {
    pub id: u64,
    pub op: Op,
}

/// What is asked for.
#[derive(Clone, Debug)]
pub enum Op {
    Send { to: String, body: String, intent: Option<Intent>, reply_to: Option<i64> },
    /// With `mentions_only`, only messages to the caller itself, and those to channels or to
    /// everyone that mention it.
    Inbox { wait_ms: Option<u64>, mentions_only: bool },
    History { channel: Option<String>, with: Option<String>, limit: usize },
    /// A channel's history, with the deliveries of each message.
    HistoryDetailed { channel: String, limit: usize },
    Schedule { to: String, body: String, when: When },
    Participants,
    /// Agents with the times at which they were seen. Stale ones are hidden by default.
    Agents { include_stale: bool },
    Channels,
    /// Channels with their member counts and the time of their last message.
    ChannelsDetailed,
    Join { channel: String },
    Leave { channel: String },
    Pause,
    Resume,
    /// From here on the connection receives every event.
    Subscribe,
    Status,
    Search { query: String, limit: usize },
    /// Removes agents that were not seen for so many days and have no messages. A dry run
    /// only names them.
    Prune { inactive_days: i64, dry_run: bool },
    /// A message with its deliveries.
    Inspect { message_id: i64 },
    /// The pending scheduled messages that the caller may handle.
    Scheduled,
    Cancel { scheduled_id: i64 },
}

/// Days without which an agent is pruned, where a request names none.
pub const DEFAULT_PRUNE_DAYS: i64 = 30;

/// Results of a search, where a request names no limit.
pub const DEFAULT_SEARCH_LIMIT: usize = 50;

/// Results of a history request that names no limit.
pub const DEFAULT_LIMIT: usize = 50;

/// When a scheduled message is due.
#[derive(Clone, Copy, Debug, PartialEq, Eq, Structural)]
pub enum When {
    DelaySeconds { delay_seconds: u64 },
    At { at: Timestamp },
}

/// The answer to a request: data, or an error.
#[derive(Clone, Debug)]
pub struct Response {
    pub id: u64,
    pub ok: bool,
    pub error: Option<String>,
    pub data: Option<ResponseData>,
}

/// The data of an answer.
#[derive(Clone, Debug)]
pub enum ResponseData {
    SendOk { message_id: i64 },
    Messages { messages: Vec<Message> },
    MessagesDetailed { messages_detailed: Vec<MessageWithDelivery> },
    Agents { agents: Vec<String> },
    AgentsDetailed { agents_detailed: Vec<AgentDetails> },
    Channels { channels: Vec<String> },
    ChannelsDetailed { channels_detailed: Vec<ChannelDetails> },
    Status(StatusInfo),
    Scheduled { scheduled: Vec<ScheduledRow> },
    MessageDetail(MessageDetail),
}

/// A message with its deliveries.
#[derive(Clone, Debug)]
pub struct MessageDetail {
    pub message: Message,
    pub deliveries: Vec<MessageDelivery>,
}

/// A message of a history with its deliveries.
#[derive(Clone, Debug)]
pub struct MessageWithDelivery {
    pub message: Message,
    pub deliveries: Vec<MessageDelivery>,
}

/// The delivery of a message to one agent.
#[derive(Clone, Debug)]
pub struct MessageDelivery {
    pub agent: String,
    pub delivered_at: Option<Timestamp>,
    pub read_at: Option<Timestamp>,
}

/// A pending scheduled message.
#[derive(Clone, Debug)]
pub struct ScheduledRow {
    pub id: i64,
    pub from: String,
    pub to: String,
    pub body: String,
    pub deliver_at: Timestamp,
    pub created_at: Timestamp,
}

/// An agent, when it was seen, and how many sessions it has open.
#[derive(Clone, Debug)]
pub struct AgentDetails {
    pub name: String,
    pub first_seen: Timestamp,
    pub last_seen: Timestamp,
    pub active_sessions: i64,
}

/// A channel, how many members it has, and when its last message was sent.
#[derive(Clone, Debug)]
pub struct ChannelDetails {
    pub name: String,
    pub created_at: Timestamp,
    pub member_count: i64,
    pub last_message_at: Option<Timestamp>,
}

/// The daemon's state.
#[derive(Clone, Debug)]
pub struct StatusInfo {
    pub paused: bool,
    pub agent_count: i64,
    pub channel_count: i64,
    pub unread_count: i64,
    pub pending_scheduled: i64,
    pub uptime_seconds: i64,
    pub db_path: String,
    pub socket_path: String,
}

/// What the daemon tells its subscribers.
#[derive(Clone, Debug)]
pub enum Event {
    Message { to: Recipient, from: String, body: String, message_id: i64 },
    Paused,
    Resumed,
}

// ---- views ----

/// What is asked for, with its texts as sequences of characters.
pub enum OpView {
    Send(Seq<char>, Seq<char>, Option<Intent>, Option<i64>),
    Inbox(Option<u64>, bool),
    History(Option<Seq<char>>, Option<Seq<char>>, usize),
    HistoryDetailed(Seq<char>, usize),
    Schedule(Seq<char>, Seq<char>, When),
    Participants,
    Agents(bool),
    Channels,
    ChannelsDetailed,
    Join(Seq<char>),
    Leave(Seq<char>),
    Pause,
    Resume,
    Subscribe,
    Status,
    Search(Seq<char>, usize),
    Prune(i64, bool),
    Inspect(i64),
    Scheduled,
    Cancel(i64),
}

impl View for Op {
    type V = OpView;

    open spec fn view(&self) -> OpView {
        match *self {
            Op::Send { to, body, intent, reply_to } => OpView::Send(to@, body@, intent, reply_to),
            Op::Inbox { wait_ms, mentions_only } => OpView::Inbox(wait_ms, mentions_only),
            Op::History { channel, with, limit } => OpView::History(
                opt_text(channel),
                opt_text(with),
                limit,
            ),
            Op::HistoryDetailed { channel, limit } => OpView::HistoryDetailed(channel@, limit),
            Op::Schedule { to, body, when } => OpView::Schedule(to@, body@, when),
            Op::Participants => OpView::Participants,
            Op::Agents { include_stale } => OpView::Agents(include_stale),
            Op::Channels => OpView::Channels,
            Op::ChannelsDetailed => OpView::ChannelsDetailed,
            Op::Join { channel } => OpView::Join(channel@),
            Op::Leave { channel } => OpView::Leave(channel@),
            Op::Pause => OpView::Pause,
            Op::Resume => OpView::Resume,
            Op::Subscribe => OpView::Subscribe,
            Op::Status => OpView::Status,
            Op::Search { query, limit } => OpView::Search(query@, limit),
            Op::Prune { inactive_days, dry_run } => OpView::Prune(inactive_days, dry_run),
            Op::Inspect { message_id } => OpView::Inspect(message_id),
            Op::Scheduled => OpView::Scheduled,
            Op::Cancel { scheduled_id } => OpView::Cancel(scheduled_id),
        }
    }
}

/// A delivery, with the agent's name as a sequence of characters.
pub struct MessageDeliveryView {
    pub agent: Seq<char>,
    pub delivered_at: Option<Timestamp>,
    pub read_at: Option<Timestamp>,
}

impl View for MessageDelivery {
    type V = MessageDeliveryView;

    open spec fn view(&self) -> MessageDeliveryView {
        MessageDeliveryView {
            agent: self.agent@,
            delivered_at: self.delivered_at,
            read_at: self.read_at,
        }
    }
}

/// A message with its deliveries, as views.
pub struct MessageDetailView {
    pub message: MessageView,
    pub deliveries: Seq<MessageDeliveryView>,
}

impl View for MessageDetail {
    type V = MessageDetailView;

    open spec fn view(&self) -> MessageDetailView {
        MessageDetailView { message: self.message@, deliveries: views(self.deliveries@) }
    }
}

impl View for MessageWithDelivery {
    type V = MessageDetailView;

    open spec fn view(&self) -> MessageDetailView {
        MessageDetailView { message: self.message@, deliveries: views(self.deliveries@) }
    }
}

/// A pending scheduled message, with its texts as sequences of characters.
pub struct ScheduledRowView {
    pub id: i64,
    pub from: Seq<char>,
    pub to: Seq<char>,
    pub body: Seq<char>,
    pub deliver_at: Timestamp,
    pub created_at: Timestamp,
}

impl View for ScheduledRow {
    type V = ScheduledRowView;

    open spec fn view(&self) -> ScheduledRowView {
        ScheduledRowView {
            id: self.id,
            from: self.from@,
            to: self.to@,
            body: self.body@,
            deliver_at: self.deliver_at,
            created_at: self.created_at,
        }
    }
}

/// An agent's details, with its name as a sequence of characters.
pub struct AgentDetailsView {
    pub name: Seq<char>,
    pub first_seen: Timestamp,
    pub last_seen: Timestamp,
    pub active_sessions: i64,
}

impl View for AgentDetails {
    type V = AgentDetailsView;

    open spec fn view(&self) -> AgentDetailsView {
        AgentDetailsView {
            name: self.name@,
            first_seen: self.first_seen,
            last_seen: self.last_seen,
            active_sessions: self.active_sessions,
        }
    }
}

/// A channel's details, with its name as a sequence of characters.
pub struct ChannelDetailsView {
    pub name: Seq<char>,
    pub created_at: Timestamp,
    pub member_count: i64,
    pub last_message_at: Option<Timestamp>,
}

impl View for ChannelDetails {
    type V = ChannelDetailsView;

    open spec fn view(&self) -> ChannelDetailsView {
        ChannelDetailsView {
            name: self.name@,
            created_at: self.created_at,
            member_count: self.member_count,
            last_message_at: self.last_message_at,
        }
    }
}

/// The daemon's state, with its texts as sequences of characters.
pub struct StatusView {
    pub paused: bool,
    pub agent_count: i64,
    pub channel_count: i64,
    pub unread_count: i64,
    pub pending_scheduled: i64,
    pub uptime_seconds: i64,
    pub db_path: Seq<char>,
    pub socket_path: Seq<char>,
}

impl View for StatusInfo {
    type V = StatusView;

    open spec fn view(&self) -> StatusView {
        StatusView {
            paused: self.paused,
            agent_count: self.agent_count,
            channel_count: self.channel_count,
            unread_count: self.unread_count,
            pending_scheduled: self.pending_scheduled,
            uptime_seconds: self.uptime_seconds,
            db_path: self.db_path@,
            socket_path: self.socket_path@,
        }
    }
}

/// An event, with its texts as sequences of characters.
pub enum EventView {
    Message { to: RecipientView, from: Seq<char>, body: Seq<char>, message_id: i64 },
    Paused,
    Resumed,
}

impl View for Event {
    type V = EventView;

    open spec fn view(&self) -> EventView {
        match *self {
            Event::Message { to, from, body, message_id } => EventView::Message {
                to: to@,
                from: from@,
                body: body@,
                message_id,
            },
            Event::Paused => EventView::Paused,
            Event::Resumed => EventView::Resumed,
        }
    }
}

/// The data of an answer, as views.
pub enum DataView {
    SendOk(i64),
    Messages(Seq<MessageView>),
    MessagesDetailed(Seq<MessageDetailView>),
    Agents(Seq<Seq<char>>),
    AgentsDetailed(Seq<AgentDetailsView>),
    Channels(Seq<Seq<char>>),
    ChannelsDetailed(Seq<ChannelDetailsView>),
    Status(StatusView),
    Scheduled(Seq<ScheduledRowView>),
    MessageDetail(MessageDetailView),
}

impl View for ResponseData {
    type V = DataView;

    open spec fn view(&self) -> DataView {
        match *self {
            ResponseData::SendOk { message_id } => DataView::SendOk(message_id),
            ResponseData::Messages { messages } => DataView::Messages(views(messages@)),
            ResponseData::MessagesDetailed { messages_detailed } => DataView::MessagesDetailed(
                views(messages_detailed@),
            ),
            ResponseData::Agents { agents } => DataView::Agents(texts(agents@)),
            ResponseData::AgentsDetailed { agents_detailed } => DataView::AgentsDetailed(
                views(agents_detailed@),
            ),
            ResponseData::Channels { channels } => DataView::Channels(texts(channels@)),
            ResponseData::ChannelsDetailed { channels_detailed } => DataView::ChannelsDetailed(
                views(channels_detailed@),
            ),
            ResponseData::Status(info) => DataView::Status(info@),
            ResponseData::Scheduled { scheduled } => DataView::Scheduled(views(scheduled@)),
            ResponseData::MessageDetail(detail) => DataView::MessageDetail(detail@),
        }
    }
}

/// An answer, as views.
pub struct ResponseView {
    pub id: u64,
    pub ok: bool,
    pub error: Option<Seq<char>>,
    pub data: Option<DataView>,
}

/// The view of optional data.
pub open spec fn data_view(data: Option<ResponseData>) -> Option<DataView> {
    match data {
        Some(d) => Some(d@),
        None => None,
    }
}

impl View for Response {
    type V = ResponseView;

    open spec fn view(&self) -> ResponseView {
        ResponseView {
            id: self.id,
            ok: self.ok,
            error: opt_text(self.error),
            data: data_view(self.data),
        }
    }
}

/// The answer that a result makes: its data, or the words for its error.
pub open spec fn answer(id: u64, r: Result<DataView, Seq<char>>) -> ResponseView {
    match r {
        Ok(data) => ResponseView { id, ok: true, error: None, data: Some(data) },
        Err(words) => ResponseView { id, ok: false, error: Some(words), data: None },
    }
}

impl Response {
    /// The answer that a result makes: its data, or the words for its error.
    pub fn of(id: u64, r: Result<ResponseData, String>) -> (response: Response)
        ensures
            response@ == answer(
                id,
                match r {
                    Ok(data) => Ok(data@),
                    Err(words) => Err(words@),
                },
            ),
    {
        match r {
            Ok(data) => Response { id, ok: true, error: None, data: Some(data) },
            Err(words) => Response { id, ok: false, error: Some(words), data: None },
        }
    }
}

} // verus!
