//! The local console: which request asks for what.

use vstd::prelude::*;

use crate::http::{pairs_from, query_param, value_in, HttpRequest, RequestView};
use crate::limits::DEFAULT_CHANNEL;
use crate::proto::{Op, OpView, Response};
use crate::text::{
    chars_of, parse_signed, parse_unsigned, parsed_signed, parsed_unsigned, same, string_of, trim,
    trimmed,
};
use crate::types::Intent;

verus! {

/// Messages that a history shows, where a request names no number.
pub const CONSOLE_LIMIT: usize = 100;

/// What a request asks for.
#[derive(Clone, Debug)]
pub enum Route {
    Page,
    Health,
    Status,
    Agents,
    Channels,
    Inspect { message_id: i64 },
    History { channel: String, limit: usize, detailed: bool },
    Send,
    NotFound,
}

/// What a request asks for, with its texts as sequences of characters.
pub enum RouteView {
    Page,
    Health,
    Status,
    Agents,
    Channels,
    Inspect(i64),
    History(Seq<char>, usize, bool),
    Send,
    NotFound,
}

impl View for Route {
    type V = RouteView;

    open spec fn view(&self) -> RouteView {
        match *self {
            Route::Page => RouteView::Page,
            Route::Health => RouteView::Health,
            Route::Status => RouteView::Status,
            Route::Agents => RouteView::Agents,
            Route::Channels => RouteView::Channels,
            Route::Inspect { message_id } => RouteView::Inspect(message_id),
            Route::History { channel, limit, detailed } => RouteView::History(
                channel@,
                limit,
                detailed,
            ),
            Route::Send => RouteView::Send,
            Route::NotFound => RouteView::NotFound,
        }
    }
}

/// Where single messages are found.
pub const MESSAGE_PATH: &'static str = "/api/messages/";

/// The number that a path names behind [`MESSAGE_PATH`], if it names one.
pub open spec fn named_message(path: Seq<char>) -> Option<int> {
    if MESSAGE_PATH@.is_prefix_of(path) {
        parsed_signed(path.skip(MESSAGE_PATH@.len() as int))
    } else {
        None
    }
}

/// The value of a query's pair.
pub open spec fn param(query: Seq<char>, name: Seq<char>) -> Option<Seq<char>> {
    value_in(pairs_from(query, 0), name)
}

/// The history that a query asks for: of the default channel and of so many messages where
/// it names none.
pub open spec fn asked_history(query: Seq<char>) -> RouteView {
    RouteView::History(
        match param(query, "channel"@) {
            Some(c) => c,
            None => DEFAULT_CHANNEL@,
        },
        match param(query, "limit"@) {
            Some(n) => match parsed_unsigned(n, usize::MAX as nat) {
                Some(n) => n as usize,
                None => CONSOLE_LIMIT,
            },
            None => CONSOLE_LIMIT,
        },
        param(query, "include_delivery"@) == Some("1"@),
    )
}

/// What a request asks for.
pub open spec fn asked(r: RequestView) -> RouteView {
    if r.method == "GET"@ {
        match named_message(r.path) {
            Some(id) => RouteView::Inspect(id as i64),
            None => if r.path == "/"@ {
                RouteView::Page
            } else if r.path == "/healthz"@ {
                RouteView::Health
            } else if r.path == "/api/status"@ {
                RouteView::Status
            } else if r.path == "/api/agents"@ {
                RouteView::Agents
            } else if r.path == "/api/channels"@ {
                RouteView::Channels
            } else if r.path == "/api/messages"@ {
                asked_history(r.query)
            } else {
                RouteView::NotFound
            },
        }
    } else if r.method == "POST"@ && r.path == "/api/messages"@ {
        RouteView::Send
    } else {
        RouteView::NotFound
    }
}

/// What stands behind a prefix of a text, if it has that prefix.
fn behind(s: &str, prefix: &str) -> (r: Option<String>)
    ensures
        match r {
            Some(rest) => prefix@.is_prefix_of(s@) && rest@ == s@.skip(prefix@.len() as int),
            None => !prefix@.is_prefix_of(s@),
        },
{
    let a = chars_of(s);
    let b = chars_of(prefix);
    if b.len() > a.len() {
        return None;
    }
    let mut i: usize = 0;
    while i < b.len()
        invariant
            a@ == s@,
            b@ == prefix@,
            b@.len() <= a@.len(),
            i <= b@.len(),
            forall|k: int| 0 <= k < i ==> a@[k] == b@[k],
        decreases b@.len() - i,
    {
        if a[i] != b[i] {
            assert(s@.take(prefix@.len() as int)[i as int] != prefix@[i as int]);
            return None;
        }
        i = i + 1;
    }
    let rest = string_of(&a, b.len(), a.len());
    assert(rest@ =~= s@.skip(prefix@.len() as int));
    assert(s@.take(prefix@.len() as int) =~= prefix@);
    Some(rest)
}

fn history_route(query: &str) -> (r: Route)
    ensures
        r@ == asked_history(query@),
{
    let channel = match query_param(query, "channel") {
        Some(c) => c,
        None => DEFAULT_CHANNEL.to_owned(),
    };
    let limit: usize = match query_param(query, "limit") {
        Some(n) => match parse_unsigned(n.as_str(), usize::MAX as u64) {
            Some(n) => n as usize,
            None => CONSOLE_LIMIT,
        },
        None => CONSOLE_LIMIT,
    };
    let detailed: bool = match query_param(query, "include_delivery") {
        Some(v) => same(v.as_str(), "1"),
        None => false,
    };
    Route::History { channel, limit, detailed }
}

/// What a request asks for.
pub fn route(request: &HttpRequest) -> (r: Route)
    ensures
        r@ == asked(request@),
{
    let path = request.path.as_str();
    if same(request.method.as_str(), "GET") {
        if let Some(rest) = behind(path, MESSAGE_PATH) {
            if let Some(message_id) = parse_signed(rest.as_str()) {
                return Route::Inspect { message_id };
            }
        }
        if same(path, "/") {
            Route::Page
        } else if same(path, "/healthz") {
            Route::Health
        } else if same(path, "/api/status") {
            Route::Status
        } else if same(path, "/api/agents") {
            Route::Agents
        } else if same(path, "/api/channels") {
            Route::Channels
        } else if same(path, "/api/messages") {
            history_route(request.query.as_str())
        } else {
            Route::NotFound
        }
    } else if same(request.method.as_str(), "POST") && same(path, "/api/messages") {
        Route::Send
    } else {
        Route::NotFound
    }
}

/// What the daemon is asked for a route, if it is asked anything.
pub open spec fn asked_of_daemon(route: RouteView) -> Option<OpView> {
    match route {
        RouteView::Status => Some(OpView::Status),
        RouteView::Agents => Some(OpView::Agents(true)),
        RouteView::Channels => Some(OpView::ChannelsDetailed),
        RouteView::Inspect(id) => Some(OpView::Inspect(id)),
        RouteView::History(channel, limit, detailed) => if detailed {
            Some(OpView::HistoryDetailed(channel, limit))
        } else {
            Some(OpView::History(Some(channel), None, limit))
        },
        RouteView::Page | RouteView::Health | RouteView::Send | RouteView::NotFound => None,
    }
}

/// The view of an optional operation.
pub open spec fn op_view(op: Option<Op>) -> Option<OpView> {
    match op {
        Some(op) => Some(op@),
        None => None,
    }
}

/// What the daemon is asked for a route, if it is asked anything.
pub fn daemon_op(route: Route) -> (r: Option<Op>)
    ensures
        op_view(r) == asked_of_daemon(route@),
{
    match route {
        Route::Status => Some(Op::Status),
        Route::Agents => Some(Op::Agents { include_stale: true }),
        Route::Channels => Some(Op::ChannelsDetailed),
        Route::Inspect { message_id } => Some(Op::Inspect { message_id }),
        Route::History { channel, limit, detailed } => if detailed {
            Some(Op::HistoryDetailed { channel, limit })
        } else {
            Some(Op::History { channel: Some(channel), with: None, limit })
        },
        Route::Page | Route::Health | Route::Send | Route::NotFound => None,
    }
}

/// The words for a send without a recipient or a body.
pub const INCOMPLETE: &'static str = "recipient and body are required";

/// The send that the console was asked for, if it has a recipient and a body that are not
/// blank.
pub fn console_send(
    to: String,
    body: String,
    intent: Option<Intent>,
    reply_to: Option<i64>,
) -> (r: Result<Op, &'static str>)
    ensures
        if trimmed(to@).len() == 0 || trimmed(body@).len() == 0 {
            r matches Err(words) && words@ == INCOMPLETE@
        } else {
            r matches Ok(op) && op@ == OpView::Send(to@, body@, intent, reply_to)
        },
{
    if chars_of(trim(to.as_str()).as_str()).len() == 0 || chars_of(
        trim(body.as_str()).as_str(),
    ).len() == 0 {
        Err(INCOMPLETE)
    } else {
        Ok(Op::Send { to, body, intent, reply_to })
    }
}

/// The status with which a daemon's answer is passed on.
pub fn answer_status(response: &Response) -> (status: u16)
    ensures
        status == (if response.ok {
            200u16
        } else {
            400u16
        }),
{
    if response.ok {
        200
    } else {
        400
    }
}

} // verus!
