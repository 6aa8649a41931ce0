//! The JSON-RPC messages between the library and a server.
use vstd::prelude::*;
use vstd::string::*;

use crate::json;
use crate::json::{Json, Tree};
use crate::mcp::spec;
use crate::mcp::spec::{McpError, McpErrorView};
use crate::text;
use crate::url;

verus! {

/// Most bytes of one message.
pub const MAX_MESSAGE_BYTES: usize = 16_777_216;

/// A request of the library.
pub open spec fn request_tree(id: u64, method: Seq<char>, params: Tree) -> Tree {
    json::empty_object().with("jsonrpc"@, Tree::Text("2.0"@)).with(
        "id"@,
        Tree::Number(text::decimal(id as nat)),
    ).with("method"@, Tree::Text(method)).with("params"@, params)
}

/// A notification of the library.
pub open spec fn notification_tree(method: Seq<char>, params: Tree) -> Tree {
    json::empty_object().with("jsonrpc"@, Tree::Text("2.0"@)).with(
        "method"@,
        Tree::Text(method),
    ).with("params"@, params)
}

/// The answer to a request of the server: no method is offered to it. The id is
/// given back as it came.
pub open spec fn rejection_tree(id: Tree) -> Tree {
    json::empty_object().with("jsonrpc"@, Tree::Text("2.0"@)).with("id"@, id).with(
        "error"@,
        json::empty_object().with("code"@, Tree::Number("-32601"@)).with(
            "message"@,
            Tree::Text("unsupported"@),
        ),
    )
}

pub fn request_message(id: u64, method: &str, params: Json) -> (r: Json)
    ensures
        r@ == request_tree(id, method@, params@),
{
    Json::object().with("jsonrpc", Json::string("2.0")).with("id", Json::number(id)).with(
        "method",
        Json::string(method),
    ).with("params", params)
}

pub fn notification_message(method: &str, params: Json) -> (r: Json)
    ensures
        r@ == notification_tree(method@, params@),
{
    Json::object().with("jsonrpc", Json::string("2.0")).with("method", Json::string(method)).with(
        "params",
        params,
    )
}

pub fn rejection_message(id: Json) -> (r: Json)
    ensures
        r@ == rejection_tree(id@),
{
    broadcast use json::lemma_json_view;

    let error = Json::object().with("code", Json::Number("-32601".to_owned())).with(
        "message",
        Json::string("unsupported"),
    );
    Json::object().with("jsonrpc", Json::string("2.0")).with("id", id).with("error", error)
}

/// What a response says: the server's error first, then its result.
pub open spec fn result_of(message: Tree) -> Result<Tree, McpErrorView> {
    match message.get("error"@) {
        Some(error) => Err(
            McpErrorView::Server {
                code: match error.signed_at("code"@) {
                    Some(code) => code,
                    None => 0,
                },
                message: spec::bounded_text(
                    match error.text_at("message"@) {
                        Some(words) => words,
                        None => "unknown server error"@,
                    },
                ),
            },
        ),
        None => match message.get("result"@) {
            Some(result) => Ok(result),
            None => Err(McpErrorView::Protocol("response has neither result nor error"@)),
        },
    }
}

/// A result by its contents.
pub open spec fn result_view(result: Result<Json, McpError>) -> Result<Tree, McpErrorView> {
    match result {
        Ok(json) => Ok(json@),
        Err(error) => Err(error@),
    }
}

pub fn extract_result(message: &Json) -> (r: Result<Json, McpError>)
    ensures
        result_view(r) == result_of(message@),
{
    match message.get("error") {
        Some(error) => {
            let code: i64 = match error.i64_at("code") {
                Some(code) => code,
                None => 0,
            };
            let words = match error.str_at("message") {
                Some(words) => spec::bounded_server_text(words),
                None => spec::bounded_server_text("unknown server error"),
            };
            Err(McpError::Server { code, message: words })
        },
        None => match message.get("result") {
            Some(result) => Ok(result.copy()),
            None => Err(McpError::protocol("response has neither result nor error")),
        },
    }
}

/// What a message from the server is for one who waits for a response.
#[derive(Debug)]
pub enum Inbound {
    Response(Result<Json, McpError>),
    ServerRequest(Json),
    ToolsChanged,
    Other,
}

pub enum InboundView {
    Response(Result<Tree, McpErrorView>),
    ServerRequest(Tree),
    ToolsChanged,
    Other,
}

impl View for Inbound {
    type V = InboundView;

    open spec fn view(&self) -> InboundView {
        match *self {
            Inbound::Response(result) => InboundView::Response(result_view(result)),
            Inbound::ServerRequest(id) => InboundView::ServerRequest(id@),
            Inbound::ToolsChanged => InboundView::ToolsChanged,
            Inbound::Other => InboundView::Other,
        }
    }
}

/// Whether a message without id says that the server's tools changed.
pub open spec fn tools_changed(message: Tree) -> bool {
    message.text_at("method"@) == Some("notifications/tools/list_changed"@)
}

pub open spec fn classified(message: Tree, expected_id: u64) -> InboundView {
    match message.get("id"@) {
        Some(id) => if message.get("method"@) is Some {
            InboundView::ServerRequest(id)
        } else if id.unsigned() == Some(expected_id) {
            InboundView::Response(result_of(message))
        } else {
            InboundView::Other
        },
        None => if tools_changed(message) {
            InboundView::ToolsChanged
        } else {
            InboundView::Other
        },
    }
}

fn says_tools_changed(message: &Json) -> (r: bool)
    ensures
        r == tools_changed(message@),
{
    match message.str_at("method") {
        Some(method) => text::same(method, "notifications/tools/list_changed"),
        None => false,
    }
}

pub fn classify_inbound(message: &Json, expected_id: u64) -> (r: Inbound)
    ensures
        r@ == classified(message@, expected_id),
{
    match message.get("id") {
        Some(id) => {
            if message.get("method").is_some() {
                return Inbound::ServerRequest(id.copy());
            }
            match id.as_u64() {
                Some(n) => if n == expected_id {
                    Inbound::Response(extract_result(message))
                } else {
                    Inbound::Other
                },
                None => Inbound::Other,
            }
        },
        None => if says_tools_changed(message) {
            Inbound::ToolsChanged
        } else {
            Inbound::Other
        },
    }
}

/// The requests that wait for their response, and the id of the next.
pub struct PendingRequests {
    next_id: u64,
    waiting: Vec<u64>,
}

#[verifier::ext_equal]
pub struct PendingView {
    pub next_id: u64,
    pub waiting: Seq<u64>,
}

impl View for PendingRequests {
    type V = PendingView;

    closed spec fn view(&self) -> PendingView {
        PendingView { next_id: self.next_id, waiting: self.waiting@ }
    }
}

/// What a message asks of a connection that many requests share.
#[derive(Debug)]
pub enum Dispatch {
    /// Send this answer to a request of the server.
    Reject(Json),
    /// Hand this to the one who waits under the id.
    Answer { id: u64, result: Result<Json, McpError> },
    ToolsChanged,
    Nothing,
}

/// What a message asks for, given the ids that wait.
pub open spec fn dispatched(message: Tree, waiting: Seq<u64>, dispatch: Dispatch) -> bool {
    match message.get("id"@) {
        Some(id) => if message.get("method"@) is Some {
            dispatch matches Dispatch::Reject(answer) && answer@ == rejection_tree(id)
        } else {
            match id.unsigned() {
                Some(n) => if waiting.contains(n) {
                    dispatch matches Dispatch::Answer { id: k, result } && k == n && result_view(
                        result,
                    ) == result_of(message)
                } else {
                    dispatch is Nothing
                },
                None => dispatch is Nothing,
            }
        },
        None => if tools_changed(message) {
            dispatch is ToolsChanged
        } else {
            dispatch is Nothing
        },
    }
}

fn index_of(list: &Vec<u64>, id: u64) -> (r: Option<usize>)
    ensures
        match r {
            Some(i) => i < list@.len() && list@[i as int] == id,
            None => !list@.contains(id),
        },
{
    let mut i: usize = 0;
    while i < list.len()
        invariant
            i <= list@.len(),
            forall|k: int| 0 <= k < i ==> list@[k] != id,
        decreases list@.len() - i,
    {
        if list[i] == id {
            return Some(i);
        }
        i = i + 1;
    }
    None
}

/// The waiting ids without one.
pub open spec fn settled(waiting: Seq<u64>, id: u64) -> Seq<u64> {
    waiting.filter(|k: u64| k != id)
}

proof fn lemma_settled_remove(waiting: Seq<u64>, i: int)
    requires
        waiting.no_duplicates(),
        0 <= i < waiting.len(),
    ensures
        settled(waiting, waiting[i]) == waiting.remove(i),
    decreases waiting.len(),
{
    reveal(Seq::filter);
    let id = waiting[i];
    let last = waiting.len() - 1;
    let rest = waiting.drop_last();
    if i == last {
        lemma_settled_absent(rest, id);
        assert(waiting.remove(i) =~= rest);
    } else {
        assert(rest.no_duplicates());
        lemma_settled_remove(rest, i);
        assert(waiting[last] != id);
        assert(waiting.remove(i) =~= rest.remove(i).push(waiting.last()));
    }
}

proof fn lemma_settled_absent(waiting: Seq<u64>, id: u64)
    requires
        !waiting.contains(id),
    ensures
        settled(waiting, id) == waiting,
    decreases waiting.len(),
{
    reveal(Seq::filter);
    if waiting.len() > 0 {
        assert(waiting[waiting.len() - 1] != id);
        assert(!waiting.drop_last().contains(id)) by {
            if waiting.drop_last().contains(id) {
                let k = choose|k: int|
                    0 <= k < waiting.drop_last().len() && waiting.drop_last()[k] == id;
                assert(waiting[k] == id);
            }
        }
        lemma_settled_absent(waiting.drop_last(), id);
        assert(waiting =~= waiting.drop_last().push(waiting.last()));
    } else {
        assert(settled(waiting, id) =~= waiting);
    }
}

impl PendingRequests {
    #[verifier::type_invariant]
    spec fn inv(self) -> bool {
        self.waiting@.no_duplicates()
    }

    /// No request waits; the first id is one.
    pub fn new() -> (r: PendingRequests)
        ensures
            r@ == (PendingView { next_id: 1, waiting: Seq::empty() }),
    {
        PendingRequests { next_id: 1, waiting: Vec::new() }
    }

    /// Registers a request under the next id.
    pub fn issue(self) -> (r: (PendingRequests, u64))
        ensures
            r.1 == self@.next_id,
            r.0@ == (PendingView {
                next_id: if self@.next_id == u64::MAX {
                    0
                } else {
                    (self@.next_id + 1) as u64
                },
                waiting: if self@.waiting.contains(self@.next_id) {
                    self@.waiting
                } else {
                    self@.waiting.push(self@.next_id)
                },
            }),
    {
        proof {
            use_type_invariant(&self);
        }
        let id = self.next_id;
        let mut waiting = self.waiting;
        match index_of(&waiting, id) {
            Some(_) => {},
            None => {
                waiting.push(id);
            },
        }
        (PendingRequests { next_id: id.wrapping_add(1), waiting }, id)
    }

    /// Takes a request off; tells whether it waited.
    pub fn settle(self, id: u64) -> (r: (PendingRequests, bool))
        ensures
            r.1 == self@.waiting.contains(id),
            r.0@ == (PendingView { waiting: settled(self@.waiting, id), ..self@ }),
    {
        proof {
            use_type_invariant(&self);
        }
        let next_id = self.next_id;
        let mut waiting = self.waiting;
        match index_of(&waiting, id) {
            None => {
                proof {
                    lemma_settled_absent(waiting@, id);
                }
                (PendingRequests { next_id, waiting }, false)
            },
            Some(i) => {
                let ghost before = waiting@;
                let _ = waiting.remove(i);
                proof {
                    lemma_settled_remove(before, i as int);
                    assert(waiting@.no_duplicates()) by {
                        assert forall|a: int, b: int|
                            0 <= a < waiting@.len() && 0 <= b < waiting@.len() && a
                                != b implies waiting@[a] != waiting@[b] by {
                            let c = if a < i { a } else { a + 1 };
                            let d = if b < i { b } else { b + 1 };
                            assert(before[c] != before[d]);
                        }
                    }
                }
                (PendingRequests { next_id, waiting }, true)
            },
        }
    }

    /// Takes a message in: an answer to a request that waits settles it.
    pub fn dispatch_inbound(self, message: &Json) -> (r: (PendingRequests, Dispatch))
        ensures
            dispatched(message@, self@.waiting, r.1),
            r.0@ == match r.1 {
                Dispatch::Answer { id, .. } => PendingView {
                    waiting: settled(self@.waiting, id),
                    ..self@
                },
                _ => self@,
            },
    {
        match message.get("id") {
            Some(id) => {
                if message.get("method").is_some() {
                    return (self, Dispatch::Reject(rejection_message(id.copy())));
                }
                match id.as_u64() {
                    None => (self, Dispatch::Nothing),
                    Some(n) => {
                        let (pending, waited) = self.settle(n);
                        if waited {
                            (pending, Dispatch::Answer { id: n, result: extract_result(message) })
                        } else {
                            proof {
                                lemma_settled_absent(self@.waiting, n);
                            }
                            (pending, Dispatch::Nothing)
                        }
                    },
                }
            },
            None => if says_tools_changed(message) {
                (self, Dispatch::ToolsChanged)
            } else {
                (self, Dispatch::Nothing)
            },
        }
    }
}

/// A response is handed over at most once: a request that was settled waits no
/// more.
pub proof fn law_answers_settle(waiting: Seq<u64>, id: u64)
    ensures
        !settled(waiting, id).contains(id),
    decreases waiting.len(),
{
    reveal(Seq::filter);
    if waiting.len() > 0 {
        law_answers_settle(waiting.drop_last(), id);
        let rest = settled(waiting.drop_last(), id);
        if settled(waiting, id).contains(id) {
            let k = choose|k: int|
                0 <= k < settled(waiting, id).len() && settled(waiting, id)[k] == id;
            if k < rest.len() {
                assert(rest[k] == id);
            }
        }
    }
}

/// The URL of a server is one that HTTP serves.
pub open spec fn acceptable_url(url: Seq<char>) -> Result<(), McpErrorView> {
    match url::parsed_url(url) {
        Err(error) => Err(
            McpErrorView::Protocol("invalid MCP url "@ + url + ": "@ + error),
        ),
        Ok(parts) => if parts.scheme == "http"@ || parts.scheme == "https"@ {
            Ok(())
        } else {
            Err(McpErrorView::Protocol("MCP url must be http(s): "@ + url))
        },
    }
}

/// Checks the URL of a server.
pub fn check_url(endpoint: &str) -> (r: Result<(), McpError>)
    ensures
        match r {
            Ok(_) => acceptable_url(endpoint@) is Ok,
            Err(error) => acceptable_url(endpoint@) == Err::<(), McpErrorView>(error@),
        },
{
    match url::parse(endpoint) {
        Err(error) => {
            let mut message = "invalid MCP url ".to_owned();
            message.append(endpoint);
            message.append(": ");
            message.append(error.as_str());
            Err(McpError::Protocol(message))
        },
        Ok(parts) => check_scheme(parts.scheme.as_str(), endpoint),
    }
}

/// Checks the scheme of a URL that could be read.
pub fn check_scheme(scheme: &str, endpoint: &str) -> (r: Result<(), McpError>)
    ensures
        if scheme@ == "http"@ || scheme@ == "https"@ {
            r is Ok
        } else {
            r matches Err(error) && error@ == McpErrorView::Protocol(
                "MCP url must be http(s): "@ + endpoint@,
            )
        },
{
    if text::same(scheme, "http") || text::same(scheme, "https") {
        Ok(())
    } else {
        let mut message = "MCP url must be http(s): ".to_owned();
        message.append(endpoint);
        Err(McpError::Protocol(message))
    }
}

/// What an HTTP status says before the body is read.
pub open spec fn status_fault(status: u16, reason: Option<Seq<char>>) -> Option<McpErrorView> {
    if status == 404 {
        Some(McpErrorView::Closed)
    } else if !(200 <= status < 300) {
        Some(
            McpErrorView::Server {
                code: status as i64,
                message: match reason {
                    Some(words) => words,
                    None => "http error"@,
                },
            },
        )
    } else {
        None
    }
}

/// Whether a response of a content type is a stream of events; else it is one JSON
/// document.
pub fn is_event_stream(content_type: &str) -> (r: bool)
    ensures
        r == text::contains(content_type@, "text/event-stream"@),
{
    text::has(content_type, "text/event-stream")
}

/// The error of an HTTP status. A session that the server no longer knows is
/// closed, so that the next request makes a new one.
pub fn status_error(status: u16, reason: Option<&str>) -> (r: Option<McpError>)
    ensures
        match r {
            Some(error) => status_fault(
                status,
                match reason {
                    Some(words) => Some(words@),
                    None => None,
                },
            ) == Some(error@),
            None => status_fault(
                status,
                match reason {
                    Some(words) => Some(words@),
                    None => None,
                },
            ) is None,
        },
{
    if status == 404 {
        Some(McpError::Closed)
    } else if status < 200 || status >= 300 {
        let message = match reason {
            Some(words) => words.to_owned(),
            None => "http error".to_owned(),
        };
        Some(McpError::Server { code: status as i64, message })
    } else {
        None
    }
}

/// Why a connection to a child process is closed: its last words on standard
/// error, else its last line that was no message.
pub open spec fn closed_fault(stderr: Seq<u8>, noise: Seq<char>) -> McpErrorView {
    let tail = text::trim(text::lossy(stderr));
    if tail.len() > 0 {
        McpErrorView::Protocol("connection closed; stderr: "@ + tail)
    } else if noise.len() == 0 {
        McpErrorView::Closed
    } else {
        McpErrorView::Protocol("connection closed; stdout noise: "@ + noise)
    }
}

pub fn closed_error(stderr: &[u8], noise: &str) -> (r: McpError)
    ensures
        r@ == closed_fault(stderr@, noise@),
{
    let shown = text::lossy_text(stderr);
    let tail = text::trimmed(shown.as_str());
    if !tail.as_str().is_empty() {
        let mut message = "connection closed; stderr: ".to_owned();
        message.append(tail.as_str());
        McpError::Protocol(message)
    } else if noise.is_empty() {
        McpError::Closed
    } else {
        let mut message = "connection closed; stdout noise: ".to_owned();
        message.append(noise);
        McpError::Protocol(message)
    }
}

} // verus!
