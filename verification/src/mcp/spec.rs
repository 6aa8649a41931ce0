//! How an MCP server is configured and how it stands, and what can go wrong
//! with it.
use vstd::prelude::*;
use vstd::string::*;

use crate::json;
use crate::json::Json;
use crate::mcp::settings;
use crate::mcp::settings::{Setting, Settings};
use crate::provider::message;
use crate::text;

verus! {

/// MCP protocol revision negotiated during `initialize`.
pub const MCP_PROTOCOL_VERSION: &'static str = "2025-11-25";

/// Most bytes of a text that a server controls.
pub const MAX_SERVER_MESSAGE_BYTES: usize = 2_048;

/// How a server is reached.
#[derive(Clone, Debug, PartialEq, Eq)]
pub enum McpTransport {
    Stdio { command: String, args: Vec<String>, env: Settings },
    Http { url: String, headers: Settings },
}

#[verifier::ext_equal]
pub enum TransportView {
    Stdio {
        command: Seq<char>,
        args: Seq<Seq<char>>,
        env: Seq<(Seq<char>, Seq<char>)>,
    },
    Http { url: Seq<char>, headers: Seq<(Seq<char>, Seq<char>)> },
}

impl View for McpTransport {
    type V = TransportView;

    open spec fn view(&self) -> TransportView {
        match *self {
            McpTransport::Stdio { command, args, env } => TransportView::Stdio {
                command: command@,
                args: text::texts(args@),
                env: env@,
            },
            McpTransport::Http { url, headers } => TransportView::Http {
                url: url@,
                headers: headers@,
            },
        }
    }
}

/// Whether a part of a key calls its value a secret.
pub open spec fn secret_word(part: Seq<char>) -> bool {
    ||| part == "token"@
    ||| part == "secret"@
    ||| part == "password"@
    ||| part == "passwd"@
    ||| part == "credential"@
    ||| part == "credentials"@
    ||| part == "signature"@
}

/// A key in the form in which it is judged.
pub open spec fn plain_key(key: Seq<char>) -> Seq<char> {
    text::replaced(text::lower(key), "-"@, "_"@)
}

/// Whether a key, by the naming conventions for headers and environment
/// variables, stands before a credential.
pub open spec fn credential(key: Seq<char>) -> bool {
    let key = plain_key(key);
    let parts = text::split(key, '_');
    ||| key == "authorization"@
    ||| key == "proxy_authorization"@
    ||| key == "cookie"@
    ||| key == "set_cookie"@
    ||| text::ends_with(key, "api_key"@)
    ||| text::ends_with(key, "apikey"@)
    ||| exists|i: int| 0 <= i < parts.len() && secret_word(#[trigger] parts[i])
}

fn is_secret_word(part: &str) -> (r: bool)
    ensures
        r == secret_word(part@),
{
    text::same(part, "token") || text::same(part, "secret") || text::same(part, "password")
        || text::same(part, "passwd") || text::same(part, "credential") || text::same(
        part,
        "credentials",
    ) || text::same(part, "signature")
}

fn credential_key(key: &str) -> (r: bool)
    ensures
        r == credential(key@),
{
    let lowered = text::lowered(key);
    proof {
        reveal_strlit("-");
    }
    let plain = text::replace(lowered.as_str(), "-", "_");
    let k = plain.as_str();
    if text::same(k, "authorization") || text::same(k, "proxy_authorization") || text::same(
        k,
        "cookie",
    ) || text::same(k, "set_cookie") || text::ends(k, "api_key") || text::ends(k, "apikey") {
        return true;
    }
    let parts = text::parts_of(k, '_');
    let ghost all = text::split(plain_key(key@), '_');
    let mut i: usize = 0;
    while i < parts.len()
        invariant
            i <= parts@.len(),
            all == text::split(plain_key(key@), '_'),
            text::texts(parts@) == all,
            forall|j: int| 0 <= j < i ==> !secret_word(#[trigger] all[j]),
        decreases parts@.len() - i,
    {
        assert(all[i as int] == parts@[i as int]@);
        if is_secret_word(parts[i].as_str()) {
            return true;
        }
        i = i + 1;
    }
    false
}

/// The values behind credential keys, in order.
pub open spec fn secrets(list: Seq<(Seq<char>, Seq<char>)>) -> Seq<Seq<char>>
    decreases list.len(),
{
    if list.len() == 0 {
        Seq::empty()
    } else if credential(list.last().0) {
        secrets(list.drop_last()).push(list.last().1)
    } else {
        secrets(list.drop_last())
    }
}

fn secret_values(list: &Vec<Setting>) -> (r: Vec<String>)
    ensures
        text::texts(r@) == secrets(settings::settings(list@)),
{
    let ghost all = settings::settings(list@);
    let mut out: Vec<String> = Vec::new();
    let mut i: usize = 0;
    assert(all.take(0) =~= Seq::empty());
    assert(text::texts(out@) =~= Seq::empty());
    while i < list.len()
        invariant
            i <= list@.len(),
            all == settings::settings(list@),
            text::texts(out@) == secrets(all.take(i as int)),
        decreases list@.len() - i,
    {
        assert(all.take(i + 1).drop_last() =~= all.take(i as int));
        assert(all.take(i + 1).last() == all[i as int]);
        if credential_key(list[i].key.as_str()) {
            let ghost done = out@;
            out.push(list[i].value.clone());
            assert(text::texts(out@) =~= text::texts(done).push(list@[i as int].value@));
        }
        i = i + 1;
    }
    assert(all.take(all.len() as int) =~= all);
    out
}

impl TransportView {
    pub open spec fn secrets(self) -> Seq<Seq<char>> {
        match self {
            TransportView::Stdio { env, .. } => secrets(env),
            TransportView::Http { headers, .. } => secrets(headers),
        }
    }

    pub open spec fn kind(self) -> Seq<char> {
        match self {
            TransportView::Stdio { .. } => "stdio"@,
            TransportView::Http { .. } => "http"@,
        }
    }

    pub open spec fn target(self) -> Seq<char> {
        match self {
            TransportView::Stdio { command, args, .. } => if args.len() == 0 {
                command
            } else {
                command + " "@ + text::join(args, " "@)
            },
            TransportView::Http { url, .. } => url,
        }
    }
}

/// What is shown of a transport does not depend on its settings.
pub proof fn law_target_shows_no_setting(
    command: Seq<char>,
    args: Seq<Seq<char>>,
    url: Seq<char>,
    a: Seq<(Seq<char>, Seq<char>)>,
    b: Seq<(Seq<char>, Seq<char>)>,
)
    ensures
        (TransportView::Stdio { command, args, env: a }).target() == (TransportView::Stdio {
            command,
            args,
            env: b,
        }).target(),
        (TransportView::Http { url, headers: a }).target() == (TransportView::Http {
            url,
            headers: b,
        }).target(),
{
}

fn copy_texts(list: &Vec<String>) -> (out: Vec<String>)
    ensures
        text::texts(out@) == text::texts(list@),
{
    let mut out: Vec<String> = Vec::new();
    let mut i: usize = 0;
    while i < list.len()
        invariant
            i <= list@.len(),
            out@ == list@.take(i as int),
        decreases list@.len() - i,
    {
        out.push(list[i].clone());
        assert(list@.take(i + 1) =~= list@.take(i as int).push(list@[i as int]));
        i = i + 1;
    }
    assert(list@.take(list@.len() as int) =~= list@);
    out
}

fn same_texts(a: &Vec<String>, b: &Vec<String>) -> (r: bool)
    ensures
        r == (text::texts(a@) == text::texts(b@)),
{
    if a.len() != b.len() {
        assert(text::texts(a@).len() != text::texts(b@).len());
        return false;
    }
    let mut i: usize = 0;
    while i < a.len()
        invariant
            i <= a@.len(),
            a@.len() == b@.len(),
            forall|k: int| 0 <= k < i ==> text::texts(a@)[k] == text::texts(b@)[k],
        decreases a@.len() - i,
    {
        if !text::same(a[i].as_str(), b[i].as_str()) {
            assert(text::texts(a@)[i as int] != text::texts(b@)[i as int]);
            return false;
        }
        i = i + 1;
    }
    assert(text::texts(a@) =~= text::texts(b@));
    true
}

impl McpTransport {
    pub fn kind(&self) -> (r: &'static str)
        ensures
            r@ == self@.kind(),
    {
        match self {
            McpTransport::Stdio { .. } => "stdio",
            McpTransport::Http { .. } => "http",
        }
    }

    /// What a person is shown; never header or environment values.
    pub fn target(&self) -> (r: String)
        ensures
            r@ == self@.target(),
    {
        match self {
            McpTransport::Stdio { command, args, .. } => if args.len() == 0 {
                command.clone()
            } else {
                let mut out = command.clone();
                out.append(" ");
                out.append(text::joined(args, " ").as_str());
                out
            },
            McpTransport::Http { url, .. } => url.clone(),
        }
    }

    /// The credentials among the settings. Ordinary values must not be kept out
    /// of everything that is shown.
    pub fn sensitive_values(&self) -> (r: Vec<String>)
        ensures
            text::texts(r@) == self@.secrets(),
    {
        match self {
            McpTransport::Stdio { env, .. } => secret_values(env.entries()),
            McpTransport::Http { headers, .. } => secret_values(headers.entries()),
        }
    }

    pub fn copy(&self) -> (r: McpTransport)
        ensures
            r@ == self@,
    {
        match self {
            McpTransport::Stdio { command, args, env } => McpTransport::Stdio {
                command: command.clone(),
                args: copy_texts(args),
                env: env.clone(),
            },
            McpTransport::Http { url, headers } => McpTransport::Http {
                url: url.clone(),
                headers: headers.clone(),
            },
        }
    }

    pub fn same(&self, other: &McpTransport) -> (r: bool)
        ensures
            r == (self@ == other@),
    {
        match (self, other) {
            (
                McpTransport::Stdio { command: c1, args: a1, env: e1 },
                McpTransport::Stdio { command: c2, args: a2, env: e2 },
            ) => text::same(c1.as_str(), c2.as_str()) && same_texts(a1, a2) && e1.same(e2),
            (
                McpTransport::Http { url: u1, headers: h1 },
                McpTransport::Http { url: u2, headers: h2 },
            ) => text::same(u1.as_str(), u2.as_str()) && h1.same(h2),
            _ => false,
        }
    }
}

/// The configuration of one server, merged and validated. The time limit of a
/// request is in nanoseconds.
#[derive(Clone, Debug, PartialEq, Eq)]
pub struct McpServerSpec {
    pub name: String,
    pub transport: McpTransport,
    pub enabled: bool,
    pub timeout: u128,
}

#[verifier::ext_equal]
pub struct SpecView {
    pub name: Seq<char>,
    pub transport: TransportView,
    pub enabled: bool,
    pub timeout: u128,
}

impl View for McpServerSpec {
    type V = SpecView;

    open spec fn view(&self) -> SpecView {
        SpecView {
            name: self.name@,
            transport: self.transport@,
            enabled: self.enabled,
            timeout: self.timeout,
        }
    }
}

pub open spec fn spec_views(specs: Seq<McpServerSpec>) -> Seq<SpecView> {
    specs.map_values(|s: McpServerSpec| s@)
}

impl McpServerSpec {
    pub fn copy(&self) -> (r: McpServerSpec)
        ensures
            r@ == self@,
    {
        McpServerSpec {
            name: self.name.clone(),
            transport: self.transport.copy(),
            enabled: self.enabled,
            timeout: self.timeout,
        }
    }

    pub fn same(&self, other: &McpServerSpec) -> (r: bool)
        ensures
            r == (self@ == other@),
    {
        text::same(self.name.as_str(), other.name.as_str()) && self.transport.same(
            &other.transport,
        ) && self.enabled == other.enabled && self.timeout == other.timeout
    }
}

/// What a server says of one of its tools.
#[derive(Clone, Debug)]
pub struct McpToolSummary {
    pub name: String,
    pub description: Option<String>,
    pub schema: Json,
}

#[verifier::ext_equal]
pub struct ToolView {
    pub name: Seq<char>,
    pub description: Option<Seq<char>>,
    pub schema: json::Tree,
}

impl View for McpToolSummary {
    type V = ToolView;

    open spec fn view(&self) -> ToolView {
        ToolView {
            name: self.name@,
            description: message::opt_text(self.description),
            schema: self.schema@,
        }
    }
}

pub open spec fn tool_views(tools: Seq<McpToolSummary>) -> Seq<ToolView> {
    tools.map_values(|t: McpToolSummary| t@)
}

pub fn copy_tools(tools: &Vec<McpToolSummary>) -> (out: Vec<McpToolSummary>)
    ensures
        tool_views(out@) == tool_views(tools@),
{
    let ghost all = tool_views(tools@);
    let mut out: Vec<McpToolSummary> = Vec::new();
    let mut i: usize = 0;
    assert(tool_views(out@) =~= all.take(0));
    while i < tools.len()
        invariant
            i <= tools@.len(),
            all == tool_views(tools@),
            tool_views(out@) == all.take(i as int),
        decreases tools@.len() - i,
    {
        let tool = McpToolSummary {
            name: tools[i].name.clone(),
            description: message::copy_opt(&tools[i].description),
            schema: tools[i].schema.copy(),
        };
        let ghost done = out@;
        out.push(tool);
        assert(tool_views(out@) =~= tool_views(done).push(tool@));
        assert(all.take(i + 1) =~= all.take(i as int).push(all[i as int]));
        i = i + 1;
    }
    assert(all.take(all.len() as int) =~= all);
    out
}

/// How a server stands.
#[derive(Clone, Debug)]
pub enum McpServerStatus {
    Disabled,
    Disconnected,
    Connecting,
    Ready { tools: Vec<McpToolSummary> },
    Failed { error: String },
}

#[verifier::ext_equal]
pub enum StatusView {
    Disabled,
    Disconnected,
    Connecting,
    Ready { tools: Seq<ToolView> },
    Failed { error: Seq<char> },
}

impl View for McpServerStatus {
    type V = StatusView;

    open spec fn view(&self) -> StatusView {
        match *self {
            McpServerStatus::Disabled => StatusView::Disabled,
            McpServerStatus::Disconnected => StatusView::Disconnected,
            McpServerStatus::Connecting => StatusView::Connecting,
            McpServerStatus::Ready { tools } => StatusView::Ready { tools: tool_views(tools@) },
            McpServerStatus::Failed { error } => StatusView::Failed { error: error@ },
        }
    }
}

impl McpServerStatus {
    pub fn tool_count(&self) -> (r: Option<usize>)
        ensures
            match self@ {
                StatusView::Ready { tools } => r matches Some(n) && n == tools.len(),
                _ => r is None,
            },
    {
        match self {
            McpServerStatus::Ready { tools } => Some(tools.len()),
            _ => None,
        }
    }

    pub fn copy(&self) -> (r: McpServerStatus)
        ensures
            r@ == self@,
    {
        match self {
            McpServerStatus::Disabled => McpServerStatus::Disabled,
            McpServerStatus::Disconnected => McpServerStatus::Disconnected,
            McpServerStatus::Connecting => McpServerStatus::Connecting,
            McpServerStatus::Ready { tools } => McpServerStatus::Ready { tools: copy_tools(tools) },
            McpServerStatus::Failed { error } => McpServerStatus::Failed { error: error.clone() },
        }
    }
}

/// A server as status surfaces show it.
#[derive(Clone, Debug)]
pub struct McpServerInfo {
    pub name: String,
    pub transport: &'static str,
    pub target: String,
    pub enabled: bool,
    pub status: McpServerStatus,
}

#[verifier::ext_equal]
pub struct InfoView {
    pub name: Seq<char>,
    pub transport: Seq<char>,
    pub target: Seq<char>,
    pub enabled: bool,
    pub status: StatusView,
}

impl View for McpServerInfo {
    type V = InfoView;

    open spec fn view(&self) -> InfoView {
        InfoView {
            name: self.name@,
            transport: self.transport@,
            target: self.target@,
            enabled: self.enabled,
            status: self.status@,
        }
    }
}

pub open spec fn info_views(infos: Seq<McpServerInfo>) -> Seq<InfoView> {
    infos.map_values(|i: McpServerInfo| i@)
}

/// What can go wrong with a server. The time limit that a request passed is in
/// nanoseconds.
#[derive(Clone, Debug, PartialEq, Eq)]
pub enum McpError {
    Io(String),
    Protocol(String),
    Timeout(u128),
    Closed,
    Server { code: i64, message: String },
    UnknownServer(String),
    Disabled(String),
}

#[verifier::ext_equal]
pub enum McpErrorView {
    Io(Seq<char>),
    Protocol(Seq<char>),
    Timeout(u128),
    Closed,
    Server { code: i64, message: Seq<char> },
    UnknownServer(Seq<char>),
    Disabled(Seq<char>),
}

impl View for McpError {
    type V = McpErrorView;

    open spec fn view(&self) -> McpErrorView {
        match *self {
            McpError::Io(m) => McpErrorView::Io(m@),
            McpError::Protocol(m) => McpErrorView::Protocol(m@),
            McpError::Timeout(timeout) => McpErrorView::Timeout(timeout),
            McpError::Closed => McpErrorView::Closed,
            McpError::Server { code, message } => McpErrorView::Server { code, message: message@ },
            McpError::UnknownServer(name) => McpErrorView::UnknownServer(name@),
            McpError::Disabled(name) => McpErrorView::Disabled(name@),
        }
    }
}

impl McpErrorView {
    /// The error in words.
    pub open spec fn words(self) -> Seq<char> {
        match self {
            McpErrorView::Io(m) => m,
            McpErrorView::Protocol(m) => m,
            McpErrorView::Timeout(timeout) => "request timed out after "@ + text::decimal(
                timeout as nat / 1_000_000,
            ) + "ms"@,
            McpErrorView::Closed => "connection closed"@,
            McpErrorView::Server { code, message } => "server error "@ + text::signed_decimal(
                code as int,
            ) + ": "@ + message,
            McpErrorView::UnknownServer(name) => "unknown MCP server: "@ + name,
            McpErrorView::Disabled(name) => "MCP server is disabled: "@ + name,
        }
    }
}

impl McpError {
    /// A breach of the protocol, in words.
    pub fn protocol(message: &str) -> (r: McpError)
        ensures
            r@ == McpErrorView::Protocol(message@),
    {
        McpError::Protocol(message.to_owned())
    }

    /// The error in words.
    pub fn message(&self) -> (r: String)
        ensures
            r@ == self@.words(),
    {
        match self {
            McpError::Io(m) => m.clone(),
            McpError::Protocol(m) => m.clone(),
            McpError::Timeout(timeout) => {
                let mut out = "request timed out after ".to_owned();
                out.append(text::wide_decimal_of(*timeout / 1_000_000).as_str());
                out.append("ms");
                out
            },
            McpError::Closed => "connection closed".to_owned(),
            McpError::Server { code, message } => {
                let mut out = "server error ".to_owned();
                out.append(text::signed_decimal_of(*code).as_str());
                out.append(": ");
                out.append(message.as_str());
                out
            },
            McpError::UnknownServer(name) => {
                let mut out = "unknown MCP server: ".to_owned();
                out.append(name.as_str());
                out
            },
            McpError::Disabled(name) => {
                let mut out = "MCP server is disabled: ".to_owned();
                out.append(name.as_str());
                out
            },
        }
    }
}

/// A text that a server controls, cut so that it cannot flood what shows it.
pub open spec fn bounded_text(s: Seq<char>) -> Seq<char> {
    if text::byte_len(s) <= MAX_SERVER_MESSAGE_BYTES {
        s
    } else {
        text::head_within(s, MAX_SERVER_MESSAGE_BYTES as int) + "…"@
    }
}

pub fn bounded_server_text(s: &str) -> (r: String)
    ensures
        r@ == bounded_text(s@),
{
    if text::byte_count(s) <= MAX_SERVER_MESSAGE_BYTES {
        s.to_owned()
    } else {
        let mut out = text::head_of(s, MAX_SERVER_MESSAGE_BYTES);
        out.append("…");
        out
    }
}

} // verus!
