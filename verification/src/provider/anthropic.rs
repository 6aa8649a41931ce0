//! The messages of Anthropic: how a request is written.
use vstd::prelude::*;
use vstd::string::*;

use crate::json;
use crate::json::{Json, Tree};
use crate::provider::bodies;
use crate::provider::config::{AuthView, ConfigView, ProviderConfig, SettingsView};
use crate::provider::content;
use crate::provider::endpoint::{HttpRequest, RequestView};
use crate::provider::message;
use crate::provider::message::{CallView, MessageView, ProviderMessage, ProviderToolCall};
use crate::provider::openai;
use crate::provider::reasoning;
use crate::provider::reasoning::{OffPolicy, ReasoningOff};
use crate::provider::request;
use crate::provider::request::{
    PreparedProviderRequest, ProviderCapabilities, RequestRoute, RouteView,
};
use crate::provider::types::{ErrorView, ProviderError, ProviderKind};
use crate::text;
use crate::url;

verus! {

/// The mark that asks for a prompt to be saved.
pub open spec fn cache_mark() -> Tree {
    json::empty_object().with("type"@, Tree::Text("ephemeral"@))
}

pub fn cache_control() -> (r: Json)
    ensures
        r@ == cache_mark(),
{
    Json::object().with("type", Json::string("ephemeral"))
}

/// What a tool was called with: a value where the arguments are JSON, else their
/// text.
pub open spec fn call_input(arguments: Seq<char>) -> Tree {
    match json::parsed(arguments) {
        Ok(tree) => tree,
        Err(_) => Tree::Text(arguments),
    }
}

/// A tool call with what the tool was called with.
pub open spec fn tool_use(call: CallView, input: Tree) -> Tree {
    json::empty_object().with("type"@, Tree::Text("tool_use"@)).with("id"@, Tree::Text(call.id)).with(
        "name"@,
        Tree::Text(call.name),
    ).with("input"@, input)
}

pub fn tool_use_json(call: &ProviderToolCall, input: Json) -> (r: Json)
    ensures
        r@ == tool_use(call@, input@),
{
    Json::object().with("type", Json::string("tool_use")).with(
        "id",
        Json::string(call.id.as_str()),
    ).with("name", Json::string(call.name.as_str())).with("input", input)
}

pub open spec fn tool_uses(calls: Seq<CallView>) -> Seq<Tree> {
    calls.map_values(|c: CallView| tool_use(c, call_input(c.arguments)))
}

fn push_tool_uses(out: &mut Vec<Json>, calls: &Vec<ProviderToolCall>)
    ensures
        json::trees(final(out)@) == json::trees(old(out)@) + tool_uses(
            message::call_views(calls@),
        ),
{
    let ghost start = json::trees(out@);
    let ghost all = tool_uses(message::call_views(calls@));
    let mut i: usize = 0;
    assert(start =~= start + all.take(0));
    while i < calls.len()
        invariant
            i <= calls.len(),
            all == tool_uses(message::call_views(calls@)),
            json::trees(out@) == start + all.take(i as int),
        decreases calls.len() - i,
    {
        let input = match json::parse(calls[i].arguments.as_str()) {
            Ok(value) => value,
            Err(_) => Json::string(calls[i].arguments.as_str()),
        };
        let value = tool_use_json(&calls[i], input);
        let ghost done = out@;
        out.push(value);
        assert(json::trees(out@) =~= json::trees(done).push(value@));
        assert(all[i as int] == value@);
        assert(start + all.take(i + 1) =~= (start + all.take(i as int)).push(all[i as int]));
        i = i + 1;
    }
    assert(all.take(all.len() as int) =~= all);
}

/// The result of a tool, which the user hands in.
pub open spec fn tool_result(m: MessageView) -> Tree {
    json::empty_object().with("type"@, Tree::Text("tool_result"@)).with(
        "tool_use_id"@,
        match m.tool_call_id {
            Some(id) => Tree::Text(id),
            None => Tree::Null,
        },
    ).with("content"@, Tree::Text(m.content))
}

pub open spec fn with_role(role: Seq<char>, value: Tree) -> Tree {
    json::empty_object().with("role"@, Tree::Text(role)).with("content"@, value)
}

/// A message as a request carries it.
pub open spec fn wire_message(m: MessageView) -> Tree {
    if m.role == "tool"@ {
        with_role("user"@, Tree::Array(seq![tool_result(m)]))
    } else if m.role == "assistant"@ && m.tool_calls.len() > 0 {
        with_role(
            "assistant"@,
            Tree::Array(content::anthropic_values(m) + tool_uses(m.tool_calls)),
        )
    } else {
        with_role(m.role, content::anthropic_content(m))
    }
}

fn role_json(role: &str, value: Json) -> (r: Json)
    ensures
        r@ == with_role(role@, value@),
{
    Json::object().with("role", Json::string(role)).with("content", value)
}

fn message_json(m: &ProviderMessage) -> (r: Json)
    ensures
        r@ == wire_message(m@),
{
    broadcast use json::lemma_json_view;

    if m.role_is("tool") {
        let id = match &m.tool_call_id {
            Some(id) => Json::string(id.as_str()),
            None => Json::Null,
        };
        let result = Json::object().with("type", Json::string("tool_result")).with(
            "tool_use_id",
            id,
        ).with("content", Json::string(m.content.as_str()));
        let mut items: Vec<Json> = Vec::new();
        items.push(result);
        assert(json::trees(items@) =~= seq![tool_result(m@)]);
        return role_json("user", Json::Array(items));
    }
    if m.role_is("assistant") && m.tool_calls.len() > 0 {
        let mut items = content::anthropic_content_values(m);
        push_tool_uses(&mut items, &m.tool_calls);
        return role_json("assistant", Json::Array(items));
    }
    role_json(m.role.as_str(), content::anthropic_message_content(m))
}

pub open spec fn wire_messages(messages: Seq<MessageView>) -> Seq<Tree> {
    messages.map_values(|m: MessageView| wire_message(m))
}

fn messages_json(messages: &Vec<ProviderMessage>) -> (out: Vec<Json>)
    ensures
        json::trees(out@) == wire_messages(message::views(messages@)),
{
    let ghost all = wire_messages(message::views(messages@));
    let mut out: Vec<Json> = Vec::new();
    let mut i: usize = 0;
    assert(json::trees(out@) =~= all.take(0));
    while i < messages.len()
        invariant
            i <= messages.len(),
            all == wire_messages(message::views(messages@)),
            json::trees(out@) == all.take(i as int),
        decreases messages.len() - i,
    {
        let value = message_json(&messages[i]);
        let ghost done = out@;
        out.push(value);
        assert(json::trees(out@) =~= json::trees(done).push(value@));
        assert(all.take(i + 1) =~= all.take(i as int).push(all[i as int]));
        i = i + 1;
    }
    assert(all.take(all.len() as int) =~= all);
    out
}

/// The rules as a block that is to be saved.
pub open spec fn marked_rules(system: Seq<char>) -> Tree {
    Tree::Array(
        seq![
            json::empty_object().with("type"@, Tree::Text("text"@)).with(
                "text"@,
                Tree::Text(system),
            ).with("cache_control"@, cache_mark()),
        ],
    )
}

/// Tools of which the last is marked.
pub open spec fn marked_tools(tools: Seq<Tree>) -> Seq<Tree> {
    if tools.len() > 0 && tools.last() is Object {
        tools.drop_last().push(tools.last().with("cache_control"@, cache_mark()))
    } else {
        tools
    }
}

/// A body with the marks that ask for its beginning to be saved: on the whole,
/// on the rules and on the last tool.
pub open spec fn with_marks(body: Tree) -> Tree {
    let marked = bodies::settable(body).with("cache_control"@, cache_mark());
    let ruled = match marked.text_at("system"@) {
        Some(system) => marked.with("system"@, marked_rules(system)),
        None => marked,
    };
    match ruled.items_at("tools"@) {
        Some(tools) => ruled.with("tools"@, Tree::Array(marked_tools(tools))),
        None => ruled,
    }
}

fn rules_json(system: &str) -> (r: Json)
    ensures
        r@ == marked_rules(system@),
{
    broadcast use json::lemma_json_view;

    let block = Json::object().with("type", Json::string("text")).with(
        "text",
        Json::string(system),
    ).with("cache_control", cache_control());
    let mut items: Vec<Json> = Vec::new();
    items.push(block);
    assert(json::trees(items@) =~= seq![block@]);
    Json::Array(items)
}

fn mark_last(tools: &Vec<Json>) -> (out: Vec<Json>)
    ensures
        json::trees(out@) == marked_tools(json::trees(tools@)),
{
    let ghost all = json::trees(tools@);
    let mut out = json::copy_all(tools);
    assert(out@.len() == json::trees(out@).len() == all.len());
    if out.len() == 0 {
        return out;
    }
    let last: usize = out.len() - 1;
    let is_object = tools[last].is_object();
    assert(all.last() == tools@[last as int]@);
    if is_object {
        let marked = tools[last].copy().with("cache_control", cache_control());
        out.pop();
        assert(json::trees(out@) =~= all.drop_last());
        let ghost done = out@;
        out.push(marked);
        assert(json::trees(out@) =~= json::trees(done).push(marked@));
    }
    out
}

/// Puts the marks into a body that ask for its beginning to be saved.
pub fn materialize_prompt_cache_intent(body: Json) -> (r: Json)
    requires
        body@ is Object || body@ is Null,
    ensures
        r@ == with_marks(body@),
        r@ is Object,
{
    broadcast use json::lemma_json_view;

    let marked = bodies::make_settable(body).with("cache_control", cache_control());
    let rules = match marked.str_at("system") {
        Some(system) => Some(rules_json(system)),
        None => None,
    };
    let ruled = match rules {
        Some(value) => marked.with("system", value),
        None => marked,
    };
    let tools = match ruled.array_at("tools") {
        Some(tools) => Some(mark_last(tools)),
        None => None,
    };
    match tools {
        Some(items) => ruled.with("tools", Json::Array(items)),
        None => ruled,
    }
}

/// What every body holds.
pub open spec fn base_body(config: ConfigView, messages: Seq<MessageView>) -> Tree {
    json::empty_object().with("model"@, Tree::Text(config.model)).with(
        "max_tokens"@,
        Tree::Number(text::decimal(config.settings.max_output_tokens as nat)),
    ).with("messages"@, Tree::Array(wire_messages(messages))).with("stream"@, Tree::Bool(true))
}

/// The body of a request before its marks are put into it.
pub open spec fn plain_body(
    config: ConfigView,
    messages: Seq<MessageView>,
    tools: Seq<Tree>,
) -> Tree {
    let base = base_body(config, messages);
    let ruled = match config.effective_prompt() {
        Some(prompt) => base.with("system"@, Tree::Text(prompt)),
        None => base,
    };
    let asked = match config.effective_effort() {
        Some(effort) => ruled.with(
            "output_config"@,
            json::empty_object().with("effort"@, Tree::Text(effort)),
        ),
        None => ruled,
    };
    let calm = if config.settings.off == Some(ReasoningOff::ThinkingDisabled) {
        asked.with("thinking"@, json::empty_object().with("type"@, Tree::Text("disabled"@)))
    } else {
        asked
    };
    if tools.len() == 0 {
        calm
    } else {
        calm.with("tools"@, Tree::Array(tools))
    }
}

/// The body of a request.
pub open spec fn wire_body(
    config: ConfigView,
    messages: Seq<MessageView>,
    tools: Seq<Tree>,
) -> Tree {
    with_marks(plain_body(config, messages, tools))
}

/// The levels of a tool that a body has room for.
pub const TOOL_LEVELS: usize = 125;

/// The levels of a tool call's arguments that a body has room for.
pub const INPUT_LEVELS: usize = 122;

/// Tools that can be read back from a body.
pub open spec fn readable_tools(tools: Seq<Tree>) -> bool {
    forall|i: int| 0 <= i < tools.len() ==> json::keeps(#[trigger] tools[i], TOOL_LEVELS as nat)
}

/// Messages whose tool calls can be read back from a body.
pub open spec fn readable_calls(messages: Seq<MessageView>) -> bool {
    forall|i: int, j: int|
        0 <= i < messages.len() && 0 <= j < messages[i].tool_calls.len() ==> json::keeps(
            call_input((#[trigger] messages[i].tool_calls[j]).arguments),
            INPUT_LEVELS as nat,
        )
}

proof fn lemma_message_reads_back(m: MessageView)
    requires
        forall|j: int|
            0 <= j < m.tool_calls.len() ==> json::keeps(
                call_input((#[trigger] m.tool_calls[j]).arguments),
                INPUT_LEVELS as nat,
            ),
    ensures
        json::keeps(wire_message(m), (INPUT_LEVELS + 3) as nat),
{
    broadcast use json::lemma_keeps_with;

    let inner = (INPUT_LEVELS + 1) as nat;
    content::lemma_values_read_back(m);
    let values = content::anthropic_values(m);
    assert forall|i: int| 0 <= i < values.len() implies json::keeps(#[trigger] values[i], inner) by {
        json::lemma_keeps_more(values[i], 2, inner);
    }
    let uses = tool_uses(m.tool_calls);
    assert forall|i: int| 0 <= i < uses.len() implies json::keeps(#[trigger] uses[i], inner) by {
        let call = m.tool_calls[i];
        assert(uses[i] == tool_use(call, call_input(call.arguments)));
    }
    let all = values + uses;
    assert forall|i: int| 0 <= i < all.len() implies json::keeps(#[trigger] all[i], inner) by {
        if i >= values.len() {
            assert(all[i] == uses[i - values.len()]);
        }
    }
    assert(json::keeps(Tree::Array(all), (inner + 1) as nat));
    assert(json::keeps(Tree::Array(values), (inner + 1) as nat));
    let result = seq![tool_result(m)];
    assert(json::keeps(result[0], inner));
    assert(json::keeps(Tree::Array(result), (inner + 1) as nat));
}

proof fn lemma_marks_read_back(body: Tree)
    requires
        body is Object,
        json::keeps(body, json::MAX_READ_LEVELS as nat),
    ensures
        json::keeps(with_marks(body), json::MAX_READ_LEVELS as nat),
{
    broadcast use json::lemma_keeps_with;

    let levels = json::MAX_READ_LEVELS as nat;
    assert(json::keeps(cache_mark(), 1));
    json::lemma_keeps_more(cache_mark(), 1, (levels - 1) as nat);
    json::lemma_keeps_more(cache_mark(), 1, (levels - 3) as nat);
    let marked = body.with("cache_control"@, cache_mark());
    assert(json::keeps(marked, levels));
    let ruled = match marked.text_at("system"@) {
        Some(system) => marked.with("system"@, marked_rules(system)),
        None => marked,
    };
    if let Some(system) = marked.text_at("system"@) {
        let rules = marked_rules(system);
        json::lemma_keeps_more(cache_mark(), 1, 10);
        assert(json::keeps(rules->Array_0[0], 11));
        assert(json::keeps(rules, 12));
        json::lemma_keeps_more(rules, 12, (levels - 1) as nat);
    }
    assert(json::keeps(ruled, levels));
    json::lemma_keeps_found(ruled, "tools"@, levels);
    if let Some(tools) = ruled.items_at("tools"@) {
        let last = marked_tools(tools);
        assert forall|i: int| 0 <= i < last.len() implies json::keeps(
            #[trigger] last[i],
            (levels - 2) as nat,
        ) by {
            assert(json::keeps(tools[i], (levels - 2) as nat));
        }
        assert(json::keeps(Tree::Array(last), (levels - 1) as nat));
    }
}

/// A body whose tools and tool calls can be read back can be read back itself.
proof fn lemma_body_reads_back(
    config: ConfigView,
    messages: Seq<MessageView>,
    tools: Seq<Tree>,
)
    requires
        readable_tools(tools),
        readable_calls(messages),
    ensures
        json::keeps(wire_body(config, messages, tools), json::MAX_READ_LEVELS as nat),
{
    broadcast use json::lemma_keeps_with;

    let all = wire_messages(messages);
    let inner = (json::MAX_READ_LEVELS - 2) as nat;
    assert forall|i: int| 0 <= i < all.len() implies json::keeps(#[trigger] all[i], inner) by {
        let m = messages[i];
        assert(all[i] == wire_message(m));
        lemma_message_reads_back(m);
    }
    assert(json::keeps(Tree::Array(all), (inner + 1) as nat));
    assert(json::keeps(Tree::Array(tools), (inner + 1) as nat));
    lemma_marks_read_back(plain_body(config, messages, tools));
}

/// Writes the body of a request.
pub fn messages_body(
    config: &ProviderConfig,
    messages: &Vec<ProviderMessage>,
    tools: &Vec<Json>,
) -> (r: Json)
    ensures
        r@ == wire_body(config@, message::views(messages@), json::trees(tools@)),
        r@ is Object,
{
    broadcast use json::lemma_json_view;

    let base = Json::object().with("model", Json::string(config.model.as_str())).with(
        "max_tokens",
        Json::number(config.max_output_tokens() as u64),
    ).with("messages", Json::Array(messages_json(messages))).with("stream", Json::Bool(true));
    let ruled = match config.effective_system_prompt() {
        Some(prompt) => base.with("system", Json::string(prompt)),
        None => base,
    };
    let asked = match config.reasoning_effort() {
        Some(effort) => {
            let output = Json::object().with("effort", Json::string(effort));
            ruled.with("output_config", output)
        },
        None => ruled,
    };
    let disabled = match config.reasoning_off() {
        Some(ReasoningOff::ThinkingDisabled) => true,
        _ => false,
    };
    let calm = if disabled {
        let off = Json::object().with("type", Json::string("disabled"));
        asked.with("thinking", off)
    } else {
        asked
    };
    let body = if tools.len() == 0 {
        calm
    } else {
        calm.with("tools", Json::Array(json::copy_all(tools)))
    };
    materialize_prompt_cache_intent(body)
}

/// The header that carries the credential.
pub open spec fn credential_header(auth: AuthView) -> (Seq<char>, Seq<char>) {
    if auth is ApiKey {
        ("x-api-key"@, auth.secret())
    } else {
        ("Authorization"@, "Bearer "@ + auth.secret())
    }
}

/// The headers of a request. A client says what it is where the account is an
/// OAuth one.
pub open spec fn wire_headers(config: ConfigView, brand: Seq<char>) -> Seq<(Seq<char>, Seq<char>)> {
    seq![credential_header(config.settings.auth)] + (if config.settings.auth is OAuth {
        seq![
            ("anthropic-beta"@, reasoning::branded(brand, "-code-20250219,oauth-2025-04-20"@)),
            ("user-agent"@, reasoning::branded(brand, "-cli/2.1.75"@)),
            ("x-app"@, "cli"@),
        ]
    } else {
        Seq::empty()
    }) + seq![
        ("anthropic-version"@, "2023-06-01"@),
        ("Content-Type"@, "application/json"@),
    ] + config.settings.extra_headers
}

pub fn anthropic_headers(config: &ProviderConfig, brand: &str) -> (out: Vec<
    (String, String),
>)
    ensures
        url::pair_views(out@) == wire_headers(config@, brand@),
{
    let auth = config.auth();
    let mut out: Vec<(String, String)> = Vec::new();
    if auth.uses_bearer() {
        let mut credential = "Bearer ".to_owned();
        credential.append(auth.secret());
        out.push(("Authorization".to_owned(), credential));
    } else {
        out.push(("x-api-key".to_owned(), auth.secret().to_owned()));
    }
    let ghost first = seq![credential_header(config@.settings.auth)];
    assert(url::pair_views(out@) =~= first);
    if auth.is_oauth() {
        out.push(
            (
                "anthropic-beta".to_owned(),
                reasoning::branded_text(brand, "-code-20250219,oauth-2025-04-20"),
            ),
        );
        out.push(("user-agent".to_owned(), reasoning::branded_text(brand, "-cli/2.1.75")));
        out.push(("x-app".to_owned(), "cli".to_owned()));
    }
    let ghost second = first + (if config@.settings.auth is OAuth {
        seq![
            ("anthropic-beta"@, reasoning::branded(brand@, "-code-20250219,oauth-2025-04-20"@)),
            ("user-agent"@, reasoning::branded(brand@, "-cli/2.1.75"@)),
            ("x-app"@, "cli"@),
        ]
    } else {
        Seq::empty()
    });
    assert(url::pair_views(out@) =~= second);
    out.push(("anthropic-version".to_owned(), "2023-06-01".to_owned()));
    out.push(("Content-Type".to_owned(), "application/json".to_owned()));
    assert(url::pair_views(out@) =~= second + seq![
        ("anthropic-version"@, "2023-06-01"@),
        ("Content-Type"@, "application/json"@),
    ]);
    openai::push_pairs(&mut out, config.extra_headers());
    out
}

/// The efforts that Anthropic knows.
pub open spec fn known_effort(effort: Seq<char>) -> bool {
    effort == "low"@ || effort == "medium"@ || effort == "high"@ || effort == "xhigh"@ || effort
        == "max"@
}

/// Why there is no adapter for a configuration.
pub open spec fn adapter_fault(config: ConfigView) -> Option<Seq<char>> {
    if config.kind != ProviderKind::Anthropic {
        Some("provider kind mismatch"@)
    } else if config.effective_effort() matches Some(effort) && !known_effort(effort) {
        Some("unsupported Anthropic reasoning effort"@)
    } else {
        None
    }
}

/// What Anthropic offers to save prompts.
pub open spec fn offers() -> ProviderCapabilities {
    ProviderCapabilities {
        supports_top_level_cache_control: true,
        supports_explicit_cache_breakpoints: true,
        supports_cache_ttl: true,
        reports_cache_read_tokens: true,
        reports_cache_write_tokens: true,
        ..request::no_capabilities()
    }
}

/// An adapter for messages.
pub struct AnthropicAdapter {
    pub config: ProviderConfig,
    /// The brand of Anthropic's models, which the client of an OAuth account bears.
    pub brand: String,
}

impl AnthropicAdapter {
    /// An adapter for a configuration of the right kind and with a known effort.
    pub fn new(config: ProviderConfig, brand: String) -> (r: Result<
        AnthropicAdapter,
        ProviderError,
    >)
        ensures
            (match (r, adapter_fault(config@)) {
                (Ok(adapter), None) => adapter.config == config && adapter.brand == brand,
                (Err(error), Some(words)) => error@ == (ErrorView::InvalidResponse {
                    message: words,
                }),
                _ => false,
            }),
    {
        if config.kind != ProviderKind::Anthropic {
            return Err(ProviderError::invalid("provider kind mismatch"));
        }
        let known = match config.reasoning_effort() {
            Some(effort) => text::same(effort, "low") || text::same(effort, "medium")
                || text::same(effort, "high") || text::same(effort, "xhigh") || text::same(
                effort,
                "max",
            ),
            None => true,
        };
        if !known {
            return Err(ProviderError::invalid("unsupported Anthropic reasoning effort"));
        }
        Ok(AnthropicAdapter { config, brand })
    }

    pub fn set_system_prompt(&mut self, prompt: String)
        ensures
            final(self).brand == old(self).brand,
            final(self).config@ == old(self).config@.with_settings(
                (SettingsView { prompt: Some(prompt@), ..old(self).config@.settings }),
            ),
    {
        self.config.set_system_prompt(prompt);
    }

    pub fn with_response_cache_scope_id(self, id: u64) -> (r: AnthropicAdapter)
        ensures
            r.brand == self.brand,
            r.config@ == self.config@.with_settings(
                (SettingsView { scope_id: id, ..self.config@.settings }),
            ),
    {
        AnthropicAdapter {
            config: self.config.with_response_cache_scope_id(id),
            brand: self.brand,
        }
    }

    pub fn set_response_cache_scope_id(&mut self, id: u64)
        ensures
            final(self).brand == old(self).brand,
            final(self).config@ == old(self).config@.with_settings(
                (SettingsView { scope_id: id, ..old(self).config@.settings }),
            ),
    {
        self.config.set_response_cache_scope_id(id);
    }

    pub fn capabilities(&self) -> (r: ProviderCapabilities)
        ensures
            r == offers(),
    {
        ProviderCapabilities {
            supports_prompt_cache_key: false,
            supports_prompt_cache_options: false,
            supports_top_level_cache_control: true,
            supports_explicit_cache_breakpoints: true,
            supports_cache_ttl: true,
            reports_cache_read_tokens: true,
            reports_cache_write_tokens: true,
        }
    }

    /// Switches reasoning off, where the route documents how.
    pub fn set_reasoning_disabled(&mut self, policy: &OffPolicy) -> (r: Result<
        (),
        ProviderError,
    >)
        ensures
            final(self).brand == old(self).brand,
            ({
                let resolved = reasoning::resolved_off(
                    old(self).config@.kind,
                    reasoning::host_of(old(self).config@.endpoint),
                    old(self).config@.model,
                    policy@,
                );
                match (r, resolved) {
                    (Ok(_), Ok(off)) => final(self).config@ == old(self).config@.with_settings(
                        (SettingsView { off: Some(off), ..old(self).config@.settings }),
                    ),
                    (Err(error), Err(words)) => final(self).config == old(self).config && error@
                        == (ErrorView::InvalidResponse { message: words }),
                    _ => false,
                }
            }),
    {
        self.config.enable_reasoning_disabled(policy)
    }

    /// What a request is known by.
    pub open spec fn route_view(&self) -> RouteView {
        RouteView {
            kind: self.config@.kind,
            wire_kind: self.config@.kind,
            model: self.config@.model,
            scope_id: self.config@.settings.scope_id as u128,
            values: Seq::empty(),
        }
    }

    pub fn route(&self) -> (r: RequestRoute)
        ensures
            r@ == self.route_view(),
    {
        let r = RequestRoute {
            kind: self.config.kind,
            wire_kind: self.config.kind,
            model: self.config.model.clone(),
            scope_id: self.config.response_cache_scope_id() as u128,
            sensitive_values: Vec::new(),
        };
        assert(r@.values =~= Seq::empty());
        r
    }

    pub open spec fn request_view(&self, messages: Seq<MessageView>, tools: Seq<Tree>) -> RequestView {
        RequestView {
            url: self.config@.endpoint,
            headers: wire_headers(self.config@, self.brand@),
            body: json::json_text(wire_body(self.config@, messages, tools)),
        }
    }

    /// A request with messages and tools.
    pub fn build_messages_request_with_tools(
        &self,
        messages: &Vec<ProviderMessage>,
        tools: &Vec<Json>,
    ) -> (r: HttpRequest)
        ensures
            r@ == self.request_view(message::views(messages@), json::trees(tools@)),
            readable_tools(json::trees(tools@)) && readable_calls(message::views(messages@))
                ==> json::parsed(r@.body) == Ok::<Tree, Seq<char>>(
                wire_body(self.config@, message::views(messages@), json::trees(tools@)),
            ),
    {
        let body = messages_body(&self.config, messages, tools);
        proof {
            if readable_tools(json::trees(tools@)) && readable_calls(message::views(messages@)) {
                lemma_body_reads_back(
                    self.config@,
                    message::views(messages@),
                    json::trees(tools@),
                );
            }
        }
        HttpRequest {
            url: self.config.endpoint.clone(),
            headers: anthropic_headers(&self.config, self.brand.as_str()),
            body: json::to_text(&body),
        }
    }

    /// A request with messages.
    pub fn build_messages_request(&self, messages: &Vec<ProviderMessage>) -> (r: HttpRequest)
        ensures
            r@ == self.request_view(message::views(messages@), Seq::empty()),
    {
        let none: Vec<Json> = Vec::new();
        assert(json::trees(none@) =~= Seq::empty());
        self.build_messages_request_with_tools(messages, &none)
    }

    /// A request with one question.
    pub fn build_request(&self, prompt: &str) -> (r: HttpRequest)
        ensures
            r@ == self.request_view(seq![message::user_message(prompt@)], Seq::empty()),
    {
        let mut messages: Vec<ProviderMessage> = Vec::new();
        messages.push(ProviderMessage::user(prompt.to_owned()));
        assert(message::views(messages@) =~= seq![message::user_message(prompt@)]);
        self.build_messages_request(&messages)
    }

    /// A request with messages and tools made ready to be sent, or why one of
    /// the messages cannot be.
    pub fn prepare_messages_request_with_tools_checked(
        &self,
        messages: &Vec<ProviderMessage>,
        tools: &Vec<Json>,
    ) -> (r: Result<PreparedProviderRequest, ProviderError>)
        ensures
            ({
                let views = message::views(messages@);
                match (r, content::messages_fault(views, 0)) {
                    (Ok(out), None) => out@ == request::prepared(
                        self.request_view(views, json::trees(tools@)),
                        Some(wire_body(self.config@, views, json::trees(tools@))),
                        self.route_view(),
                        None,
                    ),
                    (Err(error), Some(words)) => error@ == (ErrorView::InvalidResponse {
                        message: words,
                    }),
                    _ => false,
                }
            }),
            r is Ok && readable_tools(json::trees(tools@)) && readable_calls(
                message::views(messages@),
            ) ==> request::reads_as(
                r->Ok_0@.body,
                wire_body(self.config@, message::views(messages@), json::trees(tools@)),
            ),
    {
        match content::normalize_messages(messages) {
            Ok(_) => {},
            Err(error) => return Err(error),
        }
        let body = messages_body(&self.config, messages, tools);
        proof {
            if readable_tools(json::trees(tools@)) && readable_calls(message::views(messages@)) {
                lemma_body_reads_back(
                    self.config@,
                    message::views(messages@),
                    json::trees(tools@),
                );
            }
        }
        let route = self.route();
        Ok(
            PreparedProviderRequest::from_http_body(
                self.config.endpoint.clone(),
                anthropic_headers(&self.config, self.brand.as_str()),
                &body,
                &route,
            ),
        )
    }

    /// A compaction of messages made ready to be sent, or why one of the
    /// messages cannot be.
    pub fn prepare_compaction_request_checked(&self, messages: &Vec<ProviderMessage>) -> (r:
        Result<PreparedProviderRequest, ProviderError>)
        ensures
            ({
                let views = message::views(messages@);
                let hardened = bodies::hardened(
                    wire_body(self.config@, views, Seq::empty()),
                    true,
                );
                match (r, content::messages_fault(views, 0), hardened) {
                    (Ok(out), None, Ok(body)) => out@ == request::prepared(
                        (RequestView {
                            url: self.config@.endpoint,
                            headers: wire_headers(self.config@, self.brand@),
                            body: json::json_text(body),
                        }),
                        Some(body),
                        self.route_view(),
                        None,
                    ),
                    (Err(error), Some(words), _) => error@ == (ErrorView::InvalidResponse {
                        message: words,
                    }),
                    _ => false,
                }
            }),
    {
        match content::normalize_messages(messages) {
            Ok(_) => {},
            Err(error) => return Err(error),
        }
        let none: Vec<Json> = Vec::new();
        assert(json::trees(none@) =~= Seq::empty());
        let body = messages_body(&self.config, messages, &none);
        let body = match bodies::harden_compaction_body(body, true) {
            Ok(body) => body,
            Err(error) => return Err(error),
        };
        let route = self.route();
        Ok(
            PreparedProviderRequest::from_http_body(
                self.config.endpoint.clone(),
                anthropic_headers(&self.config, self.brand.as_str()),
                &body,
                &route,
            ),
        )
    }
}

proof fn lemma_marks_keep(body: Tree, key: Seq<char>)
    requires
        body is Object,
        key != "cache_control"@,
        key != "system"@,
        key != "tools"@,
    ensures
        with_marks(body).get(key) == body.get(key),
{
    let marked = body.with("cache_control"@, cache_mark());
    json::law_set_key_is_found(body, "cache_control"@, cache_mark(), key);
    let ruled = match marked.text_at("system"@) {
        Some(system) => marked.with("system"@, marked_rules(system)),
        None => marked,
    };
    if let Some(system) = marked.text_at("system"@) {
        json::law_set_key_is_found(marked, "system"@, marked_rules(system), key);
    }
    if let Some(tools) = ruled.items_at("tools"@) {
        json::law_set_key_is_found(ruled, "tools"@, Tree::Array(marked_tools(tools)), key);
    }
}

proof fn lemma_plain_body_off(
    config: ConfigView,
    messages: Seq<MessageView>,
    tools: Seq<Tree>,
    key: Seq<char>,
)
    requires
        config.settings.off == Some(ReasoningOff::ThinkingDisabled),
        key == "thinking"@ || key == "reasoning_effort"@ || key == "output_config"@,
    ensures
        plain_body(config, messages, tools) is Object,
        plain_body(config, messages, tools).get(key) == (if key == "thinking"@ {
            Some(json::empty_object().with("type"@, Tree::Text("disabled"@)))
        } else {
            None
        }),
{
    reveal_strlit("thinking");
    reveal_strlit("reasoning_effort");
    reveal_strlit("output_config");
    reveal_strlit("model");
    reveal_strlit("max_tokens");
    reveal_strlit("messages");
    reveal_strlit("stream");
    reveal_strlit("system");
    reveal_strlit("tools");
    assert("thinking"@[0] == 't' && "messages"@[0] == 'm');
    assert(key.len() == 8 || key.len() == 16 || key.len() == 13);
    assert(key.len() == 8 ==> key[0] == 't');
    let limit = Tree::Number(text::decimal(config.settings.max_output_tokens as nat));
    let a = json::empty_object();
    let b = a.with("model"@, Tree::Text(config.model));
    let c = b.with("max_tokens"@, limit);
    let d = c.with("messages"@, Tree::Array(wire_messages(messages)));
    let e = d.with("stream"@, Tree::Bool(true));
    json::law_set_key_is_found(a, "model"@, Tree::Text(config.model), key);
    json::law_set_key_is_found(b, "max_tokens"@, limit, key);
    json::law_set_key_is_found(c, "messages"@, Tree::Array(wire_messages(messages)), key);
    json::law_set_key_is_found(d, "stream"@, Tree::Bool(true), key);
    assert(e == base_body(config, messages));
    let ruled = match config.effective_prompt() {
        Some(prompt) => e.with("system"@, Tree::Text(prompt)),
        None => e,
    };
    if let Some(prompt) = config.effective_prompt() {
        json::law_set_key_is_found(e, "system"@, Tree::Text(prompt), key);
    }
    let disabled = json::empty_object().with("type"@, Tree::Text("disabled"@));
    json::law_set_key_is_found(ruled, "thinking"@, disabled, key);
    json::law_set_key_is_found(
        ruled.with("thinking"@, disabled),
        "tools"@,
        Tree::Array(tools),
        key,
    );
}

/// Where reasoning was switched off, every request says so.
pub proof fn law_switched_off_requests_say_so(
    config: ConfigView,
    messages: Seq<MessageView>,
    tools: Seq<Tree>,
)
    requires
        config.kind == ProviderKind::Anthropic,
        config.settings.off == Some(ReasoningOff::ThinkingDisabled),
    ensures
        reasoning::says_off(
            wire_body(config, messages, tools),
            config.kind,
            ReasoningOff::ThinkingDisabled,
        ),
{
    reveal_strlit("thinking");
    reveal_strlit("reasoning_effort");
    reveal_strlit("output_config");
    reveal_strlit("cache_control");
    reveal_strlit("system");
    reveal_strlit("tools");
    reveal_strlit("type");
    assert("cache_control"@.len() == 13 && "cache_control"@[0] == 'c');
    assert("output_config"@[0] == 'o' && "output_config"@.len() == 13);
    assert("thinking"@.len() == 8 && "reasoning_effort"@.len() == 16);
    assert("system"@.len() == 6 && "tools"@.len() == 5);
    let body = plain_body(config, messages, tools);
    lemma_plain_body_off(config, messages, tools, "thinking"@);
    lemma_plain_body_off(config, messages, tools, "reasoning_effort"@);
    lemma_plain_body_off(config, messages, tools, "output_config"@);
    lemma_marks_keep(body, "thinking"@);
    lemma_marks_keep(body, "reasoning_effort"@);
    lemma_marks_keep(body, "output_config"@);
    json::law_set_key_is_found(
        json::empty_object(),
        "type"@,
        Tree::Text("disabled"@),
        "thinking"@,
    );
}

} // verus!
