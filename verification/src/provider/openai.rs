//! The chat completions of OpenAI: how a request is written.
use vstd::prelude::*;
use vstd::string::*;

use crate::json;
use crate::json::{Json, Tree};
use crate::provider::accounting;
use crate::provider::accounting::ProviderRequestFingerprints;
use crate::provider::bodies;
use crate::provider::config::{ConfigView, ProviderConfig, SettingsView};
use crate::provider::content;
use crate::provider::endpoint::{HttpRequest, RequestView};
use crate::provider::identity;
use crate::provider::message;
use crate::provider::message::{CallView, MessageView, ProviderMessage, ProviderToolCall};
use crate::provider::reasoning;
use crate::provider::reasoning::{OffPolicy, PolicyView, ReasoningOff};
use crate::provider::request;
use crate::provider::request::{
    PreparedProviderRequest, ProviderCapabilities, RequestRoute, RouteView,
};
use crate::provider::types::{ErrorView, ProviderError, ProviderKind};
use crate::text;
use crate::url;

verus! {

/// Whether the answers of a configuration think aloud in a way that has to be
/// handed back.
pub open spec fn chat_thinking(config: ConfigView) -> bool {
    reasoning::deepseek_model(config.model) && (config.effective_effort() matches Some(effort)
        && effort != "none"@)
}

/// Whether an endpoint is that of OpenAI itself.
pub open spec fn official(endpoint: Seq<char>) -> bool {
    reasoning::host_is(reasoning::host_of(endpoint), "api.openai.com"@)
}

pub fn is_official_openai_endpoint(endpoint: &str) -> (r: bool)
    ensures
        r == official(endpoint@),
{
    match url::parse(endpoint) {
        Ok(parts) => match &parts.host {
            Some(host) => text::same_ignoring_case(host.as_str(), "api.openai.com"),
            None => false,
        },
        Err(_) => false,
    }
}

/// A tool call as a message carries it.
pub open spec fn call_tree(call: CallView) -> Tree {
    json::empty_object().with("id"@, Tree::Text(call.id)).with("type"@, Tree::Text("function"@)).with(
        "function"@,
        json::empty_object().with("name"@, Tree::Text(call.name)).with(
            "arguments"@,
            Tree::Text(call.arguments),
        ),
    )
}

pub open spec fn call_trees(calls: Seq<CallView>) -> Seq<Tree> {
    calls.map_values(|c: CallView| call_tree(c))
}

fn call_json(call: &ProviderToolCall) -> (r: Json)
    ensures
        r@ == call_tree(call@),
{
    let function = Json::object().with("name", Json::string(call.name.as_str())).with(
        "arguments",
        Json::string(call.arguments.as_str()),
    );
    Json::object().with("id", Json::string(call.id.as_str())).with(
        "type",
        Json::string("function"),
    ).with("function", function)
}

fn calls_json(calls: &Vec<ProviderToolCall>) -> (out: Vec<Json>)
    ensures
        json::trees(out@) == call_trees(message::call_views(calls@)),
{
    let ghost all = call_trees(message::call_views(calls@));
    let mut out: Vec<Json> = Vec::new();
    let mut i: usize = 0;
    assert(json::trees(out@) =~= all.take(0));
    while i < calls.len()
        invariant
            i <= calls.len(),
            all == call_trees(message::call_views(calls@)),
            json::trees(out@) == all.take(i as int),
        decreases calls.len() - i,
    {
        let call = call_json(&calls[i]);
        let ghost done = out@;
        out.push(call);
        assert(json::trees(out@) =~= json::trees(done).push(call@));
        assert(all.take(i + 1) =~= all.take(i as int).push(all[i as int]));
        i = i + 1;
    }
    assert(all.take(all.len() as int) =~= all);
    out
}

/// What is handed back of a message's thinking: what this very adapter was
/// given, or nothing.
pub open spec fn returned_thinking(m: MessageView, config: ConfigView) -> Seq<char> {
    match m.chat_reasoning {
        Some(state) => if state.belongs(Some(config.settings.scope_id), config.model) {
            state.content
        } else {
            Seq::empty()
        },
        None => Seq::empty(),
    }
}

/// An object with a key set to a text, where there is one.
pub open spec fn with_text(tree: Tree, key: Seq<char>, value: Option<Seq<char>>) -> Tree {
    match value {
        Some(s) => tree.with(key, Tree::Text(s)),
        None => tree,
    }
}

/// A message as a request carries it.
pub open spec fn chat_message(m: MessageView, config: ConfigView) -> Tree {
    let plain = json::empty_object().with("role"@, Tree::Text(m.role)).with(
        "content"@,
        content::openai_content(m),
    );
    let thinking = if chat_thinking(config) && m.role == "assistant"@ {
        plain.with("reasoning_content"@, Tree::Text(returned_thinking(m, config)))
    } else {
        plain
    };
    let named = with_text(with_text(thinking, "name"@, m.name), "tool_call_id"@, m.tool_call_id);
    if m.tool_calls.len() == 0 {
        named
    } else {
        named.with("tool_calls"@, Tree::Array(call_trees(m.tool_calls)))
    }
}

/// Thinking that another adapter or another model gave is never handed back: the
/// message is sent as one without any.
pub proof fn law_foreign_thinking_is_not_sent(m: MessageView, config: ConfigView)
    requires
        m.chat_reasoning matches Some(state) ==> !state.belongs(
            Some(config.settings.scope_id),
            config.model,
        ),
    ensures
        chat_message(m, config) == chat_message((MessageView { chat_reasoning: None, ..m }), config),
{
}

fn set_text(value: Json, key: &str, s: &Option<String>) -> (r: Json)
    ensures
        r@ == with_text(value@, key@, message::opt_text(*s)),
{
    match s {
        Some(t) => value.with(key, Json::string(t.as_str())),
        None => value,
    }
}

pub(crate) fn uses_chat_thinking(config: &ProviderConfig) -> (r: bool)
    ensures
        r == chat_thinking(config@),
{
    if !reasoning::is_deepseek_model(config.model.as_str()) {
        return false;
    }
    match config.reasoning_effort() {
        Some(effort) => !text::same(effort, "none"),
        None => false,
    }
}

fn message_json(m: &ProviderMessage, config: &ProviderConfig) -> (r: Json)
    ensures
        r@ == chat_message(m@, config@),
{
    broadcast use json::lemma_json_view;

    let plain = Json::object().with("role", Json::string(m.role.as_str())).with(
        "content",
        content::openai_message_content(m),
    );
    let thinking = if uses_chat_thinking(config) && m.role_is("assistant") {
        let returned = match &m.chat_reasoning {
            Some(state) => if state.belongs_to(
                Some(config.response_cache_scope_id()),
                config.model.as_str(),
            ) {
                Json::string(state.content.as_str())
            } else {
                Json::Text(String::new())
            },
            None => Json::Text(String::new()),
        };
        assert(returned@ == Tree::Text(returned_thinking(m@, config@)));
        plain.with("reasoning_content", returned)
    } else {
        plain
    };
    let named = set_text(
        set_text(thinking, "name", &m.name),
        "tool_call_id",
        &m.tool_call_id,
    );
    if m.tool_calls.len() == 0 {
        named
    } else {
        named.with("tool_calls", Json::Array(calls_json(&m.tool_calls)))
    }
}

/// The messages of a request: the system's rules, where there are any, and the
/// history.
pub open spec fn chat_messages(messages: Seq<MessageView>, config: ConfigView) -> Seq<Tree> {
    (match config.effective_prompt() {
        Some(prompt) => seq![
            json::empty_object().with("role"@, Tree::Text("system"@)).with(
                "content"@,
                Tree::Text(prompt),
            ),
        ],
        None => Seq::empty(),
    }) + messages.map_values(|m: MessageView| chat_message(m, config))
}

fn messages_json(messages: &Vec<ProviderMessage>, config: &ProviderConfig) -> (out: Vec<Json>)
    ensures
        json::trees(out@) == chat_messages(message::views(messages@), config@),
{
    let ghost view = config@;
    let ghost all = message::views(messages@).map_values(|m: MessageView| chat_message(m, view));
    let mut out: Vec<Json> = Vec::new();
    let ghost mut head: Seq<Tree> = Seq::empty();
    if let Some(system) = config.effective_system_prompt() {
        let rules = Json::object().with("role", Json::string("system")).with(
            "content",
            Json::string(system),
        );
        out.push(rules);
        proof {
            head = seq![rules@];
        }
    }
    assert(json::trees(out@) =~= head);
    let mut i: usize = 0;
    assert(head =~= head + all.take(0));
    while i < messages.len()
        invariant
            i <= messages.len(),
            view == config@,
            all == message::views(messages@).map_values(|m: MessageView| chat_message(m, view)),
            json::trees(out@) == head + all.take(i as int),
        decreases messages.len() - i,
    {
        let value = message_json(&messages[i], config);
        let ghost done = out@;
        out.push(value);
        assert(json::trees(out@) =~= json::trees(done).push(value@));
        assert(all[i as int] == value@);
        assert(head + all.take(i + 1) =~= (head + all.take(i as int)).push(all[i as int]));
        i = i + 1;
    }
    assert(all.take(all.len() as int) =~= all);
    out
}

pub open spec fn or_null(value: Option<Tree>) -> Tree {
    match value {
        Some(tree) => tree,
        None => Tree::Null,
    }
}

/// A tool as a request offers it.
pub open spec fn tool_tree(tool: Tree) -> Tree {
    json::empty_object().with("type"@, Tree::Text("function"@)).with(
        "function"@,
        json::empty_object().with("name"@, or_null(tool.get("name"@))).with(
            "description"@,
            or_null(tool.get("description"@)),
        ).with(
            "parameters"@,
            match tool.get("input_schema"@) {
                Some(schema) => schema,
                None => json::empty_object().with("type"@, Tree::Text("object"@)),
            },
        ),
    )
}

fn value_or_null(value: Option<&Json>) -> (r: Json)
    ensures
        r@ == or_null(request::opt_tree(value)),
{
    broadcast use json::lemma_json_view;

    match value {
        Some(found) => found.copy(),
        None => Json::Null,
    }
}

fn tool_json(tool: &Json) -> (r: Json)
    ensures
        r@ == tool_tree(tool@),
{
    let parameters = match tool.get("input_schema") {
        Some(schema) => schema.copy(),
        None => Json::object().with("type", Json::string("object")),
    };
    let function = Json::object().with("name", value_or_null(tool.get("name"))).with(
        "description",
        value_or_null(tool.get("description")),
    ).with("parameters", parameters);
    Json::object().with("type", Json::string("function")).with("function", function)
}

pub open spec fn tool_trees(tools: Seq<Tree>) -> Seq<Tree> {
    tools.map_values(|t: Tree| tool_tree(t))
}

fn tools_json(tools: &Vec<Json>) -> (out: Vec<Json>)
    ensures
        json::trees(out@) == tool_trees(json::trees(tools@)),
{
    let ghost all = tool_trees(json::trees(tools@));
    let mut out: Vec<Json> = Vec::new();
    let mut i: usize = 0;
    assert(json::trees(out@) =~= all.take(0));
    while i < tools.len()
        invariant
            i <= tools.len(),
            all == tool_trees(json::trees(tools@)),
            json::trees(out@) == all.take(i as int),
        decreases tools.len() - i,
    {
        let tool = tool_json(&tools[i]);
        let ghost done = out@;
        out.push(tool);
        assert(json::trees(out@) =~= json::trees(done).push(tool@));
        assert(all.take(i + 1) =~= all.take(i as int).push(all[i as int]));
        i = i + 1;
    }
    assert(all.take(all.len() as int) =~= all);
    out
}

/// A body with its limits and options: OpenAI itself wants other keys than those
/// that speak like it.
pub open spec fn with_limits(
    body: Tree,
    config: ConfigView,
    at_openai: bool,
    terse: bool,
) -> Tree {
    let limit = Tree::Number(text::decimal(config.settings.max_output_tokens as nat));
    if at_openai {
        let own = body.without("max_tokens"@).with("max_completion_tokens"@, limit).with(
            "stream_options"@,
            json::empty_object().with("include_usage"@, Tree::Bool(true)),
        );
        if terse {
            own.with("verbosity"@, Tree::Text("low"@))
        } else {
            own
        }
    } else {
        body
    }
}

/// A body with what it says of reasoning.
pub open spec fn with_reasoning(body: Tree, config: ConfigView) -> Tree {
    if config.settings.off == Some(ReasoningOff::ThinkingDisabled) || (reasoning::thinking_toggle(
        config.model,
    ) && config.effective_effort() == Some("none"@)) {
        body.with(
            "thinking"@,
            json::empty_object().with("type"@, Tree::Text("disabled"@)),
        )
    } else {
        match config.effective_effort() {
            Some(effort) => {
                let asked = body.with("reasoning_effort"@, Tree::Text(effort));
                if chat_thinking(config) {
                    asked.with(
                        "thinking"@,
                        json::empty_object().with("type"@, Tree::Text("enabled"@)),
                    )
                } else {
                    asked
                }
            },
            None => body,
        }
    }
}

/// What every body holds.
pub open spec fn base_body(config: ConfigView, messages: Seq<MessageView>) -> Tree {
    json::empty_object().with("model"@, Tree::Text(config.model)).with(
        "messages"@,
        Tree::Array(chat_messages(messages, config)),
    ).with(
        "max_tokens"@,
        Tree::Number(text::decimal(config.settings.max_output_tokens as nat)),
    ).with("stream"@, Tree::Bool(true))
}

/// The body of a request before the provider's own cache key is put into it.
pub open spec fn keyless_body(
    config: ConfigView,
    messages: Seq<MessageView>,
    tools: Seq<Tree>,
    at_openai: bool,
    terse: bool,
) -> Tree {
    let body = with_reasoning(
        with_limits(base_body(config, messages), config, at_openai, terse),
        config,
    );
    if tools.len() == 0 {
        body
    } else {
        body.with("tools"@, Tree::Array(tool_trees(tools)))
    }
}

/// The body of a request.
pub open spec fn chat_body(
    config: ConfigView,
    messages: Seq<MessageView>,
    tools: Seq<Tree>,
    at_openai: bool,
    terse: bool,
) -> Tree {
    let body = keyless_body(config, messages, tools, at_openai, terse);
    if at_openai {
        bodies::with_native_key(body, config.kind, config.model)
    } else {
        body
    }
}

/// What the beginning of a request is recognised by, where the provider is told.
pub open spec fn chat_prefixes(
    config: ConfigView,
    messages: Seq<MessageView>,
    tools: Seq<Tree>,
    at_openai: bool,
    terse: bool,
) -> Option<ProviderRequestFingerprints> {
    if at_openai {
        Some(
            accounting::prefix_fingerprints(
                keyless_body(config, messages, tools, at_openai, terse),
            ),
        )
    } else {
        None
    }
}

/// The levels of a tool that a body has room for.
pub const TOOL_LEVELS: usize = 124;

/// Tools that can be read back from a body.
pub open spec fn readable_tools(tools: Seq<Tree>) -> bool {
    forall|i: int| 0 <= i < tools.len() ==> json::keeps(#[trigger] tools[i], TOOL_LEVELS as nat)
}

proof fn lemma_call_reads_back(call: CallView)
    ensures
        json::keeps(call_tree(call), 2),
{
    broadcast use json::lemma_keeps_with;

}

proof fn lemma_message_reads_back(m: MessageView, config: ConfigView)
    ensures
        json::keeps(chat_message(m, config), 4),
{
    broadcast use json::lemma_keeps_with;

    content::lemma_content_reads_back(m);
    let calls = call_trees(m.tool_calls);
    assert forall|i: int| 0 <= i < calls.len() implies json::keeps(#[trigger] calls[i], 2) by {
        lemma_call_reads_back(m.tool_calls[i]);
    }
    assert(json::keeps(Tree::Array(calls), 3));
}

proof fn lemma_tool_reads_back(tool: Tree)
    requires
        json::keeps(tool, TOOL_LEVELS as nat),
    ensures
        json::keeps(tool_tree(tool), (TOOL_LEVELS + 1) as nat),
{
    broadcast use json::lemma_keeps_with;

    json::lemma_keeps_found(tool, "name"@, TOOL_LEVELS as nat);
    json::lemma_keeps_found(tool, "description"@, TOOL_LEVELS as nat);
    json::lemma_keeps_found(tool, "input_schema"@, TOOL_LEVELS as nat);
}

/// A body whose tools can be read back can be read back itself.
proof fn lemma_body_reads_back(
    config: ConfigView,
    messages: Seq<MessageView>,
    tools: Seq<Tree>,
    at_openai: bool,
    terse: bool,
)
    requires
        readable_tools(tools),
    ensures
        json::keeps(
            chat_body(config, messages, tools, at_openai, terse),
            json::MAX_READ_LEVELS as nat,
        ),
{
    broadcast use {json::lemma_keeps_with, json::lemma_keeps_without};

    let all = chat_messages(messages, config);
    let inner = (json::MAX_READ_LEVELS - 2) as nat;
    assert forall|i: int| 0 <= i < all.len() implies json::keeps(#[trigger] all[i], inner) by {
        let history = messages.map_values(|m: MessageView| chat_message(m, config));
        let head = all.len() - history.len();
        if i >= head {
            assert(all[i] == chat_message(messages[i - head], config));
            lemma_message_reads_back(messages[i - head], config);
            json::lemma_keeps_more(all[i], 4, inner);
        }
    }
    assert(json::keeps(Tree::Array(all), (inner + 1) as nat));
    let offered = tool_trees(tools);
    assert forall|i: int| 0 <= i < offered.len() implies json::keeps(
        #[trigger] offered[i],
        inner,
    ) by {
        assert(offered[i] == tool_tree(tools[i]));
        lemma_tool_reads_back(tools[i]);
    }
    assert(json::keeps(Tree::Array(offered), (inner + 1) as nat));
}

fn limits_json(body: Json, config: &ProviderConfig, at_openai: bool, terse: bool) -> (r: Json)
    ensures
        r@ == with_limits(body@, config@, at_openai, terse),
{
    broadcast use json::lemma_json_view;

    if !at_openai {
        return body;
    }
    let options = Json::object().with("include_usage", Json::Bool(true));
    let own = body.without("max_tokens").with(
        "max_completion_tokens",
        Json::number(config.max_output_tokens() as u64),
    ).with("stream_options", options);
    if terse {
        own.with("verbosity", Json::string("low"))
    } else {
        own
    }
}

fn reasoning_json(body: Json, config: &ProviderConfig) -> (r: Json)
    ensures
        r@ == with_reasoning(body@, config@),
{
    let disabled = match config.reasoning_off() {
        Some(ReasoningOff::ThinkingDisabled) => true,
        _ => false,
    };
    let none_asked = match config.reasoning_effort() {
        Some(effort) => text::same(effort, "none"),
        None => false,
    };
    if disabled || (reasoning::uses_thinking_toggle(config.model.as_str()) && none_asked) {
        let off = Json::object().with("type", Json::string("disabled"));
        return body.with("thinking", off);
    }
    match config.reasoning_effort() {
        Some(effort) => {
            let asked = body.with("reasoning_effort", Json::string(effort));
            if uses_chat_thinking(config) {
                let on = Json::object().with("type", Json::string("enabled"));
                asked.with("thinking", on)
            } else {
                asked
            }
        },
        None => body,
    }
}

/// Writes the body of a request, for OpenAI itself or for one that speaks like
/// it. A model that OpenAI is known to serve tersely is asked to.
pub fn messages_body_at(
    config: &ProviderConfig,
    messages: &Vec<ProviderMessage>,
    tools: &Vec<Json>,
    at_openai: bool,
    terse: bool,
) -> (r: (Json, Option<ProviderRequestFingerprints>))
    ensures
        r.0@ == chat_body(
            config@,
            message::views(messages@),
            json::trees(tools@),
            at_openai,
            terse,
        ),
        r.1 == chat_prefixes(
            config@,
            message::views(messages@),
            json::trees(tools@),
            at_openai,
            terse,
        ),
        r.0@ is Object,
{
    broadcast use json::lemma_json_view;

    let base = Json::object().with("model", Json::string(config.model.as_str())).with(
        "messages",
        Json::Array(messages_json(messages, config)),
    ).with("max_tokens", Json::number(config.max_output_tokens() as u64)).with(
        "stream",
        Json::Bool(true),
    );
    let limited = limits_json(base, config, at_openai, terse);
    let body = reasoning_json(limited, config);
    let body = if tools.len() == 0 {
        body
    } else {
        body.with("tools", Json::Array(tools_json(tools)))
    };
    if at_openai {
        let (keyed, prefixes) = bodies::materialize_native_prompt_cache_key(
            body,
            config.kind,
            config.model.as_str(),
        );
        (keyed, Some(prefixes))
    } else {
        (body, None)
    }
}

/// The headers of a request.
pub open spec fn chat_headers(config: ConfigView) -> Seq<(Seq<char>, Seq<char>)> {
    seq![
        ("Authorization"@, "Bearer "@ + config.settings.auth.secret()),
        ("Content-Type"@, "application/json"@),
    ] + config.settings.extra_headers
}

pub(crate) fn push_pairs(out: &mut Vec<(String, String)>, pairs: &Vec<(String, String)>)
    ensures
        url::pair_views(final(out)@) == url::pair_views(old(out)@) + url::pair_views(pairs@),
{
    let ghost start = url::pair_views(out@);
    let ghost all = url::pair_views(pairs@);
    let mut i: usize = 0;
    assert(start =~= start + all.take(0));
    while i < pairs.len()
        invariant
            i <= pairs.len(),
            all == url::pair_views(pairs@),
            url::pair_views(out@) == start + all.take(i as int),
        decreases pairs.len() - i,
    {
        let ghost done = out@;
        out.push((pairs[i].0.clone(), pairs[i].1.clone()));
        assert(url::pair_views(out@) =~= url::pair_views(done).push(all[i as int]));
        assert(start + all.take(i + 1) =~= (start + all.take(i as int)).push(all[i as int]));
        i = i + 1;
    }
    assert(all.take(all.len() as int) =~= all);
}

pub fn openai_headers(config: &ProviderConfig) -> (out: Vec<(String, String)>)
    ensures
        url::pair_views(out@) == chat_headers(config@),
{
    let mut credential = "Bearer ".to_owned();
    credential.append(config.auth().secret());
    let ghost shown = credential@;
    let mut out: Vec<(String, String)> = Vec::new();
    out.push(("Authorization".to_owned(), credential));
    out.push(("Content-Type".to_owned(), "application/json".to_owned()));
    assert(url::pair_views(out@) =~= seq![
        ("Authorization"@, shown),
        ("Content-Type"@, "application/json"@),
    ]);
    push_pairs(&mut out, config.extra_headers());
    out
}

/// An adapter for chat completions.
pub struct OpenAiCompatibleAdapter {
    pub config: ProviderConfig,
    /// Whether the model stands in the catalog of Codex models, which OpenAI is asked
    /// to serve tersely.
    pub terse: bool,
}

pub open spec fn mismatch() -> ErrorView {
    ErrorView::InvalidResponse { message: "provider kind mismatch"@ }
}

impl OpenAiCompatibleAdapter {
    /// An adapter for a configuration of the right kind. `terse` tells whether the
    /// catalog of Codex models has the model.
    pub fn new(config: ProviderConfig, terse: bool) -> (r: Result<
        OpenAiCompatibleAdapter,
        ProviderError,
    >)
        ensures
            (config.kind == ProviderKind::OpenAiCompatible || config.kind
                == ProviderKind::OpenAiCodex) <==> r is Ok,
            r matches Ok(adapter) ==> adapter.config == config && adapter.terse == terse,
            r matches Err(error) ==> error@ == mismatch(),
    {
        if config.kind != ProviderKind::OpenAiCompatible && config.kind
            != ProviderKind::OpenAiCodex {
            return Err(ProviderError::invalid("provider kind mismatch"));
        }
        Ok(OpenAiCompatibleAdapter { config, terse })
    }

    pub fn set_system_prompt(&mut self, prompt: String)
        ensures
            final(self).config@ == old(self).config@.with_settings(
                (SettingsView { prompt: Some(prompt@), ..old(self).config@.settings }),
            ),
            final(self).terse == old(self).terse,
    {
        self.config.set_system_prompt(prompt);
    }

    pub fn with_response_cache_scope_id(self, id: u64) -> (r: OpenAiCompatibleAdapter)
        ensures
            r.config@ == self.config@.with_settings(
                (SettingsView { scope_id: id, ..self.config@.settings }),
            ),
            r.terse == self.terse,
    {
        OpenAiCompatibleAdapter {
            config: self.config.with_response_cache_scope_id(id),
            terse: self.terse,
        }
    }

    pub fn set_response_cache_scope_id(&mut self, id: u64)
        ensures
            final(self).config@ == old(self).config@.with_settings(
                (SettingsView { scope_id: id, ..old(self).config@.settings }),
            ),
            final(self).terse == old(self).terse,
    {
        self.config.set_response_cache_scope_id(id);
    }

    /// What the endpoint offers to save prompts.
    pub open spec fn offers(&self) -> ProviderCapabilities {
        let at_openai = official(self.config@.endpoint);
        ProviderCapabilities {
            supports_prompt_cache_key: at_openai,
            supports_prompt_cache_options: at_openai,
            supports_cache_ttl: at_openai,
            reports_cache_read_tokens: true,
            reports_cache_write_tokens: true,
            ..request::no_capabilities()
        }
    }

    pub fn capabilities(&self) -> (r: ProviderCapabilities)
        ensures
            r == self.offers(),
    {
        let at_openai = is_official_openai_endpoint(self.config.endpoint.as_str());
        ProviderCapabilities {
            supports_prompt_cache_key: at_openai,
            supports_prompt_cache_options: at_openai,
            supports_top_level_cache_control: false,
            supports_explicit_cache_breakpoints: false,
            supports_cache_ttl: at_openai,
            reports_cache_read_tokens: true,
            reports_cache_write_tokens: true,
        }
    }

    /// Switches reasoning off, where the route documents how.
    pub fn set_reasoning_disabled(&mut self, policy: &OffPolicy) -> (r: Result<
        (),
        ProviderError,
    >)
        ensures
            final(self).terse == old(self).terse,
            ({
                let resolved = reasoning::resolved_off(
                    old(self).config@.kind,
                    reasoning::host_of(old(self).config@.endpoint),
                    old(self).config@.model,
                    policy@,
                );
                match (r, resolved) {
                    (Ok(_), Ok(off)) => final(self).config@ == old(self).config@.with_settings(
                        (SettingsView { off: Some(off), ..old(self).config@.settings }),
                    ),
                    (Err(error), Err(words)) => final(self).config == old(self).config && error@
                        == (ErrorView::InvalidResponse { message: words }),
                    _ => false,
                }
            }),
    {
        self.config.enable_reasoning_disabled(policy)
    }

    pub open spec fn body(&self, messages: Seq<MessageView>, tools: Seq<Tree>) -> Tree {
        chat_body(self.config@, messages, tools, official(self.config@.endpoint), self.terse)
    }

    pub open spec fn prefixes(&self, messages: Seq<MessageView>, tools: Seq<Tree>) -> Option<
        ProviderRequestFingerprints,
    > {
        chat_prefixes(self.config@, messages, tools, official(self.config@.endpoint), self.terse)
    }

    proof fn lemma_body_reads_back(&self, messages: Seq<MessageView>, tools: Seq<Tree>)
        requires
            readable_tools(tools),
        ensures
            json::keeps(self.body(messages, tools), json::MAX_READ_LEVELS as nat),
    {
        lemma_body_reads_back(
            self.config@,
            messages,
            tools,
            official(self.config@.endpoint),
            self.terse,
        );
    }

    /// What a request is known by.
    pub open spec fn route_view(&self) -> RouteView {
        RouteView {
            kind: self.config@.kind,
            wire_kind: self.config@.kind,
            model: self.config@.model,
            scope_id: self.config@.settings.scope_id as u128,
            values: Seq::empty(),
        }
    }

    pub fn route(&self) -> (r: RequestRoute)
        ensures
            r@ == self.route_view(),
    {
        let r = RequestRoute {
            kind: self.config.kind,
            wire_kind: self.config.kind,
            model: self.config.model.clone(),
            scope_id: self.config.response_cache_scope_id() as u128,
            sensitive_values: Vec::new(),
        };
        assert(r@.values =~= Seq::empty());
        r
    }

    /// The body of a request, and what its beginning is recognised by.
    pub fn messages_body_with_prefixes(
        &self,
        messages: &Vec<ProviderMessage>,
        tools: &Vec<Json>,
    ) -> (r: (Json, Option<ProviderRequestFingerprints>))
        ensures
            r.0@ == self.body(message::views(messages@), json::trees(tools@)),
            r.1 == self.prefixes(message::views(messages@), json::trees(tools@)),
            r.0@ is Object,
    {
        let at_openai = is_official_openai_endpoint(self.config.endpoint.as_str());
        messages_body_at(&self.config, messages, tools, at_openai, self.terse)
    }

    /// A request with messages and tools.
    pub fn build_messages_request_with_tools(
        &self,
        messages: &Vec<ProviderMessage>,
        tools: &Vec<Json>,
    ) -> (r: HttpRequest)
        ensures
            r@ == (RequestView {
                url: self.config@.endpoint,
                headers: chat_headers(self.config@),
                body: json::json_text(self.body(message::views(messages@), json::trees(tools@))),
            }),
            readable_tools(json::trees(tools@)) ==> json::parsed(r@.body) == Ok::<Tree, Seq<char>>(
                self.body(message::views(messages@), json::trees(tools@)),
            ),
    {
        let (body, _) = self.messages_body_with_prefixes(messages, tools);
        proof {
            if readable_tools(json::trees(tools@)) {
                self.lemma_body_reads_back(message::views(messages@), json::trees(tools@));
            }
        }
        HttpRequest {
            url: self.config.endpoint.clone(),
            headers: openai_headers(&self.config),
            body: json::to_text(&body),
        }
    }

    /// A request with messages.
    pub fn build_messages_request(&self, messages: &Vec<ProviderMessage>) -> (r: HttpRequest)
        ensures
            r@ == (RequestView {
                url: self.config@.endpoint,
                headers: chat_headers(self.config@),
                body: json::json_text(self.body(message::views(messages@), Seq::empty())),
            }),
    {
        let none: Vec<Json> = Vec::new();
        assert(json::trees(none@) =~= Seq::empty());
        self.build_messages_request_with_tools(messages, &none)
    }

    /// A request with one question.
    pub fn build_request(&self, prompt: &str) -> (r: HttpRequest)
        ensures
            r@ == (RequestView {
                url: self.config@.endpoint,
                headers: chat_headers(self.config@),
                body: json::json_text(
                    self.body(seq![message::user_message(prompt@)], Seq::empty()),
                ),
            }),
    {
        let mut messages: Vec<ProviderMessage> = Vec::new();
        messages.push(ProviderMessage::user(prompt.to_owned()));
        assert(message::views(messages@) =~= seq![message::user_message(prompt@)]);
        self.build_messages_request(&messages)
    }

    /// A request with messages and tools made ready to be sent, or why one of
    /// the messages cannot be.
    pub fn prepare_messages_request_with_tools_checked(
        &self,
        messages: &Vec<ProviderMessage>,
        tools: &Vec<Json>,
    ) -> (r: Result<PreparedProviderRequest, ProviderError>)
        ensures
            ({
                let views = message::views(messages@);
                let body = self.body(views, json::trees(tools@));
                match (r, content::messages_fault(views, 0)) {
                    (Ok(out), None) => out@ == request::prepared(
                        (RequestView {
                            url: self.config@.endpoint,
                            headers: chat_headers(self.config@),
                            body: json::json_text(body),
                        }),
                        Some(body),
                        self.route_view(),
                        self.prefixes(views, json::trees(tools@)),
                    ),
                    (Err(error), Some(words)) => error@ == (ErrorView::InvalidResponse {
                        message: words,
                    }),
                    _ => false,
                }
            }),
            r is Ok && readable_tools(json::trees(tools@)) ==> request::reads_as(
                r->Ok_0@.body,
                self.body(message::views(messages@), json::trees(tools@)),
            ),
    {
        match content::normalize_messages(messages) {
            Ok(_) => {},
            Err(error) => return Err(error),
        }
        let (body, prefixes) = self.messages_body_with_prefixes(messages, tools);
        proof {
            if readable_tools(json::trees(tools@)) {
                self.lemma_body_reads_back(message::views(messages@), json::trees(tools@));
            }
        }
        let route = self.route();
        Ok(
            PreparedProviderRequest::from_http_body_with_prefixes(
                self.config.endpoint.clone(),
                openai_headers(&self.config),
                &body,
                &route,
                prefixes,
            ),
        )
    }

    /// The body of a compaction, and what its beginning is recognised by.
    pub open spec fn compaction(&self, messages: Seq<MessageView>) -> Result<
        (Tree, Option<ProviderRequestFingerprints>),
        Seq<char>,
    > {
        match bodies::hardened(self.body(messages, Seq::empty()), false) {
            Ok(body) => Ok(
                if official(self.config@.endpoint) {
                    (
                        bodies::with_native_key(body, self.config@.kind, self.config@.model),
                        Some(accounting::prefix_fingerprints(body)),
                    )
                } else {
                    (body, None)
                },
            ),
            Err(words) => Err(words),
        }
    }

    /// A compaction of messages made ready to be sent, or why it cannot be.
    pub fn prepare_compaction_request_checked(&self, messages: &Vec<ProviderMessage>) -> (r:
        Result<PreparedProviderRequest, ProviderError>)
        ensures
            ({
                let views = message::views(messages@);
                match (r, content::messages_fault(views, 0), self.compaction(views)) {
                    (Ok(out), None, Ok(compaction)) => out@ == request::prepared(
                        (RequestView {
                            url: self.config@.endpoint,
                            headers: chat_headers(self.config@),
                            body: json::json_text(compaction.0),
                        }),
                        Some(compaction.0),
                        self.route_view(),
                        compaction.1,
                    ),
                    (Err(error), Some(words), _) => error@ == (ErrorView::InvalidResponse {
                        message: words,
                    }),
                    (Err(error), None, Err(words)) => error@ == (ErrorView::InvalidResponse {
                        message: words,
                    }),
                    _ => false,
                }
            }),
    {
        match content::normalize_messages(messages) {
            Ok(_) => {},
            Err(error) => return Err(error),
        }
        let none: Vec<Json> = Vec::new();
        assert(json::trees(none@) =~= Seq::empty());
        let (body, _) = self.messages_body_with_prefixes(messages, &none);
        let body = match bodies::harden_compaction_body(body, false) {
            Ok(body) => body,
            Err(error) => return Err(error),
        };
        let route = self.route();
        let (body, prefixes) = if is_official_openai_endpoint(self.config.endpoint.as_str()) {
            let (keyed, prefixes) = bodies::materialize_native_prompt_cache_key(
                body,
                self.config.kind,
                self.config.model.as_str(),
            );
            (keyed, Some(prefixes))
        } else {
            (body, None)
        };
        Ok(
            PreparedProviderRequest::from_http_body_with_prefixes(
                self.config.endpoint.clone(),
                openai_headers(&self.config),
                &body,
                &route,
                prefixes,
            ),
        )
    }
}

proof fn lemma_limits_say_nothing(
    config: ConfigView,
    messages: Seq<MessageView>,
    at_openai: bool,
    terse: bool,
    key: Seq<char>,
)
    requires
        key == "thinking"@ || key == "reasoning_effort"@,
    ensures
        with_limits(base_body(config, messages), config, at_openai, terse) is Object,
        with_limits(base_body(config, messages), config, at_openai, terse).get(key) is None,
{
    reveal_strlit("thinking");
    reveal_strlit("reasoning_effort");
    reveal_strlit("model");
    reveal_strlit("messages");
    reveal_strlit("max_tokens");
    reveal_strlit("stream");
    reveal_strlit("max_completion_tokens");
    reveal_strlit("stream_options");
    reveal_strlit("verbosity");
    assert(key.len() == 8 || key.len() == 16);
    assert(key.len() == 8 ==> key[0] == 't');
    assert("messages"@[0] == 'm');
    let limit = Tree::Number(text::decimal(config.settings.max_output_tokens as nat));
    let a = json::empty_object();
    let b = a.with("model"@, Tree::Text(config.model));
    let c = b.with("messages"@, Tree::Array(chat_messages(messages, config)));
    let d = c.with("max_tokens"@, limit);
    let e = d.with("stream"@, Tree::Bool(true));
    json::law_set_key_is_found(a, "model"@, Tree::Text(config.model), key);
    json::law_set_key_is_found(
        b,
        "messages"@,
        Tree::Array(chat_messages(messages, config)),
        key,
    );
    json::law_set_key_is_found(c, "max_tokens"@, limit, key);
    json::law_set_key_is_found(d, "stream"@, Tree::Bool(true), key);
    assert(e == base_body(config, messages));
    if at_openai {
        let options = json::empty_object().with("include_usage"@, Tree::Bool(true));
        let f = e.without("max_tokens"@);
        let g = f.with("max_completion_tokens"@, limit);
        let h = g.with("stream_options"@, options);
        json::law_removed_key_is_gone(e, "max_tokens"@, key);
        json::law_set_key_is_found(f, "max_completion_tokens"@, limit, key);
        json::law_set_key_is_found(g, "stream_options"@, options, key);
        json::law_set_key_is_found(h, "verbosity"@, Tree::Text("low"@), key);
    }
}

proof fn lemma_what_follows_keeps(
    config: ConfigView,
    messages: Seq<MessageView>,
    tools: Seq<Tree>,
    at_openai: bool,
    terse: bool,
    key: Seq<char>,
)
    requires
        key == "thinking"@ || key == "reasoning_effort"@,
        with_reasoning(
            with_limits(base_body(config, messages), config, at_openai, terse),
            config,
        ) is Object,
    ensures
        chat_body(config, messages, tools, at_openai, terse).get(key) == with_reasoning(
            with_limits(base_body(config, messages), config, at_openai, terse),
            config,
        ).get(key),
{
    reveal_strlit("thinking");
    reveal_strlit("reasoning_effort");
    reveal_strlit("tools");
    reveal_strlit("prompt_cache_key");
    assert(key.len() == 8 || (key.len() == 16 && key[0] == 'r'));
    assert("tools"@.len() == 5);
    assert("prompt_cache_key"@[0] == 'p');
    let body = with_reasoning(
        with_limits(base_body(config, messages), config, at_openai, terse),
        config,
    );
    json::law_set_key_is_found(body, "tools"@, Tree::Array(tool_trees(tools)), key);
    let offered = keyless_body(config, messages, tools, at_openai, terse);
    json::law_set_key_is_found(
        offered,
        "prompt_cache_key"@,
        Tree::Text(
            identity::native_key(
                config.kind,
                config.model,
                accounting::prefix_fingerprints(offered),
            ),
        ),
        key,
    );
}

/// Where reasoning was switched off in the way that the route documents, every
/// request says so.
pub proof fn law_switched_off_requests_say_so(
    config: ConfigView,
    off: ReasoningOff,
    policy: PolicyView,
    messages: Seq<MessageView>,
    tools: Seq<Tree>,
    at_openai: bool,
    terse: bool,
)
    requires
        config.kind == ProviderKind::OpenAiCompatible,
        reasoning::resolved_off(
            config.kind,
            reasoning::host_of(config.endpoint),
            config.model,
            policy,
        ) == Ok::<ReasoningOff, Seq<char>>(off),
        config.settings.off == Some(off),
    ensures
        reasoning::says_off(
            chat_body(config, messages, tools, at_openai, terse),
            config.kind,
            off,
        ),
{
    reveal_strlit("thinking");
    reveal_strlit("reasoning_effort");
    reveal_strlit("type");
    assert("thinking"@.len() == 8 && "reasoning_effort"@.len() == 16);
    let limited = with_limits(base_body(config, messages), config, at_openai, terse);
    lemma_limits_say_nothing(config, messages, at_openai, terse, "thinking"@);
    lemma_limits_say_nothing(config, messages, at_openai, terse, "reasoning_effort"@);
    let disabled = json::empty_object().with("type"@, Tree::Text("disabled"@));
    json::law_set_key_is_found(limited, "thinking"@, disabled, "reasoning_effort"@);
    json::law_set_key_is_found(
        limited,
        "reasoning_effort"@,
        Tree::Text("none"@),
        "thinking"@,
    );
    json::law_set_key_is_found(
        json::empty_object(),
        "type"@,
        Tree::Text("disabled"@),
        "thinking"@,
    );
    if off == ReasoningOff::EffortNone {
        reasoning::lemma_gpt_is_no_toggle(config.model);
    }
    lemma_what_follows_keeps(config, messages, tools, at_openai, terse, "thinking"@);
    lemma_what_follows_keeps(config, messages, tools, at_openai, terse, "reasoning_effort"@);
}

} // verus!
