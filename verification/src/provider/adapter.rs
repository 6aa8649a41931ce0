//! What all adapters have in common: how a provider is asked and its answers are
//! read.
use vstd::prelude::*;
use vstd::string::*;

use crate::events::ReasoningClassification;
use crate::json;
use crate::json::{Json, Tree};
use crate::provider::anthropic;
use crate::provider::anthropic::AnthropicAdapter;
use crate::provider::anthropic_stream;
use crate::provider::bodies;
use crate::provider::content;
use crate::provider::endpoint;
use crate::provider::endpoint::{HttpRequest, RequestView};
use crate::provider::failures;
use crate::provider::identity;
use crate::provider::message;
use crate::provider::message::{MessageView, ProviderMessage};
use crate::provider::openai;
use crate::provider::openai::OpenAiCompatibleAdapter;
use crate::provider::openai_stream;
use crate::provider::reasoning;
use crate::provider::reasoning::{OffPolicy, PolicyView, ReasoningOff};
use crate::provider::request;
use crate::provider::request::{
    PreparedProviderRequest, PreparedView, ProviderCapabilities, RequestRoute, RouteView,
};
use crate::provider::types::{ErrorView, ProviderError, ProviderEvent, ProviderKind, StreamView};
use crate::text;
use crate::url;

verus! {

/// An error that says a response is invalid.
pub open spec fn invalid(words: Seq<char>) -> ErrorView {
    ErrorView::InvalidResponse { message: words }
}

/// What is said where no way to switch reasoning off is documented at all.
pub open spec fn no_off_words() -> Seq<char> {
    "Jev requires a documented native reasoning-OFF adapter; this provider route has none. No fallback was applied."@
}

/// What requests are known by. Without a scope of their own they have that of their
/// credentials.
pub open spec fn route_seen(
    kind: ProviderKind,
    wire_kind: ProviderKind,
    model: Seq<char>,
    scope: Option<u64>,
    values: Seq<Seq<char>>,
    credential_scope: u128,
) -> RouteView {
    RouteView {
        kind,
        wire_kind,
        model,
        scope_id: match scope {
            Some(id) => id as u128,
            None => credential_scope,
        },
        values,
    }
}

/// A way to ask a provider and to read its answers. An adapter without a scope of
/// its own takes that of its credentials.
pub trait ProviderAdapter: Sized {
    spec fn kind_of(&self) -> ProviderKind;

    open spec fn wire_of(&self) -> ProviderKind {
        self.kind_of()
    }

    spec fn model_of(&self) -> Seq<char>;

    open spec fn scope_of(&self) -> Option<u64> {
        None
    }

    /// How requests say that there is to be no reasoning, where they do.
    open spec fn off_of(&self) -> Option<ReasoningOff> {
        None
    }

    /// How requests would say so, or why they cannot.
    open spec fn off_for(&self, policy: PolicyView) -> Result<ReasoningOff, Seq<char>> {
        Err(no_off_words())
    }

    open spec fn capabilities_of(&self) -> ProviderCapabilities {
        request::no_capabilities()
    }

    /// A body with what asks for its beginning to be saved; nothing where a body has
    /// no place for that.
    open spec fn intent_of(&self, body: Tree) -> Option<Tree> {
        Some(body)
    }

    open spec fn classification_of(&self) -> Option<ReasoningClassification> {
        None
    }

    open spec fn budget_prompt_of(&self) -> Option<Seq<char>> {
        None
    }

    open spec fn envelope_of(&self) -> Option<u64> {
        None
    }

    /// What is secret beside what a request shows to be.
    open spec fn values_of(&self) -> Seq<Seq<char>> {
        Seq::empty()
    }

    /// What a message of the provider says.
    spec fn events_of(&self, tree: Tree) -> Result<Seq<StreamView>, ErrorView>;

    /// The request that asks one question.
    spec fn question_of(&self, prompt: Seq<char>) -> RequestView;

    /// The request with messages and tools.
    open spec fn request_of(&self, messages: Seq<MessageView>, tools: Seq<Tree>) -> RequestView {
        self.question_of(plain_prompt(messages))
    }

    /// The request with messages and tools, ready to be sent.
    open spec fn prepared_of(
        &self,
        messages: Seq<MessageView>,
        tools: Seq<Tree>,
        credential_scope: u128,
    ) -> Result<PreparedView, ErrorView> {
        match content::messages_fault(messages, 0) {
            Some(words) => Err(invalid(words)),
            None => Ok(
                request::prepared(
                    self.request_of(messages, tools),
                    request::read_body(self.request_of(messages, tools).body),
                    route_seen(
                        self.kind_of(),
                        self.wire_of(),
                        self.model_of(),
                        self.scope_of(),
                        self.values_of(),
                        credential_scope,
                    ),
                    None,
                ),
            ),
        }
    }

    /// A compaction of messages, ready to be sent.
    open spec fn compacted_of(&self, messages: Seq<MessageView>, credential_scope: u128) -> Result<
        PreparedView,
        ErrorView,
    > {
        match content::messages_fault(messages, 0) {
            Some(words) => Err(invalid(words)),
            None => match compaction_request(
                self.request_of(messages, Seq::empty()),
                |body: Tree| self.intent_of(body),
            ) {
                Ok(request) => Ok(
                    request::prepared(
                        request,
                        request::read_body(request.body),
                        route_seen(
                            self.kind_of(),
                            self.wire_of(),
                            self.model_of(),
                            self.scope_of(),
                            self.values_of(),
                            credential_scope,
                        ),
                        None,
                    ),
                ),
                Err(words) => Err(invalid(words)),
            },
        }
    }

    fn kind(&self) -> (r: ProviderKind)
        ensures
            r == self.kind_of(),
    ;

    fn wire_kind(&self) -> (r: ProviderKind)
        ensures
            r == self.wire_of(),
    ;

    fn model(&self) -> (r: &str)
        ensures
            r@ == self.model_of(),
    ;

    fn response_cache_scope_id(&self) -> (r: Option<u64>)
        ensures
            r == self.scope_of(),
    ;

    /// How requests say that there is to be no reasoning, where they do.
    fn reasoning_off(&self) -> (r: Option<ReasoningOff>)
        ensures
            r == self.off_of(),
    ;

    fn reasoning_disabled(&self) -> (r: bool)
        ensures
            r == self.off_of() is Some,
    {
        self.reasoning_off().is_some()
    }

    /// Switches reasoning off, where the route documents how.
    fn set_reasoning_disabled(&mut self, policy: &OffPolicy) -> (r: Result<(), ProviderError>)
        ensures
            match (r, old(self).off_for(policy@)) {
                (Ok(_), Ok(off)) => {
                    &&& final(self).off_of() == Some(off)
                    &&& final(self).kind_of() == old(self).kind_of()
                    &&& final(self).model_of() == old(self).model_of()
                    &&& final(self).scope_of() == old(self).scope_of()
                },
                (Err(error), Err(words)) => *final(self) == *old(self) && error@ == invalid(words),
                _ => false,
            },
    ;

    fn capabilities(&self) -> (r: ProviderCapabilities)
        ensures
            r == self.capabilities_of(),
    ;

    /// Puts into a body what asks for its beginning to be saved; gives nothing where
    /// the body has no place for it.
    fn materialize_prompt_cache_intent(&self, body: Json) -> (r: Option<Json>)
        ensures
            request::some_tree(r) == self.intent_of(body@),
    ;

    /// What streamed reasoning means, where the wire tells.
    fn reasoning_classification(&self) -> (r: Option<ReasoningClassification>)
        ensures
            r == self.classification_of(),
    ;

    fn system_prompt_for_budget(&self) -> (r: Option<&str>)
        ensures
            url::opt_view(r) == self.budget_prompt_of(),
    ;

    fn request_envelope_upper_bound_chars(&self) -> (r: Option<u64>)
        ensures
            r == self.envelope_of(),
    ;

    fn sensitive_values(&self) -> (r: Vec<String>)
        ensures
            text::texts(r@) == self.values_of(),
    ;

    /// What requests are known by.
    fn request_route(&self, credential_scope: u128) -> (r: RequestRoute)
        ensures
            r@ == route_seen(
                self.kind_of(),
                self.wire_of(),
                self.model_of(),
                self.scope_of(),
                self.values_of(),
                credential_scope,
            ),
    {
        RequestRoute {
            kind: self.kind(),
            wire_kind: self.wire_kind(),
            model: self.model().to_owned(),
            scope_id: match self.response_cache_scope_id() {
                Some(id) => id as u128,
                None => credential_scope,
            },
            sensitive_values: self.sensitive_values(),
        }
    }

    fn parse_event(&self, value: &Json) -> (r: Result<Vec<ProviderEvent>, ProviderError>)
        ensures
            anthropic_stream::is_result(r, self.events_of(value@)),
    ;

    fn build_request(&self, prompt: &str) -> (r: HttpRequest)
        ensures
            r@ == self.question_of(prompt@),
    ;

    fn build_messages_request_with_tools(
        &self,
        messages: &Vec<ProviderMessage>,
        tools: &Vec<Json>,
    ) -> (r: HttpRequest)
        ensures
            r@ == self.request_of(message::views(messages@), json::trees(tools@)),
    ;

    /// The request with messages and tools, or why one of the messages cannot be
    /// sent.
    fn build_messages_request_with_tools_checked(
        &self,
        messages: &Vec<ProviderMessage>,
        tools: &Vec<Json>,
    ) -> (r: Result<HttpRequest, ProviderError>)
        ensures
            match (r, content::messages_fault(message::views(messages@), 0)) {
                (Ok(request), None) => request@ == self.request_of(
                    message::views(messages@),
                    json::trees(tools@),
                ),
                (Err(error), Some(words)) => error@ == invalid(words),
                _ => false,
            },
    {
        match content::normalize_messages(messages) {
            Ok(_) => Ok(self.build_messages_request_with_tools(messages, tools)),
            Err(error) => Err(error),
        }
    }

    fn prepare_messages_request_with_tools_checked(
        &self,
        messages: &Vec<ProviderMessage>,
        tools: &Vec<Json>,
        credential_scope: u128,
    ) -> (r: Result<PreparedProviderRequest, ProviderError>)
        ensures
            is_prepared(
                r,
                self.prepared_of(message::views(messages@), json::trees(tools@), credential_scope),
            ),
    ;

    fn prepare_compaction_request_checked(
        &self,
        messages: &Vec<ProviderMessage>,
        credential_scope: u128,
    ) -> (r: Result<PreparedProviderRequest, ProviderError>)
        ensures
            is_prepared(r, self.compacted_of(message::views(messages@), credential_scope)),
    ;
}

/// A request made fit for a compaction, or what is said of it. Elsewhere than on the
/// wire of Anthropic, where the mark of a compaction would never be read back,
/// `intent` says anew what is to be saved.
pub open spec fn compaction_request(
    request: RequestView,
    intent: spec_fn(Tree) -> Option<Tree>,
) -> Result<RequestView, Seq<char>> {
    let on_anthropic = request::anthropic_wire(request.headers);
    match json::parsed(request.body) {
        Ok(tree) => match bodies::hardened(tree, on_anthropic) {
            Ok(body) => if on_anthropic {
                Ok(RequestView { body: json::json_text(body), ..request })
            } else {
                match intent(body) {
                    Some(marked) => Ok(RequestView { body: json::json_text(marked), ..request }),
                    None => Err("provider compaction request body could not be encoded"@),
                }
            },
            Err(words) => Err(words),
        },
        Err(_) => Err("provider compaction request body is invalid JSON"@),
    }
}

/// The body of a request made fit for a compaction, and whether it goes over the
/// wire of Anthropic.
fn hardened_body(request: &HttpRequest) -> (r: Result<(Json, bool), ProviderError>)
    ensures
        ({
            let on_anthropic = request::anthropic_wire(request@.headers);
            match (r, json::parsed(request@.body)) {
                (Ok((body, wire)), Ok(tree)) => wire == on_anthropic && bodies::hardened(
                    tree,
                    on_anthropic,
                ) == Ok::<Tree, Seq<char>>(body@),
                (Err(error), Ok(tree)) => bodies::hardened(tree, on_anthropic) matches Err(words)
                    && error@ == invalid(words),
                (Err(error), Err(_)) => error@ == invalid(
                    "provider compaction request body is invalid JSON"@,
                ),
                _ => false,
            }
        }),
{
    let on_anthropic = request::uses_anthropic_wire(&request.headers);
    match json::parse(request.body.as_str()) {
        Ok(value) => match bodies::harden_compaction_body(value, on_anthropic) {
            Ok(body) => Ok((body, on_anthropic)),
            Err(error) => Err(error),
        },
        Err(_) => Err(ProviderError::invalid("provider compaction request body is invalid JSON")),
    }
}

/// Makes a request fit for a compaction.
pub fn harden_compaction_request<A: ProviderAdapter>(request: HttpRequest, adapter: &A) -> (r: Result<
    HttpRequest,
    ProviderError,
>)
    ensures
        (match (r, compaction_request(request@, |body: Tree| adapter.intent_of(body))) {
            (Ok(out), Ok(view)) => out@ == view,
            (Err(error), Err(words)) => error@ == invalid(words),
            _ => false,
        }),
{
    let (hardened, on_anthropic) = match hardened_body(&request) {
        Ok(hardened) => hardened,
        Err(error) => return Err(error),
    };
    let body = if on_anthropic {
        Some(hardened)
    } else {
        adapter.materialize_prompt_cache_intent(hardened)
    };
    match body {
        Some(body) => {
            let mut out = request;
            out.body = json::to_text(&body);
            Ok(out)
        },
        None => Err(
            ProviderError::invalid("provider compaction request body could not be encoded"),
        ),
    }
}

/// A request for the last answer of a session, or what is said of it. On the wire of
/// Anthropic it leaves the cache: it carries no tools, so that no later request
/// shares its beginning. Elsewhere the adapter says what is to be saved.
pub open spec fn finalization<A: ProviderAdapter>(
    adapter: &A,
    request: RequestView,
    supports_low: bool,
    credential_scope: u128,
) -> Result<PreparedView, Seq<char>> {
    match json::parsed(request.body) {
        Ok(tree) => {
            let short = bodies::finalized(tree, supports_low && adapter.off_of() is None);
            let body = if adapter.wire_of() == ProviderKind::Anthropic {
                Some(short.without("cache_control"@))
            } else {
                adapter.intent_of(short)
            };
            match body {
                Some(body) => Ok(
                    request::prepared(
                        RequestView { body: json::json_text(body), ..request },
                        Some(body),
                        route_seen(
                            adapter.kind_of(),
                            adapter.wire_of(),
                            adapter.model_of(),
                            adapter.scope_of(),
                            adapter.values_of(),
                            credential_scope,
                        ),
                        None,
                    ),
                ),
                None => Err("finalization request body is invalid JSON"@),
            }
        },
        Err(_) => Err("finalization request body is invalid JSON"@),
    }
}

/// Makes a request ready for the last answer of a session. The effort is lowered
/// where the model knows a low one and reasoning is not switched off.
pub fn prepare_finalization<A: ProviderAdapter>(
    adapter: &A,
    request: HttpRequest,
    supports_low: bool,
    credential_scope: u128,
) -> (r: Result<PreparedProviderRequest, ProviderError>)
    ensures
        (match (r, finalization(adapter, request@, supports_low, credential_scope)) {
            (Ok(out), Ok(view)) => out@ == view,
            (Err(error), Err(words)) => error@ == invalid(words),
            _ => false,
        }),
{
    let value = match json::parse(request.body.as_str()) {
        Ok(value) => value,
        Err(_) => return Err(ProviderError::invalid("finalization request body is invalid JSON")),
    };
    let lower_effort = bodies::lowers_effort(supports_low, adapter.reasoning_disabled());
    let short = bodies::finalize_body(value, lower_effort);
    let body = if adapter.wire_kind() == ProviderKind::Anthropic {
        Some(short.without("cache_control"))
    } else {
        adapter.materialize_prompt_cache_intent(short)
    };
    match body {
        Some(body) => {
            let route = adapter.request_route(credential_scope);
            Ok(
                PreparedProviderRequest::from_http_body(
                    request.url,
                    request.headers,
                    &body,
                    &route,
                ),
            )
        },
        None => Err(ProviderError::invalid("finalization request body is invalid JSON")),
    }
}

/// Asks for the last answer of a session.
pub fn prepare_finalization_messages<A: ProviderAdapter>(
    adapter: &A,
    messages: &Vec<ProviderMessage>,
    supports_low: bool,
    credential_scope: u128,
) -> (r: Result<PreparedProviderRequest, ProviderError>)
    ensures
        ({
            let views = message::views(messages@);
            match (
                r,
                content::messages_fault(views, 0),
                finalization(
                    adapter,
                    adapter.request_of(views, Seq::empty()),
                    supports_low,
                    credential_scope,
                ),
            ) {
                (Ok(out), None, Ok(view)) => out@ == view,
                (Err(error), Some(words), _) => error@ == invalid(words),
                (Err(error), None, Err(words)) => error@ == invalid(words),
                _ => false,
            }
        }),
{
    let none: Vec<Json> = Vec::new();
    assert(json::trees(none@) =~= Seq::empty());
    match adapter.build_messages_request_with_tools_checked(messages, &none) {
        Ok(request) => prepare_finalization(adapter, request, supports_low, credential_scope),
        Err(error) => Err(error),
    }
}

/// A result whose request or whose error are those given.
pub open spec fn is_prepared(
    r: Result<PreparedProviderRequest, ProviderError>,
    expected: Result<PreparedView, ErrorView>,
) -> bool {
    match (r, expected) {
        (Ok(request), Ok(view)) => request@ == view,
        (Err(error), Err(view)) => error@ == view,
        _ => false,
    }
}

impl ProviderAdapter for OpenAiCompatibleAdapter {
    open spec fn kind_of(&self) -> ProviderKind {
        self.config@.kind
    }

    open spec fn off_of(&self) -> Option<ReasoningOff> {
        self.config@.settings.off
    }

    open spec fn off_for(&self, policy: PolicyView) -> Result<ReasoningOff, Seq<char>> {
        reasoning::resolved_off(
            self.config@.kind,
            reasoning::host_of(self.config@.endpoint),
            self.config@.model,
            policy,
        )
    }

    open spec fn capabilities_of(&self) -> ProviderCapabilities {
        self.offers()
    }

    open spec fn intent_of(&self, body: Tree) -> Option<Tree> {
        if !openai::official(self.config@.endpoint) {
            Some(body)
        } else if body is Object || body is Null {
            Some(bodies::with_native_key(body, self.config@.kind, self.config@.model))
        } else {
            None
        }
    }

    open spec fn budget_prompt_of(&self) -> Option<Seq<char>> {
        self.config@.effective_prompt()
    }

    open spec fn envelope_of(&self) -> Option<u64> {
        Some(1_024)
    }

    open spec fn model_of(&self) -> Seq<char> {
        self.config@.model
    }

    open spec fn scope_of(&self) -> Option<u64> {
        Some(self.config@.settings.scope_id)
    }

    open spec fn events_of(&self, tree: Tree) -> Result<Seq<StreamView>, ErrorView> {
        if openai_stream::reports_error(tree) {
            Err(
                failures::stream_error(
                    tree,
                    endpoint::endpoint_secrets(self.config@.endpoint).push(
                        self.config@.settings.auth.secret(),
                    ),
                ),
            )
        } else {
            match openai_stream::chunk_events(tree, openai_stream::thinking_of(self.config@)) {
                Ok(views) => Ok(views),
                Err(words) => Err(invalid(words)),
            }
        }
    }

    open spec fn question_of(&self, prompt: Seq<char>) -> RequestView {
        RequestView {
            url: self.config@.endpoint,
            headers: openai::chat_headers(self.config@),
            body: json::json_text(self.body(seq![message::user_message(prompt)], Seq::empty())),
        }
    }

    open spec fn request_of(&self, messages: Seq<MessageView>, tools: Seq<Tree>) -> RequestView {
        RequestView {
            url: self.config@.endpoint,
            headers: openai::chat_headers(self.config@),
            body: json::json_text(self.body(messages, tools)),
        }
    }

    open spec fn compacted_of(&self, messages: Seq<MessageView>, credential_scope: u128) -> Result<
        PreparedView,
        ErrorView,
    > {
        match (content::messages_fault(messages, 0), self.compaction(messages)) {
            (Some(words), _) => Err(invalid(words)),
            (None, Err(words)) => Err(invalid(words)),
            (None, Ok(compaction)) => Ok(
                request::prepared(
                    RequestView {
                        url: self.config@.endpoint,
                        headers: openai::chat_headers(self.config@),
                        body: json::json_text(compaction.0),
                    },
                    Some(compaction.0),
                    self.route_view(),
                    compaction.1,
                ),
            ),
        }
    }

    open spec fn prepared_of(
        &self,
        messages: Seq<MessageView>,
        tools: Seq<Tree>,
        credential_scope: u128,
    ) -> Result<PreparedView, ErrorView> {
        match content::messages_fault(messages, 0) {
            Some(words) => Err(invalid(words)),
            None => Ok(
                request::prepared(
                    RequestView {
                        url: self.config@.endpoint,
                        headers: openai::chat_headers(self.config@),
                        body: json::json_text(self.body(messages, tools)),
                    },
                    Some(self.body(messages, tools)),
                    self.route_view(),
                    self.prefixes(messages, tools),
                ),
            ),
        }
    }

    fn kind(&self) -> (r: ProviderKind) {
        self.config.kind
    }

    fn wire_kind(&self) -> (r: ProviderKind) {
        self.config.kind
    }

    fn model(&self) -> (r: &str) {
        self.config.model.as_str()
    }

    fn response_cache_scope_id(&self) -> (r: Option<u64>) {
        Some(self.config.response_cache_scope_id())
    }

    fn reasoning_off(&self) -> (r: Option<ReasoningOff>) {
        self.config.reasoning_off()
    }

    fn set_reasoning_disabled(&mut self, policy: &OffPolicy) -> (r: Result<(), ProviderError>) {
        OpenAiCompatibleAdapter::set_reasoning_disabled(self, policy)
    }

    fn capabilities(&self) -> (r: ProviderCapabilities) {
        OpenAiCompatibleAdapter::capabilities(self)
    }

    fn materialize_prompt_cache_intent(&self, body: Json) -> (r: Option<Json>) {
        if !openai::is_official_openai_endpoint(self.config.endpoint.as_str()) {
            return Some(body);
        }
        if !body.is_object() && !body.is_null() {
            return None;
        }
        Some(
            bodies::materialize_native_prompt_cache_key(
                body,
                self.config.kind,
                self.config.model.as_str(),
            ).0,
        )
    }

    fn reasoning_classification(&self) -> (r: Option<ReasoningClassification>) {
        None
    }

    fn system_prompt_for_budget(&self) -> (r: Option<&str>) {
        self.config.effective_system_prompt()
    }

    fn request_envelope_upper_bound_chars(&self) -> (r: Option<u64>) {
        Some(1_024)
    }

    fn sensitive_values(&self) -> (r: Vec<String>) {
        let none: Vec<String> = Vec::new();
        assert(text::texts(none@) =~= Seq::empty());
        none
    }

    fn build_messages_request_with_tools(
        &self,
        messages: &Vec<ProviderMessage>,
        tools: &Vec<Json>,
    ) -> (r: HttpRequest) {
        OpenAiCompatibleAdapter::build_messages_request_with_tools(self, messages, tools)
    }

    fn prepare_compaction_request_checked(
        &self,
        messages: &Vec<ProviderMessage>,
        credential_scope: u128,
    ) -> (r: Result<PreparedProviderRequest, ProviderError>) {
        OpenAiCompatibleAdapter::prepare_compaction_request_checked(self, messages)
    }

    fn parse_event(&self, value: &Json) -> (r: Result<Vec<ProviderEvent>, ProviderError>) {
        OpenAiCompatibleAdapter::parse_event(self, value)
    }

    fn build_request(&self, prompt: &str) -> (r: HttpRequest) {
        OpenAiCompatibleAdapter::build_request(self, prompt)
    }

    fn prepare_messages_request_with_tools_checked(
        &self,
        messages: &Vec<ProviderMessage>,
        tools: &Vec<Json>,
        credential_scope: u128,
    ) -> (r: Result<PreparedProviderRequest, ProviderError>) {
        OpenAiCompatibleAdapter::prepare_messages_request_with_tools_checked(self, messages, tools)
    }
}

impl ProviderAdapter for AnthropicAdapter {
    open spec fn kind_of(&self) -> ProviderKind {
        self.config@.kind
    }

    open spec fn off_of(&self) -> Option<ReasoningOff> {
        self.config@.settings.off
    }

    open spec fn off_for(&self, policy: PolicyView) -> Result<ReasoningOff, Seq<char>> {
        reasoning::resolved_off(
            self.config@.kind,
            reasoning::host_of(self.config@.endpoint),
            self.config@.model,
            policy,
        )
    }

    open spec fn capabilities_of(&self) -> ProviderCapabilities {
        anthropic::offers()
    }

    open spec fn intent_of(&self, body: Tree) -> Option<Tree> {
        if body is Object || body is Null {
            Some(anthropic::with_marks(body))
        } else {
            None
        }
    }

    open spec fn classification_of(&self) -> Option<ReasoningClassification> {
        Some(ReasoningClassification::Text)
    }

    open spec fn budget_prompt_of(&self) -> Option<Seq<char>> {
        self.config@.effective_prompt()
    }

    open spec fn envelope_of(&self) -> Option<u64> {
        Some(1_024)
    }

    open spec fn model_of(&self) -> Seq<char> {
        self.config@.model
    }

    open spec fn scope_of(&self) -> Option<u64> {
        Some(self.config@.settings.scope_id)
    }

    open spec fn events_of(&self, tree: Tree) -> Result<Seq<StreamView>, ErrorView> {
        if tree.text_at("type"@) == Some("error"@) {
            Err(
                failures::stream_error(
                    tree,
                    endpoint::endpoint_secrets(self.config@.endpoint).push(
                        self.config@.settings.auth.secret(),
                    ),
                ),
            )
        } else {
            anthropic_stream::wire_events(tree)
        }
    }

    open spec fn question_of(&self, prompt: Seq<char>) -> RequestView {
        self.request_view(seq![message::user_message(prompt)], Seq::empty())
    }

    open spec fn request_of(&self, messages: Seq<MessageView>, tools: Seq<Tree>) -> RequestView {
        self.request_view(messages, tools)
    }

    open spec fn compacted_of(&self, messages: Seq<MessageView>, credential_scope: u128) -> Result<
        PreparedView,
        ErrorView,
    > {
        match (
            content::messages_fault(messages, 0),
            bodies::hardened(anthropic::wire_body(self.config@, messages, Seq::empty()), true),
        ) {
            (Some(words), _) => Err(invalid(words)),
            (None, Err(words)) => Err(invalid(words)),
            (None, Ok(body)) => Ok(
                request::prepared(
                    RequestView {
                        url: self.config@.endpoint,
                        headers: anthropic::wire_headers(self.config@, self.brand@),
                        body: json::json_text(body),
                    },
                    Some(body),
                    self.route_view(),
                    None,
                ),
            ),
        }
    }

    open spec fn prepared_of(
        &self,
        messages: Seq<MessageView>,
        tools: Seq<Tree>,
        credential_scope: u128,
    ) -> Result<PreparedView, ErrorView> {
        match content::messages_fault(messages, 0) {
            Some(words) => Err(invalid(words)),
            None => Ok(
                request::prepared(
                    self.request_view(messages, tools),
                    Some(anthropic::wire_body(self.config@, messages, tools)),
                    self.route_view(),
                    None,
                ),
            ),
        }
    }

    fn kind(&self) -> (r: ProviderKind) {
        self.config.kind
    }

    fn wire_kind(&self) -> (r: ProviderKind) {
        self.config.kind
    }

    fn model(&self) -> (r: &str) {
        self.config.model.as_str()
    }

    fn response_cache_scope_id(&self) -> (r: Option<u64>) {
        Some(self.config.response_cache_scope_id())
    }

    fn reasoning_off(&self) -> (r: Option<ReasoningOff>) {
        self.config.reasoning_off()
    }

    fn set_reasoning_disabled(&mut self, policy: &OffPolicy) -> (r: Result<(), ProviderError>) {
        AnthropicAdapter::set_reasoning_disabled(self, policy)
    }

    fn capabilities(&self) -> (r: ProviderCapabilities) {
        AnthropicAdapter::capabilities(self)
    }

    fn materialize_prompt_cache_intent(&self, body: Json) -> (r: Option<Json>) {
        if body.is_object() || body.is_null() {
            Some(anthropic::materialize_prompt_cache_intent(body))
        } else {
            None
        }
    }

    fn reasoning_classification(&self) -> (r: Option<ReasoningClassification>) {
        Some(ReasoningClassification::Text)
    }

    fn system_prompt_for_budget(&self) -> (r: Option<&str>) {
        self.config.effective_system_prompt()
    }

    fn request_envelope_upper_bound_chars(&self) -> (r: Option<u64>) {
        Some(1_024)
    }

    fn sensitive_values(&self) -> (r: Vec<String>) {
        let none: Vec<String> = Vec::new();
        assert(text::texts(none@) =~= Seq::empty());
        none
    }

    fn build_messages_request_with_tools(
        &self,
        messages: &Vec<ProviderMessage>,
        tools: &Vec<Json>,
    ) -> (r: HttpRequest) {
        AnthropicAdapter::build_messages_request_with_tools(self, messages, tools)
    }

    fn prepare_compaction_request_checked(
        &self,
        messages: &Vec<ProviderMessage>,
        credential_scope: u128,
    ) -> (r: Result<PreparedProviderRequest, ProviderError>) {
        AnthropicAdapter::prepare_compaction_request_checked(self, messages)
    }

    fn parse_event(&self, value: &Json) -> (r: Result<Vec<ProviderEvent>, ProviderError>) {
        AnthropicAdapter::parse_event(self, value)
    }

    fn build_request(&self, prompt: &str) -> (r: HttpRequest) {
        AnthropicAdapter::build_request(self, prompt)
    }

    fn prepare_messages_request_with_tools_checked(
        &self,
        messages: &Vec<ProviderMessage>,
        tools: &Vec<Json>,
        credential_scope: u128,
    ) -> (r: Result<PreparedProviderRequest, ProviderError>) {
        AnthropicAdapter::prepare_messages_request_with_tools_checked(self, messages, tools)
    }
}

/// A message as a plain text, for an adapter that knows questions alone.
pub open spec fn plain_words(m: MessageView) -> Seq<char> {
    if m.role == "tool"@ {
        "tool "@ + (match m.name {
            Some(name) => name,
            None => "unknown"@,
        }) + ": "@ + m.content
    } else {
        m.content
    }
}

/// The messages as one question.
pub open spec fn plain_prompt(messages: Seq<MessageView>) -> Seq<char> {
    text::join(messages.map_values(|m: MessageView| plain_words(m)), "\n\n"@)
}

fn words_of(m: &ProviderMessage) -> (r: String)
    ensures
        r@ == plain_words(m@),
{
    if m.role_is("tool") {
        let mut r = "tool ".to_owned();
        match &m.name {
            Some(name) => r.append(name.as_str()),
            None => r.append("unknown"),
        }
        r.append(": ");
        r.append(m.content.as_str());
        r
    } else {
        m.content.clone()
    }
}

/// Writes the messages as one question.
pub fn joined_prompt(messages: &Vec<ProviderMessage>) -> (r: String)
    ensures
        r@ == plain_prompt(message::views(messages@)),
{
    let ghost all = message::views(messages@).map_values(|m: MessageView| plain_words(m));
    let mut parts: Vec<String> = Vec::new();
    let mut i: usize = 0;
    assert(text::texts(parts@) =~= all.take(0));
    while i < messages.len()
        invariant
            i <= messages.len(),
            all == message::views(messages@).map_values(|m: MessageView| plain_words(m)),
            text::texts(parts@) == all.take(i as int),
        decreases messages.len() - i,
    {
        let words = words_of(&messages[i]);
        let ghost done = parts@;
        let ghost shown = words@;
        parts.push(words);
        assert(text::texts(parts@) =~= text::texts(done).push(shown));
        assert(all[i as int] == shown);
        assert(all.take(i + 1) =~= all.take(i as int).push(all[i as int]));
        i = i + 1;
    }
    assert(all.take(all.len() as int) =~= all);
    text::joined(&parts, "\n\n")
}

/// An adapter for tests: it answers with fixed events and asks nobody.
pub struct FakeProvider {
    events: Vec<ProviderEvent>,
    error: Option<ProviderError>,
}

#[verifier::ext_equal]
pub struct FakeView {
    pub events: Seq<StreamView>,
    pub error: Option<ErrorView>,
}

impl View for FakeProvider {
    type V = FakeView;

    closed spec fn view(&self) -> FakeView {
        FakeView {
            events: crate::provider::types::stream_views(self.events@),
            error: failures::opt_error(self.error),
        }
    }
}

impl FakeProvider {
    /// An answer with text, reasoning, a tool call and an end.
    pub fn success() -> (r: FakeProvider)
        ensures
            r@ == (FakeView {
                events: seq![
                    StreamView::TextDelta("hello"@),
                    StreamView::ReasoningDelta("thinking"@),
                    StreamView::ToolCall { name: "read"@, arguments: "{}"@ },
                    StreamView::Usage { input_tokens: 3, output_tokens: 2 },
                    StreamView::Stopped { reason: "end_turn"@ },
                ],
                error: None,
            }),
    {
        let mut events: Vec<ProviderEvent> = Vec::new();
        events.push(ProviderEvent::TextDelta("hello".to_owned()));
        events.push(ProviderEvent::ReasoningDelta("thinking".to_owned()));
        events.push(
            ProviderEvent::ToolCall { name: "read".to_owned(), arguments: "{}".to_owned() },
        );
        events.push(ProviderEvent::Usage { input_tokens: 3, output_tokens: 2 });
        events.push(ProviderEvent::Stopped { reason: "end_turn".to_owned() });
        let r = FakeProvider { events, error: None };
        assert(r@.events =~= seq![
            StreamView::TextDelta("hello"@),
            StreamView::ReasoningDelta("thinking"@),
            StreamView::ToolCall { name: "read"@, arguments: "{}"@ },
            StreamView::Usage { input_tokens: 3, output_tokens: 2 },
            StreamView::Stopped { reason: "end_turn"@ },
        ]);
        r
    }

    /// A connection that fails.
    pub fn transport_failure(safe_to_retry: bool) -> (r: FakeProvider)
        ensures
            r@ == (FakeView {
                events: Seq::empty(),
                error: Some(
                    ErrorView::Transport { safe_to_retry, message: "fixture transport failure"@ },
                ),
            }),
    {
        let r = FakeProvider {
            events: Vec::new(),
            error: Some(
                ProviderError::Transport {
                    safe_to_retry,
                    message: "fixture transport failure".to_owned(),
                },
            ),
        };
        assert(r@.events =~= Seq::empty());
        r
    }

    /// The next event of the answer.
    pub fn next_event(&mut self) -> (r: Option<ProviderEvent>)
        ensures
            old(self)@.events.len() == 0 ==> r is None && final(self)@ == old(self)@,
            old(self)@.events.len() > 0 ==> (r matches Some(event) && event@
                == old(self)@.events[0]) && final(self)@ == (FakeView {
                events: old(self)@.events.skip(1),
                ..old(self)@
            }),
    {
        if self.events.len() == 0 {
            return None;
        }
        let ghost before = self@.events;
        let event = self.events.remove(0);
        assert(self@.events =~= before.skip(1));
        Some(event)
    }

    /// The failure, where there is one; it comes once, and the answer ends.
    pub fn next_error(&mut self) -> (r: Option<ProviderError>)
        ensures
            failures::opt_error(r) == old(self)@.error,
            final(self)@ == (FakeView { events: Seq::empty(), error: None }),
    {
        self.events.clear();
        assert(self@.events =~= Seq::empty());
        let mut error = None;
        std::mem::swap(&mut error, &mut self.error);
        error
    }

    pub fn model(&self) -> (r: &str)
        ensures
            r@ == "fake-model"@,
    {
        "fake-model"
    }
}

/// The request that asks a fake provider a question.
pub open spec fn fake_question(prompt: Seq<char>) -> RequestView {
    RequestView {
        url: "http://fake.invalid"@,
        headers: Seq::empty(),
        body: json::json_text(
            json::empty_object().with("model"@, Tree::Text("fake-model"@)).with(
                "messages"@,
                Tree::Array(
                    seq![
                        json::empty_object().with("role"@, Tree::Text("user"@)).with(
                            "content"@,
                            Tree::Text(prompt),
                        ),
                    ],
                ),
            ),
        ),
    }
}

impl ProviderAdapter for FakeProvider {
    open spec fn kind_of(&self) -> ProviderKind {
        ProviderKind::OpenAiCompatible
    }

    open spec fn model_of(&self) -> Seq<char> {
        "fake-model"@
    }

    open spec fn events_of(&self, tree: Tree) -> Result<Seq<StreamView>, ErrorView> {
        Ok(Seq::empty())
    }

    open spec fn question_of(&self, prompt: Seq<char>) -> RequestView {
        fake_question(prompt)
    }

    fn kind(&self) -> (r: ProviderKind) {
        ProviderKind::OpenAiCompatible
    }

    fn wire_kind(&self) -> (r: ProviderKind) {
        ProviderKind::OpenAiCompatible
    }

    fn model(&self) -> (r: &str) {
        "fake-model"
    }

    fn response_cache_scope_id(&self) -> (r: Option<u64>) {
        None
    }

    fn reasoning_off(&self) -> (r: Option<ReasoningOff>) {
        None
    }

    fn set_reasoning_disabled(&mut self, policy: &OffPolicy) -> (r: Result<(), ProviderError>) {
        Err(
            ProviderError::invalid(
                "Jev requires a documented native reasoning-OFF adapter; this provider route has none. No fallback was applied.",
            ),
        )
    }

    fn capabilities(&self) -> (r: ProviderCapabilities) {
        ProviderCapabilities::default()
    }

    fn materialize_prompt_cache_intent(&self, body: Json) -> (r: Option<Json>) {
        Some(body)
    }

    fn reasoning_classification(&self) -> (r: Option<ReasoningClassification>) {
        None
    }

    fn system_prompt_for_budget(&self) -> (r: Option<&str>) {
        None
    }

    fn request_envelope_upper_bound_chars(&self) -> (r: Option<u64>) {
        None
    }

    fn sensitive_values(&self) -> (r: Vec<String>) {
        let none: Vec<String> = Vec::new();
        assert(text::texts(none@) =~= Seq::empty());
        none
    }

    fn build_messages_request_with_tools(
        &self,
        messages: &Vec<ProviderMessage>,
        tools: &Vec<Json>,
    ) -> (r: HttpRequest) {
        let prompt = joined_prompt(messages);
        ProviderAdapter::build_request(self, prompt.as_str())
    }

    fn prepare_compaction_request_checked(
        &self,
        messages: &Vec<ProviderMessage>,
        credential_scope: u128,
    ) -> (r: Result<PreparedProviderRequest, ProviderError>) {
        let none: Vec<Json> = Vec::new();
        assert(json::trees(none@) =~= Seq::empty());
        let mut request = match self.build_messages_request_with_tools_checked(messages, &none) {
            Ok(request) => request,
            Err(error) => return Err(error),
        };
        match hardened_body(&request) {
            Ok((body, _)) => {
                request.body = json::to_text(&body);
                Ok(
                    PreparedProviderRequest::from_http_request(
                        request,
                        &self.request_route(credential_scope),
                    ),
                )
            },
            Err(error) => Err(error),
        }
    }

    fn parse_event(&self, value: &Json) -> (r: Result<Vec<ProviderEvent>, ProviderError>) {
        let events: Vec<ProviderEvent> = Vec::new();
        assert(crate::provider::types::stream_views(events@) =~= Seq::empty());
        Ok(events)
    }

    fn build_request(&self, prompt: &str) -> (r: HttpRequest) {
        broadcast use json::lemma_json_view;

        let question = Json::object().with("role", Json::string("user")).with(
            "content",
            Json::string(prompt),
        );
        let mut items: Vec<Json> = Vec::new();
        items.push(question);
        assert(json::trees(items@) =~= seq![question@]);
        let body = Json::object().with("model", Json::string("fake-model")).with(
            "messages",
            Json::Array(items),
        );
        let headers: Vec<(String, String)> = Vec::new();
        assert(crate::url::pair_views(headers@) =~= Seq::empty());
        HttpRequest {
            url: "http://fake.invalid".to_owned(),
            headers,
            body: json::to_text(&body),
        }
    }

    fn prepare_messages_request_with_tools_checked(
        &self,
        messages: &Vec<ProviderMessage>,
        tools: &Vec<Json>,
        credential_scope: u128,
    ) -> (r: Result<PreparedProviderRequest, ProviderError>) {
        match self.build_messages_request_with_tools_checked(messages, tools) {
            Ok(request) => Ok(
                PreparedProviderRequest::from_http_request(
                    request,
                    &self.request_route(credential_scope),
                ),
            ),
            Err(error) => Err(error),
        }
    }
}

/// The scope of an adapter: its own, or that of its credentials.
pub open spec fn scope_or<A: ProviderAdapter>(adapter: &A, credential_scope: u128) -> u128 {
    match adapter.scope_of() {
        Some(id) => id as u128,
        None => credential_scope,
    }
}

/// The key of messages and tools for an adapter, made of its parts.
pub open spec fn adapter_parts_key<A: ProviderAdapter>(
    adapter: &A,
    messages: Seq<MessageView>,
    tools: Seq<Tree>,
    credential_scope: u128,
) -> Seq<char> {
    identity::parts_key(
        identity::namespace(
            adapter.kind_of(),
            scope_or(adapter, credential_scope),
            adapter.question_of(Seq::empty()),
        ),
        adapter.model_of(),
        messages,
        tools,
    )
}

/// The key of messages and tools for an adapter, made of its parts.
pub fn cache_key_with_tools<A: ProviderAdapter>(
    adapter: &A,
    messages: &Vec<ProviderMessage>,
    tools: &Vec<Json>,
    credential_scope: u128,
) -> (r: String)
    ensures
        r@ == adapter_parts_key(
            adapter,
            message::views(messages@),
            json::trees(tools@),
            credential_scope,
        ),
{
    let scope: u128 = match adapter.response_cache_scope_id() {
        Some(id) => id as u128,
        None => credential_scope,
    };
    proof {
        reveal_strlit("");
        assert(""@ =~= Seq::empty());
    }
    let empty = adapter.build_request("");
    let namespace = identity::cache_namespace(adapter.kind(), scope, &empty);
    identity::cache_key_for_parts(namespace.as_str(), adapter.model(), messages, tools)
}

/// The key under which an adapter's answer is kept: that of the request it would
/// send, or one made of parts where it would send none.
pub open spec fn adapter_key<A: ProviderAdapter>(
    adapter: &A,
    messages: Seq<MessageView>,
    tools: Seq<Tree>,
    credential_scope: u128,
) -> Seq<char> {
    match adapter.prepared_of(messages, tools, credential_scope) {
        Ok(view) => identity::response_key(
            adapter.kind_of(),
            adapter.model_of(),
            view.scope_id,
            view.url,
            view.headers,
            view.body,
        ),
        Err(_) => adapter_parts_key(adapter, messages, tools, credential_scope),
    }
}

pub fn cache_key_for_adapter_request<A: ProviderAdapter>(
    adapter: &A,
    messages: &Vec<ProviderMessage>,
    tools: &Vec<Json>,
    credential_scope: u128,
) -> (r: String)
    ensures
        r@ == adapter_key(
            adapter,
            message::views(messages@),
            json::trees(tools@),
            credential_scope,
        ),
{
    match adapter.prepare_messages_request_with_tools_checked(messages, tools, credential_scope) {
        Ok(request) => request.cache_key(adapter.kind(), adapter.model()),
        Err(_) => cache_key_with_tools(adapter, messages, tools, credential_scope),
    }
}

} // verus!
