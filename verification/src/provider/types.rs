//! The plain data of a provider exchange: stream events, errors, usage, price.
use vstd::prelude::*;

use crate::arith;
use crate::provider::message;
use crate::provider::message::{ChatReasoning, ResponsesReasoning};
use crate::text;

verus! {

#[derive(Clone, Copy, Debug, PartialEq, Eq, Structural)]
pub enum ProviderPhase {
    Compacting,
    Connecting,
    HeadersReceived,
    FirstByte,
    FirstSemantic,
    PreparingTool,
}

/// Token counts of one request, with cache activity kept apart from fresh input.
#[derive(Clone, Copy, Debug, PartialEq, Eq, Structural)]
pub struct UsageBreakdown {
    pub uncached_input_tokens: u64,
    pub cache_write_tokens: u64,
    pub cache_read_tokens: u64,
    pub output_tokens: u64,
    pub reasoning_tokens: u64,
    pub usage_unknown: bool,
}

impl Default for UsageBreakdown {
    fn default() -> (r: UsageBreakdown)
        ensures
            r == (UsageBreakdown {
                uncached_input_tokens: 0,
                cache_write_tokens: 0,
                cache_read_tokens: 0,
                output_tokens: 0,
                reasoning_tokens: 0,
                usage_unknown: false,
            }),
    {
        UsageBreakdown {
            uncached_input_tokens: 0,
            cache_write_tokens: 0,
            cache_read_tokens: 0,
            output_tokens: 0,
            reasoning_tokens: 0,
            usage_unknown: false,
        }
    }
}

impl UsageBreakdown {
    /// All input tokens, fresh or through the cache.
    pub fn total_input_tokens(self) -> (r: u64)
        ensures
            r == arith::clamp64(
                self.uncached_input_tokens + self.cache_write_tokens + self.cache_read_tokens,
            ),
    {
        self.uncached_input_tokens.saturating_add(self.cache_write_tokens).saturating_add(
            self.cache_read_tokens,
        )
    }
}

/// What a provider's stream says.
#[derive(Clone, PartialEq, Eq)]
pub enum ProviderEvent {
    Phase { phase: ProviderPhase, elapsed_ms: u64 },
    TextDelta(String),
    ReasoningStarted,
    ReasoningDelta(String),
    ReasoningEnded,
    /// Protocol state, never display text or compaction input.
    ResponsesReasoning(ResponsesReasoning),
    /// Exact Chat continuation state; never rendered or put into summaries.
    ChatReasoning(ChatReasoning),
    /// A streamed tool-call fragment. Continuation fragments may omit the
    /// index, the id and the name; an omitted field starts no new call.
    ToolCallDelta {
        index: Option<u32>,
        id: Option<String>,
        name: Option<String>,
        arguments: String,
    },
    /// Final arguments with the identity of their streamed call.
    ToolCallComplete { index: u32, id: String, name: String, arguments: String },
    /// The identity that the start of a tool block announces.
    ToolCallStart { index: u32, id: String, name: String },
    /// A partial JSON input fragment of a tool block.
    ToolCallInputDelta { index: u32, partial_json: String },
    /// The end of a content block, which may or may not be a tool call.
    ContentBlockStop { index: u32 },
    ToolCall { name: String, arguments: String },
    /// Additive usage observed before the terminal accounting.
    UsagePartial {
        input_tokens: u64,
        output_tokens: u64,
        /// The complete input component was observed.
        input_complete: bool,
        /// The complete output component was observed.
        output_complete: bool,
    },
    /// The provider's own decomposition, which accompanies the additive usage.
    UsageBreakdown { usage: UsageBreakdown },
    /// Additive terminal usage of the request.
    Usage { input_tokens: u64, output_tokens: u64 },
    /// The response came from the local response cache, without billable work.
    ResponseCacheHit,
    Stopped { reason: String },
}

#[verifier::ext_equal]
pub enum StreamView {
    Phase { phase: ProviderPhase, elapsed_ms: u64 },
    TextDelta(Seq<char>),
    ReasoningStarted,
    ReasoningDelta(Seq<char>),
    ReasoningEnded,
    ResponsesReasoning(message::ResponsesView),
    ChatReasoning(message::ChatView),
    ToolCallDelta {
        index: Option<u32>,
        id: Option<Seq<char>>,
        name: Option<Seq<char>>,
        arguments: Seq<char>,
    },
    ToolCallComplete { index: u32, id: Seq<char>, name: Seq<char>, arguments: Seq<char> },
    ToolCallStart { index: u32, id: Seq<char>, name: Seq<char> },
    ToolCallInputDelta { index: u32, partial_json: Seq<char> },
    ContentBlockStop { index: u32 },
    ToolCall { name: Seq<char>, arguments: Seq<char> },
    UsagePartial {
        input_tokens: u64,
        output_tokens: u64,
        input_complete: bool,
        output_complete: bool,
    },
    UsageBreakdown { usage: UsageBreakdown },
    Usage { input_tokens: u64, output_tokens: u64 },
    ResponseCacheHit,
    Stopped { reason: Seq<char> },
}

impl View for ProviderEvent {
    type V = StreamView;

    open spec fn view(&self) -> StreamView {
        match *self {
            ProviderEvent::Phase { phase, elapsed_ms } => StreamView::Phase { phase, elapsed_ms },
            ProviderEvent::TextDelta(t) => StreamView::TextDelta(t@),
            ProviderEvent::ReasoningStarted => StreamView::ReasoningStarted,
            ProviderEvent::ReasoningDelta(t) => StreamView::ReasoningDelta(t@),
            ProviderEvent::ReasoningEnded => StreamView::ReasoningEnded,
            ProviderEvent::ResponsesReasoning(r) => StreamView::ResponsesReasoning(r@),
            ProviderEvent::ChatReasoning(r) => StreamView::ChatReasoning(r@),
            ProviderEvent::ToolCallDelta { index, id, name, arguments } => StreamView::ToolCallDelta {
                index,
                id: message::opt_text(id),
                name: message::opt_text(name),
                arguments: arguments@,
            },
            ProviderEvent::ToolCallComplete { index, id, name, arguments } => StreamView::ToolCallComplete {
                index,
                id: id@,
                name: name@,
                arguments: arguments@,
            },
            ProviderEvent::ToolCallStart { index, id, name } => StreamView::ToolCallStart {
                index,
                id: id@,
                name: name@,
            },
            ProviderEvent::ToolCallInputDelta { index, partial_json } => StreamView::ToolCallInputDelta {
                index,
                partial_json: partial_json@,
            },
            ProviderEvent::ContentBlockStop { index } => StreamView::ContentBlockStop { index },
            ProviderEvent::ToolCall { name, arguments } => StreamView::ToolCall {
                name: name@,
                arguments: arguments@,
            },
            ProviderEvent::UsagePartial {
                input_tokens,
                output_tokens,
                input_complete,
                output_complete,
            } => StreamView::UsagePartial {
                input_tokens,
                output_tokens,
                input_complete,
                output_complete,
            },
            ProviderEvent::UsageBreakdown { usage } => StreamView::UsageBreakdown { usage },
            ProviderEvent::Usage { input_tokens, output_tokens } => StreamView::Usage {
                input_tokens,
                output_tokens,
            },
            ProviderEvent::ResponseCacheHit => StreamView::ResponseCacheHit,
            ProviderEvent::Stopped { reason } => StreamView::Stopped { reason: reason@ },
        }
    }
}

pub open spec fn stream_views(events: Seq<ProviderEvent>) -> Seq<StreamView> {
    events.map_values(|e: ProviderEvent| e@)
}

impl ProviderEvent {
    pub fn copy(&self) -> (r: ProviderEvent)
        ensures
            r@ == self@,
    {
        match self {
            ProviderEvent::Phase { phase, elapsed_ms } => ProviderEvent::Phase {
                phase: *phase,
                elapsed_ms: *elapsed_ms,
            },
            ProviderEvent::TextDelta(t) => ProviderEvent::TextDelta(t.clone()),
            ProviderEvent::ReasoningStarted => ProviderEvent::ReasoningStarted,
            ProviderEvent::ReasoningDelta(t) => ProviderEvent::ReasoningDelta(t.clone()),
            ProviderEvent::ReasoningEnded => ProviderEvent::ReasoningEnded,
            ProviderEvent::ResponsesReasoning(r) => ProviderEvent::ResponsesReasoning(r.copy()),
            ProviderEvent::ChatReasoning(r) => ProviderEvent::ChatReasoning(r.copy()),
            ProviderEvent::ToolCallDelta { index, id, name, arguments } => ProviderEvent::ToolCallDelta {
                index: *index,
                id: message::copy_opt(id),
                name: message::copy_opt(name),
                arguments: arguments.clone(),
            },
            ProviderEvent::ToolCallComplete { index, id, name, arguments } => ProviderEvent::ToolCallComplete {
                index: *index,
                id: id.clone(),
                name: name.clone(),
                arguments: arguments.clone(),
            },
            ProviderEvent::ToolCallStart { index, id, name } => ProviderEvent::ToolCallStart {
                index: *index,
                id: id.clone(),
                name: name.clone(),
            },
            ProviderEvent::ToolCallInputDelta { index, partial_json } => ProviderEvent::ToolCallInputDelta {
                index: *index,
                partial_json: partial_json.clone(),
            },
            ProviderEvent::ContentBlockStop { index } => ProviderEvent::ContentBlockStop {
                index: *index,
            },
            ProviderEvent::ToolCall { name, arguments } => ProviderEvent::ToolCall {
                name: name.clone(),
                arguments: arguments.clone(),
            },
            ProviderEvent::UsagePartial {
                input_tokens,
                output_tokens,
                input_complete,
                output_complete,
            } => ProviderEvent::UsagePartial {
                input_tokens: *input_tokens,
                output_tokens: *output_tokens,
                input_complete: *input_complete,
                output_complete: *output_complete,
            },
            ProviderEvent::UsageBreakdown { usage } => ProviderEvent::UsageBreakdown {
                usage: *usage,
            },
            ProviderEvent::Usage { input_tokens, output_tokens } => ProviderEvent::Usage {
                input_tokens: *input_tokens,
                output_tokens: *output_tokens,
            },
            ProviderEvent::ResponseCacheHit => ProviderEvent::ResponseCacheHit,
            ProviderEvent::Stopped { reason } => ProviderEvent::Stopped { reason: reason.clone() },
        }
    }
}

pub fn copy_events(events: &Vec<ProviderEvent>) -> (out: Vec<ProviderEvent>)
    ensures
        stream_views(out@) == stream_views(events@),
{
    let mut out: Vec<ProviderEvent> = Vec::new();
    let ghost all = stream_views(events@);
    let mut i: usize = 0;
    assert(stream_views(out@) =~= all.take(0));
    while i < events.len()
        invariant
            i <= events@.len(),
            all == stream_views(events@),
            stream_views(out@) == all.take(i as int),
        decreases events@.len() - i,
    {
        let event = events[i].copy();
        let ghost done = out@;
        out.push(event);
        assert(stream_views(out@) =~= stream_views(done).push(event@));
        assert(all.take(i + 1) =~= all.take(i as int).push(all[i as int]));
        i = i + 1;
    }
    assert(all.take(all.len() as int) =~= all);
    out
}

/// The codes of a structured provider error. The delay is in nanoseconds.
#[derive(Clone, Debug, PartialEq, Eq)]
pub struct ProviderErrorMetadata {
    pub status: Option<u16>,
    pub code: Option<String>,
    pub error_type: Option<String>,
    pub detail_code: Option<String>,
    pub retry_after: Option<u128>,
}

#[verifier::ext_equal]
pub struct MetadataView {
    pub status: Option<u16>,
    pub code: Option<Seq<char>>,
    pub error_type: Option<Seq<char>>,
    pub detail_code: Option<Seq<char>>,
    pub retry_after: Option<u128>,
}

impl View for ProviderErrorMetadata {
    type V = MetadataView;

    open spec fn view(&self) -> MetadataView {
        MetadataView {
            status: self.status,
            code: message::opt_text(self.code),
            error_type: message::opt_text(self.error_type),
            detail_code: message::opt_text(self.detail_code),
            retry_after: self.retry_after,
        }
    }
}

/// The statuses under which a failure may pass by itself.
pub open spec fn transient_status(status: u16) -> bool {
    status == 408 || status == 429 || status == 500 || status == 502 || status == 503 || status
        == 504 || status == 529
}

/// The codes that call a failure transient.
pub open spec fn transient_code(code: Seq<char>) -> bool {
    ||| code == "server_error"@
    ||| code == "service_unavailable_error"@
    ||| code == "server_is_overloaded"@
    ||| code == "api_error"@
    ||| code == "overloaded_error"@
    ||| code == "overloaded"@
    ||| code == "rate_limit_error"@
    ||| code == "rate_limit_exceeded"@
    ||| code == "too_many_requests"@
    ||| code == "slow_down"@
}

impl MetadataView {
    /// The code that classifies the error: a detail overrides the code, which
    /// overrides the type.
    pub open spec fn classification(self) -> Option<Seq<char>> {
        if self.detail_code is Some {
            self.detail_code
        } else if self.code is Some {
            self.code
        } else {
            self.error_type
        }
    }

    pub open spec fn transient(self) -> bool {
        &&& self.status is None || transient_status(self.status->0)
        &&& self.classification() is Some
        &&& transient_code(self.classification()->0)
    }
}

fn is_transient_code(code: &str) -> (r: bool)
    ensures
        r == transient_code(code@),
{
    text::same(code, "server_error") || text::same(code, "service_unavailable_error")
        || text::same(code, "server_is_overloaded") || text::same(code, "api_error")
        || text::same(code, "overloaded_error") || text::same(code, "overloaded") || text::same(
        code,
        "rate_limit_error",
    ) || text::same(code, "rate_limit_exceeded") || text::same(code, "too_many_requests")
        || text::same(code, "slow_down")
}

impl ProviderErrorMetadata {
    pub fn classification_code(&self) -> (r: Option<&str>)
        ensures
            match r {
                Some(code) => self@.classification() == Some(code@),
                None => self@.classification() is None,
            },
    {
        match &self.detail_code {
            Some(code) => Some(code.as_str()),
            None => match &self.code {
                Some(code) => Some(code.as_str()),
                None => match &self.error_type {
                    Some(code) => Some(code.as_str()),
                    None => None,
                },
            },
        }
    }

    pub fn is_transient(&self) -> (r: bool)
        ensures
            r == self@.transient(),
    {
        let status_allows = match self.status {
            None => true,
            Some(status) => status == 408 || status == 429 || status == 500 || status == 502
                || status == 503 || status == 504 || status == 529,
        };
        if !status_allows {
            return false;
        }
        match self.classification_code() {
            Some(code) => is_transient_code(code),
            None => false,
        }
    }
}

/// Why a request to a provider failed. Delays are in nanoseconds.
#[derive(Clone, Debug, PartialEq, Eq)]
pub enum ProviderError {
    Transport { safe_to_retry: bool, message: String },
    MalformedToolCall,
    Cancelled,
    Remote { message: String },
    /// Explicit transient failure reported inside a provider stream.
    TransientRemote { message: String },
    Http { status: u16, retry_after: Option<u128>, message: String },
    /// Structured errors retain their codes independently of display text.
    Api { metadata: ProviderErrorMetadata, message: String },
    InvalidResponse { message: String },
}

#[verifier::ext_equal]
pub enum ErrorView {
    Transport { safe_to_retry: bool, message: Seq<char> },
    MalformedToolCall,
    Cancelled,
    Remote { message: Seq<char> },
    TransientRemote { message: Seq<char> },
    Http { status: u16, retry_after: Option<u128>, message: Seq<char> },
    Api { metadata: MetadataView, message: Seq<char> },
    InvalidResponse { message: Seq<char> },
}

impl View for ProviderError {
    type V = ErrorView;

    open spec fn view(&self) -> ErrorView {
        match *self {
            ProviderError::Transport { safe_to_retry, message } => ErrorView::Transport {
                safe_to_retry,
                message: message@,
            },
            ProviderError::MalformedToolCall => ErrorView::MalformedToolCall,
            ProviderError::Cancelled => ErrorView::Cancelled,
            ProviderError::Remote { message } => ErrorView::Remote { message: message@ },
            ProviderError::TransientRemote { message } => ErrorView::TransientRemote {
                message: message@,
            },
            ProviderError::Http { status, retry_after, message } => ErrorView::Http {
                status,
                retry_after,
                message: message@,
            },
            ProviderError::Api { metadata, message } => ErrorView::Api {
                metadata: metadata@,
                message: message@,
            },
            ProviderError::InvalidResponse { message } => ErrorView::InvalidResponse {
                message: message@,
            },
        }
    }
}

impl ProviderError {
    /// Whether the provider itself called this failure transient. Delivery,
    /// tool effects, cancellation and budgets still decide on a repetition.
    pub fn is_explicit_transient(&self) -> (r: bool)
        ensures
            r == match self@ {
                ErrorView::TransientRemote { .. } => true,
                ErrorView::Api { metadata, .. } => metadata.transient(),
                _ => false,
            },
    {
        match self {
            ProviderError::TransientRemote { .. } => true,
            ProviderError::Api { metadata, .. } => metadata.is_transient(),
            _ => false,
        }
    }

    pub fn is_retryable(&self) -> (r: bool)
        ensures
            r == (self@ matches ErrorView::Transport { safe_to_retry, .. } && safe_to_retry),
    {
        match self {
            ProviderError::Transport { safe_to_retry, .. } => *safe_to_retry,
            _ => false,
        }
    }

    /// A failure to read what a provider said.
    pub fn invalid(message: &str) -> (r: ProviderError)
        ensures
            r@ == (ErrorView::InvalidResponse { message: message@ }),
    {
        ProviderError::InvalidResponse { message: message.to_owned() }
    }
}

#[derive(Clone, Copy, Debug, PartialEq, Eq, Structural)]
pub enum ProviderKind {
    OpenAiCompatible,
    OpenAiCodex,
    Anthropic,
    OpenCodeGo,
    OpenCodeZen,
    ClinePass,
    CommandCode,
    Xai,
}

/// Prices in millionths of a currency unit for a million tokens.
#[derive(Clone, Copy, Debug, PartialEq, Eq, Structural)]
pub struct ProviderPricing {
    pub input_micros_per_million: u64,
    pub output_micros_per_million: u64,
}

impl ProviderPricing {
    /// The cost of a request, rounded down; nothing where it exceeds a `u64`.
    pub fn cost_micros(self, input_tokens: u64, output_tokens: u64) -> (r: Option<u64>)
        ensures
            ({
                let cost = (input_tokens * self.input_micros_per_million + output_tokens
                    * self.output_micros_per_million) / 1_000_000;
                r == if cost <= u64::MAX {
                    Some(cost as u64)
                } else {
                    None
                }
            }),
    {
        let a = input_tokens;
        let b = self.input_micros_per_million;
        let c = output_tokens;
        let d = self.output_micros_per_million;
        proof {
            assert(0 <= a * b <= 0xffff_ffff_ffff_ffff * 0xffff_ffff_ffff_ffff) by (nonlinear_arith)
                requires
                    a <= 0xffff_ffff_ffff_ffff,
                    b <= 0xffff_ffff_ffff_ffff,
            ;
            assert(0 <= c * d <= 0xffff_ffff_ffff_ffff * 0xffff_ffff_ffff_ffff) by (nonlinear_arith)
                requires
                    c <= 0xffff_ffff_ffff_ffff,
                    d <= 0xffff_ffff_ffff_ffff,
            ;
        }
        let input: u128 = (a as u128) * (b as u128);
        let output: u128 = (c as u128) * (d as u128);
        match input.checked_add(output) {
            None => None,
            Some(total) => {
                let cost: u128 = total / 1_000_000;
                if cost <= u64::MAX as u128 {
                    Some(cost as u64)
                } else {
                    None
                }
            },
        }
    }
}

} // verus!
