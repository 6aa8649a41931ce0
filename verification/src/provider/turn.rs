//! A request on its own, outside a session's loop: what is recorded of it, under
//! which numbers, and when something is learned from it.
use vstd::prelude::*;
use vstd::string::*;

use crate::events::{EventKind, RequestKind, SessionEvent};
use crate::provider::accounting::ProviderRequestComponents;
use crate::provider::adapter;
use crate::provider::identity;
use crate::provider::message;
use crate::provider::message::{MessageView, ProviderContentBlock, ProviderMessage};
use crate::provider::request::PreparedProviderRequest;
use crate::provider::types::{ErrorView, ProviderError, ProviderKind};

verus! {

/// What is said when there are no numbers left.
pub open spec fn exhausted() -> ErrorView {
    adapter::invalid("provider event sequence exhausted"@)
}

/// The next number of an event.
pub fn checked_provider_next_seq(current: u64) -> (r: Result<u64, ProviderError>)
    ensures
        (match r {
            Ok(next) => next == current + 1,
            Err(error) => current == u64::MAX && error@ == exhausted(),
        }),
{
    if current == u64::MAX {
        Err(ProviderError::invalid("provider event sequence exhausted"))
    } else {
        Ok(current + 1)
    }
}

/// Whether an event records what a request is made of.
pub open spec fn is_snapshot(
    event: SessionEvent,
    seq: u64,
    provider: Seq<char>,
    model: Seq<char>,
    components: ProviderRequestComponents,
    serialized_chars: u64,
    estimated_tokens: u64,
) -> bool {
    event.seq == seq && match event.kind {
        EventKind::ContextSnapshot {
            request_kind,
            provider: p,
            model: m,
            system_bytes,
            tool_schema_bytes,
            history_bytes,
            tool_result_bytes,
            serialized_chars: chars,
            estimated_tokens: tokens,
            context_window_tokens,
        } => {
            &&& request_kind == RequestKind::ProviderTurn
            &&& p@ == provider
            &&& m@ == model
            &&& system_bytes == components.system_bytes
            &&& tool_schema_bytes == components.tool_schema_bytes
            &&& history_bytes == components.history_bytes
            &&& tool_result_bytes == components.tool_result_bytes
            &&& chars == serialized_chars
            &&& tokens == estimated_tokens
            &&& context_window_tokens == 0
        },
        _ => false,
    }
}

/// Opens a request under a number: the event that records it, and the number that
/// follows. There must be numbers for its record, its answer and its end.
pub fn open_request(
    next_seq: u64,
    kind: ProviderKind,
    model: &str,
    request: &PreparedProviderRequest,
) -> (r: Result<(SessionEvent, u64), ProviderError>)
    ensures
        (match r {
            Ok((event, following)) => following == next_seq + 1 && following < u64::MAX
                && is_snapshot(
                event,
                next_seq,
                identity::kind_name(kind),
                model@,
                request@.components,
                request@.serialized_chars,
                request@.estimated_tokens,
            ),
            Err(error) => next_seq >= u64::MAX - 1 && error@ == exhausted(),
        }),
{
    let following: u64 = match checked_provider_next_seq(next_seq) {
        Ok(seq) => seq,
        Err(error) => return Err(error),
    };
    match checked_provider_next_seq(following) {
        Ok(_) => {},
        Err(error) => return Err(error),
    }
    let components = request.components();
    let event = SessionEvent::new(
        next_seq,
        EventKind::ContextSnapshot {
            request_kind: RequestKind::ProviderTurn,
            provider: identity::provider_kind_name(kind).to_owned(),
            model: model.to_owned(),
            system_bytes: components.system_bytes,
            tool_schema_bytes: components.tool_schema_bytes,
            history_bytes: components.history_bytes,
            tool_result_bytes: components.tool_result_bytes,
            serialized_chars: request.serialized_chars(),
            estimated_tokens: request.estimated_tokens(),
            context_window_tokens: 0,
        },
    );
    Ok((event, following))
}

/// The number of the event that ends a request: behind the last event there is,
/// or the one that was set aside where there is none or no number behind it.
pub open spec fn closing_seq(last_seq: Option<u64>, set_aside: u64) -> u64 {
    match last_seq {
        Some(seq) => if seq == u64::MAX {
            set_aside
        } else {
            (seq + 1) as u64
        },
        None => set_aside,
    }
}

/// Ends a request: the event that records how.
pub fn close_request(
    last_seq: Option<u64>,
    set_aside: u64,
    provider_latency_ms: u64,
    cancelled: bool,
    failed: bool,
) -> (event: SessionEvent)
    ensures
        event.seq == closing_seq(last_seq, set_aside),
        event.kind == (EventKind::RequestCompleted { provider_latency_ms, cancelled, failed }),
{
    let seq: u64 = match last_seq {
        Some(seq) => if seq == u64::MAX {
            set_aside
        } else {
            seq + 1
        },
        None => set_aside,
    };
    SessionEvent::new(
        seq,
        EventKind::RequestCompleted { provider_latency_ms, cancelled, failed },
    )
}

/// Whether a message is text alone.
pub open spec fn text_alone(m: MessageView) -> bool {
    m.responses_reasoning.len() == 0 && m.chat_reasoning is None && forall|i: int|
        0 <= i < m.content_blocks.len() ==> (#[trigger] m.content_blocks[i]) is Text
}

fn is_text_alone(m: &ProviderMessage) -> (r: bool)
    ensures
        r == text_alone(m@),
{
    if m.responses_reasoning.len() > 0 || m.chat_reasoning.is_some() {
        return false;
    }
    let ghost all = m@.content_blocks;
    let mut i: usize = 0;
    while i < m.content_blocks.len()
        invariant
            i <= m.content_blocks.len(),
            all == message::block_views(m.content_blocks@),
            forall|k: int| 0 <= k < i ==> (#[trigger] all[k]) is Text,
        decreases m.content_blocks.len() - i,
    {
        let is_text = match &m.content_blocks[i] {
            ProviderContentBlock::Text(_) => true,
            _ => false,
        };
        assert(all[i as int] == m.content_blocks@[i as int]@);
        if !is_text {
            return false;
        }
        i = i + 1;
    }
    true
}

pub fn provider_messages_are_text_only(messages: &Vec<ProviderMessage>) -> (r: bool)
    ensures
        r == forall|i: int|
            0 <= i < messages@.len() ==> text_alone(#[trigger] message::views(messages@)[i]),
{
    let ghost all = message::views(messages@);
    let mut i: usize = 0;
    while i < messages.len()
        invariant
            i <= messages.len(),
            all == message::views(messages@),
            forall|k: int| 0 <= k < i ==> text_alone(#[trigger] all[k]),
        decreases messages.len() - i,
    {
        assert(all[i as int] == messages@[i as int]@);
        if !is_text_alone(&messages[i]) {
            assert(!text_alone(all[i as int]));
            return false;
        }
        i = i + 1;
    }
    true
}

/// What was used for a request, as far as it decides whether its estimate is
/// learned from.
#[derive(Clone, Copy, Debug, PartialEq, Eq, Structural)]
pub struct RequestUsage {
    pub usage_unknown: bool,
    pub response_cache_hit: bool,
    pub cancelled: bool,
    pub failed: bool,
}

/// Whether the tokens of a request are learned from: it succeeded, was text
/// alone, and its own usage is known.
pub fn learns_from(
    succeeded: bool,
    messages: &Vec<ProviderMessage>,
    first_usage: Option<RequestUsage>,
) -> (r: bool)
    ensures
        r == (succeeded && (forall|i: int|
            0 <= i < messages@.len() ==> text_alone(#[trigger] message::views(messages@)[i])) && (
        first_usage matches Some(usage) && !usage.usage_unknown && !usage.response_cache_hit
            && !usage.cancelled && !usage.failed)),
{
    match first_usage {
        Some(usage) => succeeded && !usage.usage_unknown && !usage.response_cache_hit
            && !usage.cancelled && !usage.failed && provider_messages_are_text_only(messages),
        None => false,
    }
}

} // verus!
