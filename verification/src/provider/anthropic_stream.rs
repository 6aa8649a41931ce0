//! The messages of Anthropic: how the events of an answer are read.
use vstd::prelude::*;
use vstd::string::*;

use crate::json;
use crate::json::{Json, Tree};
use crate::provider::anthropic::AnthropicAdapter;
use crate::provider::endpoint;
use crate::provider::failures;
use crate::provider::openai_stream;
use crate::provider::types;
use crate::provider::types::{ErrorView, ProviderError, ProviderEvent, StreamView, UsageBreakdown};
use crate::text;

verus! {

/// The number of the block that an event speaks of.
pub open spec fn block_index(tree: Tree) -> Option<u32> {
    match tree.get("index"@) {
        Some(value) => openai_stream::index_of(value),
        None => None,
    }
}

fn index_of(value: &Json) -> (r: Option<u32>)
    ensures
        r == block_index(value@),
{
    match value.get("index") {
        Some(found) => openai_stream::u32_of(found),
        None => None,
    }
}

/// The usage that the start of an answer tells: its input, and what of it went
/// into a cache and came out of one.
pub open spec fn start_usage(usage: Tree) -> Result<Seq<StreamView>, ErrorView> {
    let direct = usage.unsigned_at("input_tokens"@);
    let creation = usage.unsigned_at("cache_creation_input_tokens"@);
    let read = usage.unsigned_at("cache_read_input_tokens"@);
    let total = openai_stream::or_zero(direct) + openai_stream::or_zero(creation)
        + openai_stream::or_zero(read);
    if direct is None && creation is None && read is None {
        Ok(Seq::empty())
    } else if total > u64::MAX {
        Err(ErrorView::InvalidResponse { message: "Anthropic input usage overflowed u64"@ })
    } else {
        Ok(
            seq![
                StreamView::UsageBreakdown {
                    usage: UsageBreakdown {
                        uncached_input_tokens: openai_stream::or_zero(direct),
                        cache_write_tokens: openai_stream::or_zero(creation),
                        cache_read_tokens: openai_stream::or_zero(read),
                        output_tokens: 0,
                        reasoning_tokens: 0,
                        usage_unknown: direct is None,
                    },
                },
                StreamView::UsagePartial {
                    input_tokens: total as u64,
                    output_tokens: 0,
                    input_complete: direct is Some,
                    output_complete: false,
                },
            ],
        )
    }
}

pub open spec fn start_events(tree: Tree) -> Result<Seq<StreamView>, ErrorView> {
    match json::under(tree, "message"@, "usage"@) {
        Some(usage) => start_usage(usage),
        None => Ok(Seq::empty()),
    }
}

/// A text under a key, or none.
pub open spec fn text_or_empty(tree: Tree, key: Seq<char>) -> Seq<char> {
    match tree.text_at(key) {
        Some(s) => s,
        None => Seq::empty(),
    }
}

/// What a tool is called with at the start of its block, as text.
pub open spec fn block_arguments(block: Tree) -> Seq<char> {
    json::json_text(
        match block.get("input"@) {
            Some(input) => input,
            None => json::empty_object(),
        },
    )
}

/// The events of a block that starts a tool call; the call is whole where its
/// arguments are JSON.
pub open spec fn tool_start(index: u32, block: Tree, whole: bool) -> Seq<StreamView> {
    let name = text_or_empty(block, "name"@);
    seq![
        StreamView::ToolCallStart { index, id: text_or_empty(block, "id"@), name },
    ] + (if whole {
        seq![StreamView::ToolCall { name, arguments: block_arguments(block) }]
    } else {
        Seq::empty()
    })
}

pub open spec fn block_start_events(tree: Tree) -> Result<Seq<StreamView>, ErrorView> {
    match tree.get("content_block"@) {
        Some(block) => if block.text_at("type"@) == Some("tool_use"@) {
            match block_index(tree) {
                Some(index) => Ok(
                    tool_start(index, block, json::parsed(block_arguments(block)) is Ok),
                ),
                None => Err(ErrorView::MalformedToolCall),
            }
        } else {
            Ok(Seq::empty())
        },
        None => Ok(Seq::empty()),
    }
}

/// The fragment of arguments that a delta carries, under one of two keys.
pub open spec fn fragment(delta: Tree) -> Option<Tree> {
    if delta.get("partial_json"@) is Some {
        delta.get("partial_json"@)
    } else {
        json::under(delta, "input_json_delta"@, "partial_json"@)
    }
}

/// The events of a delta of a block.
pub open spec fn delta_parts(index: u32, delta: Tree) -> Seq<StreamView> {
    (match delta.text_at("text"@) {
        Some(s) => seq![StreamView::TextDelta(s)],
        None => Seq::empty(),
    }) + (match delta.text_at("thinking"@) {
        Some(s) => seq![StreamView::ReasoningDelta(s)],
        None => Seq::empty(),
    }) + (match fragment(delta) {
        Some(Tree::Text(s)) => seq![StreamView::ToolCallInputDelta { index, partial_json: s }],
        _ => Seq::empty(),
    })
}

pub open spec fn block_delta_events(tree: Tree) -> Result<Seq<StreamView>, ErrorView> {
    match block_index(tree) {
        Some(index) => Ok(
            match tree.get("delta"@) {
                Some(delta) => delta_parts(index, delta),
                None => Seq::empty(),
            },
        ),
        None => Err(ErrorView::MalformedToolCall),
    }
}

pub open spec fn block_stop_events(tree: Tree) -> Result<Seq<StreamView>, ErrorView> {
    match block_index(tree) {
        Some(index) => Ok(seq![StreamView::ContentBlockStop { index }]),
        None => Err(ErrorView::MalformedToolCall),
    }
}

/// The usage that the end of an answer tells.
pub open spec fn end_usage(tree: Tree) -> Seq<StreamView> {
    match json::under(tree, "usage"@, "output_tokens"@) {
        Some(value) => match value.unsigned() {
            Some(output_tokens) => seq![
                StreamView::UsageBreakdown {
                    usage: UsageBreakdown {
                        uncached_input_tokens: 0,
                        cache_write_tokens: 0,
                        cache_read_tokens: 0,
                        output_tokens,
                        reasoning_tokens: 0,
                        usage_unknown: false,
                    },
                },
                StreamView::UsagePartial {
                    input_tokens: 0,
                    output_tokens,
                    input_complete: false,
                    output_complete: true,
                },
            ],
            None => Seq::empty(),
        },
        None => Seq::empty(),
    }
}

pub open spec fn end_events(tree: Tree) -> Seq<StreamView> {
    end_usage(tree) + (match json::under(tree, "delta"@, "stop_reason"@) {
        Some(Tree::Text(reason)) => seq![
            StreamView::Usage { input_tokens: 0, output_tokens: 0 },
            StreamView::Stopped { reason },
        ],
        _ => Seq::empty(),
    })
}

/// The events of an event that reports no error.
pub open spec fn wire_events(tree: Tree) -> Result<Seq<StreamView>, ErrorView> {
    let kind = tree.text_at("type"@);
    if kind == Some("message_start"@) {
        start_events(tree)
    } else if kind == Some("content_block_start"@) {
        block_start_events(tree)
    } else if kind == Some("content_block_delta"@) {
        block_delta_events(tree)
    } else if kind == Some("content_block_stop"@) {
        block_stop_events(tree)
    } else if kind == Some("message_delta"@) {
        Ok(end_events(tree))
    } else {
        Ok(Seq::empty())
    }
}

/// A result whose events or whose error are those given.
pub open spec fn is_result(
    r: Result<Vec<ProviderEvent>, ProviderError>,
    expected: Result<Seq<StreamView>, ErrorView>,
) -> bool {
    match (r, expected) {
        (Ok(events), Ok(views)) => types::stream_views(events@) == views,
        (Err(error), Err(view)) => error@ == view,
        _ => false,
    }
}

fn none() -> (r: Vec<ProviderEvent>)
    ensures
        types::stream_views(r@) == Seq::<StreamView>::empty(),
        r@.len() == 0,
{
    let r: Vec<ProviderEvent> = Vec::new();
    assert(types::stream_views(r@) =~= Seq::empty());
    r
}

fn read_start(value: &Json) -> (r: Result<Vec<ProviderEvent>, ProviderError>)
    ensures
        is_result(r, start_events(value@)),
{
    let mut events = none();
    let usage = match value.under("message", "usage") {
        Some(usage) => usage,
        None => return Ok(events),
    };
    let direct = usage.u64_at("input_tokens");
    let creation = usage.u64_at("cache_creation_input_tokens");
    let read = usage.u64_at("cache_read_input_tokens");
    if direct.is_none() && creation.is_none() && read.is_none() {
        return Ok(events);
    }
    let a: u64 = openai_stream::zero_if_none(direct);
    let b: u64 = openai_stream::zero_if_none(creation);
    let c: u64 = openai_stream::zero_if_none(read);
    if a > u64::MAX - b || a + b > u64::MAX - c {
        return Err(ProviderError::invalid("Anthropic input usage overflowed u64"));
    }
    events.push(
        ProviderEvent::UsageBreakdown {
            usage: UsageBreakdown {
                uncached_input_tokens: a,
                cache_write_tokens: b,
                cache_read_tokens: c,
                output_tokens: 0,
                reasoning_tokens: 0,
                usage_unknown: direct.is_none(),
            },
        },
    );
    events.push(
        ProviderEvent::UsagePartial {
            input_tokens: a + b + c,
            output_tokens: 0,
            input_complete: direct.is_some(),
            output_complete: false,
        },
    );
    assert(types::stream_views(events@) =~= start_usage(usage@)->Ok_0);
    Ok(events)
}

fn text_at(value: &Json, key: &str) -> (r: String)
    ensures
        r@ == text_or_empty(value@, key@),
{
    match value.str_at(key) {
        Some(s) => s.to_owned(),
        None => String::new(),
    }
}

/// The events of a block that starts a tool call.
pub fn start_tool(index: u32, block: &Json, arguments: String, whole: bool) -> (events: Vec<
    ProviderEvent,
>)
    requires
        arguments@ == block_arguments(block@),
    ensures
        types::stream_views(events@) == tool_start(index, block@, whole),
{
    let name = text_at(block, "name");
    let mut events: Vec<ProviderEvent> = Vec::new();
    events.push(
        ProviderEvent::ToolCallStart { index, id: text_at(block, "id"), name: name.clone() },
    );
    if whole {
        events.push(ProviderEvent::ToolCall { name, arguments });
    }
    assert(types::stream_views(events@) =~= tool_start(index, block@, whole));
    events
}

fn read_block_start(value: &Json) -> (r: Result<Vec<ProviderEvent>, ProviderError>)
    ensures
        is_result(r, block_start_events(value@)),
{
    let block = match value.get("content_block") {
        Some(block) => block,
        None => return Ok(none()),
    };
    let is_tool = match block.str_at("type") {
        Some(kind) => text::same(kind, "tool_use"),
        None => false,
    };
    if !is_tool {
        return Ok(none());
    }
    let index: u32 = match index_of(value) {
        Some(index) => index,
        None => return Err(ProviderError::MalformedToolCall),
    };
    let arguments = match block.get("input") {
        Some(input) => json::to_text(input),
        None => json::to_text(&Json::object()),
    };
    let whole = json::parse(arguments.as_str()).is_ok();
    Ok(start_tool(index, block, arguments, whole))
}

fn read_block_delta(value: &Json) -> (r: Result<Vec<ProviderEvent>, ProviderError>)
    ensures
        is_result(r, block_delta_events(value@)),
{
    let index: u32 = match index_of(value) {
        Some(index) => index,
        None => return Err(ProviderError::MalformedToolCall),
    };
    let mut events = none();
    let delta = match value.get("delta") {
        Some(delta) => delta,
        None => return Ok(events),
    };
    if let Some(s) = delta.str_at("text") {
        events.push(ProviderEvent::TextDelta(s.to_owned()));
    }
    if let Some(s) = delta.str_at("thinking") {
        events.push(ProviderEvent::ReasoningDelta(s.to_owned()));
    }
    let mut found = delta.get("partial_json");
    if found.is_none() {
        found = delta.under("input_json_delta", "partial_json");
    }
    if let Some(piece) = found {
        if let Some(s) = piece.as_str() {
            events.push(ProviderEvent::ToolCallInputDelta { index, partial_json: s.to_owned() });
        }
    }
    assert(types::stream_views(events@) =~= delta_parts(index, delta@));
    Ok(events)
}

fn read_block_stop(value: &Json) -> (r: Result<Vec<ProviderEvent>, ProviderError>)
    ensures
        is_result(r, block_stop_events(value@)),
{
    match index_of(value) {
        Some(index) => {
            let mut events = none();
            events.push(ProviderEvent::ContentBlockStop { index });
            assert(types::stream_views(events@) =~= seq![StreamView::ContentBlockStop { index }]);
            Ok(events)
        },
        None => Err(ProviderError::MalformedToolCall),
    }
}

fn read_end(value: &Json) -> (events: Vec<ProviderEvent>)
    ensures
        types::stream_views(events@) == end_events(value@),
{
    let mut events = none();
    if let Some(found) = value.under("usage", "output_tokens") {
        if let Some(output_tokens) = found.as_u64() {
            events.push(
                ProviderEvent::UsageBreakdown {
                    usage: UsageBreakdown {
                        uncached_input_tokens: 0,
                        cache_write_tokens: 0,
                        cache_read_tokens: 0,
                        output_tokens,
                        reasoning_tokens: 0,
                        usage_unknown: false,
                    },
                },
            );
            events.push(
                ProviderEvent::UsagePartial {
                    input_tokens: 0,
                    output_tokens,
                    input_complete: false,
                    output_complete: true,
                },
            );
        }
    }
    assert(types::stream_views(events@) =~= end_usage(value@));
    if let Some(found) = value.under("delta", "stop_reason") {
        if let Some(reason) = found.as_str() {
            events.push(ProviderEvent::Usage { input_tokens: 0, output_tokens: 0 });
            events.push(ProviderEvent::Stopped { reason: reason.to_owned() });
        }
    }
    assert(types::stream_views(events@) =~= end_events(value@));
    events
}

/// Reads an event that reports no error.
pub fn read_wire_event(value: &Json) -> (r: Result<Vec<ProviderEvent>, ProviderError>)
    ensures
        is_result(r, wire_events(value@)),
{
    let kind = match value.str_at("type") {
        Some(kind) => kind,
        None => return Ok(none()),
    };
    if text::same(kind, "message_start") {
        read_start(value)
    } else if text::same(kind, "content_block_start") {
        read_block_start(value)
    } else if text::same(kind, "content_block_delta") {
        read_block_delta(value)
    } else if text::same(kind, "content_block_stop") {
        read_block_stop(value)
    } else if text::same(kind, "message_delta") {
        Ok(read_end(value))
    } else {
        Ok(none())
    }
}

impl AnthropicAdapter {
    /// The events of an event of an answer, or the error that it reports.
    pub fn parse_event(&self, value: &Json) -> (r: Result<Vec<ProviderEvent>, ProviderError>)
        ensures
            is_result(
                r,
                if value@.text_at("type"@) == Some("error"@) {
                    Err(
                        failures::stream_error(
                            value@,
                            endpoint::endpoint_secrets(self.config@.endpoint).push(
                                self.config@.settings.auth.secret(),
                            ),
                        ),
                    )
                } else {
                    wire_events(value@)
                },
            ),
    {
        let reports_error = match value.str_at("type") {
            Some(kind) => text::same(kind, "error"),
            None => false,
        };
        if reports_error {
            return Err(
                failures::stream_provider_error(
                    value,
                    self.config.endpoint.as_str(),
                    self.config.auth().secret(),
                ),
            );
        }
        read_wire_event(value)
    }
}

} // verus!
