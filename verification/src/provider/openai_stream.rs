//! The chat completions of OpenAI: how the events of an answer are read.
use vstd::prelude::*;
use vstd::string::*;

use crate::json;
use crate::json::{Json, Tree};
use crate::provider::accounting;
use crate::provider::config::ConfigView;
use crate::provider::endpoint;
use crate::provider::failures;
use crate::provider::message;
use crate::provider::message::{ChatReasoning, ChatView};
use crate::provider::openai;
use crate::provider::openai::OpenAiCompatibleAdapter;
use crate::provider::reasoning;
use crate::provider::request;
use crate::provider::types;
use crate::provider::types::{ErrorView, ProviderError, ProviderEvent, StreamView, UsageBreakdown};
use crate::text;

verus! {

/// The first choice of an answer.
pub open spec fn first_choice(tree: Tree) -> Option<Tree> {
    match tree.items_at("choices"@) {
        Some(items) => if items.len() > 0 {
            Some(items[0])
        } else {
            None
        },
        None => None,
    }
}

fn choice_of(value: &Json) -> (r: Option<&Json>)
    ensures
        request::opt_tree(r) == first_choice(value@),
{
    match value.array_at("choices") {
        Some(items) => if items.len() > 0 {
            assert(json::trees(items@)[0] == items@[0]@);
            Some(&items[0])
        } else {
            None
        },
        None => None,
    }
}

/// A text that is not empty, where there is one.
pub open spec fn some_text(value: Option<Tree>) -> Option<Seq<char>> {
    match value {
        Some(Tree::Text(s)) => if s.len() > 0 {
            Some(s)
        } else {
            None
        },
        _ => None,
    }
}

fn some_text_of(value: Option<&Json>) -> (r: Option<&str>)
    ensures
        (match r {
            Some(s) => some_text(request::opt_tree(value)) == Some(s@),
            None => some_text(request::opt_tree(value)) is None,
        }),
{
    match value {
        Some(found) => match found.as_str() {
            Some(s) => if s.is_empty() {
                None
            } else {
                Some(s)
            },
            None => None,
        },
        None => None,
    }
}

/// What an adapter keeps of an answer's thinking, where it has to hand it back.
#[verifier::ext_equal]
pub struct ThinkingView {
    pub scope_id: u64,
    pub model: Seq<char>,
}

/// The same as plain values.
pub struct ThinkingOwner {
    pub scope_id: u64,
    pub model: String,
}

impl View for ThinkingOwner {
    type V = ThinkingView;

    open spec fn view(&self) -> ThinkingView {
        ThinkingView { scope_id: self.scope_id, model: self.model@ }
    }
}

pub open spec fn opt_owner(owner: Option<ThinkingOwner>) -> Option<ThinkingView> {
    match owner {
        Some(o) => Some(o@),
        None => None,
    }
}

/// The events of reasoning that an answer shows as text.
pub open spec fn reasoning_events(delta: Tree, owner: Option<ThinkingView>) -> Seq<StreamView> {
    match some_text(accounting::either(delta, "reasoning_content"@, "reasoning"@)) {
        Some(s) => match owner {
            Some(o) => seq![
                StreamView::ReasoningDelta(s),
                StreamView::ChatReasoning(
                    ChatView { scope_id: o.scope_id, model: o.model, content: s },
                ),
            ],
            None => seq![StreamView::ReasoningDelta(s)],
        },
        None => Seq::empty(),
    }
}

/// The texts of the details of reasoning, one behind the other.
pub open spec fn details_text(details: Seq<Tree>) -> Seq<char>
    decreases details.len(),
{
    if details.len() == 0 {
        Seq::empty()
    } else {
        details_text(details.drop_last()) + (match accounting::either(
            details.last(),
            "text"@,
            "summary"@,
        ) {
            Some(Tree::Text(s)) => s,
            _ => Seq::empty(),
        })
    }
}

/// The events of reasoning that an answer shows as details. That there are any
/// proves that the model reasoned, also where they hold no text.
pub open spec fn details_events(delta: Tree) -> Seq<StreamView> {
    match delta.items_at("reasoning_details"@) {
        Some(details) => if details.len() == 0 {
            Seq::empty()
        } else if details_text(details).len() == 0 {
            seq![StreamView::ReasoningStarted]
        } else {
            seq![StreamView::ReasoningDelta(details_text(details))]
        },
        None => Seq::empty(),
    }
}

/// The events of text.
pub open spec fn content_events(delta: Tree) -> Seq<StreamView> {
    match some_text(delta.get("content"@)) {
        Some(s) => seq![StreamView::TextDelta(s)],
        None => Seq::empty(),
    }
}

fn push_reasoning(events: &mut Vec<ProviderEvent>, delta: &Json, owner: &Option<ThinkingOwner>)
    ensures
        types::stream_views(final(events)@) == types::stream_views(old(events)@)
            + reasoning_events(delta@, opt_owner(*owner)),
{
    let ghost start = types::stream_views(events@);
    if let Some(s) = some_text_of(accounting::either_of(delta, "reasoning_content", "reasoning")) {
        events.push(ProviderEvent::ReasoningDelta(s.to_owned()));
        if let Some(o) = owner {
            events.push(
                ProviderEvent::ChatReasoning(
                    ChatReasoning {
                        scope_id: o.scope_id,
                        model: o.model.clone(),
                        content: s.to_owned(),
                    },
                ),
            );
        }
    }
    assert(types::stream_views(events@) =~= start + reasoning_events(delta@, opt_owner(*owner)));
}

fn push_details(events: &mut Vec<ProviderEvent>, delta: &Json)
    ensures
        types::stream_views(final(events)@) == types::stream_views(old(events)@) + details_events(
            delta@,
        ),
{
    let ghost start = types::stream_views(events@);
    if let Some(details) = delta.array_at("reasoning_details") {
        if details.len() > 0 {
            let ghost all = json::trees(details@);
            let mut s = String::new();
            let mut i: usize = 0;
            assert(s@ =~= details_text(all.take(0)));
            while i < details.len()
                invariant
                    i <= details.len(),
                    all == json::trees(details@),
                    s@ == details_text(all.take(i as int)),
                decreases details.len() - i,
            {
                assert(all.take(i + 1).drop_last() =~= all.take(i as int));
                assert(all.take(i + 1).last() == details@[i as int]@);
                let ghost before = s@;
                if let Some(found) = accounting::either_of(&details[i], "text", "summary") {
                    if let Some(part) = found.as_str() {
                        s.append(part);
                    }
                }
                assert(s@ =~= details_text(all.take(i + 1)));
                i = i + 1;
            }
            assert(all.take(all.len() as int) =~= all);
            if s.as_str().is_empty() {
                events.push(ProviderEvent::ReasoningStarted);
            } else {
                events.push(ProviderEvent::ReasoningDelta(s));
            }
        }
    }
    assert(types::stream_views(events@) =~= start + details_events(delta@));
}

fn push_content(events: &mut Vec<ProviderEvent>, delta: &Json)
    ensures
        types::stream_views(final(events)@) == types::stream_views(old(events)@) + content_events(
            delta@,
        ),
{
    let ghost start = types::stream_views(events@);
    if let Some(s) = some_text_of(delta.get("content")) {
        events.push(ProviderEvent::TextDelta(s.to_owned()));
    }
    assert(types::stream_views(events@) =~= start + content_events(delta@));
}

/// What a piece of a tool call says.
#[verifier::ext_equal]
pub struct PieceView {
    /// The event that it makes, where it makes one.
    pub event: Option<StreamView>,
    /// A call without an identity, which is whole where its arguments are JSON.
    pub loose: Option<(Seq<char>, Seq<char>)>,
}

/// What a piece of a tool call says.
pub struct ToolPiece {
    pub event: Option<ProviderEvent>,
    pub loose: Option<(String, String)>,
}

impl View for ToolPiece {
    type V = PieceView;

    open spec fn view(&self) -> PieceView {
        PieceView {
            event: match self.event {
                Some(e) => Some(e@),
                None => None,
            },
            loose: match self.loose {
                Some(p) => Some((p.0@, p.1@)),
                None => None,
            },
        }
    }
}

/// The event of a piece that makes no sense.
pub open spec fn malformed_delta() -> StreamView {
    StreamView::ToolCallDelta { index: None, id: None, name: None, arguments: Seq::empty() }
}

pub open spec fn malformed_piece() -> PieceView {
    PieceView { event: Some(malformed_delta()), loose: None }
}

/// A number of a call, where it is one of 32 bits.
pub open spec fn index_of(value: Tree) -> Option<u32> {
    match value.unsigned() {
        Some(n) => if n <= u32::MAX {
            Some(n as u32)
        } else {
            None
        },
        None => None,
    }
}

/// Whether what a call says it is can be a function.
pub open spec fn says_function(kind: Option<Tree>) -> bool {
    match kind {
        None => true,
        Some(Tree::Null) => true,
        Some(Tree::Text(s)) => s.len() == 0 || s == "function"@,
        Some(_) => false,
    }
}

/// The name of a function, where it has one.
pub open spec fn function_name(function: Tree) -> Option<Seq<char>> {
    match function.text_at("name"@) {
        Some(s) => if text::trim(s).len() > 0 {
            Some(text::trim(s))
        } else {
            None
        },
        None => None,
    }
}

/// The arguments of a function as text.
pub open spec fn function_arguments(function: Tree) -> Seq<char> {
    match function.get("arguments"@) {
        None => Seq::empty(),
        Some(Tree::Null) => Seq::empty(),
        Some(Tree::Text(s)) => s,
        Some(other) => json::json_text(other),
    }
}

/// What a piece says that has an index and an id as given.
pub open spec fn identified_piece(call: Tree, index: Option<u32>, id: Option<Seq<char>>) -> PieceView {
    if !says_function(call.get("type"@)) {
        malformed_piece()
    } else {
        match call.get("function"@) {
            Some(Tree::Object(entries)) => {
                let function = Tree::Object(entries);
                let name = function_name(function);
                let arguments = function_arguments(function);
                let known = index is Some || (id matches Some(s) && s.len() > 0);
                PieceView {
                    event: Some(StreamView::ToolCallDelta { index, id, name, arguments }),
                    loose: if !known && name is Some {
                        Some((name->0, arguments))
                    } else {
                        None
                    },
                }
            },
            _ => PieceView {
                event: if index is None && id is None {
                    None
                } else {
                    Some(
                        StreamView::ToolCallDelta {
                            index,
                            id,
                            name: None,
                            arguments: Seq::empty(),
                        },
                    )
                },
                loose: None,
            },
        }
    }
}

/// What a piece of a tool call says.
pub open spec fn tool_piece(call: Tree) -> PieceView {
    match call {
        Tree::Null => PieceView { event: None, loose: None },
        Tree::Object(_) => {
            let index = match call.get("index"@) {
                None => Ok(None),
                Some(value) => match index_of(value) {
                    Some(n) => Ok(Some(n)),
                    None => Err(()),
                },
            };
            let id = match call.get("id"@) {
                None => Ok(None),
                Some(Tree::Null) => Ok(None),
                Some(Tree::Text(s)) => Ok(Some(s)),
                Some(_) => Err(()),
            };
            match (index, id) {
                (Ok(index), Ok(id)) => identified_piece(call, index, id),
                _ => malformed_piece(),
            }
        },
        _ => malformed_piece(),
    }
}

/// The events of a piece: its own, and a whole call where it has no identity and
/// its arguments are JSON.
pub open spec fn piece_events(piece: PieceView) -> Seq<StreamView> {
    (match piece.event {
        Some(e) => seq![e],
        None => Seq::empty(),
    }) + (match piece.loose {
        Some((name, arguments)) => if json::parsed(arguments) is Ok {
            seq![StreamView::ToolCall { name, arguments }]
        } else {
            Seq::empty()
        },
        None => Seq::empty(),
    })
}

/// The events of tool calls, one piece after the other.
pub open spec fn pieces_events(calls: Seq<Tree>) -> Seq<StreamView>
    decreases calls.len(),
{
    if calls.len() == 0 {
        Seq::empty()
    } else {
        pieces_events(calls.drop_last()) + piece_events(tool_piece(calls.last()))
    }
}

fn malformed() -> (r: ToolPiece)
    ensures
        r@ == malformed_piece(),
{
    let r = ToolPiece {
        event: Some(
            ProviderEvent::ToolCallDelta {
                index: None,
                id: None,
                name: None,
                arguments: String::new(),
            },
        ),
        loose: None,
    };
    assert(r@.event->0->ToolCallDelta_arguments =~= Seq::empty());
    r
}

fn is_function_type(kind: Option<&Json>) -> (r: bool)
    ensures
        r == says_function(request::opt_tree(kind)),
{
    broadcast use json::lemma_json_view;

    match kind {
        None => true,
        Some(value) => match value {
            Json::Null => true,
            Json::Text(s) => s.as_str().is_empty() || text::same(s.as_str(), "function"),
            _ => false,
        },
    }
}

fn name_of(function: &Json) -> (r: Option<String>)
    ensures
        message::opt_text(r) == function_name(function@),
{
    match function.str_at("name") {
        Some(s) => {
            let name = text::trimmed(s);
            if name.as_str().is_empty() {
                None
            } else {
                Some(name)
            }
        },
        None => None,
    }
}

fn arguments_of(function: &Json) -> (r: String)
    ensures
        r@ == function_arguments(function@),
{
    broadcast use json::lemma_json_view;

    match function.get("arguments") {
        None => String::new(),
        Some(value) => match value {
            Json::Null => String::new(),
            Json::Text(s) => s.clone(),
            other => json::to_text(other),
        },
    }
}

fn identified(call: &Json, index: Option<u32>, id: Option<String>) -> (r: ToolPiece)
    ensures
        r@ == identified_piece(call@, index, message::opt_text(id)),
{
    broadcast use json::lemma_json_view;

    if !is_function_type(call.get("type")) {
        return malformed();
    }
    let function = match call.get("function") {
        Some(f) => if f.is_object() {
            Some(f)
        } else {
            None
        },
        None => None,
    };
    match function {
        Some(f) => {
            let name = name_of(f);
            let arguments = arguments_of(f);
            let known = index.is_some() || (match &id {
                Some(s) => !s.as_str().is_empty(),
                None => false,
            });
            let loose = match &name {
                Some(n) => if known {
                    None
                } else {
                    Some((n.clone(), arguments.clone()))
                },
                None => None,
            };
            ToolPiece {
                event: Some(ProviderEvent::ToolCallDelta { index, id, name, arguments }),
                loose,
            }
        },
        None => {
            if index.is_none() && id.is_none() {
                ToolPiece { event: None, loose: None }
            } else {
                let empty = String::new();
                assert(empty@ =~= Seq::empty());
                ToolPiece {
                    event: Some(
                        ProviderEvent::ToolCallDelta { index, id, name: None, arguments: empty },
                    ),
                    loose: None,
                }
            }
        },
    }
}

pub(crate) fn u32_of(value: &Json) -> (r: Option<u32>)
    ensures
        r == index_of(value@),
{
    match value.as_u64() {
        Some(n) => if n <= u32::MAX as u64 {
            Some(n as u32)
        } else {
            None
        },
        None => None,
    }
}

/// Reads a piece of a tool call.
pub fn read_tool_piece(call: &Json) -> (r: ToolPiece)
    ensures
        r@ == tool_piece(call@),
{
    broadcast use json::lemma_json_view;

    if call.is_null() {
        return ToolPiece { event: None, loose: None };
    }
    if !call.is_object() {
        return malformed();
    }
    let index = match call.get("index") {
        None => None,
        Some(value) => match u32_of(value) {
            Some(n) => Some(n),
            None => return malformed(),
        },
    };
    let id = match call.get("id") {
        None => None,
        Some(value) => match value {
            Json::Null => None,
            Json::Text(s) => Some(s.clone()),
            _ => return malformed(),
        },
    };
    identified(call, index, id)
}

fn push_piece(events: &mut Vec<ProviderEvent>, piece: ToolPiece)
    ensures
        types::stream_views(final(events)@) == types::stream_views(old(events)@) + piece_events(
            piece@,
        ),
{
    let ghost start = types::stream_views(events@);
    let ghost view = piece@;
    if let Some(event) = piece.event {
        events.push(event);
    }
    if let Some((name, arguments)) = piece.loose {
        if json::parse(arguments.as_str()).is_ok() {
            events.push(ProviderEvent::ToolCall { name, arguments });
        }
    }
    assert(types::stream_views(events@) =~= start + piece_events(view));
}

/// The events of tool calls.
pub open spec fn calls_events(delta: Tree) -> Seq<StreamView> {
    match delta.items_at("tool_calls"@) {
        Some(calls) => pieces_events(calls),
        None => Seq::empty(),
    }
}

fn push_calls(events: &mut Vec<ProviderEvent>, delta: &Json)
    ensures
        types::stream_views(final(events)@) == types::stream_views(old(events)@) + calls_events(
            delta@,
        ),
{
    let ghost start = types::stream_views(events@);
    if let Some(calls) = delta.array_at("tool_calls") {
        let ghost all = json::trees(calls@);
        let mut i: usize = 0;
        assert(start =~= start + pieces_events(all.take(0)));
        while i < calls.len()
            invariant
                i <= calls.len(),
                all == json::trees(calls@),
                types::stream_views(events@) == start + pieces_events(all.take(i as int)),
            decreases calls.len() - i,
        {
            assert(all.take(i + 1).drop_last() =~= all.take(i as int));
            assert(all.take(i + 1).last() == calls@[i as int]@);
            push_piece(events, read_tool_piece(&calls[i]));
            assert(types::stream_views(events@) =~= start + pieces_events(all.take(i + 1)));
            i = i + 1;
        }
        assert(all.take(all.len() as int) =~= all);
    } else {
        assert(start =~= start + calls_events(delta@));
    }
}

/// A number under a key of what stands under a key; zero where there is none.
pub open spec fn count_under(tree: Tree, a: Seq<char>, b: Seq<char>) -> u64 {
    match json::under(tree, a, b) {
        Some(value) => match value.unsigned() {
            Some(n) => n,
            None => 0,
        },
        None => 0,
    }
}

fn count_of(value: &Json, a: &str, b: &str) -> (r: u64)
    ensures
        r == count_under(value@, a@, b@),
{
    match value.under(a, b) {
        Some(found) => match found.as_u64() {
            Some(n) => n,
            None => 0,
        },
        None => 0,
    }
}

pub open spec fn or_zero(n: Option<u64>) -> u64 {
    match n {
        Some(m) => m,
        None => 0,
    }
}

pub(crate) fn zero_if_none(n: Option<u64>) -> (r: u64)
    ensures
        r == or_zero(n),
{
    match n {
        Some(m) => m,
        None => 0,
    }
}

/// What the usage of an answer is made of: what came out of a cache and went into
/// one is part of the input. Nothing where no number is told.
pub open spec fn usage_parts(usage: Tree) -> Result<Seq<StreamView>, Seq<char>> {
    let input = usage.unsigned_at("prompt_tokens"@);
    let output = usage.unsigned_at("completion_tokens"@);
    let read = count_under(usage, "prompt_tokens_details"@, "cached_tokens"@);
    let written = count_under(usage, "prompt_tokens_details"@, "cache_write_tokens"@);
    let reasoned = count_under(usage, "completion_tokens_details"@, "reasoning_tokens"@);
    if input is None && output is None && read == 0 && written == 0 {
        Ok(Seq::empty())
    } else if read + written > u64::MAX {
        Err("OpenAI cached input overflowed u64"@)
    } else if input matches Some(n) && n < read + written {
        Err("OpenAI cached input exceeded total input"@)
    } else {
        Ok(
            seq![
                StreamView::UsageBreakdown {
                    usage: UsageBreakdown {
                        uncached_input_tokens: match input {
                            Some(n) => (n - read - written) as u64,
                            None => 0,
                        },
                        cache_write_tokens: written,
                        cache_read_tokens: read,
                        output_tokens: or_zero(output),
                        reasoning_tokens: reasoned,
                        usage_unknown: input is None || output is None,
                    },
                },
            ],
        )
    }
}

/// The sums of the usage of an answer.
pub open spec fn usage_sums(usage: Tree) -> Seq<StreamView> {
    match (usage.unsigned_at("prompt_tokens"@), usage.unsigned_at("completion_tokens"@)) {
        (Some(input_tokens), Some(output_tokens)) => seq![
            StreamView::Usage { input_tokens, output_tokens },
        ],
        (Some(input_tokens), None) => seq![
            StreamView::UsagePartial {
                input_tokens,
                output_tokens: 0,
                input_complete: true,
                output_complete: false,
            },
        ],
        (None, Some(output_tokens)) => seq![
            StreamView::UsagePartial {
                input_tokens: 0,
                output_tokens,
                input_complete: false,
                output_complete: true,
            },
        ],
        (None, None) => Seq::empty(),
    }
}

/// The events of the usage of an answer.
pub open spec fn usage_events(usage: Option<Tree>) -> Result<Seq<StreamView>, Seq<char>> {
    match usage {
        None => Ok(Seq::empty()),
        Some(Tree::Null) => Ok(Seq::empty()),
        Some(value) => match usage_parts(value) {
            Ok(parts) => Ok(parts + usage_sums(value)),
            Err(words) => Err(words),
        },
    }
}

/// The usage of an answer tells its parts so that they add up to the input.
pub proof fn law_usage_adds_up(usage: Tree)
    ensures
        usage.unsigned_at("prompt_tokens"@) matches Some(n) ==> (usage_parts(usage) matches Ok(parts)
            ==> parts.len() == 1 && (parts[0] matches StreamView::UsageBreakdown { usage: u }
            && u.uncached_input_tokens + u.cache_read_tokens + u.cache_write_tokens == n)),
{
}

/// Reads the usage of an answer.
pub fn read_usage(events: &mut Vec<ProviderEvent>, usage: &Json) -> (r: Result<(), ProviderError>)
    ensures
        (match (r, usage_events(Some(usage@))) {
            (Ok(_), Ok(more)) => types::stream_views(final(events)@) == types::stream_views(
                old(events)@,
            ) + more,
            (Err(error), Err(words)) => error@ == (ErrorView::InvalidResponse { message: words }),
            _ => false,
        }),
{
    let ghost start = types::stream_views(events@);
    if usage.is_null() {
        assert(start =~= start + Seq::<StreamView>::empty());
        return Ok(());
    }
    let input = usage.u64_at("prompt_tokens");
    let output = usage.u64_at("completion_tokens");
    let read: u64 = count_of(usage, "prompt_tokens_details", "cached_tokens");
    let written: u64 = count_of(usage, "prompt_tokens_details", "cache_write_tokens");
    let reasoned: u64 = count_of(usage, "completion_tokens_details", "reasoning_tokens");
    if input.is_some() || output.is_some() || read > 0 || written > 0 {
        if read > u64::MAX - written {
            return Err(ProviderError::invalid("OpenAI cached input overflowed u64"));
        }
        let cached: u64 = read + written;
        let uncached: u64 = match input {
            Some(n) => {
                if n < cached {
                    return Err(ProviderError::invalid("OpenAI cached input exceeded total input"));
                }
                n - cached
            },
            None => 0,
        };
        events.push(
            ProviderEvent::UsageBreakdown {
                usage: UsageBreakdown {
                    uncached_input_tokens: uncached,
                    cache_write_tokens: written,
                    cache_read_tokens: read,
                    output_tokens: zero_if_none(output),
                    reasoning_tokens: reasoned,
                    usage_unknown: input.is_none() || output.is_none(),
                },
            },
        );
    }
    assert(usage_parts(usage@) is Ok);
    assert(types::stream_views(events@) =~= start + usage_parts(usage@)->Ok_0);
    match (input, output) {
        (Some(input_tokens), Some(output_tokens)) => {
            events.push(ProviderEvent::Usage { input_tokens, output_tokens });
        },
        (Some(input_tokens), None) => {
            events.push(
                ProviderEvent::UsagePartial {
                    input_tokens,
                    output_tokens: 0,
                    input_complete: true,
                    output_complete: false,
                },
            );
        },
        (None, Some(output_tokens)) => {
            events.push(
                ProviderEvent::UsagePartial {
                    input_tokens: 0,
                    output_tokens,
                    input_complete: false,
                    output_complete: true,
                },
            );
        },
        (None, None) => {},
    }
    assert(types::stream_views(events@) =~= start + (usage_parts(usage@)->Ok_0 + usage_sums(
        usage@,
    )));
    Ok(())
}

/// The events of the text of a choice.
pub open spec fn delta_events(choice: Option<Tree>, owner: Option<ThinkingView>) -> Seq<StreamView> {
    match choice {
        Some(c) => match c.get("delta"@) {
            Some(delta) => reasoning_events(delta, owner) + details_events(delta) + content_events(
                delta,
            ) + calls_events(delta),
            None => Seq::empty(),
        },
        None => Seq::empty(),
    }
}

/// The event of the end of a choice.
pub open spec fn finish_events(choice: Option<Tree>) -> Seq<StreamView> {
    match choice {
        Some(c) => match c.text_at("finish_reason"@) {
            Some(reason) => seq![StreamView::Stopped { reason }],
            None => Seq::empty(),
        },
        None => Seq::empty(),
    }
}

/// The events of a chunk of an answer that reports no error.
pub open spec fn chunk_events(tree: Tree, owner: Option<ThinkingView>) -> Result<
    Seq<StreamView>,
    Seq<char>,
> {
    let choice = first_choice(tree);
    match usage_events(tree.get("usage"@)) {
        Ok(usage) => Ok(delta_events(choice, owner) + usage + finish_events(choice)),
        Err(words) => Err(words),
    }
}

/// Whether a chunk reports an error.
pub open spec fn reports_error(tree: Tree) -> bool {
    tree.get("error"@) matches Some(error) && !(error is Null)
}

/// Reads a chunk of an answer that reports no error.
pub fn read_chunk(value: &Json, owner: &Option<ThinkingOwner>) -> (r: Result<
    Vec<ProviderEvent>,
    ProviderError,
>)
    ensures
        (match (r, chunk_events(value@, opt_owner(*owner))) {
            (Ok(events), Ok(views)) => types::stream_views(events@) == views,
            (Err(error), Err(words)) => error@ == (ErrorView::InvalidResponse { message: words }),
            _ => false,
        }),
{
    let mut events: Vec<ProviderEvent> = Vec::new();
    assert(types::stream_views(events@) =~= Seq::empty());
    let choice = choice_of(value);
    let ghost ends = request::opt_tree(choice);
    if let Some(c) = choice {
        if let Some(delta) = c.get("delta") {
            push_reasoning(&mut events, delta, owner);
            push_details(&mut events, delta);
            push_content(&mut events, delta);
            push_calls(&mut events, delta);
        }
    }
    assert(types::stream_views(events@) =~= delta_events(ends, opt_owner(*owner)));
    let ghost first = types::stream_views(events@);
    if let Some(usage) = value.get("usage") {
        match read_usage(&mut events, usage) {
            Ok(_) => {},
            Err(error) => return Err(error),
        }
    }
    assert(usage_events(value@.get("usage"@)) is Ok);
    assert(types::stream_views(events@) =~= first + usage_events(value@.get("usage"@))->Ok_0);
    let ghost second = types::stream_views(events@);
    if let Some(c) = choice {
        if let Some(reason) = c.str_at("finish_reason") {
            events.push(ProviderEvent::Stopped { reason: reason.to_owned() });
        }
    }
    assert(types::stream_views(events@) =~= second + finish_events(ends));
    Ok(events)
}

/// Who an adapter's thinking belongs to, where it has to be handed back.
pub open spec fn thinking_of(config: ConfigView) -> Option<ThinkingView> {
    if openai::chat_thinking(config) {
        Some(ThinkingView { scope_id: config.settings.scope_id, model: config.model })
    } else {
        None
    }
}

impl OpenAiCompatibleAdapter {
    /// The events of a chunk of an answer, or the error that it reports.
    pub fn parse_event(&self, value: &Json) -> (r: Result<Vec<ProviderEvent>, ProviderError>)
        ensures
            reports_error(value@) ==> (r matches Err(error) && error@ == failures::stream_error(
                value@,
                endpoint::endpoint_secrets(self.config@.endpoint).push(
                    self.config@.settings.auth.secret(),
                ),
            )),
            !reports_error(value@) ==> (match (
                r,
                chunk_events(value@, thinking_of(self.config@)),
            ) {
                (Ok(events), Ok(views)) => types::stream_views(events@) == views,
                (Err(error), Err(words)) => error@ == (ErrorView::InvalidResponse {
                    message: words,
                }),
                _ => false,
            }),
    {
        if let Some(error) = value.get("error") {
            if !error.is_null() {
                return Err(
                    failures::stream_provider_error(
                        value,
                        self.config.endpoint.as_str(),
                        self.config.auth().secret(),
                    ),
                );
            }
        }
        let owner = if openai::uses_chat_thinking(&self.config) {
            Some(
                ThinkingOwner {
                    scope_id: self.config.response_cache_scope_id(),
                    model: self.config.model.clone(),
                },
            )
        } else {
            None
        };
        read_chunk(value, &owner)
    }
}

/// Where an answer carries reasoning, as text or as details, the events show it.
pub proof fn law_reasoning_is_never_hidden(
    tree: Tree,
    owner: Option<ThinkingView>,
    delta: Tree,
)
    requires
        first_choice(tree) is Some,
        first_choice(tree)->0.get("delta"@) == Some(delta),
        chunk_events(tree, owner) is Ok,
        some_text(accounting::either(delta, "reasoning_content"@, "reasoning"@)) is Some || (
        delta.items_at("reasoning_details"@) is Some && delta.items_at(
            "reasoning_details"@,
        )->0.len() > 0),
    ensures
        exists|i: int|
            0 <= i < chunk_events(tree, owner)->Ok_0.len() && reasoning::shows_reasoning(
                #[trigger] chunk_events(tree, owner)->Ok_0[i],
            ),
{
    let views = chunk_events(tree, owner)->Ok_0;
    let first = reasoning_events(delta, owner);
    let second = details_events(delta);
    if first.len() > 0 {
        assert(views[0] == first[0]);
        assert(reasoning::shows_reasoning(views[0]));
    } else {
        assert(second.len() > 0);
        assert(views[0] == second[0]);
        assert(reasoning::shows_reasoning(views[0]));
    }
}

} // verus!
