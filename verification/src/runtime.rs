//! What of a turn's prompt was typed and what was added to it, and which tool
//! calls of an answer must not be run.
use vstd::prelude::*;
use vstd::string::*;

use crate::provider::message;
use crate::provider::types;
use crate::provider::types::{ProviderEvent, StreamView};
use crate::text;

verus! {

/// The part of a text before the first place where `p` stands.
pub open spec fn before_first(s: Seq<char>, p: Seq<char>) -> Seq<char> {
    match text::find_from(s, p, 0) {
        Some(i) => s.take(i),
        None => s,
    }
}

fn cut_before(s: &str, p: &str) -> (r: String)
    ensures
        r@ == before_first(s@, p@),
{
    let sc = text::chars_of(s);
    let pc = text::chars_of(p);
    match text::find_at(&sc, &pc, 0) {
        Some(i) => {
            assert(s@.take(i as int) =~= s@.subrange(0, i as int));
            text::string_of(&sc, 0, i)
        },
        None => s.to_owned(),
    }
}

/// What the list of the workspace's paths begins with.
pub open spec fn snapshot_mark() -> Seq<char> {
    "\n\nWorkspace paths observed before this turn"@
}

/// What the note on the channel begins with.
pub open spec fn channel_mark() -> Seq<char> {
    "\n\nHarness channel: "@
}

/// A prompt as it was typed.
pub open spec fn typed(s: Seq<char>) -> Seq<char> {
    before_first(before_first(s, snapshot_mark()), channel_mark())
}

/// The prompt without what the session added to it: the workspace's paths and
/// the note on the channel.
pub fn without_workspace_snapshot(prompt: &str) -> (r: String)
    ensures
        r@ == typed(prompt@),
{
    let first = cut_before(prompt, "\n\nWorkspace paths observed before this turn");
    cut_before(first.as_str(), "\n\nHarness channel: ")
}

proof fn lemma_cut_is_clean(s: Seq<char>, p: Seq<char>, q: Seq<char>)
    requires
        p.len() > 0,
    ensures
        !text::contains(before_first(s, p), p),
        !text::contains(s, q) ==> !text::contains(before_first(s, p), q),
{
    text::lemma_find_from(s, p, 0);
    let r = before_first(s, p);
    assert forall|i: int| !#[trigger] text::occurs_at(r, p, i) by {
        if text::occurs_at(r, p, i) {
            assert(s.subrange(i, i + p.len()) =~= r.subrange(i, i + p.len()));
            assert(text::occurs_at(s, p, i));
        }
    }
    if !text::contains(s, q) {
        assert forall|i: int| !#[trigger] text::occurs_at(r, q, i) by {
            if text::occurs_at(r, q, i) {
                assert(s.subrange(i, i + q.len()) =~= r.subrange(i, i + q.len()));
                assert(text::occurs_at(s, q, i));
            }
        }
    }
}

/// What is left of a prompt holds nothing that the session added, so taking it
/// out once more changes nothing.
pub proof fn law_typed_prompt_is_clean(s: Seq<char>)
    ensures
        !text::contains(typed(s), snapshot_mark()),
        !text::contains(typed(s), channel_mark()),
        typed(typed(s)) == typed(s),
{
    reveal_strlit("\n\nWorkspace paths observed before this turn");
    reveal_strlit("\n\nHarness channel: ");
    let first = before_first(s, snapshot_mark());
    lemma_cut_is_clean(s, snapshot_mark(), channel_mark());
    lemma_cut_is_clean(first, channel_mark(), snapshot_mark());
    text::lemma_find_from(typed(s), snapshot_mark(), 0);
    text::lemma_find_from(typed(s), channel_mark(), 0);
}

/// The call that a piece of arguments belongs to, for an event that holds one.
pub open spec fn piece_of(event: StreamView) -> Option<Option<u32>> {
    match event {
        StreamView::ToolCallDelta { index, .. } => Some(index),
        StreamView::ToolCallInputDelta { index, .. } => Some(Some(index)),
        _ => None,
    }
}

/// The piece of arguments that an event holds.
pub open spec fn piece_text(event: StreamView) -> Seq<char> {
    match event {
        StreamView::ToolCallDelta { arguments, .. } => arguments,
        StreamView::ToolCallInputDelta { partial_json, .. } => partial_json,
        _ => Seq::empty(),
    }
}

/// The arguments of a call that came in pieces.
pub open spec fn pieced_arguments(events: Seq<StreamView>, call: Option<u32>) -> Seq<char>
    decreases events.len(),
{
    if events.len() == 0 {
        Seq::empty()
    } else if piece_of(events.last()) == Some(call) {
        pieced_arguments(events.drop_last(), call) + piece_text(events.last())
    } else {
        pieced_arguments(events.drop_last(), call)
    }
}

/// Whether what an event says of a call by itself holds a text: its id, its name,
/// or its arguments where they came whole.
pub open spec fn tells(event: StreamView, value: Seq<char>) -> bool {
    match event {
        StreamView::ToolCallDelta { id, name, .. } => (id matches Some(x) && text::contains(
            x,
            value,
        )) || (name matches Some(x) && text::contains(x, value)),
        StreamView::ToolCallStart { id, name, .. } => text::contains(id, value) || text::contains(
            name,
            value,
        ),
        StreamView::ToolCallComplete { id, name, arguments, .. } => text::contains(id, value)
            || text::contains(name, value) || text::contains(arguments, value),
        StreamView::ToolCall { name, arguments } => text::contains(name, value) || text::contains(
            arguments,
            value,
        ),
        _ => false,
    }
}

/// Whether tool calls hold a text, in one event or in the pieces of one call.
pub open spec fn calls_hold(events: Seq<StreamView>, value: Seq<char>) -> bool {
    exists|i: int|
        0 <= i < events.len() && (tells(#[trigger] events[i], value) || (piece_of(
            events[i],
        ) matches Some(call) && text::contains(pieced_arguments(events, call), value)))
}

/// Whether tool calls hold one of the secrets.
pub open spec fn calls_leak(events: Seq<StreamView>, values: Seq<Seq<char>>) -> bool {
    exists|k: int| 0 <= k < values.len() && calls_hold(events, #[trigger] values[k])
}

fn opt_has(s: &Option<String>, value: &str) -> (r: bool)
    ensures
        r == (message::opt_text(*s) matches Some(x) && text::contains(x, value@)),
{
    match s {
        Some(x) => text::has(x.as_str(), value),
        None => false,
    }
}

fn event_tells(event: &ProviderEvent, value: &str) -> (r: bool)
    ensures
        r == tells(event@, value@),
{
    match event {
        ProviderEvent::ToolCallDelta { id, name, .. } => opt_has(id, value) || opt_has(name, value),
        ProviderEvent::ToolCallStart { id, name, .. } => text::has(id.as_str(), value)
            || text::has(name.as_str(), value),
        ProviderEvent::ToolCallComplete { id, name, arguments, .. } => text::has(
            id.as_str(),
            value,
        ) || text::has(name.as_str(), value) || text::has(arguments.as_str(), value),
        ProviderEvent::ToolCall { name, arguments } => text::has(name.as_str(), value)
            || text::has(arguments.as_str(), value),
        _ => false,
    }
}

fn event_piece(event: &ProviderEvent) -> (r: Option<(Option<u32>, &str)>)
    ensures
        (match r {
            Some((call, piece)) => piece_of(event@) == Some(call) && piece@ == piece_text(event@),
            None => piece_of(event@) is None,
        }),
{
    match event {
        ProviderEvent::ToolCallDelta { index, arguments, .. } => Some(
            (*index, arguments.as_str()),
        ),
        ProviderEvent::ToolCallInputDelta { index, partial_json } => Some(
            (Some(*index), partial_json.as_str()),
        ),
        _ => None,
    }
}

fn arguments_of(events: &Vec<ProviderEvent>, call: Option<u32>) -> (r: String)
    ensures
        r@ == pieced_arguments(types::stream_views(events@), call),
{
    let ghost all = types::stream_views(events@);
    let mut out = String::new();
    let mut i: usize = 0;
    assert(out@ =~= pieced_arguments(all.take(0), call));
    while i < events.len()
        invariant
            i <= events.len(),
            all == types::stream_views(events@),
            out@ == pieced_arguments(all.take(i as int), call),
        decreases events.len() - i,
    {
        assert(all.take(i + 1).drop_last() =~= all.take(i as int));
        assert(all.take(i + 1).last() == events@[i as int]@);
        if let Some((of, piece)) = event_piece(&events[i]) {
            if of == call {
                out.append(piece);
            }
        }
        i += 1;
    }
    assert(all.take(all.len() as int) =~= all);
    out
}

fn is_among(calls: &Vec<Option<u32>>, call: Option<u32>) -> (r: bool)
    ensures
        r == calls@.contains(call),
{
    let mut i: usize = 0;
    while i < calls.len()
        invariant
            i <= calls.len(),
            forall|j: int| 0 <= j < i ==> calls@[j] != call,
        decreases calls.len() - i,
    {
        if calls[i] == call {
            assert(calls@[i as int] == call);
            return true;
        }
        i += 1;
    }
    false
}

fn calls_hold_text(events: &Vec<ProviderEvent>, value: &str) -> (r: bool)
    ensures
        r == calls_hold(types::stream_views(events@), value@),
{
    let ghost all = types::stream_views(events@);
    let mut read: Vec<Option<u32>> = Vec::new();
    let mut i: usize = 0;
    while i < events.len()
        invariant
            i <= events.len(),
            all == types::stream_views(events@),
            forall|c: Option<u32>| #[trigger]
                read@.contains(c) ==> !text::contains(pieced_arguments(all, c), value@),
            forall|j: int|
                0 <= j < i ==> !tells(#[trigger] all[j], value@) && (piece_of(
                    all[j],
                ) matches Some(call) ==> !text::contains(pieced_arguments(all, call), value@)),
        decreases events.len() - i,
    {
        assert(all[i as int] == events@[i as int]@);
        if event_tells(&events[i], value) {
            return true;
        }
        if let Some((call, _)) = event_piece(&events[i]) {
            if !is_among(&read, call) {
                let whole = arguments_of(events, call);
                if text::has(whole.as_str(), value) {
                    return true;
                }
                let ghost before = read@;
                read.push(call);
                assert forall|c: Option<u32>| #[trigger] read@.contains(c) implies !text::contains(
                    pieced_arguments(all, c),
                    value@,
                ) by {
                    let at = choose|at: int| 0 <= at < read@.len() && read@[at] == c;
                    if at < before.len() {
                        assert(before[at] == c);
                        assert(before.contains(c));
                    }
                }
            }
        }
        i += 1;
    }
    false
}

/// Whether tool calls hold one of the secrets, in one event or in the pieces of
/// one call.
pub fn tool_events_contain_sensitive_values(
    events: &Vec<ProviderEvent>,
    sensitive_values: &Vec<String>,
) -> (r: bool)
    ensures
        r == calls_leak(types::stream_views(events@), text::texts(sensitive_values@)),
{
    let ghost values = text::texts(sensitive_values@);
    let mut k: usize = 0;
    while k < sensitive_values.len()
        invariant
            k <= sensitive_values.len(),
            values == text::texts(sensitive_values@),
            forall|j: int|
                0 <= j < k ==> !calls_hold(types::stream_views(events@), #[trigger] values[j]),
        decreases sensitive_values.len() - k,
    {
        assert(values[k as int] == sensitive_values@[k as int]@);
        if calls_hold_text(events, sensitive_values[k].as_str()) {
            return true;
        }
        k += 1;
    }
    false
}

} // verus!
