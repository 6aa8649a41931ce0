//! What the events of an answer say, held against the JSON that was sent: no text,
//! no argument, no usage and no end is lost, doubled or made up.
use vstd::prelude::*;
use vstd::string::*;

use crate::json;
use crate::json::Tree;
use crate::provider::anthropic_stream;
use crate::provider::openai_stream;
use crate::provider::openai_stream::ThinkingView;
use crate::provider::types::StreamView;
use crate::text;

verus! {

/// What events say one after the other, each by what it says itself.
pub open spec fn gathered<A>(events: Seq<StreamView>, said: spec_fn(StreamView) -> Seq<A>) -> Seq<
    A,
>
    decreases events.len(),
{
    if events.len() == 0 {
        Seq::empty()
    } else {
        gathered(events.drop_last(), said) + said(events.last())
    }
}

/// The text of an event for the user.
pub open spec fn text_said() -> spec_fn(StreamView) -> Seq<char> {
    |e: StreamView|
        match e {
            StreamView::TextDelta(s) => s,
            _ => Seq::empty(),
        }
}

/// The reasoning of an event.
pub open spec fn reasoning_said() -> spec_fn(StreamView) -> Seq<char> {
    |e: StreamView|
        match e {
            StreamView::ReasoningDelta(s) => s,
            _ => Seq::empty(),
        }
}

/// The arguments that an event adds to the block with a number.
pub open spec fn input_said(index: u32) -> spec_fn(StreamView) -> Seq<char> {
    |e: StreamView|
        match e {
            StreamView::ToolCallInputDelta { index: i, partial_json } => if i == index {
                partial_json
            } else {
                Seq::empty()
            },
            _ => Seq::empty(),
        }
}

/// The arguments that an event adds to the call with a number.
pub open spec fn arguments_said(index: u32) -> spec_fn(StreamView) -> Seq<char> {
    |e: StreamView|
        match e {
            StreamView::ToolCallDelta { index: Some(i), arguments, .. } => if i == index {
                arguments
            } else {
                Seq::empty()
            },
            _ => Seq::empty(),
        }
}

/// The calls that an event starts, by number, id and name.
pub open spec fn starts_said() -> spec_fn(StreamView) -> Seq<(u32, Seq<char>, Seq<char>)> {
    |e: StreamView|
        match e {
            StreamView::ToolCallStart { index, id, name } => seq![(index, id, name)],
            _ => Seq::empty(),
        }
}

/// The reasons for which an event ends the answer.
pub open spec fn ends_said() -> spec_fn(StreamView) -> Seq<Seq<char>> {
    |e: StreamView|
        match e {
            StreamView::Stopped { reason } => seq![reason],
            _ => Seq::empty(),
        }
}

/// The input tokens that an event reports as complete.
pub open spec fn input_tokens_said() -> spec_fn(StreamView) -> Seq<u64> {
    |e: StreamView|
        match e {
            StreamView::UsagePartial { input_tokens, input_complete, .. } => if input_complete {
                seq![input_tokens]
            } else {
                Seq::empty()
            },
            _ => Seq::empty(),
        }
}

/// The output tokens that an event reports as complete.
pub open spec fn output_tokens_said() -> spec_fn(StreamView) -> Seq<u64> {
    |e: StreamView|
        match e {
            StreamView::UsagePartial { output_tokens, output_complete, .. } => if output_complete {
                seq![output_tokens]
            } else {
                Seq::empty()
            },
            _ => Seq::empty(),
        }
}

/// The sums of input and output that an event reports.
pub open spec fn sums_said() -> spec_fn(StreamView) -> Seq<(u64, u64)> {
    |e: StreamView|
        match e {
            StreamView::Usage { input_tokens, output_tokens } => seq![
                (input_tokens, output_tokens),
            ],
            _ => Seq::empty(),
        }
}

/// The blocks that an event ends.
pub open spec fn block_ends_said() -> spec_fn(StreamView) -> Seq<u32> {
    |e: StreamView|
        match e {
            StreamView::ContentBlockStop { index } => seq![index],
            _ => Seq::empty(),
        }
}

proof fn lemma_gathered_add<A>(
    a: Seq<StreamView>,
    b: Seq<StreamView>,
    said: spec_fn(StreamView) -> Seq<A>,
)
    ensures
        gathered(a + b, said) == gathered(a, said) + gathered(b, said),
    decreases b.len(),
{
    if b.len() == 0 {
        assert(a + b =~= a);
        assert(gathered(a, said) + gathered(b, said) =~= gathered(a, said));
    } else {
        lemma_gathered_add(a, b.drop_last(), said);
        assert((a + b).drop_last() =~= a + b.drop_last());
        assert((a + b).last() == b.last());
        assert(gathered(a + b, said) =~= gathered(a, said) + gathered(b, said));
    }
}

proof fn lemma_gathered_none<A>(said: spec_fn(StreamView) -> Seq<A>)
    ensures
        gathered(Seq::<StreamView>::empty(), said) == Seq::<A>::empty(),
{
}

proof fn lemma_gathered_one<A>(e: StreamView, said: spec_fn(StreamView) -> Seq<A>)
    ensures
        gathered(seq![e], said) == said(e),
{
    let one = seq![e];
    assert(one.drop_last() =~= Seq::empty());
    assert(gathered(one.drop_last(), said) =~= Seq::empty());
    assert(gathered(one, said) =~= said(e));
}

proof fn lemma_gathered_two<A>(
    a: StreamView,
    b: StreamView,
    said: spec_fn(StreamView) -> Seq<A>,
)
    ensures
        gathered(seq![a, b], said) == said(a) + said(b),
{
    lemma_gathered_add(seq![a], seq![b], said);
    lemma_gathered_one(a, said);
    lemma_gathered_one(b, said);
    assert(seq![a] + seq![b] =~= seq![a, b]);
}

/// A text or nothing.
pub open spec fn or_nothing(s: Option<Seq<char>>) -> Seq<char> {
    match s {
        Some(t) => t,
        None => Seq::empty(),
    }
}

/// The delta that an event of the messages format adds to a block; nothing where it
/// is no such event.
pub open spec fn sent_delta(tree: Tree) -> Option<Tree> {
    if tree.text_at("type"@) == Some("content_block_delta"@) {
        tree.get("delta"@)
    } else {
        None
    }
}

/// The text that a delta has under a key.
pub open spec fn sent_text(delta: Option<Tree>, key: Seq<char>) -> Seq<char> {
    match delta {
        Some(d) => or_nothing(d.text_at(key)),
        None => Seq::empty(),
    }
}

/// The arguments that an event of the messages format sends for a block: the text
/// under `partial_json`, or, where there is no such key, the one a level deeper.
pub open spec fn sent_input(tree: Tree, index: u32) -> Seq<char> {
    match sent_delta(tree) {
        Some(delta) => if tree.unsigned_at("index"@) != Some(index as u64) {
            Seq::empty()
        } else if delta.get("partial_json"@) is Some {
            or_nothing(delta.text_at("partial_json"@))
        } else {
            match delta.get("input_json_delta"@) {
                Some(inner) => or_nothing(inner.text_at("partial_json"@)),
                None => Seq::empty(),
            }
        },
        None => Seq::empty(),
    }
}

/// Every event says its own part and no other.
proof fn lemma_messages_delta(tree: Tree, index: u32)
    requires
        anthropic_stream::wire_events(tree) is Ok,
        tree.text_at("type"@) == Some("content_block_delta"@),
        tree.get("delta"@) is Some,
    ensures
        ({
            let events = anthropic_stream::wire_events(tree)->Ok_0;
            let delta = tree.get("delta"@);
            &&& gathered(events, text_said()) == sent_text(delta, "text"@)
            &&& gathered(events, reasoning_said()) == sent_text(delta, "thinking"@)
            &&& gathered(events, input_said(index)) == sent_input(tree, index)
            &&& gathered(events, starts_said()).len() == 0
            &&& gathered(events, ends_said()).len() == 0
            &&& gathered(events, block_ends_said()).len() == 0
        }),
{
    lemma_kinds_differ();
    let events = anthropic_stream::wire_events(tree)->Ok_0;
    let delta = tree.get("delta"@)->0;
    let at = anthropic_stream::block_index(tree)->0;
    let a: Seq<StreamView> = match delta.text_at("text"@) {
        Some(s) => seq![StreamView::TextDelta(s)],
        None => Seq::empty(),
    };
    let b: Seq<StreamView> = match delta.text_at("thinking"@) {
        Some(s) => seq![StreamView::ReasoningDelta(s)],
        None => Seq::empty(),
    };
    let c: Seq<StreamView> = match anthropic_stream::fragment(delta) {
        Some(Tree::Text(s)) => seq![StreamView::ToolCallInputDelta { index: at, partial_json: s }],
        _ => Seq::empty(),
    };
    assert(events =~= a + b + c);
    lemma_three(a, b, c, text_said());
    lemma_three(a, b, c, reasoning_said());
    lemma_three(a, b, c, input_said(index));
    lemma_three(a, b, c, starts_said());
    lemma_three(a, b, c, ends_said());
    lemma_three(a, b, c, block_ends_said());
    assert(gathered(events, text_said()) =~= sent_text(Some(delta), "text"@));
    assert(gathered(events, reasoning_said()) =~= sent_text(Some(delta), "thinking"@));
    assert(gathered(events, input_said(index)) =~= sent_input(tree, index));
}

/// Three parts of one event at most.
proof fn lemma_three<A>(
    a: Seq<StreamView>,
    b: Seq<StreamView>,
    c: Seq<StreamView>,
    said: spec_fn(StreamView) -> Seq<A>,
)
    requires
        a.len() <= 1,
        b.len() <= 1,
        c.len() <= 1,
    ensures
        gathered(a + b + c, said) == (if a.len() == 1 {
            said(a[0])
        } else {
            Seq::empty()
        }) + (if b.len() == 1 {
            said(b[0])
        } else {
            Seq::empty()
        }) + (if c.len() == 1 {
            said(c[0])
        } else {
            Seq::empty()
        }),
{
    lemma_gathered_add(a + b, c, said);
    lemma_gathered_add(a, b, said);
    if a.len() == 1 {
        lemma_gathered_one(a[0], said);
        assert(a =~= seq![a[0]]);
    }
    if b.len() == 1 {
        lemma_gathered_one(b[0], said);
        assert(b =~= seq![b[0]]);
    }
    if c.len() == 1 {
        lemma_gathered_one(c[0], said);
        assert(c =~= seq![c[0]]);
    }
}

proof fn lemma_kinds_differ()
    ensures
        "message_start"@ != "content_block_start"@,
        "message_start"@ != "content_block_delta"@,
        "message_start"@ != "content_block_stop"@,
        "message_start"@ != "message_delta"@,
        "content_block_start"@ != "content_block_delta"@,
        "content_block_start"@ != "content_block_stop"@,
        "content_block_start"@ != "message_delta"@,
        "content_block_delta"@ != "content_block_stop"@,
        "content_block_delta"@ != "message_delta"@,
        "content_block_stop"@ != "message_delta"@,
{
    reveal_strlit("message_start");
    reveal_strlit("content_block_start");
    reveal_strlit("content_block_delta");
    reveal_strlit("content_block_stop");
    reveal_strlit("message_delta");
    assert("message_start"@[8] != "message_delta"@[8]);
    assert("content_block_start"@[14] != "content_block_delta"@[14]);
    assert("content_block_start"@.len() != "content_block_stop"@.len());
    assert("content_block_delta"@.len() != "content_block_stop"@.len());
    assert("message_start"@[0] != "content_block_stop"@[0]);
    assert("message_delta"@[0] != "content_block_stop"@[0]);
}

/// An event of the messages format that adds to a block is passed on with all its
/// text, all its thinking and all its arguments, each under its block, and with
/// nothing else. One event that adds arguments makes exactly one event.
pub proof fn law_block_deltas_are_passed_on(tree: Tree, index: u32)
    requires
        tree.text_at("type"@) == Some("content_block_delta"@),
        tree.unsigned_at("index"@) matches Some(n) && n <= u32::MAX,
    ensures
        anthropic_stream::wire_events(tree) matches Ok(events) && {
            let delta = tree.get("delta"@);
            &&& gathered(events, text_said()) == sent_text(delta, "text"@)
            &&& gathered(events, reasoning_said()) == sent_text(delta, "thinking"@)
            &&& gathered(events, input_said(index)) == sent_input(tree, index)
            &&& gathered(events, starts_said()).len() == 0
            &&& gathered(events, ends_said()).len() == 0
            &&& events.len() <= 3
            &&& delta matches Some(d) ==> {
                &&& d.text_at("text"@) matches Some(s) ==> events.contains(
                    StreamView::TextDelta(s),
                )
                &&& d.text_at("thinking"@) matches Some(s) ==> events.contains(
                    StreamView::ReasoningDelta(s),
                )
                &&& d.text_at("partial_json"@) matches Some(s) ==> exists|k: int|
                    0 <= k < events.len() && #[trigger] events[k]
                        == (StreamView::ToolCallInputDelta {
                        index: tree.unsigned_at("index"@)->0 as u32,
                        partial_json: s,
                    }) && forall|j: int|
                        0 <= j < events.len() && j != k ==> !(#[trigger] events[j]
                            is ToolCallInputDelta)
            }
        },
{
    lemma_kinds_differ();
    let events = anthropic_stream::wire_events(tree)->Ok_0;
    if tree.get("delta"@) is Some {
        lemma_messages_delta(tree, index);
        let d = tree.get("delta"@)->0;
        let at = tree.unsigned_at("index"@)->0 as u32;
        if let Some(s) = d.text_at("text"@) {
            assert(events[0] == StreamView::TextDelta(s));
        }
        if let Some(s) = d.text_at("thinking"@) {
            let k: int = if d.text_at("text"@) is Some {
                1
            } else {
                0
            };
            assert(events[k] == StreamView::ReasoningDelta(s));
        }
        if let Some(s) = d.text_at("partial_json"@) {
            let k = events.len() - 1;
            assert(events[k] == StreamView::ToolCallInputDelta { index: at, partial_json: s });
        }
    } else {
        lemma_gathered_none(text_said());
        lemma_gathered_none(reasoning_said());
        lemma_gathered_none(input_said(index));
        lemma_gathered_none(starts_said());
        lemma_gathered_none(ends_said());
    }
}

/// The texts of a stream of JSON, one behind the other.
pub open spec fn all_sent(trees: Seq<Tree>, sent: spec_fn(Tree) -> Seq<char>) -> Seq<char>
    decreases trees.len(),
{
    if trees.len() == 0 {
        Seq::empty()
    } else {
        all_sent(trees.drop_last(), sent) + sent(trees.last())
    }
}

/// The events of a stream of JSON in the messages format that has no fault.
pub open spec fn all_events(trees: Seq<Tree>) -> Seq<StreamView>
    decreases trees.len(),
{
    if trees.len() == 0 {
        Seq::empty()
    } else {
        all_events(trees.drop_last()) + anthropic_stream::wire_events(trees.last())->Ok_0
    }
}

/// What an event of the messages format that is no delta leaves unsaid.
proof fn lemma_messages_other(tree: Tree, index: u32)
    requires
        anthropic_stream::wire_events(tree) is Ok,
        sent_delta(tree) is None,
    ensures
        ({
            let events = anthropic_stream::wire_events(tree)->Ok_0;
            &&& gathered(events, text_said()).len() == 0
            &&& gathered(events, reasoning_said()).len() == 0
            &&& gathered(events, input_said(index)).len() == 0
        }),
{
    lemma_kinds_differ();
    let events = anthropic_stream::wire_events(tree)->Ok_0;
    assert forall|i: int| 0 <= i < events.len() implies !(#[trigger] events[i] is TextDelta)
        && !(events[i] is ReasoningDelta) && !(events[i] is ToolCallInputDelta) by {}
    lemma_gathered_silent(events, text_said());
    lemma_gathered_silent(events, reasoning_said());
    lemma_gathered_silent(events, input_said(index));
}

proof fn lemma_gathered_silent<A>(events: Seq<StreamView>, said: spec_fn(StreamView) -> Seq<A>)
    requires
        forall|i: int| 0 <= i < events.len() ==> said(#[trigger] events[i]).len() == 0,
    ensures
        gathered(events, said).len() == 0,
    decreases events.len(),
{
    if events.len() > 0 {
        let front = events.drop_last();
        assert forall|i: int| 0 <= i < front.len() implies said(#[trigger] front[i]).len() == 0 by {
            assert(front[i] == events[i]);
        }
        lemma_gathered_silent(front, said);
        assert(said(events[events.len() - 1]).len() == 0);
    }
}

/// A whole stream in the messages format is heard as it was sent: the text is that of
/// all its deltas, and so are the thinking and the arguments of each block.
pub proof fn law_a_messages_stream_is_heard_as_sent(trees: Seq<Tree>, index: u32)
    requires
        forall|i: int|
            0 <= i < trees.len() ==> anthropic_stream::wire_events(#[trigger] trees[i]) is Ok,
    ensures
        gathered(all_events(trees), text_said()) == all_sent(
            trees,
            |t: Tree| sent_text(sent_delta(t), "text"@),
        ),
        gathered(all_events(trees), reasoning_said()) == all_sent(
            trees,
            |t: Tree| sent_text(sent_delta(t), "thinking"@),
        ),
        gathered(all_events(trees), input_said(index)) == all_sent(
            trees,
            |t: Tree| sent_input(t, index),
        ),
    decreases trees.len(),
{
    if trees.len() > 0 {
        let front = trees.drop_last();
        let tree = trees.last();
        assert forall|i: int| 0 <= i < front.len() implies anthropic_stream::wire_events(
            #[trigger] front[i],
        ) is Ok by {
            assert(front[i] == trees[i]);
        }
        assert(trees[trees.len() - 1] == tree);
        law_a_messages_stream_is_heard_as_sent(front, index);
        let more = anthropic_stream::wire_events(tree)->Ok_0;
        lemma_gathered_add(all_events(front), more, text_said());
        lemma_gathered_add(all_events(front), more, reasoning_said());
        lemma_gathered_add(all_events(front), more, input_said(index));
        if sent_delta(tree) is Some {
            lemma_messages_delta(tree, index);
        } else {
            lemma_messages_other(tree, index);
            assert(gathered(more, text_said()) =~= Seq::empty());
            assert(gathered(more, reasoning_said()) =~= Seq::empty());
            assert(gathered(more, input_said(index)) =~= Seq::empty());
        }
    } else {
        lemma_gathered_none(text_said());
        lemma_gathered_none(reasoning_said());
        lemma_gathered_none(input_said(index));
    }
}

/// A block of the messages format that starts a tool call is passed on under its
/// number, with the id and the name that were sent; where its input can be read, the
/// call is passed on with it.
pub proof fn law_tool_blocks_start_their_call(tree: Tree, block: Tree, n: u64)
    requires
        tree.text_at("type"@) == Some("content_block_start"@),
        tree.get("content_block"@) == Some(block),
        block.text_at("type"@) == Some("tool_use"@),
        tree.unsigned_at("index"@) == Some(n),
        n <= u32::MAX,
    ensures
        anthropic_stream::wire_events(tree) matches Ok(events) && {
            &&& gathered(events, starts_said()) == seq![
                (n as u32, or_nothing(block.text_at("id"@)), or_nothing(block.text_at("name"@))),
            ]
            &&& events.len() <= 2
            &&& block.get("input"@) matches Some(input) ==> (json::parsed(json::json_text(input))
                is Ok ==> events.contains(
                StreamView::ToolCall {
                    name: or_nothing(block.text_at("name"@)),
                    arguments: json::json_text(input),
                },
            ))
        },
{
    lemma_kinds_differ();
    let events = anthropic_stream::wire_events(tree)->Ok_0;
    let first = events[0];
    if events.len() == 1 {
        lemma_gathered_one(first, starts_said());
        assert(events =~= seq![first]);
    } else {
        lemma_gathered_two(first, events[1], starts_said());
        assert(events =~= seq![first, events[1]]);
    }
    assert(gathered(events, starts_said()) =~= seq![
        (n as u32, or_nothing(block.text_at("id"@)), or_nothing(block.text_at("name"@))),
    ]);
    if let Some(input) = block.get("input"@) {
        if json::parsed(json::json_text(input)) is Ok {
            assert(events[1] == StreamView::ToolCall {
                name: or_nothing(block.text_at("name"@)),
                arguments: json::json_text(input),
            });
        }
    }
}

/// The end of a block is passed on under its number, and no other event ends one.
pub proof fn law_block_ends_are_passed_on(tree: Tree, n: u64)
    requires
        tree.text_at("type"@) == Some("content_block_stop"@),
        tree.unsigned_at("index"@) == Some(n),
        n <= u32::MAX,
    ensures
        anthropic_stream::wire_events(tree) == Ok::<
            Seq<StreamView>,
            crate::provider::types::ErrorView,
        >(seq![StreamView::ContentBlockStop { index: n as u32 }]),
{
    lemma_kinds_differ();
}

/// The start of an answer tells its whole input: what was not cached, what went into
/// the cache and what came out of it. A sum past 64 bits is refused.
pub proof fn law_input_usage_is_told(tree: Tree, usage: Tree, direct: u64)
    requires
        tree.text_at("type"@) == Some("message_start"@),
        json::under(tree, "message"@, "usage"@) == Some(usage),
        usage.unsigned_at("input_tokens"@) == Some(direct),
    ensures
        ({
            let written = match usage.unsigned_at("cache_creation_input_tokens"@) {
                Some(n) => n,
                None => 0,
            };
            let read = match usage.unsigned_at("cache_read_input_tokens"@) {
                Some(n) => n,
                None => 0,
            };
            if direct + written + read > u64::MAX {
                anthropic_stream::wire_events(tree) is Err
            } else {
                anthropic_stream::wire_events(tree) matches Ok(events) && {
                    &&& gathered(events, input_tokens_said()) == seq![
                        (direct + written + read) as u64,
                    ]
                    &&& gathered(events, output_tokens_said()).len() == 0
                    &&& exists|k: int|
                        0 <= k < events.len() && (#[trigger] events[k]
                            matches StreamView::UsageBreakdown { usage: parts }
                            && parts.uncached_input_tokens == direct && parts.cache_write_tokens
                            == written && parts.cache_read_tokens == read && parts.output_tokens
                            == 0 && !parts.usage_unknown)
                }
            }
        }),
{
    lemma_kinds_differ();
    if let Ok(events) = anthropic_stream::wire_events(tree) {
        let a = events[0];
        let b = events[1];
        lemma_gathered_two(a, b, input_tokens_said());
        lemma_gathered_two(a, b, output_tokens_said());
        assert(events =~= seq![a, b]);
        assert(gathered(events, input_tokens_said()) =~= input_tokens_said()(b));
        assert(gathered(events, output_tokens_said()) =~= Seq::empty());
        assert(a is UsageBreakdown);
    }
}

/// The end of an answer tells its output tokens and the reason for which it stopped,
/// each where it was sent and only there.
pub proof fn law_the_end_of_a_message_is_told(tree: Tree)
    requires
        tree.text_at("type"@) == Some("message_delta"@),
    ensures
        anthropic_stream::wire_events(tree) matches Ok(events) && {
            &&& gathered(events, ends_said()) == (match tree.get("delta"@) {
                Some(delta) => match delta.text_at("stop_reason"@) {
                    Some(reason) => seq![reason],
                    None => Seq::empty(),
                },
                None => Seq::empty(),
            })
            &&& gathered(events, output_tokens_said()) == (match tree.get("usage"@) {
                Some(usage) => match usage.unsigned_at("output_tokens"@) {
                    Some(n) => seq![n],
                    None => Seq::empty(),
                },
                None => Seq::empty(),
            })
            &&& gathered(events, input_tokens_said()).len() == 0
        },
{
    lemma_kinds_differ();
    let events = anthropic_stream::wire_events(tree)->Ok_0;
    let first = anthropic_stream::end_usage(tree);
    let second = events.skip(first.len() as int);
    assert(events =~= first + second);
    lemma_gathered_add(first, second, ends_said());
    lemma_gathered_add(first, second, output_tokens_said());
    lemma_gathered_add(first, second, input_tokens_said());
    if first.len() == 2 {
        lemma_gathered_two(first[0], first[1], ends_said());
        lemma_gathered_two(first[0], first[1], output_tokens_said());
        lemma_gathered_two(first[0], first[1], input_tokens_said());
        assert(first =~= seq![first[0], first[1]]);
    }
    if second.len() == 2 {
        lemma_gathered_two(second[0], second[1], ends_said());
        lemma_gathered_two(second[0], second[1], output_tokens_said());
        lemma_gathered_two(second[0], second[1], input_tokens_said());
        assert(second =~= seq![second[0], second[1]]);
    }
    assert(gathered(events, ends_said()) =~= (match tree.get("delta"@) {
        Some(delta) => match delta.text_at("stop_reason"@) {
            Some(reason) => seq![reason],
            None => Seq::empty(),
        },
        None => Seq::empty(),
    }));
    assert(gathered(events, output_tokens_said()) =~= (match tree.get("usage"@) {
        Some(usage) => match usage.unsigned_at("output_tokens"@) {
            Some(n) => seq![n],
            None => Seq::empty(),
        },
        None => Seq::empty(),
    }));
    assert(gathered(events, input_tokens_said()) =~= Seq::empty());
}

/// The delta of the first choice of a chunk.
pub open spec fn chunk_delta(tree: Tree) -> Option<Tree> {
    match tree.items_at("choices"@) {
        Some(choices) => if choices.len() > 0 {
            choices[0].get("delta"@)
        } else {
            None
        },
        None => None,
    }
}

/// The reason for which the first choice of a chunk ends.
pub open spec fn chunk_end(tree: Tree) -> Option<Seq<char>> {
    match tree.items_at("choices"@) {
        Some(choices) => if choices.len() > 0 {
            choices[0].text_at("finish_reason"@)
        } else {
            None
        },
        None => None,
    }
}

/// The reasoning that a delta sends as text, under one of two keys.
pub open spec fn sent_reasoning(delta: Tree) -> Seq<char> {
    if delta.get("reasoning_content"@) is Some {
        or_nothing(delta.text_at("reasoning_content"@))
    } else {
        or_nothing(delta.text_at("reasoning"@))
    }
}

/// The reasoning that a delta sends as details, one behind the other.
pub open spec fn sent_details(details: Seq<Tree>) -> Seq<char>
    decreases details.len(),
{
    if details.len() == 0 {
        Seq::empty()
    } else {
        let detail = details.last();
        sent_details(details.drop_last()) + if detail.get("text"@) is Some {
            or_nothing(detail.text_at("text"@))
        } else {
            or_nothing(detail.text_at("summary"@))
        }
    }
}

/// All reasoning of a chunk.
pub open spec fn chunk_reasoning(delta: Option<Tree>) -> Seq<char> {
    match delta {
        Some(d) => sent_reasoning(d) + match d.items_at("reasoning_details"@) {
            Some(details) => sent_details(details),
            None => Seq::empty(),
        },
        None => Seq::empty(),
    }
}

/// The pieces of tool calls that a delta sends.
pub open spec fn sent_calls(delta: Option<Tree>) -> Seq<Tree> {
    match delta {
        Some(d) => match d.items_at("tool_calls"@) {
            Some(calls) => calls,
            None => Seq::empty(),
        },
        None => Seq::empty(),
    }
}

/// Whether a piece belongs to the call with a number and makes sense: its id is a
/// text or left out, its type is left out or a function, and its function is an object.
pub open spec fn piece_of(call: Tree, index: u32) -> bool {
    &&& call is Object
    &&& call.unsigned_at("index"@) == Some(index as u64)
    &&& call.get("id"@) matches Some(id) ==> id is Null || id is Text
    &&& call.get("type"@) matches Some(kind) ==> kind is Null || kind == Tree::Text(
        "function"@,
    ) || kind == Tree::Text(Seq::empty())
    &&& call.get("function"@) matches Some(function) && function is Object
}

/// The arguments that a piece sends, as text.
pub open spec fn piece_arguments(call: Tree) -> Seq<char> {
    match call.get("function"@) {
        Some(function) => match function.get("arguments"@) {
            Some(Tree::Text(s)) => s,
            Some(Tree::Null) => Seq::empty(),
            Some(other) => json::json_text(other),
            None => Seq::empty(),
        },
        None => Seq::empty(),
    }
}

/// The name that a piece sends, without white space around it.
pub open spec fn piece_name(call: Tree) -> Option<Seq<char>> {
    match call.get("function"@) {
        Some(function) => match function.text_at("name"@) {
            Some(name) => if text::trim(name).len() > 0 {
                Some(text::trim(name))
            } else {
                None
            },
            None => None,
        },
        None => None,
    }
}

/// The arguments that pieces send for the call with a number, one behind the other.
pub open spec fn sent_arguments(calls: Seq<Tree>, index: u32) -> Seq<char>
    decreases calls.len(),
{
    if calls.len() == 0 {
        Seq::empty()
    } else {
        sent_arguments(calls.drop_last(), index) + if piece_of(calls.last(), index) {
            piece_arguments(calls.last())
        } else {
            Seq::empty()
        }
    }
}

proof fn lemma_details(details: Seq<Tree>)
    ensures
        openai_stream::details_text(details) == sent_details(details),
    decreases details.len(),
{
    if details.len() > 0 {
        lemma_details(details.drop_last());
    }
}

proof fn lemma_piece(call: Tree, index: u32)
    ensures
        ({
            let events = openai_stream::piece_events(openai_stream::tool_piece(call));
            &&& gathered(events, arguments_said(index)) == if piece_of(call, index) {
                piece_arguments(call)
            } else {
                Seq::empty()
            }
            &&& piece_of(call, index) ==> events == seq![
                StreamView::ToolCallDelta {
                    index: Some(index),
                    id: call.text_at("id"@),
                    name: piece_name(call),
                    arguments: piece_arguments(call),
                },
            ]
            &&& gathered(events, text_said()).len() == 0
            &&& gathered(events, reasoning_said()).len() == 0
            &&& gathered(events, ends_said()).len() == 0
            &&& gathered(events, sums_said()).len() == 0
        }),
{
    let piece = openai_stream::tool_piece(call);
    let events = openai_stream::piece_events(piece);
    if let Some(Tree::Text(kind)) = call.get("type"@) {
        if kind.len() == 0 {
            assert(kind =~= Seq::empty());
        }
    }
    assert forall|i: int| 0 <= i < events.len() implies (#[trigger] events[i] is ToolCallDelta
        || events[i] is ToolCall) by {}
    lemma_gathered_silent(events, text_said());
    lemma_gathered_silent(events, reasoning_said());
    lemma_gathered_silent(events, ends_said());
    lemma_gathered_silent(events, sums_said());
    let a: Seq<StreamView> = match piece.event {
        Some(e) => seq![e],
        None => Seq::empty(),
    };
    let b = events.skip(a.len() as int);
    assert(events =~= a + b);
    lemma_gathered_add(a, b, arguments_said(index));
    assert forall|i: int| 0 <= i < b.len() implies #[trigger] b[i] is ToolCall by {}
    lemma_gathered_silent(b, arguments_said(index));
    assert(gathered(b, arguments_said(index)) =~= Seq::empty());
    if a.len() == 1 {
        lemma_gathered_one(a[0], arguments_said(index));
    } else {
        lemma_gathered_none(arguments_said(index));
    }
    if piece_of(call, index) {
        assert(piece.loose is None);
        assert(events =~= seq![
            StreamView::ToolCallDelta {
                index: Some(index),
                id: call.text_at("id"@),
                name: piece_name(call),
                arguments: piece_arguments(call),
            },
        ]);
    }
    assert(gathered(events, arguments_said(index)) =~= if piece_of(call, index) {
        piece_arguments(call)
    } else {
        Seq::empty()
    });
}

proof fn lemma_pieces(calls: Seq<Tree>, index: u32)
    ensures
        ({
            let events = openai_stream::pieces_events(calls);
            &&& gathered(events, arguments_said(index)) == sent_arguments(calls, index)
            &&& gathered(events, text_said()).len() == 0
            &&& gathered(events, reasoning_said()).len() == 0
            &&& gathered(events, ends_said()).len() == 0
            &&& gathered(events, sums_said()).len() == 0
        }),
    decreases calls.len(),
{
    if calls.len() > 0 {
        let front = openai_stream::pieces_events(calls.drop_last());
        let more = openai_stream::piece_events(openai_stream::tool_piece(calls.last()));
        lemma_pieces(calls.drop_last(), index);
        lemma_piece(calls.last(), index);
        lemma_gathered_add(front, more, arguments_said(index));
        lemma_gathered_add(front, more, text_said());
        lemma_gathered_add(front, more, reasoning_said());
        lemma_gathered_add(front, more, ends_said());
        lemma_gathered_add(front, more, sums_said());
    } else {
        lemma_gathered_none(arguments_said(index));
        lemma_gathered_none(text_said());
        lemma_gathered_none(reasoning_said());
        lemma_gathered_none(ends_said());
        lemma_gathered_none(sums_said());
    }
}

proof fn lemma_piece_is_there(calls: Seq<Tree>, k: int, index: u32)
    requires
        0 <= k < calls.len(),
        piece_of(calls[k], index),
    ensures
        openai_stream::pieces_events(calls).contains(
            StreamView::ToolCallDelta {
                index: Some(index),
                id: calls[k].text_at("id"@),
                name: piece_name(calls[k]),
                arguments: piece_arguments(calls[k]),
            },
        ),
    decreases calls.len(),
{
    let events = openai_stream::pieces_events(calls);
    let front = openai_stream::pieces_events(calls.drop_last());
    let event = StreamView::ToolCallDelta {
        index: Some(index),
        id: calls[k].text_at("id"@),
        name: piece_name(calls[k]),
        arguments: piece_arguments(calls[k]),
    };
    if k == calls.len() - 1 {
        lemma_piece(calls[k], index);
        assert(events[front.len() as int] == event);
    } else {
        lemma_piece_is_there(calls.drop_last(), k, index);
        let j = choose|j: int| 0 <= j < front.len() && front[j] == event;
        assert(events[j] == event);
    }
}

/// The events of the usage of an answer say nothing else.
proof fn lemma_usage_silent(usage: Option<Tree>, index: u32)
    requires
        openai_stream::usage_events(usage) is Ok,
    ensures
        ({
            let events = openai_stream::usage_events(usage)->Ok_0;
            &&& gathered(events, text_said()).len() == 0
            &&& gathered(events, reasoning_said()).len() == 0
            &&& gathered(events, arguments_said(index)).len() == 0
            &&& gathered(events, ends_said()).len() == 0
            &&& gathered(events, sums_said()) == (match usage {
                Some(u) => match (
                    u.unsigned_at("prompt_tokens"@),
                    u.unsigned_at("completion_tokens"@),
                ) {
                    (Some(a), Some(b)) => seq![(a, b)],
                    _ => Seq::empty(),
                },
                None => Seq::empty(),
            })
        }),
{
    let events = openai_stream::usage_events(usage)->Ok_0;
    assert forall|i: int| 0 <= i < events.len() implies (#[trigger] events[i] is UsageBreakdown
        || events[i] is Usage || events[i] is UsagePartial) by {}
    lemma_gathered_silent(events, text_said());
    lemma_gathered_silent(events, reasoning_said());
    lemma_gathered_silent(events, arguments_said(index));
    lemma_gathered_silent(events, ends_said());
    if usage is Some && !(usage->0 is Null) {
        let u = usage->0;
        let a = openai_stream::usage_parts(u)->Ok_0;
        let b = openai_stream::usage_sums(u);
        lemma_gathered_add(a, b, sums_said());
        assert forall|i: int| 0 <= i < a.len() implies #[trigger] a[i] is UsageBreakdown by {}
        lemma_gathered_silent(a, sums_said());
        assert(gathered(a, sums_said()) =~= Seq::empty());
        if b.len() == 1 {
            lemma_gathered_one(b[0], sums_said());
            assert(b =~= seq![b[0]]);
        } else {
            lemma_gathered_none(sums_said());
        }
    } else {
        lemma_gathered_none(sums_said());
        assert(events =~= Seq::empty());
    }
}

/// The reasoning and the text of a delta.
proof fn lemma_delta_words(delta: Tree, owner: Option<ThinkingView>, index: u32)
    ensures
        ({
            let events = openai_stream::reasoning_events(delta, owner)
                + openai_stream::details_events(delta) + openai_stream::content_events(delta);
            &&& gathered(events, text_said()) == or_nothing(delta.text_at("content"@))
            &&& gathered(events, reasoning_said()) == chunk_reasoning(Some(delta))
            &&& gathered(events, arguments_said(index)).len() == 0
            &&& gathered(events, ends_said()).len() == 0
            &&& gathered(events, sums_said()).len() == 0
        }),
{
    let a = openai_stream::reasoning_events(delta, owner);
    let b = openai_stream::details_events(delta);
    let c = openai_stream::content_events(delta);
    let events = a + b + c;
    if let Some(details) = delta.items_at("reasoning_details"@) {
        lemma_details(details);
    }
    assert forall|i: int| 0 <= i < events.len() implies (#[trigger] events[i] is TextDelta
        || events[i] is ReasoningDelta || events[i] is ReasoningStarted || events[i]
        is ChatReasoning) by {}
    lemma_gathered_silent(events, arguments_said(index));
    lemma_gathered_silent(events, ends_said());
    lemma_gathered_silent(events, sums_said());
    lemma_gathered_add(a + b, c, text_said());
    lemma_gathered_add(a, b, text_said());
    lemma_gathered_add(a + b, c, reasoning_said());
    lemma_gathered_add(a, b, reasoning_said());
    lemma_gathered_silent(a, text_said());
    lemma_gathered_silent(b, text_said());
    lemma_gathered_silent(c, reasoning_said());
    if a.len() == 2 {
        lemma_gathered_two(a[0], a[1], reasoning_said());
        assert(a =~= seq![a[0], a[1]]);
    } else if a.len() == 1 {
        lemma_gathered_one(a[0], reasoning_said());
        assert(a =~= seq![a[0]]);
    } else {
        lemma_gathered_none(reasoning_said());
        assert(a =~= Seq::empty());
    }
    if b.len() == 1 {
        lemma_gathered_one(b[0], reasoning_said());
        assert(b =~= seq![b[0]]);
    } else {
        lemma_gathered_none(reasoning_said());
        assert(b =~= Seq::empty());
    }
    if c.len() == 1 {
        lemma_gathered_one(c[0], text_said());
        assert(c =~= seq![c[0]]);
    } else {
        lemma_gathered_none(text_said());
        assert(c =~= Seq::empty());
    }
    assert(gathered(a, reasoning_said()) =~= sent_reasoning(delta));
    assert(gathered(events, text_said()) =~= or_nothing(delta.text_at("content"@)));
    assert(gathered(events, reasoning_said()) =~= chunk_reasoning(Some(delta)));
}

/// A chunk of the chat format is heard as it was sent: its text, its reasoning, the
/// arguments of each call in the order of their pieces, its usage and the reason for
/// which it ends, and nothing besides.
pub proof fn law_chunks_are_heard_as_sent(
    tree: Tree,
    owner: Option<ThinkingView>,
    index: u32,
)
    requires
        openai_stream::chunk_events(tree, owner) is Ok,
    ensures
        ({
            let events = openai_stream::chunk_events(tree, owner)->Ok_0;
            let delta = chunk_delta(tree);
            &&& gathered(events, text_said()) == sent_text(delta, "content"@)
            &&& gathered(events, reasoning_said()) == chunk_reasoning(delta)
            &&& gathered(events, arguments_said(index)) == sent_arguments(
                sent_calls(delta),
                index,
            )
            &&& gathered(events, ends_said()) == (match chunk_end(tree) {
                Some(reason) => seq![reason],
                None => Seq::empty(),
            })
            &&& gathered(events, sums_said()) == (match tree.get("usage"@) {
                Some(u) => match (
                    u.unsigned_at("prompt_tokens"@),
                    u.unsigned_at("completion_tokens"@),
                ) {
                    (Some(a), Some(b)) => seq![(a, b)],
                    _ => Seq::empty(),
                },
                None => Seq::empty(),
            })
            &&& forall|k: int|
                #![trigger sent_calls(delta)[k]]
                0 <= k < sent_calls(delta).len() && piece_of(sent_calls(delta)[k], index)
                    ==> events.contains(
                    StreamView::ToolCallDelta {
                        index: Some(index),
                        id: sent_calls(delta)[k].text_at("id"@),
                        name: piece_name(sent_calls(delta)[k]),
                        arguments: piece_arguments(sent_calls(delta)[k]),
                    },
                )
        }),
{
    let events = openai_stream::chunk_events(tree, owner)->Ok_0;
    let choice = openai_stream::first_choice(tree);
    let delta = chunk_delta(tree);
    let calls = sent_calls(delta);
    let a: Seq<StreamView> = match delta {
        Some(d) => openai_stream::reasoning_events(d, owner) + openai_stream::details_events(d)
            + openai_stream::content_events(d),
        None => Seq::empty(),
    };
    let b = openai_stream::pieces_events(calls);
    let c = openai_stream::usage_events(tree.get("usage"@))->Ok_0;
    let d = openai_stream::finish_events(choice);
    assert(events =~= a + b + c + d);
    if let Some(own) = delta {
        lemma_delta_words(own, owner, index);
    } else {
        lemma_gathered_none(text_said());
        lemma_gathered_none(reasoning_said());
        lemma_gathered_none(arguments_said(index));
        lemma_gathered_none(ends_said());
        lemma_gathered_none(sums_said());
    }
    lemma_pieces(calls, index);
    lemma_usage_silent(tree.get("usage"@), index);
    lemma_four(a, b, c, d, text_said());
    lemma_four(a, b, c, d, reasoning_said());
    lemma_four(a, b, c, d, arguments_said(index));
    lemma_four(a, b, c, d, ends_said());
    lemma_four(a, b, c, d, sums_said());
    assert(gathered(events, text_said()) =~= sent_text(delta, "content"@));
    assert(gathered(events, reasoning_said()) =~= chunk_reasoning(delta));
    assert(gathered(events, arguments_said(index)) =~= sent_arguments(calls, index));
    assert(gathered(events, ends_said()) =~= (match chunk_end(tree) {
        Some(reason) => seq![reason],
        None => Seq::empty(),
    }));
    assert(gathered(events, sums_said()) =~= gathered(c, sums_said()));
    assert forall|k: int|
        #![trigger calls[k]]
        0 <= k < calls.len() && piece_of(calls[k], index) implies events.contains(
        StreamView::ToolCallDelta {
            index: Some(index),
            id: calls[k].text_at("id"@),
            name: piece_name(calls[k]),
            arguments: piece_arguments(calls[k]),
        },
    ) by {
        lemma_piece_is_there(calls, k, index);
        let event = StreamView::ToolCallDelta {
            index: Some(index),
            id: calls[k].text_at("id"@),
            name: piece_name(calls[k]),
            arguments: piece_arguments(calls[k]),
        };
        let j = choose|j: int| 0 <= j < b.len() && b[j] == event;
        assert(events[a.len() + j] == event);
    }
}

/// Four parts, the last of which is one event at most and ends the answer.
proof fn lemma_four<A>(
    a: Seq<StreamView>,
    b: Seq<StreamView>,
    c: Seq<StreamView>,
    d: Seq<StreamView>,
    said: spec_fn(StreamView) -> Seq<A>,
)
    requires
        d.len() <= 1,
    ensures
        gathered(a + b + c + d, said) == gathered(a, said) + gathered(b, said) + gathered(c, said)
            + (if d.len() == 1 {
            said(d[0])
        } else {
            Seq::empty()
        }),
{
    lemma_gathered_add(a + b + c, d, said);
    lemma_gathered_add(a + b, c, said);
    lemma_gathered_add(a, b, said);
    if d.len() == 1 {
        lemma_gathered_one(d[0], said);
        assert(d =~= seq![d[0]]);
    } else {
        lemma_gathered_none(said);
        assert(d =~= Seq::empty());
    }
}

proof fn lemma_events_of_piece(calls: Seq<Tree>, k: int, event: StreamView)
    requires
        0 <= k < calls.len(),
        openai_stream::piece_events(openai_stream::tool_piece(calls[k])).contains(event),
    ensures
        openai_stream::pieces_events(calls).contains(event),
    decreases calls.len(),
{
    let events = openai_stream::pieces_events(calls);
    let front = openai_stream::pieces_events(calls.drop_last());
    let own = openai_stream::piece_events(openai_stream::tool_piece(calls.last()));
    if k == calls.len() - 1 {
        let j = choose|j: int| 0 <= j < own.len() && own[j] == event;
        assert(events[front.len() + j] == event);
    } else {
        lemma_events_of_piece(calls.drop_last(), k, event);
        let j = choose|j: int| 0 <= j < front.len() && front[j] == event;
        assert(events[j] == event);
    }
}

/// A piece of a call that has no number is heard by its id; one that has neither is
/// heard as a whole call where it names its tool and its arguments are JSON.
pub proof fn law_pieces_without_a_number_are_heard(
    tree: Tree,
    owner: Option<ThinkingView>,
    k: int,
)
    requires
        openai_stream::chunk_events(tree, owner) is Ok,
        0 <= k < sent_calls(chunk_delta(tree)).len(),
        ({
            let call = sent_calls(chunk_delta(tree))[k];
            &&& call is Object
            &&& call.get("index"@) is None
            &&& call.get("type"@) is None
            &&& call.get("function"@) matches Some(function) && function is Object
        }),
    ensures
        ({
            let events = openai_stream::chunk_events(tree, owner)->Ok_0;
            let call = sent_calls(chunk_delta(tree))[k];
            &&& call.text_at("id"@) matches Some(id) ==> events.contains(
                StreamView::ToolCallDelta {
                    index: None,
                    id: Some(id),
                    name: piece_name(call),
                    arguments: piece_arguments(call),
                },
            )
            &&& call.get("id"@) is None && json::parsed(piece_arguments(call)) is Ok ==> (
            piece_name(call) matches Some(name) ==> events.contains(
                StreamView::ToolCall { name, arguments: piece_arguments(call) },
            ))
        }),
{
    let events = openai_stream::chunk_events(tree, owner)->Ok_0;
    let d = chunk_delta(tree)->Some_0;
    let calls = sent_calls(chunk_delta(tree));
    let call = calls[k];
    let a = openai_stream::reasoning_events(d, owner) + openai_stream::details_events(d)
        + openai_stream::content_events(d);
    let b = openai_stream::pieces_events(calls);
    let own = openai_stream::piece_events(openai_stream::tool_piece(call));
    let rest = events.skip((a.len() + b.len()) as int);
    assert(events =~= a + b + rest);
    if let Some(id) = call.text_at("id"@) {
        let event = StreamView::ToolCallDelta {
            index: None,
            id: Some(id),
            name: piece_name(call),
            arguments: piece_arguments(call),
        };
        assert(own[0] == event);
        lemma_events_of_piece(calls, k, event);
        let j = choose|j: int| 0 <= j < b.len() && b[j] == event;
        assert(events[a.len() + j] == event);
    }
    if call.get("id"@) is None && json::parsed(piece_arguments(call)) is Ok {
        if let Some(name) = piece_name(call) {
            let event = StreamView::ToolCall { name, arguments: piece_arguments(call) };
            assert(own[1] == event);
            lemma_events_of_piece(calls, k, event);
            let j = choose|j: int| 0 <= j < b.len() && b[j] == event;
            assert(events[a.len() + j] == event);
        }
    }
}

/// Reasoning that has to be handed back is kept word for word for the model and the
/// scope that it belongs to.
pub proof fn law_thinking_is_kept_for_its_owner(tree: Tree, owner: ThinkingView)
    requires
        openai_stream::chunk_events(tree, Some(owner)) is Ok,
        chunk_delta(tree) is Some,
        sent_reasoning(chunk_delta(tree)->0).len() > 0,
    ensures
        exists|i: int|
            0 <= i < openai_stream::chunk_events(tree, Some(owner))->Ok_0.len() && (
            #[trigger] openai_stream::chunk_events(tree, Some(owner))->Ok_0[i] matches StreamView::ChatReasoning(
                state,
            ) && state.content == sent_reasoning(chunk_delta(tree)->0) && state.model
                == owner.model && state.scope_id == owner.scope_id),
{
    let events = openai_stream::chunk_events(tree, Some(owner))->Ok_0;
    let d = chunk_delta(tree)->0;
    let a = openai_stream::reasoning_events(d, Some(owner));
    assert(a.len() == 2);
    assert(events[1] == a[1]);
}

/// A chunk of the chat format can be read unless its usage contradicts itself: more
/// tokens cached than there were.
pub proof fn law_chunks_with_sound_usage_are_read(tree: Tree, owner: Option<ThinkingView>)
    requires
        tree.get("usage"@) matches Some(usage) ==> {
            let read = match json::under(usage, "prompt_tokens_details"@, "cached_tokens"@) {
                Some(v) => match v.unsigned() {
                    Some(n) => n as int,
                    None => 0,
                },
                None => 0,
            };
            let written = match json::under(
                usage,
                "prompt_tokens_details"@,
                "cache_write_tokens"@,
            ) {
                Some(v) => match v.unsigned() {
                    Some(n) => n as int,
                    None => 0,
                },
                None => 0,
            };
            &&& read + written <= u64::MAX
            &&& usage.unsigned_at("prompt_tokens"@) matches Some(n) ==> read + written <= n
        },
    ensures
        openai_stream::chunk_events(tree, owner) is Ok,
{
}

} // verus!
