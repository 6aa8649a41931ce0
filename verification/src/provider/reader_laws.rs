//! What a reader shows of an answer: nothing that was said is lost or doubled on its
//! way through the filter, and nothing is added but the marks of its phases.
use vstd::prelude::*;
use vstd::string::*;

use crate::provider::forward;
use crate::provider::reader;
use crate::provider::reader::ReaderView;
use crate::provider::redactor;
use crate::provider::redactor::RedactorView;
use crate::provider::secrets;
use crate::provider::stream_laws;
use crate::provider::types::{ProviderPhase, StreamView};
use crate::runtime;
use crate::text;

verus! {

proof fn lemma_gathered_one<A>(event: StreamView, said: spec_fn(StreamView) -> Seq<A>)
    ensures
        stream_laws::gathered(seq![event], said) == said(event),
        stream_laws::gathered(Seq::<StreamView>::empty(), said) == Seq::<A>::empty(),
{
    let list = seq![event];
    assert(list.drop_last() =~= Seq::<StreamView>::empty());
    assert(stream_laws::gathered(list.drop_last(), said) =~= Seq::<A>::empty());
    assert(stream_laws::gathered(list, said) =~= said(event));
}

proof fn lemma_gathered_add<A>(
    a: Seq<StreamView>,
    b: Seq<StreamView>,
    said: spec_fn(StreamView) -> Seq<A>,
)
    ensures
        stream_laws::gathered(a + b, said) == stream_laws::gathered(a, said)
            + stream_laws::gathered(b, said),
    decreases b.len(),
{
    if b.len() == 0 {
        assert(a + b =~= a);
        assert(stream_laws::gathered(a + b, said) =~= stream_laws::gathered(a, said)
            + stream_laws::gathered(b, said));
    } else {
        assert((a + b).drop_last() =~= a + b.drop_last());
        lemma_gathered_add(a, b.drop_last(), said);
        assert(stream_laws::gathered(a + b, said) =~= stream_laws::gathered(a, said)
            + stream_laws::gathered(b, said));
    }
}

proof fn lemma_outs(ready: Seq<char>)
    ensures
        stream_laws::gathered(redactor::text_out(ready), stream_laws::text_said()) == ready,
        stream_laws::gathered(redactor::reasoning_out(ready), stream_laws::text_said()) == Seq::<
            char,
        >::empty(),
        stream_laws::gathered(redactor::text_out(ready), stream_laws::reasoning_said()) == Seq::<
            char,
        >::empty(),
        stream_laws::gathered(redactor::reasoning_out(ready), stream_laws::reasoning_said())
            == ready,
{
    let t = StreamView::TextDelta(ready);
    let r = StreamView::ReasoningDelta(ready);
    lemma_gathered_one(t, stream_laws::text_said());
    lemma_gathered_one(t, stream_laws::reasoning_said());
    lemma_gathered_one(r, stream_laws::text_said());
    lemma_gathered_one(r, stream_laws::reasoning_said());
    if ready.len() == 0 {
        assert(ready =~= Seq::empty());
    }
}

proof fn lemma_nothing_secret(s: Seq<char>, values: Seq<Seq<char>>)
    requires
        values.len() == 0,
    ensures
        secrets::redacted(s, values) == s,
{
    secrets::law_clean_text_is_kept(s, values);
}

proof fn lemma_tools_say_nothing(tools: Seq<StreamView>)
    requires
        forall|i: int| 0 <= i < tools.len() ==> redactor::is_tool_event(#[trigger] tools[i]),
    ensures
        stream_laws::gathered(tools, stream_laws::text_said()) == Seq::<char>::empty(),
        stream_laws::gathered(tools, stream_laws::reasoning_said()) == Seq::<char>::empty(),
    decreases tools.len(),
{
    if tools.len() > 0 {
        let front = tools.drop_last();
        assert forall|i: int| 0 <= i < front.len() implies redactor::is_tool_event(
            #[trigger] front[i],
        ) by {
            assert(front[i] == tools[i]);
        }
        lemma_tools_say_nothing(front);
        assert(redactor::is_tool_event(tools[tools.len() - 1]));
        assert(stream_laws::gathered(tools, stream_laws::text_said()) =~= Seq::<char>::empty());
        assert(stream_laws::gathered(tools, stream_laws::reasoning_said()) =~= Seq::<
            char,
        >::empty());
    }
}

/// Where nothing is secret, what is shown of the text and what still waits is what
/// waited before and what an event says; the same of the reasoning. Once the answer
/// stops nothing waits.
pub proof fn law_the_filter_loses_no_text(state: RedactorView, event: StreamView)
    requires
        state.values.len() == 0,
        forall|i: int|
            0 <= i < state.tools.len() ==> redactor::is_tool_event(#[trigger] state.tools[i]),
    ensures
        ({
            let (after, shown) = state.stepped(event);
            &&& stream_laws::gathered(shown, stream_laws::text_said()) + after.text == state.text
                + stream_laws::text_said()(event)
            &&& stream_laws::gathered(shown, stream_laws::reasoning_said()) + after.reasoning
                == state.reasoning + stream_laws::reasoning_said()(event)
            &&& event is Stopped ==> after.text.len() == 0 && after.reasoning.len() == 0
        }),
{
    let (after, shown) = state.stepped(event);
    let text = stream_laws::text_said();
    let thought = stream_laws::reasoning_said();
    lemma_nothing_secret(state.text, state.values);
    lemma_nothing_secret(state.reasoning, state.values);
    lemma_outs(state.text);
    lemma_outs(state.reasoning);
    lemma_gathered_one(event, text);
    lemma_gathered_one(event, thought);
    match event {
        StreamView::TextDelta(s) => {
            let all = state.text + s;
            let n = redactor::safe_split(all, state.values);
            redactor::lemma_safe_split_bounds(all, state.values);
            lemma_nothing_secret(all.take(n), state.values);
            lemma_outs(all.take(n));
            lemma_gathered_add(state.waiting_reasoning(), redactor::text_out(all.take(n)), text);
            lemma_gathered_add(
                state.waiting_reasoning(),
                redactor::text_out(all.take(n)),
                thought,
            );
            assert(all.take(n) + all.skip(n) =~= all);
            assert(stream_laws::gathered(shown, text) + after.text =~= all);
            assert(stream_laws::gathered(shown, thought) + after.reasoning =~= state.reasoning
                + thought(event));
        },
        StreamView::ReasoningDelta(s) => {
            let all = state.reasoning + s;
            let n = redactor::safe_split(all, state.values);
            redactor::lemma_safe_split_bounds(all, state.values);
            lemma_nothing_secret(all.take(n), state.values);
            lemma_outs(all.take(n));
            lemma_gathered_add(state.waiting_text(), redactor::reasoning_out(all.take(n)), text);
            lemma_gathered_add(
                state.waiting_text(),
                redactor::reasoning_out(all.take(n)),
                thought,
            );
            assert(all.take(n) + all.skip(n) =~= all);
            assert(stream_laws::gathered(shown, thought) + after.reasoning =~= all);
            assert(stream_laws::gathered(shown, text) + after.text =~= state.text + text(event));
        },
        StreamView::Stopped { reason } => {
            let stop = StreamView::Stopped { reason: secrets::redacted(reason, state.values) };
            lemma_tools_say_nothing(state.tools);
            let none = Seq::<StreamView>::empty();
            let calls = if state.leaks() {
                none
            } else {
                state.tools
            };
            lemma_gathered_one(stop, text);
            lemma_gathered_one(stop, thought);
            lemma_gathered_add(calls, state.waiting_text(), text);
            lemma_gathered_add(calls, state.waiting_text(), thought);
            let some = calls + state.waiting_text();
            lemma_gathered_add(some, state.waiting_reasoning(), text);
            lemma_gathered_add(some, state.waiting_reasoning(), thought);
            let most = some + state.waiting_reasoning();
            assert(shown =~= most + seq![stop]);
            lemma_gathered_add(most, seq![stop], text);
            lemma_gathered_add(most, seq![stop], thought);
            assert(stream_laws::gathered(shown, text) + after.text =~= state.text + text(event));
            assert(stream_laws::gathered(shown, thought) + after.reasoning =~= state.reasoning
                + thought(event));
        },
        StreamView::ReasoningStarted => {
            assert(shown =~= state.waiting_text() + seq![event]);
            lemma_gathered_add(state.waiting_text(), seq![event], text);
            lemma_gathered_add(state.waiting_text(), seq![event], thought);
            assert(stream_laws::gathered(shown, text) + after.text =~= state.text + text(event));
            assert(stream_laws::gathered(shown, thought) + after.reasoning =~= state.reasoning
                + thought(event));
        },
        StreamView::ReasoningEnded => {
            assert(shown =~= state.waiting_reasoning() + seq![event]);
            lemma_gathered_add(state.waiting_reasoning(), seq![event], text);
            lemma_gathered_add(state.waiting_reasoning(), seq![event], thought);
            assert(stream_laws::gathered(shown, text) + after.text =~= state.text + text(event));
            assert(stream_laws::gathered(shown, thought) + after.reasoning =~= state.reasoning
                + thought(event));
        },
        _ => {
            assert(stream_laws::gathered(shown, text) + after.text =~= state.text + text(event));
            assert(stream_laws::gathered(shown, thought) + after.reasoning =~= state.reasoning
                + thought(event));
        },
    }
}

/// The events of tool calls wait in the order in which they came, each once; no other
/// event is held back whole.
pub proof fn law_tool_events_wait_in_order(state: RedactorView, event: StreamView)
    requires
        !(event is Stopped),
    ensures
        state.stepped(event).0.tools == (if redactor::is_tool_event(event) {
            state.tools.push(event)
        } else {
            state.tools
        }),
        !redactor::is_tool_event(event) && !(event is TextDelta) && !(event is ReasoningDelta)
            ==> state.stepped(event).1.len() > 0 && state.stepped(event).1.last() == event,
{
}

/// What the filter lets through of events, one after the other.
pub open spec fn let_through(state: RedactorView, events: Seq<StreamView>) -> (
    RedactorView,
    Seq<StreamView>,
)
    decreases events.len(),
{
    if events.len() == 0 {
        (state, Seq::empty())
    } else {
        let (before, out) = let_through(state, events.drop_last());
        let (after, more) = before.stepped(events.last());
        (after, out + more)
    }
}

/// Whether a list is another with one event put in.
pub open spec fn with_one_more(list: Seq<StreamView>, other: Seq<StreamView>, one: StreamView) -> bool {
    exists|k: int| 0 <= k <= other.len() && list == #[trigger] other.insert(k, one)
}

/// A reader shows what the filter lets through and adds nothing but one mark, before
/// the first that says something of the answer; it adds none where something was said
/// before.
pub proof fn law_readers_add_one_mark_alone(
    state: ReaderView,
    events: Seq<StreamView>,
    elapsed_ms: u64,
)
    ensures
        ({
            let (after, shown) = state.all_shown(events, elapsed_ms);
            let (filter, passed) = let_through(state.redactor, events);
            let mark = reader::phase_mark(ProviderPhase::FirstSemantic, elapsed_ms);
            &&& after.redactor == filter
            &&& state.saw_semantic ==> after.saw_semantic
            &&& if state.saw_semantic == after.saw_semantic {
                shown == passed
            } else {
                with_one_more(shown, passed, mark)
            }
            &&& (exists|i: int| 0 <= i < events.len() && forward::semantic(#[trigger] events[i]))
                ==> after.saw_semantic
        }),
    decreases events.len(),
{
    let mark = reader::phase_mark(ProviderPhase::FirstSemantic, elapsed_ms);
    if events.len() > 0 {
        let front = events.drop_last();
        law_readers_add_one_mark_alone(state, front, elapsed_ms);
        let (before, out) = state.all_shown(front, elapsed_ms);
        let (filter, passed) = let_through(state.redactor, front);
        let (after, shown) = state.all_shown(events, elapsed_ms);
        let more = before.redactor.stepped(events.last()).1;
        let all = let_through(state.redactor, events).1;
        assert(all == passed + more);
        if before.saw_semantic == after.saw_semantic {
            assert(shown =~= out + more);
            if state.saw_semantic != before.saw_semantic {
                let k = choose|k: int| 0 <= k <= passed.len() && out == #[trigger] passed.insert(k, mark);
                assert(shown =~= all.insert(k, mark));
                assert(with_one_more(shown, all, mark));
            } else {
                assert(shown =~= all);
            }
        } else {
            assert(state.saw_semantic == before.saw_semantic);
            assert(shown =~= out + (seq![mark] + more));
            assert(shown =~= all.insert(passed.len() as int, mark));
            assert(with_one_more(shown, all, mark));
        }
        if exists|i: int| 0 <= i < events.len() && forward::semantic(#[trigger] events[i]) {
            let i = choose|i: int|
                0 <= i < events.len() && forward::semantic(#[trigger] events[i]);
            if i < front.len() {
                assert(front[i] == events[i]);
                assert(forward::semantic(front[i]));
            }
        }
    } else {
        assert(state.all_shown(events, elapsed_ms).1 =~= Seq::empty());
    }
}

/// What an event adds to the arguments of a call that come in pieces.
pub open spec fn piece_said(call: u32) -> spec_fn(StreamView) -> Seq<char> {
    |e: StreamView|
        match e {
            StreamView::ToolCallInputDelta { index, partial_json } => if index == call {
                partial_json
            } else {
                Seq::empty()
            },
            StreamView::ToolCallDelta { index: Some(index), arguments, .. } => if index == call {
                arguments
            } else {
                Seq::empty()
            },
            _ => Seq::empty(),
        }
}

proof fn lemma_pieces(events: Seq<StreamView>, call: u32)
    ensures
        runtime::pieced_arguments(events, Some(call)) == stream_laws::gathered(
            events,
            piece_said(call),
        ),
        runtime::pieced_arguments(events, Some(call)).len() > 0 ==> exists|i: int|
            0 <= i < events.len() && runtime::piece_of(#[trigger] events[i]) == Some(Some(call)),
    decreases events.len(),
{
    if events.len() > 0 {
        let front = events.drop_last();
        lemma_pieces(front, call);
        assert(runtime::pieced_arguments(events, Some(call)) =~= stream_laws::gathered(
            events,
            piece_said(call),
        ));
        if runtime::piece_of(events.last()) == Some(Some(call)) {
            assert(runtime::piece_of(events[events.len() - 1]) == Some(Some(call)));
        } else if runtime::pieced_arguments(front, Some(call)).len() > 0 {
            let i = choose|i: int|
                0 <= i < front.len() && runtime::piece_of(#[trigger] front[i]) == Some(Some(call));
            assert(runtime::piece_of(events[i]) == Some(Some(call)));
        }
    }
}

/// A secret in the arguments of a call is found however the arguments are cut into
/// pieces, and whatever comes between the pieces.
pub proof fn law_secrets_in_pieces_are_found(
    events: Seq<StreamView>,
    values: Seq<Seq<char>>,
    k: int,
    call: u32,
)
    requires
        0 <= k < values.len(),
        values[k].len() > 0,
        text::contains(stream_laws::gathered(events, piece_said(call)), values[k]),
    ensures
        runtime::calls_leak(events, values),
{
    lemma_pieces(events, call);
    let all = runtime::pieced_arguments(events, Some(call));
    let at = choose|at: int| #[trigger] text::occurs_at(all, values[k], at);
    assert(all.len() > 0);
    let i = choose|i: int|
        0 <= i < events.len() && runtime::piece_of(#[trigger] events[i]) == Some(Some(call));
    assert(runtime::calls_hold(events, values[k]));
}

/// A secret in what a whole call is named or given is found.
pub proof fn law_secrets_in_whole_calls_are_found(
    events: Seq<StreamView>,
    values: Seq<Seq<char>>,
    k: int,
    i: int,
)
    requires
        0 <= k < values.len(),
        0 <= i < events.len(),
        match events[i] {
            StreamView::ToolCall { name, arguments } => text::contains(name, values[k])
                || text::contains(arguments, values[k]),
            StreamView::ToolCallComplete { id, name, arguments, .. } => text::contains(
                id,
                values[k],
            ) || text::contains(name, values[k]) || text::contains(arguments, values[k]),
            StreamView::ToolCallStart { id, name, .. } => text::contains(id, values[k])
                || text::contains(name, values[k]),
            _ => false,
        },
    ensures
        runtime::calls_leak(events, values),
{
    assert(runtime::tells(events[i], values[k]));
    assert(runtime::calls_hold(events, values[k]));
}

} // verus!
