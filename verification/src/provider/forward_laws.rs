//! What of an answer reaches whoever asked, and what is kept of it to be given again.
use vstd::prelude::*;
use vstd::string::*;

use crate::provider::forward;
use crate::provider::forward::{ForwardView, Room};
use crate::provider::reasoning;
use crate::provider::types::{StreamView, UsageBreakdown};

verus! {

/// Where reasoning may be shown and usage is told once, every event is passed on.
pub proof fn law_every_event_is_passed_on(state: ForwardView, event: StreamView)
    requires
        !state.violated,
        !state.disabled,
        !state.coalesce,
    ensures
        state.passes(event),
        forall|room: Room|
            !(#[trigger] state.taken(event, room)).violated && !state.taken(event, room).disabled
                && !state.taken(event, room).coalesce,
{
}

/// Of an answer that breaks no rule only reasoning that is not to be, and usage that
/// is told several times, is not passed on at once.
pub proof fn law_only_reasoning_and_repeated_usage_wait(state: ForwardView, event: StreamView)
    requires
        !state.violated,
    ensures
        state.passes(event) <==> !(state.coalesce && (event is Usage || event is UsageBreakdown))
            && !(state.disabled && reasoning::shows_reasoning(event) && !forward::tells_usage(
            event,
        )),
{
}

/// Reasoning is what thinks aloud or is counted as thinking; text, calls and the end of
/// an answer are none.
pub proof fn law_reasoning_is_what_thinks(event: StreamView)
    ensures
        event matches StreamView::ReasoningDelta(s) ==> (s.len() > 0
            ==> reasoning::shows_reasoning(event)),
        event is ReasoningStarted || event is ResponsesReasoning ==> reasoning::shows_reasoning(
            event,
        ),
        event matches StreamView::ChatReasoning(state) ==> (state.content.len() > 0
            ==> reasoning::shows_reasoning(event)),
        event matches StreamView::UsageBreakdown { usage } ==> (usage.reasoning_tokens > 0
            <==> reasoning::shows_reasoning(event)),
        event is TextDelta || event is Stopped || event is ToolCall || event is ToolCallStart
            || event is ToolCallInputDelta || event is ToolCallDelta || event is Usage
            ==> !reasoning::shows_reasoning(event),
{
}

/// What is captured of an answer are the events that were passed on, in their order
/// and each once, but for the marks of its phases; or nothing, from the moment on at
/// which one was not taken.
pub proof fn law_what_is_captured_was_passed_on(state: ForwardView, event: StreamView, room: Room)
    ensures
        ({
            let after = state.taken(event, room);
            after.captured matches Some(events) ==> (state.captured matches Some(before) && events
                == (if state.passes(event) && !(event is Phase) {
                before.push(event)
            } else {
                before
            }))
        }),
{
}

/// The end of an answer is noted where it is passed on, and nothing else ends it.
pub proof fn law_the_end_is_noted(state: ForwardView, event: StreamView, room: Room)
    ensures
        state.taken(event, room).saw_stopped == (state.saw_stopped || (event is Stopped
            && state.passes(event))),
{
}

/// An answer that did not end is an error; one that did is given to be kept as it
/// was captured, unless it calls a tool.
pub proof fn law_unfinished_answers_fail(state: ForwardView)
    requires
        !state.violated,
    ensures
        !state.saw_stopped ==> state.concluded(Ok(true)) is Err && state.concluded(
            Ok(false),
        ) is Err,
        state.saw_stopped ==> (state.concluded(Ok(true)) matches Ok(kept) && (kept matches Some(
            events,
        ) ==> state.captured == Some(events))),
{
}

/// A usage that is held back covers what was held back before and what is told now,
/// and claims no more than one of them.
pub proof fn law_held_usage_covers_what_was_told(
    state: ForwardView,
    input_tokens: u64,
    output_tokens: u64,
    room: Room,
)
    requires
        state.coalesce,
    ensures
        ({
            let after = state.taken(StreamView::Usage { input_tokens, output_tokens }, room);
            &&& after.usage matches Some((i, o)) && i >= input_tokens && o >= output_tokens && (
            state.usage matches Some((a, b)) ==> i >= a && o >= b && (i == a || i == input_tokens)
                && (o == b || o == output_tokens)) && (state.usage is None ==> i == input_tokens
                && o == output_tokens)
            &&& after.breakdown == state.breakdown
            &&& after.captured == state.captured
        }),
{
}

/// The same of a usage that is told part by part.
pub proof fn law_held_breakdown_covers_what_was_told(
    state: ForwardView,
    usage: UsageBreakdown,
    room: Room,
)
    requires
        state.coalesce,
    ensures
        ({
            let after = state.taken(StreamView::UsageBreakdown { usage }, room);
            &&& after.usage == state.usage
            &&& after.captured == state.captured
            &&& after.breakdown matches Some(held) && held.output_tokens >= usage.output_tokens
                && held.uncached_input_tokens >= usage.uncached_input_tokens
                && held.cache_read_tokens >= usage.cache_read_tokens && held.cache_write_tokens
                >= usage.cache_write_tokens && held.reasoning_tokens >= usage.reasoning_tokens && (
            state.breakdown is None ==> held == usage) && (state.breakdown matches Some(before)
                ==> (held.output_tokens == usage.output_tokens || held.output_tokens
                == before.output_tokens) && (held.uncached_input_tokens
                == usage.uncached_input_tokens || held.uncached_input_tokens
                == before.uncached_input_tokens) && held.output_tokens >= before.output_tokens
                && held.uncached_input_tokens >= before.uncached_input_tokens
                && held.cache_read_tokens >= before.cache_read_tokens && held.cache_write_tokens
                >= before.cache_write_tokens && held.reasoning_tokens >= before.reasoning_tokens)
        }),
{
}

/// What was held back is passed on in the end, whole and once.
pub proof fn law_held_usage_is_passed_on(state: ForwardView)
    ensures
        state.usage matches Some((input_tokens, output_tokens)) ==> state.held_back().contains(
            StreamView::Usage { input_tokens, output_tokens },
        ),
        state.breakdown matches Some(usage) ==> state.held_back().contains(
            StreamView::UsageBreakdown { usage },
        ),
        state.held_back().len() == (if state.usage is Some {
            1int
        } else {
            0
        }) + (if state.breakdown is Some {
            1int
        } else {
            0
        }),
{
    let all = state.held_back();
    if let Some(usage) = state.breakdown {
        assert(all[0] == StreamView::UsageBreakdown { usage });
    }
    if let Some((input_tokens, output_tokens)) = state.usage {
        assert(all[all.len() - 1] == StreamView::Usage { input_tokens, output_tokens });
    }
}

/// An answer that was kept is given again event by event as it was, behind a mark
/// that says where it came from; an empty one gives nothing.
pub proof fn law_kept_answers_are_given_again_as_they_were(events: Seq<StreamView>)
    ensures
        events.len() > 0 ==> forward::replayed(events, false) == seq![StreamView::ResponseCacheHit]
            + events,
        events.len() == 0 ==> forward::replayed(events, false).len() == 0,
    decreases events.len(),
{
    if events.len() > 0 {
        let front = events.drop_last();
        law_kept_answers_are_given_again_as_they_were(front);
        assert(forward::replayed(events, false) =~= seq![StreamView::ResponseCacheHit] + events);
    }
}

/// Where there is to be no reasoning, an answer that was kept is given again up to
/// the first that it shows, and none of it.
pub proof fn law_kept_reasoning_is_not_given_again(events: Seq<StreamView>, n: int)
    requires
        0 <= n <= events.len(),
        forall|i: int| 0 <= i < n ==> !reasoning::shows_reasoning(#[trigger] events[i]),
        n < events.len() ==> reasoning::shows_reasoning(events[n]),
    ensures
        forward::replayed(events, true) == (if n == 0 {
            Seq::empty()
        } else {
            seq![StreamView::ResponseCacheHit] + events.take(n)
        }),
    decreases events.len(),
{
    if events.len() > 0 {
        let front = events.drop_last();
        assert(forall|i: int| 0 <= i < front.len() ==> front[i] == events[i]);
        if n < events.len() - 1 {
            law_kept_reasoning_is_not_given_again(front, n);
            assert(front[n] == events[n]);
            assert(forward::stops_replay(front, true));
            assert(front.take(n) =~= events.take(n));
        } else {
            law_kept_reasoning_is_not_given_again(front, front.len() as int);
            assert(!forward::stops_replay(front, true));
            assert(front.take(front.len() as int) =~= front);
            if n == events.len() {
                assert(events.take(n) =~= events);
                assert(!reasoning::shows_reasoning(events[n - 1]));
                assert(forward::replayed(events, true) =~= seq![StreamView::ResponseCacheHit]
                    + events);
            } else {
                assert(events.take(n) =~= front);
            }
        }
    } else {
        assert(forward::replayed(events, true) =~= Seq::empty());
    }
}

} // verus!
