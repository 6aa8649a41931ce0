//! What the queue of events and the record of a session keep.
use vstd::prelude::*;
use vstd::string::*;

use crate::events::{EventView, KindView};
use crate::model;
use crate::model::QueueView;

verus! {

/// Whether one event says all that two events said, the later one last.
pub open spec fn says_both(one: EventView, first: EventView, second: EventView) -> bool {
    &&& one.seq == second.seq
    &&& match (first.kind, second.kind, one.kind) {
        (
            KindView::AssistantTextDelta { text: a },
            KindView::AssistantTextDelta { text: b },
            KindView::AssistantTextDelta { text: both },
        ) => both == a + b,
        (
            KindView::ReasoningDelta { text: a },
            KindView::ReasoningDelta { text: b },
            KindView::ReasoningDelta { text: both },
        ) => both == a + b,
        (
            KindView::ToolProgress { batch_id: b1, call_id: c1, .. },
            KindView::ToolProgress { batch_id: b2, call_id: c2, .. },
            _,
        ) => b1 == b2 && c1 == c2 && one == second,
        _ => false,
    }
}

/// Two events become one only where that one says what both said: texts of one kind
/// one behind the other, or the later progress of the same call.
pub proof fn law_merged_events_say_both(first: EventView, second: EventView)
    ensures
        model::merged(first, second) matches Some(one) ==> says_both(one, first, second),
        first.kind is ToolOutput || second.kind is ToolOutput ==> model::merged(
            first,
            second,
        ) is None,
{
}

/// As long as nothing was cancelled, an offer to a live queue changes it in one of
/// three ways: the event waits outside, it stands behind the others, or the last event
/// and it became one that says both. No event that was there is lost.
pub proof fn law_offers_lose_nothing(queue: QueueView, event: EventView)
    requires
        queue.receiver_alive,
    ensures
        ({
            let after = model::offered(queue, event, false).events;
            ||| after == queue.events && queue.events.len() >= queue.capacity
            ||| after == queue.events.push(event)
            ||| queue.events.len() > 0 && after.len() == queue.events.len() && after.drop_last()
                == queue.events.drop_last() && says_both(after.last(), queue.events.last(), event)
        }),
{
    let after = model::offered(queue, event, false).events;
    if queue.events.len() > 0 && model::merged(queue.events.last(), event) is Some {
        let one = model::merged(queue.events.last(), event)->0;
        law_merged_events_say_both(queue.events.last(), event);
        assert(queue.events.drop_last().push(one).drop_last() =~= queue.events.drop_last());
    }
}

/// After a cancellation at most one event is given up for another, and only one that
/// may be; all others keep their order.
pub proof fn law_cancelled_offers_give_up_one_event(queue: QueueView, event: EventView)
    requires
        queue.receiver_alive,
        queue.accepting(event) is None,
    ensures
        ({
            let after = model::offered(queue, event, true).events;
            after == queue.events || (!model::droppable(event) && exists|i: int|
                0 <= i < queue.events.len() && model::droppable(#[trigger] queue.events[i])
                    && after == queue.events.remove(i).push(event))
        }),
{
    lemma_first(queue.events, 0);
    if let Some(i) = model::first_droppable(queue.events, 0) {
        assert(model::droppable(queue.events[i]));
    }
}

proof fn lemma_first(events: Seq<EventView>, from: int)
    requires
        0 <= from,
    ensures
        model::first_droppable(events, from) matches Some(i) ==> from <= i < events.len()
            && model::droppable(events[i]),
    decreases events.len() - from,
{
    if from < events.len() && !model::droppable(events[from]) {
        lemma_first(events, from + 1);
    }
}

/// Clearing an event leaves its place and what it is about: a tool's event keeps its
/// call and its tool, a question its request and its options.
pub proof fn law_cleared_events_keep_their_subject(event: EventView)
    ensures
        model::cleared(event).seq == event.seq,
        match (event.kind, model::cleared(event).kind) {
            (
                KindView::ToolOutput { batch_id, call_id, name, .. },
                KindView::ToolOutput { batch_id: b, call_id: c, name: n, output },
            ) => b == batch_id && c == call_id && n == name && output.len() == 0,
            (KindView::ToolOutput { .. }, _) => false,
            (
                KindView::ToolStarted { batch_id, call_id, name, .. },
                KindView::ToolStarted { batch_id: b, call_id: c, name: n, arguments },
            ) => b == batch_id && c == call_id && n == name && arguments.len() == 0,
            (KindView::ToolStarted { .. }, _) => false,
            (
                KindView::ProviderToolCall { id, name, .. },
                KindView::ProviderToolCall { id: i, name: n, arguments },
            ) => i == id && n == name && arguments.len() == 0,
            (KindView::ProviderToolCall { .. }, _) => false,
            (
                KindView::AssistantTextDelta { .. },
                KindView::AssistantTextDelta { text },
            ) => text.len() == 0,
            (KindView::AssistantTextDelta { .. }, _) => false,
            _ => true,
        },
{
}

} // verus!
