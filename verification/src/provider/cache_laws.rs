//! What a kept answer is, and when messages are fit to be sent.
use vstd::prelude::*;
use vstd::string::*;

use crate::json;
use crate::provider::cache;
use crate::provider::cache::{CacheView, EntryView};
use crate::provider::content;
use crate::provider::message::{BlockView, CallView, MessageView};
use crate::provider::types::StreamView;

verus! {

/// Whether an event says something of the answer, not of what it took.
pub open spec fn answers(event: StreamView) -> bool {
    !(event is Phase || event is Usage || event is UsagePartial || event is UsageBreakdown)
}

proof fn lemma_seen_kept(events: Seq<StreamView>)
    ensures
        cache::seen(events) matches Some(state) ==> state.kept == events.filter(
            |e: StreamView| answers(e),
        ),
    decreases events.len(),
{
    reveal(Seq::filter);
    if events.len() > 0 {
        lemma_seen_kept(events.drop_last());
    } else {
        assert(events =~= Seq::empty());
        assert(cache::seen(events)->Some_0.kept =~= events.filter(|e: StreamView| answers(e)));
    }
}

/// What is kept of an answer is all that it says, event by event and in order; only
/// its usage and the marks of its phases are not kept.
pub proof fn law_kept_answers_say_all_that_was_said(events: Seq<StreamView>)
    ensures
        cache::keepable(events) matches Some(kept) ==> kept == events.filter(
            |e: StreamView| answers(e),
        ),
{
    lemma_seen_kept(events);
}

proof fn lemma_plain_text_seen(events: Seq<StreamView>)
    requires
        forall|i: int| 0 <= i < events.len() ==> (#[trigger] events[i]) is TextDelta,
    ensures
        cache::seen(events) matches Some(state) && !state.stopped,
    decreases events.len(),
{
    if events.len() > 0 {
        let front = events.drop_last();
        assert forall|i: int| 0 <= i < front.len() implies (#[trigger] front[i]) is TextDelta by {
            assert(front[i] == events[i]);
        }
        lemma_plain_text_seen(front);
        assert(events[events.len() - 1] is TextDelta);
    }
}

/// An answer of text that ends well is kept, word for word, as long as it has no more
/// events than the bound.
pub proof fn law_answers_of_text_are_kept(texts: Seq<StreamView>, reason: Seq<char>)
    requires
        forall|i: int| 0 <= i < texts.len() ==> (#[trigger] texts[i]) is TextDelta,
        texts.len() < cache::MAX_CACHED_PROVIDER_EVENTS,
        cache::good_end(reason),
    ensures
        cache::keepable(texts.push(StreamView::Stopped { reason })) == Some(
            texts.push(StreamView::Stopped { reason }),
        ),
{
    let all = texts.push(StreamView::Stopped { reason });
    lemma_plain_text_seen(texts);
    assert(all.drop_last() =~= texts);
    lemma_seen_kept(all);
    assert forall|i: int| 0 <= i < all.len() implies !cache::is_bound(#[trigger] all[i]) by {
        if i < texts.len() {
            assert(all[i] == texts[i]);
        }
    }
    lemma_all_answer(all);
}

proof fn lemma_all_answer(events: Seq<StreamView>)
    requires
        forall|i: int| 0 <= i < events.len() ==> !cache::is_bound(#[trigger] events[i]) && (
        events[i] is TextDelta || events[i] is Stopped),
    ensures
        events.filter(|e: StreamView| answers(e)) == events,
    decreases events.len(),
{
    reveal(Seq::filter);
    if events.len() > 0 {
        let front = events.drop_last();
        assert forall|i: int| 0 <= i < front.len() implies !cache::is_bound(#[trigger] front[i])
            && (front[i] is TextDelta || front[i] is Stopped) by {
            assert(front[i] == events[i]);
        }
        lemma_all_answer(front);
        let last = events[events.len() - 1];
        assert(answers(last));
        assert(events.filter(|e: StreamView| answers(e)) =~= events);
    } else {
        assert(events =~= Seq::empty());
    }
}

proof fn lemma_index(entries: Seq<EntryView>, key: Seq<char>, from: int)
    requires
        0 <= from,
    ensures
        match cache::entry_index(entries, key, from) {
            Some(i) => from <= i < entries.len() && entries[i].key == key,
            None => forall|i: int| from <= i < entries.len() ==> (#[trigger] entries[i]).key != key,
        },
    decreases entries.len() - from,
{
    if from < entries.len() && entries[from].key != key {
        lemma_index(entries, key, from + 1);
    }
}

/// Asking for one answer gives what is kept under its key, and changes nothing of what
/// is kept under any other.
pub proof fn law_asking_changes_no_answer(state: CacheView, key: Seq<char>, other: Seq<char>)
    requires
        state.wf(),
        other != key,
    ensures
        state.asked(key).0.asked(other).1 == state.asked(other).1,
        state.asked(key).0.asked(key).1 == state.asked(key).1,
        match state.asked(key).1 {
            Some(events) => exists|i: int|
                0 <= i < state.entries.len() && (#[trigger] state.entries[i]).key == key
                    && state.entries[i].events == events,
            None => forall|i: int|
                0 <= i < state.entries.len() ==> (#[trigger] state.entries[i]).key != key,
        },
{
    let entries = state.entries;
    lemma_index(entries, key, 0);
    lemma_index(entries, other, 0);
    if let Some(i) = cache::entry_index(entries, key, 0) {
        assert(entries[i].key == key);
        let moved = entries.remove(i).push(entries[i]);
        lemma_index(moved, other, 0);
        lemma_index(moved, key, 0);
        cache::law_asking_keeps_the_bounds(state, key);
        assert(state.asked(key).0.entries == moved);
        let last = moved.len() - 1;
        assert(moved[last] == entries[i]);
        let again = cache::entry_index(moved, key, 0);
        if again is Some && again->0 != last {
            assert(moved[again->0].key != moved[last].key);
        }
        assert forall|k: int| 0 <= k < last implies #[trigger] moved[k] == entries[if k < i {
            k
        } else {
            k + 1
        }] by {}
        match cache::entry_index(entries, other, 0) {
            Some(j) => {
                let at = if j < i {
                    j
                } else {
                    j - 1
                };
                assert(moved[at] == entries[j]);
                let found = cache::entry_index(moved, other, 0);
                assert(found is Some);
                if found->0 != at {
                    if found->0 < at {
                        assert(moved[found->0].key != moved[at].key);
                    } else {
                        assert(moved[at].key != moved[found->0].key);
                    }
                }
            },
            None => {
                if let Some(k) = cache::entry_index(moved, other, 0) {
                    if k < last {
                        let j = if k < i {
                            k
                        } else {
                            k + 1
                        };
                        assert(entries[j].key == other);
                    }
                }
            },
        }
    }
}

proof fn lemma_calls_fault(calls: Seq<CallView>, position: nat, from: int)
    requires
        0 <= from,
    ensures
        content::calls_fault(calls, position, from) is None <==> forall|k: int|
            from <= k < calls.len() ==> (json::parsed((#[trigger] calls[k]).arguments) matches Ok(
                tree,
            ) && tree is Object),
    decreases calls.len() - from,
{
    if from < calls.len() {
        lemma_calls_fault(calls, position, from + 1);
        let sound = json::parsed(calls[from].arguments) matches Ok(tree) && tree is Object;
        if !sound {
            assert(!(json::parsed(calls[from].arguments) matches Ok(tree) && tree is Object));
        }
    }
}

proof fn lemma_blocks_fault(blocks: Seq<BlockView>, from: int)
    requires
        0 <= from,
    ensures
        content::blocks_fault(blocks, from) is None <==> forall|k: int|
            from <= k < blocks.len() ==> content::normal_block(#[trigger] blocks[k]) is Ok,
    decreases blocks.len() - from,
{
    if from < blocks.len() {
        lemma_blocks_fault(blocks, from + 1);
    }
}

/// Whether a message is fit to be sent: the arguments of its calls are JSON objects,
/// and its blocks can be read.
pub open spec fn fit(m: MessageView) -> bool {
    &&& forall|k: int|
        0 <= k < m.tool_calls.len() ==> (json::parsed(
            (#[trigger] m.tool_calls[k]).arguments,
        ) matches Ok(tree) && tree is Object)
    &&& forall|k: int|
        0 <= k < m.content_blocks.len() ==> content::normal_block(
            #[trigger] m.content_blocks[k],
        ) is Ok
}

/// Messages are refused exactly where one of them is not fit to be sent.
pub proof fn law_unfit_messages_alone_are_refused(messages: Seq<MessageView>, from: int)
    requires
        0 <= from,
    ensures
        content::messages_fault(messages, from) is None <==> forall|i: int|
            from <= i < messages.len() ==> fit(#[trigger] messages[i]),
    decreases messages.len() - from,
{
    if from < messages.len() {
        law_unfit_messages_alone_are_refused(messages, from + 1);
        lemma_calls_fault(messages[from].tool_calls, from as nat, 0);
        lemma_blocks_fault(messages[from].content_blocks, 0);
        assert(content::message_fault(messages[from], from as nat) is None <==> fit(
            messages[from],
        ));
    }
}

/// A block of data is read with its media type in small letters without the white
/// space around it, and its payload in the normal form of the same bytes.
pub proof fn law_data_is_read_as_given(media_type: Seq<char>, data: Seq<char>)
    ensures
        content::normal_data(media_type, data) matches Ok((kind, payload)) ==> kind
            == crate::text::lower(crate::text::trim(media_type)) && crate::provider::base64::decoded(
            payload,
        ) == crate::provider::base64::decoded(data),
{
    if content::normal_data(media_type, data) is Ok {
        crate::provider::base64::law_encoding_reads_back(crate::provider::base64::decoded(data));
    }
}

} // verus!
