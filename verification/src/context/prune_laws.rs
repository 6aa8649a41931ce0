//! What pruning does to a conversation, call by call and result by result: which
//! calls can be judged at all, what a judgement changes, and what stays as it was.
use vstd::prelude::*;
use vstd::string::*;

use crate::context::jev_prune;
use crate::context::jev_prune::Candidate;
use crate::context::jev_request;
use crate::provider::message;
use crate::provider::message::{CallView, MessageView};
use crate::text;

verus! {

/// Whether the message at `t` is a result for a call with the id, with nothing but
/// results from `from` on up to it.
pub open spec fn answers(messages: Seq<MessageView>, id: Seq<char>, from: int, t: int) -> bool {
    &&& from <= t < messages.len()
    &&& forall|j: int| from <= j <= t ==> (#[trigger] messages[j]).role == "tool"@
    &&& messages[t].tool_call_id == Some(id)
}

/// Whether an assistant's call and a result belong together beyond doubt: no other
/// call of that message has the call's id, and among the results that directly
/// follow it is the only one with that id.
pub open spec fn linked(messages: Seq<MessageView>, a: int, k: int, t: int) -> bool {
    &&& 0 <= a < messages.len()
    &&& messages[a].role == "assistant"@
    &&& 0 <= k < messages[a].tool_calls.len()
    &&& forall|other: int|
        0 <= other < messages[a].tool_calls.len() && other != k ==> (
        #[trigger] messages[a].tool_calls[other]).id != messages[a].tool_calls[k].id
    &&& answers(messages, messages[a].tool_calls[k].id, a + 1, t)
    &&& forall|other: int|
        #[trigger] answers(messages, messages[a].tool_calls[k].id, a + 1, other) ==> other == t
}

proof fn lemma_no_id(calls: Seq<CallView>, id: Seq<char>)
    ensures
        jev_prune::id_count(calls, id) == 0 <==> forall|k: int|
            0 <= k < calls.len() ==> (#[trigger] calls[k]).id != id,
    decreases calls.len(),
{
    if calls.len() > 0 {
        let front = calls.drop_last();
        lemma_no_id(front, id);
        if jev_prune::id_count(calls, id) == 0 {
            assert forall|k: int| 0 <= k < calls.len() implies (#[trigger] calls[k]).id != id by {
                if k < front.len() {
                    assert(front[k] == calls[k]);
                }
            }
        } else if forall|k: int| 0 <= k < calls.len() ==> (#[trigger] calls[k]).id != id {
            assert forall|k: int| 0 <= k < front.len() implies (#[trigger] front[k]).id != id by {
                assert(front[k] == calls[k]);
            }
            assert(calls[calls.len() - 1].id != id);
        }
    }
}

proof fn lemma_one_id(calls: Seq<CallView>, k: int)
    requires
        0 <= k < calls.len(),
    ensures
        jev_prune::id_count(calls, calls[k].id) >= 1,
        jev_prune::id_count(calls, calls[k].id) == 1 <==> forall|other: int|
            0 <= other < calls.len() && other != k ==> (#[trigger] calls[other]).id != calls[k].id,
    decreases calls.len(),
{
    let id = calls[k].id;
    let front = calls.drop_last();
    if k == calls.len() - 1 {
        lemma_no_id(front, id);
        assert(forall|j: int| 0 <= j < front.len() ==> front[j] == calls[j]);
        if jev_prune::id_count(calls, id) == 1 {
            assert forall|other: int| 0 <= other < calls.len() && other != k implies (
            #[trigger] calls[other]).id != id by {
                assert(front[other].id != id);
            }
        } else if forall|other: int|
            0 <= other < calls.len() && other != k ==> (#[trigger] calls[other]).id != id {
            assert forall|j: int| 0 <= j < front.len() implies (#[trigger] front[j]).id != id by {
                assert(calls[j].id != id);
            }
        }
    } else {
        lemma_one_id(front, k);
        assert(front[k] == calls[k]);
        if jev_prune::id_count(calls, id) == 1 {
            assert forall|other: int| 0 <= other < calls.len() && other != k implies (
            #[trigger] calls[other]).id != id by {
                if other < front.len() {
                    assert(front[other].id != id);
                }
            }
        } else if forall|other: int|
            0 <= other < calls.len() && other != k ==> (#[trigger] calls[other]).id != id {
            assert forall|other: int| 0 <= other < front.len() && other != k implies (
            #[trigger] front[other]).id != id by {
                assert(calls[other].id != id);
            }
            assert(calls[calls.len() - 1].id != id);
        }
    }
}

/// The positions of results are those of the answers, each once and in order.
proof fn lemma_positions(messages: Seq<MessageView>, id: Seq<char>, cursor: int)
    requires
        0 <= cursor,
    ensures
        ({
            let found = jev_prune::result_positions(messages, id, cursor);
            &&& forall|p: int|
                0 <= p < found.len() ==> answers(messages, id, cursor, #[trigger] found[p])
            &&& forall|p: int, q: int|
                0 <= p < q < found.len() ==> #[trigger] found[p] < #[trigger] found[q]
            &&& forall|t: int| #[trigger] answers(messages, id, cursor, t) ==> found.contains(t)
        }),
    decreases messages.len() - cursor,
{
    let found = jev_prune::result_positions(messages, id, cursor);
    if cursor < messages.len() && messages[cursor].role == "tool"@ {
        lemma_positions(messages, id, cursor + 1);
        let rest = jev_prune::result_positions(messages, id, cursor + 1);
        let head: int = if messages[cursor].tool_call_id == Some(id) {
            1
        } else {
            0
        };
        assert(head == 1 ==> found == seq![cursor] + rest);
        assert(head == 0 ==> found == rest);
        assert forall|p: int| 0 <= p < found.len() implies answers(
            messages,
            id,
            cursor,
            #[trigger] found[p],
        ) by {
            if p >= head {
                assert(found[p] == rest[p - head]);
                assert(answers(messages, id, cursor + 1, rest[p - head]));
            }
        }
        assert forall|p: int, q: int| 0 <= p < q < found.len() implies #[trigger] found[p]
            < #[trigger] found[q] by {
            assert(found[q] == rest[q - head]);
            assert(answers(messages, id, cursor + 1, rest[q - head]));
            if p >= head {
                assert(found[p] == rest[p - head]);
            }
        }
        assert forall|t: int| #[trigger] answers(messages, id, cursor, t) implies found.contains(
            t,
        ) by {
            if t == cursor {
                assert(found[0] == cursor);
            } else {
                assert(answers(messages, id, cursor + 1, t));
                let p = choose|p: int| 0 <= p < rest.len() && rest[p] == t;
                assert(found[p + head] == t);
            }
        }
    } else {
        assert forall|t: int| #[trigger] answers(messages, id, cursor, t) implies found.contains(
            t,
        ) by {
            assert(messages[cursor].role == "tool"@);
        }
    }
}

/// The test that finds a candidate is the one that links it.
proof fn lemma_linked(messages: Seq<MessageView>, a: int, k: int)
    requires
        0 <= a < messages.len(),
        messages[a].role == "assistant"@,
        0 <= k < messages[a].tool_calls.len(),
    ensures
        ({
            let id = messages[a].tool_calls[k].id;
            let found = jev_prune::result_positions(messages, id, a + 1);
            let taken = jev_prune::id_count(messages[a].tool_calls, id) == 1 && found.len() == 1;
            &&& taken ==> linked(messages, a, k, found[0])
            &&& forall|t: int| #[trigger]
                linked(messages, a, k, t) ==> taken && found[0] == t
        }),
{
    let id = messages[a].tool_calls[k].id;
    let found = jev_prune::result_positions(messages, id, a + 1);
    lemma_one_id(messages[a].tool_calls, k);
    lemma_positions(messages, id, a + 1);
    if found.len() == 1 {
        assert(answers(messages, id, a + 1, found[0]));
        assert forall|other: int| #[trigger] answers(messages, id, a + 1, other) implies other
            == found[0] by {
            let p = choose|p: int| 0 <= p < found.len() && found[p] == other;
        }
    }
    assert forall|t: int| #[trigger] linked(messages, a, k, t) implies found.len() == 1
        && found[0] == t && jev_prune::id_count(messages[a].tool_calls, id) == 1 by {
        assert(found.contains(t));
        assert forall|p: int| 0 <= p < found.len() implies found[p] == t by {
            assert(answers(messages, id, a + 1, found[p]));
        }
        if found.len() > 1 {
            assert(found[0] < found[1]);
        }
    }
}

/// Whether a candidate stands before another.
pub open spec fn stands_before(c: Candidate, d: Candidate) -> bool {
    c.assistant < d.assistant || (c.assistant == d.assistant && c.call < d.call)
}

proof fn lemma_calls_in_order(messages: Seq<MessageView>, a: int, k: int)
    requires
        0 <= a < messages.len(),
        messages[a].role == "assistant"@,
        0 <= k <= messages[a].tool_calls.len(),
    ensures
        ({
            let found = jev_prune::call_candidates(messages, a, k);
            &&& forall|i: int|
                0 <= i < found.len() ==> (#[trigger] found[i]).assistant == a && found[i].call < k
                    && linked(messages, a, found[i].call, found[i].tool)
            &&& forall|i: int, j: int|
                0 <= i < j < found.len() ==> stands_before(#[trigger] found[i], #[trigger] found[j])
        }),
    decreases k,
{
    if k > 0 {
        lemma_calls_in_order(messages, a, k - 1);
        lemma_linked(messages, a, k - 1);
        let before = jev_prune::call_candidates(messages, a, k - 1);
        let found = jev_prune::call_candidates(messages, a, k);
        assert forall|i: int| 0 <= i < found.len() implies (#[trigger] found[i]).assistant == a
            && found[i].call < k && linked(messages, a, found[i].call, found[i].tool) by {
            if i < before.len() {
                assert(found[i] == before[i]);
            }
        }
        assert forall|i: int, j: int| 0 <= i < j < found.len() implies stands_before(
            #[trigger] found[i],
            #[trigger] found[j],
        ) by {
            assert(found[i] == before[i]);
            if j < before.len() {
                assert(found[j] == before[j]);
            }
        }
    }
}

proof fn lemma_in_order(messages: Seq<MessageView>, n: int)
    requires
        0 <= n <= messages.len(),
    ensures
        ({
            let found = jev_prune::candidates(messages, n);
            &&& forall|i: int|
                0 <= i < found.len() ==> (#[trigger] found[i]).assistant < n && linked(
                    messages,
                    found[i].assistant,
                    found[i].call,
                    found[i].tool,
                )
            &&& forall|i: int, j: int|
                0 <= i < j < found.len() ==> stands_before(#[trigger] found[i], #[trigger] found[j])
        }),
    decreases n,
{
    if n > 0 {
        lemma_in_order(messages, n - 1);
        let before = jev_prune::candidates(messages, n - 1);
        let found = jev_prune::candidates(messages, n);
        if messages[n - 1].role == "assistant"@ {
            let own = jev_prune::call_candidates(
                messages,
                n - 1,
                messages[n - 1].tool_calls.len() as int,
            );
            lemma_calls_in_order(messages, n - 1, messages[n - 1].tool_calls.len() as int);
            assert(found == before + own);
            assert forall|i: int| 0 <= i < found.len() implies (#[trigger] found[i]).assistant < n
                && linked(messages, found[i].assistant, found[i].call, found[i].tool) by {
                if i >= before.len() {
                    assert(found[i] == own[i - before.len()]);
                } else {
                    assert(found[i] == before[i]);
                }
            }
            assert forall|i: int, j: int| 0 <= i < j < found.len() implies stands_before(
                #[trigger] found[i],
                #[trigger] found[j],
            ) by {
                if i >= before.len() {
                    assert(found[i] == own[i - before.len()]);
                    assert(found[j] == own[j - before.len()]);
                } else {
                    assert(found[i] == before[i]);
                    if j >= before.len() {
                        assert(found[j] == own[j - before.len()]);
                    } else {
                        assert(found[j] == before[j]);
                    }
                }
            }
        }
    }
}

/// Every candidate is a call with the one result that belongs to it, and they come
/// in the order of their calls, none twice.
pub proof fn law_candidates_are_linked(messages: Seq<MessageView>)
    ensures
        ({
            let found = jev_prune::all_candidates(messages);
            &&& forall|i: int|
                0 <= i < found.len() ==> linked(
                    messages,
                    (#[trigger] found[i]).assistant,
                    found[i].call,
                    found[i].tool,
                )
            &&& forall|i: int, j: int|
                0 <= i < j < found.len() ==> stands_before(#[trigger] found[i], #[trigger] found[j])
        }),
{
    lemma_in_order(messages, messages.len() as int);
}

proof fn lemma_call_found(messages: Seq<MessageView>, a: int, k: int, t: int, n: int) -> (i: int)
    requires
        linked(messages, a, k, t),
        k < n <= messages[a].tool_calls.len(),
    ensures
        0 <= i < jev_prune::call_candidates(messages, a, n).len(),
        jev_prune::call_candidates(messages, a, n)[i] == (Candidate {
            assistant: a,
            call: k,
            tool: t,
        }),
    decreases n,
{
    if n == k + 1 {
        lemma_linked(messages, a, k);
        jev_prune::call_candidates(messages, a, n).len() - 1
    } else {
        lemma_call_found(messages, a, k, t, n - 1)
    }
}

proof fn lemma_found(messages: Seq<MessageView>, a: int, k: int, t: int, n: int) -> (i: int)
    requires
        linked(messages, a, k, t),
        a < n <= messages.len(),
    ensures
        0 <= i < jev_prune::candidates(messages, n).len(),
        jev_prune::candidates(messages, n)[i] == (Candidate { assistant: a, call: k, tool: t }),
    decreases n,
{
    if n == a + 1 {
        let j = lemma_call_found(
            messages,
            a,
            k,
            t,
            messages[a].tool_calls.len() as int,
        );
        jev_prune::candidates(messages, n - 1).len() + j
    } else {
        lemma_found(messages, a, k, t, n - 1)
    }
}

/// No call with the one result that belongs to it is overlooked.
pub proof fn law_linked_calls_are_candidates(messages: Seq<MessageView>, a: int, k: int, t: int) -> (i:
    int)
    requires
        linked(messages, a, k, t),
    ensures
        0 <= i < jev_prune::all_candidates(messages).len(),
        jev_prune::all_candidates(messages)[i] == (Candidate { assistant: a, call: k, tool: t }),
{
    lemma_found(messages, a, k, t, messages.len() as int)
}

/// No result belongs to two candidates.
proof fn lemma_results_differ(messages: Seq<MessageView>, i: int, j: int)
    requires
        0 <= i < jev_prune::all_candidates(messages).len(),
        0 <= j < jev_prune::all_candidates(messages).len(),
        i != j,
    ensures
        jev_prune::all_candidates(messages)[i].tool != jev_prune::all_candidates(messages)[j].tool,
{
    law_candidates_are_linked(messages);
    let found = jev_prune::all_candidates(messages);
    let low = if i < j {
        found[i]
    } else {
        found[j]
    };
    let high = if i < j {
        found[j]
    } else {
        found[i]
    };
    assert(stands_before(low, high));
    assert(linked(messages, low.assistant, low.call, low.tool));
    assert(linked(messages, high.assistant, high.call, high.tool));
    reveal_strlit("tool");
    reveal_strlit("assistant");
    assert("tool"@.len() != "assistant"@.len());
    if low.tool == high.tool {
        if low.assistant < high.assistant {
            assert(messages[high.assistant].role == "tool"@);
        } else {
            assert(messages[low.assistant].tool_calls[high.call].id
                != messages[low.assistant].tool_calls[low.call].id);
        }
    }
}

/// What a run leaves of its messages.
spec fn left(messages: Seq<MessageView>, keeps: Seq<Option<u64>>, n: int) -> Seq<MessageView> {
    jev_prune::pruned(messages, jev_prune::all_candidates(messages), keeps, n)
}

/// Whether a run drops its candidate.
spec fn drops(messages: Seq<MessageView>, keeps: Seq<Option<u64>>, i: int) -> bool {
    jev_prune::is_dropped(messages, jev_prune::all_candidates(messages)[i], i, keeps[i])
}

proof fn lemma_step(messages: Seq<MessageView>, keeps: Seq<Option<u64>>, n: int)
    requires
        0 < n <= jev_prune::all_candidates(messages).len(),
    ensures
        jev_prune::candidate_ok(messages, jev_prune::all_candidates(messages)[n - 1]),
        jev_prune::same_frame(messages, left(messages, keeps, n - 1)),
        jev_prune::same_frame(messages, left(messages, keeps, n)),
        !drops(messages, keeps, n - 1) ==> left(messages, keeps, n) == left(messages, keeps, n - 1),
        drops(messages, keeps, n - 1) ==> left(messages, keeps, n) == jev_prune::with_dropped(
            left(messages, keeps, n - 1),
            jev_prune::all_candidates(messages)[n - 1],
            jev_prune::note(
                (n - 1) as nat,
                jev_prune::kept_head(messages, jev_prune::all_candidates(messages)[n - 1]),
            ),
        ),
{
    jev_prune::lemma_candidates_ok(messages, messages.len() as int);
    jev_prune::law_pruning_keeps_frame(messages, keeps, n - 1);
    jev_prune::law_pruning_keeps_frame(messages, keeps, n);
}

proof fn lemma_untouched_call(
    messages: Seq<MessageView>,
    keeps: Seq<Option<u64>>,
    n: int,
    a: int,
    k: int,
)
    requires
        0 <= n <= jev_prune::all_candidates(messages).len(),
        0 <= a < messages.len(),
        0 <= k < messages[a].tool_calls.len(),
        forall|i: int|
            0 <= i < n && drops(messages, keeps, i) ==> {
                let c = #[trigger] jev_prune::all_candidates(messages)[i];
                c.assistant != a || c.call != k
            },
    ensures
        left(messages, keeps, n).len() == messages.len(),
        left(messages, keeps, n)[a].tool_calls.len() == messages[a].tool_calls.len(),
        left(messages, keeps, n)[a].tool_calls[k] == messages[a].tool_calls[k],
    decreases n,
{
    if n > 0 {
        lemma_untouched_call(messages, keeps, n - 1, a, k);
        lemma_step(messages, keeps, n);
        let c = jev_prune::all_candidates(messages)[n - 1];
    }
}

proof fn lemma_dropped_call(
    messages: Seq<MessageView>,
    keeps: Seq<Option<u64>>,
    n: int,
    i: int,
)
    requires
        0 <= i < n <= jev_prune::all_candidates(messages).len(),
        drops(messages, keeps, i),
    ensures
        ({
            let c = jev_prune::all_candidates(messages)[i];
            left(messages, keeps, n)[c.assistant].tool_calls[c.call] == (CallView {
                arguments: "{}"@,
                ..messages[c.assistant].tool_calls[c.call]
            })
        }),
    decreases n,
{
    lemma_step(messages, keeps, n);
    let c = jev_prune::all_candidates(messages)[i];
    let d = jev_prune::all_candidates(messages)[n - 1];
    let before = left(messages, keeps, n - 1);
    if i < n - 1 {
        lemma_step(messages, keeps, i + 1);
        lemma_dropped_call(messages, keeps, n - 1, i);
        assert(before[c.assistant].tool_calls.len() == messages[c.assistant].tool_calls.len());
        assert(before[d.assistant].tool_calls.len() == messages[d.assistant].tool_calls.len());
    } else {
        assert(before[c.assistant].tool_calls[c.call].id
            == messages[c.assistant].tool_calls[c.call].id);
    }
}

proof fn lemma_untouched_result(
    messages: Seq<MessageView>,
    keeps: Seq<Option<u64>>,
    n: int,
    t: int,
)
    requires
        0 <= n <= jev_prune::all_candidates(messages).len(),
        0 <= t < messages.len(),
        forall|i: int|
            0 <= i < n && drops(messages, keeps, i) ==> (
            #[trigger] jev_prune::all_candidates(messages)[i]).tool != t,
    ensures
        left(messages, keeps, n).len() == messages.len(),
        left(messages, keeps, n)[t].content == messages[t].content,
        left(messages, keeps, n)[t].content_blocks == messages[t].content_blocks,
    decreases n,
{
    if n > 0 {
        lemma_untouched_result(messages, keeps, n - 1, t);
        lemma_step(messages, keeps, n);
        let c = jev_prune::all_candidates(messages)[n - 1];
    }
}

proof fn lemma_dropped_result(
    messages: Seq<MessageView>,
    keeps: Seq<Option<u64>>,
    n: int,
    i: int,
)
    requires
        0 <= i < n <= jev_prune::all_candidates(messages).len(),
        drops(messages, keeps, i),
    ensures
        ({
            let c = jev_prune::all_candidates(messages)[i];
            let after = left(messages, keeps, n)[c.tool];
            after.content == jev_prune::note(i as nat, jev_prune::kept_head(messages, c))
                && after.content_blocks == Seq::<message::BlockView>::empty()
        }),
    decreases n,
{
    lemma_step(messages, keeps, n);
    if i < n - 1 {
        lemma_dropped_result(messages, keeps, n - 1, i);
        lemma_step(messages, keeps, i + 1);
        lemma_results_differ(messages, i, n - 1);
    }
}

/// The judge's word that a candidate is no longer needed: that it is needed is less
/// likely than one in five.
pub open spec fn judged_stale(keeps: Seq<Option<u64>>, i: int) -> bool {
    keeps[i] matches Some(p) && 5 * p < jev_request::CERTAIN
}

/// A call keeps its arguments unless the judge found that very call to be no longer
/// needed; and where it loses them, it keeps its id and its name, and its arguments
/// become those of an empty object.
pub proof fn law_pruning_blanks_stale_calls_alone(
    messages: Seq<MessageView>,
    keeps: Seq<Option<u64>>,
    a: int,
    k: int,
)
    requires
        keeps.len() == jev_prune::all_candidates(messages).len(),
        0 <= a < messages.len(),
        0 <= k < messages[a].tool_calls.len(),
    ensures
        ({
            let found = jev_prune::all_candidates(messages);
            let after = jev_prune::pruned(messages, found, keeps, found.len() as int);
            let call = after[a].tool_calls[k];
            let own = messages[a].tool_calls[k];
            &&& after.len() == messages.len()
            &&& after[a].tool_calls.len() == messages[a].tool_calls.len()
            &&& call.id == own.id
            &&& call.name == own.name
            &&& call.arguments == own.arguments || (call.arguments == "{}"@ && exists|i: int|
                0 <= i < found.len() && (#[trigger] found[i]).assistant == a && found[i].call == k
                    && judged_stale(keeps, i))
        }),
{
    let found = jev_prune::all_candidates(messages);
    let n = found.len() as int;
    if exists|i: int|
        0 <= i < n && (#[trigger] found[i]).assistant == a && found[i].call == k && drops(
            messages,
            keeps,
            i,
        ) {
        let i = choose|i: int|
            0 <= i < n && (#[trigger] found[i]).assistant == a && found[i].call == k && drops(
                messages,
                keeps,
                i,
            );
        lemma_dropped_call(messages, keeps, n, i);
        jev_prune::law_pruning_keeps_frame(messages, keeps, n);
        assert(judged_stale(keeps, i));
    } else {
        lemma_untouched_call(messages, keeps, n, a, k);
    }
}

/// The text and the blocks of a message stay as they were unless it is the result
/// of a call that the judge found to be no longer needed.
pub proof fn law_pruning_replaces_stale_results_alone(
    messages: Seq<MessageView>,
    keeps: Seq<Option<u64>>,
    t: int,
)
    requires
        keeps.len() == jev_prune::all_candidates(messages).len(),
        0 <= t < messages.len(),
    ensures
        ({
            let found = jev_prune::all_candidates(messages);
            let after = jev_prune::pruned(messages, found, keeps, found.len() as int);
            (after[t].content == messages[t].content && after[t].content_blocks
                == messages[t].content_blocks) || exists|i: int|
                0 <= i < found.len() && (#[trigger] found[i]).tool == t && judged_stale(keeps, i)
        }),
{
    let found = jev_prune::all_candidates(messages);
    let n = found.len() as int;
    if !(exists|i: int|
        0 <= i < n && (#[trigger] found[i]).tool == t && judged_stale(keeps, i)) {
        assert forall|i: int| 0 <= i < n && drops(messages, keeps, i) implies (
        #[trigger] jev_prune::all_candidates(messages)[i]).tool != t by {
            assert(judged_stale(keeps, i));
        }
        lemma_untouched_result(messages, keeps, n, t);
    }
}

/// A candidate that was not judged, or judged as still needed, keeps its arguments
/// and its result as they were.
pub proof fn law_needed_candidates_are_kept_whole(
    messages: Seq<MessageView>,
    keeps: Seq<Option<u64>>,
    i: int,
)
    requires
        keeps.len() == jev_prune::all_candidates(messages).len(),
        0 <= i < keeps.len(),
        !judged_stale(keeps, i),
    ensures
        ({
            let found = jev_prune::all_candidates(messages);
            let after = jev_prune::pruned(messages, found, keeps, found.len() as int);
            let c = found[i];
            &&& after[c.assistant].tool_calls[c.call] == messages[c.assistant].tool_calls[c.call]
            &&& after[c.tool].content == messages[c.tool].content
            &&& after[c.tool].content_blocks == messages[c.tool].content_blocks
        }),
{
    let found = jev_prune::all_candidates(messages);
    let n = found.len() as int;
    let c = found[i];
    law_candidates_are_linked(messages);
    assert(linked(messages, c.assistant, c.call, c.tool));
    assert forall|j: int| 0 <= j < n && drops(messages, keeps, j) implies {
        let d = #[trigger] jev_prune::all_candidates(messages)[j];
        d.assistant != c.assistant || d.call != c.call
    } by {
        let d = found[j];
        if i < j {
            assert(stands_before(c, d));
        } else if j < i {
            assert(stands_before(d, c));
        }
    }
    lemma_untouched_call(messages, keeps, n, c.assistant, c.call);
    assert forall|j: int| 0 <= j < n && drops(messages, keeps, j) implies (
    #[trigger] jev_prune::all_candidates(messages)[j]).tool != c.tool by {
        if j != i {
            lemma_results_differ(messages, i, j);
        }
    }
    lemma_untouched_result(messages, keeps, n, c.tool);
}

/// What a candidate that was judged as no longer needed takes: its arguments and its
/// result.
pub open spec fn chars_of(messages: Seq<MessageView>, c: Candidate) -> int {
    (messages[c.assistant].tool_calls[c.call].arguments.len() + messages[c.tool].content.len()) as int
}

/// A candidate that was judged as no longer needed either stays whole, which it may
/// only where there is too little to save, or both its halves give way: that very
/// call's arguments become those of an empty object, and its result a note that says
/// which call was dropped, keeps the start of a long result and has no blocks. The
/// note saves room.
pub proof fn law_stale_candidates_give_way(
    messages: Seq<MessageView>,
    keeps: Seq<Option<u64>>,
    i: int,
)
    requires
        keeps.len() == jev_prune::all_candidates(messages).len(),
        0 <= i < keeps.len(),
        judged_stale(keeps, i),
    ensures
        ({
            let found = jev_prune::all_candidates(messages);
            let after = jev_prune::pruned(messages, found, keeps, found.len() as int);
            let c = found[i];
            let opening = "[jev-compaction: tool call "@ + text::decimal(i as nat)
                + " dropped as no longer needed"@;
            if chars_of(messages, c) >= 900 + text::decimal(i as nat).len() || chars_of(after, c)
                < chars_of(messages, c) {
                &&& after[c.assistant].tool_calls[c.call].arguments == "{}"@
                &&& after[c.tool].content_blocks.len() == 0
                &&& opening.is_prefix_of(after[c.tool].content)
                &&& chars_of(messages, c) > 1200 ==> messages[c.tool].content.take(
                    if messages[c.tool].content.len() < 300 {
                        messages[c.tool].content.len() as int
                    } else {
                        300
                    },
                ).is_suffix_of(after[c.tool].content)
                &&& chars_of(messages, c) >= chars_of(after, c) + 512
            } else {
                &&& after[c.assistant].tool_calls[c.call]
                    == messages[c.assistant].tool_calls[c.call]
                &&& after[c.tool].content == messages[c.tool].content
                &&& after[c.tool].content_blocks == messages[c.tool].content_blocks
            }
        }),
{
    reveal_strlit("{}");
    reveal_strlit("[jev-compaction: tool call ");
    reveal_strlit(" dropped as no longer needed]");
    reveal_strlit(" dropped as no longer needed; result head]\n");
    reveal_strlit(" dropped as no longer needed");
    let found = jev_prune::all_candidates(messages);
    let n = found.len() as int;
    let after = left(messages, keeps, n);
    let c = found[i];
    let head = jev_prune::kept_head(messages, c);
    let note = jev_prune::note(i as nat, head);
    let opening = "[jev-compaction: tool call "@ + text::decimal(i as nat)
        + " dropped as no longer needed"@;
    assert(opening.is_prefix_of(note)) by {
        if head.len() == 0 {
            assert(note.take(opening.len() as int) =~= opening);
        } else {
            assert(note.take(opening.len() as int) =~= opening);
        }
    }
    assert(head.is_suffix_of(note)) by {
        assert(note.subrange(note.len() - head.len(), note.len() as int) =~= head);
    }
    if drops(messages, keeps, i) {
        lemma_dropped_call(messages, keeps, n, i);
        lemma_dropped_result(messages, keeps, n, i);
    } else {
        law_candidates_are_linked(messages);
        assert(linked(messages, c.assistant, c.call, c.tool));
        assert forall|j: int| 0 <= j < n && drops(messages, keeps, j) implies {
            let d = #[trigger] jev_prune::all_candidates(messages)[j];
            d.assistant != c.assistant || d.call != c.call
        } by {
            let d = found[j];
            if i < j {
                assert(stands_before(c, d));
            } else if j < i {
                assert(stands_before(d, c));
            }
        }
        lemma_untouched_call(messages, keeps, n, c.assistant, c.call);
        assert forall|j: int| 0 <= j < n && drops(messages, keeps, j) implies (
        #[trigger] jev_prune::all_candidates(messages)[j]).tool != c.tool by {
            if j != i {
                lemma_results_differ(messages, i, j);
            }
        }
        lemma_untouched_result(messages, keeps, n, c.tool);
    }
}

/// An answer gives each candidate of its batch the probability at its own place, and
/// no other candidate any.
pub proof fn law_judgements_reach_their_candidates(
    before: Seq<Option<u64>>,
    batch: Seq<int>,
    probabilities: Seq<u64>,
    n: int,
)
    requires
        0 <= n <= batch.len(),
        batch.len() == probabilities.len(),
        jev_prune::batch_ok(batch, before.len() as int),
    ensures
        ({
            let after = jev_prune::judged_keeps(before, batch, probabilities, n);
            &&& after.len() == before.len()
            &&& forall|j: int|
                0 <= j < n ==> after[#[trigger] batch[j]] == Some(probabilities[j])
            &&& forall|i: int|
                0 <= i < before.len() && !batch.take(n).contains(i) ==> (#[trigger] after[i])
                    == before[i]
        }),
    decreases n,
{
    if n > 0 {
        law_judgements_reach_their_candidates(before, batch, probabilities, n - 1);
        let earlier = jev_prune::judged_keeps(before, batch, probabilities, n - 1);
        let after = jev_prune::judged_keeps(before, batch, probabilities, n);
        assert forall|j: int| 0 <= j < n implies after[#[trigger] batch[j]] == Some(
            probabilities[j],
        ) by {
            if j < n - 1 {
                assert(batch[j] < batch[n - 1]);
            }
        }
        assert forall|i: int|
            0 <= i < before.len() && !batch.take(n).contains(i) implies (#[trigger] after[i])
            == before[i] by {
            assert(batch.take(n)[n - 1] == batch[n - 1]);
            let front = batch.take(n - 1);
            if front.contains(i) {
                let j = choose|j: int| 0 <= j < front.len() && front[j] == i;
                assert(batch.take(n)[j] == i);
            }
            assert(earlier[i] == before[i]);
        }
    }
}

/// The candidates of batches, one batch after the other.
pub open spec fn flat(batches: Seq<Seq<int>>) -> Seq<int>
    decreases batches.len(),
{
    if batches.len() == 0 {
        Seq::empty()
    } else {
        flat(batches.drop_last()) + batches.last()
    }
}

/// The candidates among the first `n` that are in batches already.
spec fn taken(messages: Seq<MessageView>, found: Seq<Candidate>, n: int) -> Seq<int> {
    let b = jev_prune::batched(messages, found, n);
    flat(b.done) + b.batch
}

proof fn lemma_taken(messages: Seq<MessageView>, found: Seq<Candidate>, n: int)
    requires
        0 <= n <= found.len(),
    ensures
        forall|j: int|
            0 <= j < taken(messages, found, n).len() ==> 0 <= #[trigger] taken(
                messages,
                found,
                n,
            )[j] < n && jev_prune::judgeable(
                messages,
                found[taken(messages, found, n)[j]],
                taken(messages, found, n)[j],
            ),
        forall|j: int, k: int|
            0 <= j < k < taken(messages, found, n).len() ==> #[trigger] taken(messages, found, n)[j]
                < #[trigger] taken(messages, found, n)[k],
        forall|i: int|
            0 <= i < n && #[trigger] jev_prune::judgeable(messages, found[i], i) ==> taken(
                messages,
                found,
                n,
            ).contains(i),
    decreases n,
{
    let now = taken(messages, found, n);
    if n > 0 {
        lemma_taken(messages, found, n - 1);
        let before = taken(messages, found, n - 1);
        let b = jev_prune::batched(messages, found, n - 1);
        let a = jev_prune::batched(messages, found, n);
        if jev_prune::judgeable(messages, found[n - 1], n - 1) {
            if a.done.len() > b.done.len() {
                assert(a.done.drop_last() =~= b.done);
            }
            assert(now =~= before.push(n - 1));
            assert forall|i: int|
                0 <= i < n && #[trigger] jev_prune::judgeable(messages, found[i], i) implies now.contains(
                i,
            ) by {
                if i < n - 1 {
                    let j = choose|j: int| 0 <= j < before.len() && before[j] == i;
                    assert(now[j] == i);
                } else {
                    assert(now[before.len() as int] == i);
                }
            }
        } else {
            assert(now == before);
        }
    }
}

/// The batches hold every candidate that can be judged, each once and in order, and
/// no other: one whose result has no blocks and that fits whole.
pub proof fn law_every_judgeable_candidate_is_asked_about_once(
    messages: Seq<MessageView>,
    found: Seq<Candidate>,
)
    ensures
        ({
            let asked = flat(jev_prune::batches_of(messages, found));
            &&& forall|j: int, k: int|
                0 <= j < k < asked.len() ==> #[trigger] asked[j] < #[trigger] asked[k]
            &&& forall|i: int| #[trigger]
                asked.contains(i) <==> 0 <= i < found.len()
                    && messages[found[i].tool].content_blocks.len() == 0 && jev_prune::body_of(
                    messages,
                    found[i],
                ).len() + jev_prune::key_of(i as nat).len() <= jev_prune::CANDIDATES_MAX_CHARS
        }),
{
    let n = found.len() as int;
    lemma_taken(messages, found, n);
    let b = jev_prune::batched(messages, found, n);
    let all = jev_prune::batches_of(messages, found);
    let asked = flat(all);
    if b.batch.len() > 0 {
        assert(all.drop_last() =~= b.done);
        assert(all.last() == b.batch);
    }
    assert(asked =~= taken(messages, found, n));
    assert forall|i: int| #[trigger] asked.contains(i) <==> 0 <= i < n && jev_prune::judgeable(
        messages,
        found[i],
        i,
    ) by {
        if asked.contains(i) {
            let j = choose|j: int| 0 <= j < asked.len() && asked[j] == i;
            assert(taken(messages, found, n)[j] == i);
        }
    }
}

} // verus!
