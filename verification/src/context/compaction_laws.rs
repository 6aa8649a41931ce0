//! What a compaction promises of a conversation, from the messages that go in to
//! those that come out.
use vstd::prelude::*;
use vstd::string::*;
use crate::context::apply;
use crate::context::compact;
use crate::context::select;
use crate::provider::message;
use crate::text;

verus! {

/// How many messages of a compacted conversation stand before its kept part, its
/// pinned messages, its summary and its root.
pub open spec fn head_len(
    out: Seq<message::MessageView>,
    selection: compact::SelectionView,
) -> int {
    out.len() - selection.kept.len() - selection.pinned.len() - 2
}

proof fn lemma_filter<A>(s: Seq<A>, f: spec_fn(A) -> bool)
    ensures
        forall|i: int| 0 <= i < s.filter(f).len() ==> f(#[trigger] s.filter(f)[i]),
        forall|i: int| 0 <= i < s.filter(f).len() ==> s.contains(#[trigger] s.filter(f)[i]),
        forall|i: int| 0 <= i < s.len() && f(#[trigger] s[i]) ==> s.filter(f).contains(s[i]),
    decreases s.len(),
{
    reveal(Seq::filter);
    if s.len() > 0 {
        let front = s.drop_last();
        lemma_filter(front, f);
        assert forall|i: int| 0 <= i < s.filter(f).len() implies f(#[trigger] s.filter(f)[i])
            && s.contains(s.filter(f)[i]) by {
            if i < front.filter(f).len() {
                assert(s.filter(f)[i] == front.filter(f)[i]);
                let k = choose|k: int| 0 <= k < front.len() && front[k] == front.filter(f)[i];
                assert(s[k] == s.filter(f)[i]);
            } else {
                assert(s[s.len() - 1] == s.filter(f)[i]);
            }
        }
        assert forall|i: int| 0 <= i < s.len() && f(#[trigger] s[i]) implies s.filter(f).contains(
            s[i],
        ) by {
            if i < front.len() {
                assert(front[i] == s[i]);
                let k = choose|k: int|
                    0 <= k < front.filter(f).len() && front.filter(f)[k] == front[i];
                assert(s.filter(f)[k] == s[i]);
            } else {
                assert(s.filter(f)[s.filter(f).len() - 1] == s[i]);
            }
        }
    }
}

/// A compacted conversation ends with all that its selection keeps, message by
/// message. Before that stand the instructions of system and developer that were
/// summed up, the first message of the user, the summary, and what is pinned.
pub proof fn law_compaction_keeps_the_selection(
    messages: Seq<message::MessageView>,
    selection: compact::SelectionView,
    summary: Seq<char>,
)
    ensures
        apply::applied(messages, selection, summary) matches Ok(out) ==> {
            let n = head_len(out, selection);
            &&& n >= 0
            &&& out.skip(out.len() - selection.kept.len()) == selection.kept
            &&& out.subrange(n + 2, n + 2 + selection.pinned.len()) == selection.pinned
            &&& out[n + 1].role == "user"@
            &&& out[n + 1].content == "[Compacted context]\n"@ + text::trim(summary)
            &&& out[n + 1].tool_calls.len() == 0
            &&& exists|r: int|
                0 <= r < messages.len() && out[n] == #[trigger] messages[r] && messages[r].role
                    == "user"@ && forall|j: int|
                    0 <= j < r ==> (#[trigger] messages[j]).role != "user"@
            &&& forall|i: int|
                0 <= i < n ==> ((#[trigger] out[i]).role == "system"@ || out[i].role
                    == "developer"@) && selection.summarized.contains(out[i])
            &&& forall|i: int|
                0 <= i < selection.summarized.len() && ((#[trigger] selection.summarized[i]).role
                    == "system"@ || selection.summarized[i].role == "developer"@)
                    ==> out.take(n).contains(selection.summarized[i])
        },
{
    if let Ok(out) = apply::applied(messages, selection, summary) {
        let n = head_len(out, selection);
        let above = |m: message::MessageView| apply::outranks(m);
        let head = selection.summarized.filter(above);
        lemma_filter(selection.summarized, above);
        assert(n == head.len());
        select::lemma_user_from(messages, 0);
        let r = select::root_of(messages)->0;
        assert(out[n] == messages[r]);
        assert(out.skip(out.len() - selection.kept.len()) =~= selection.kept);
        assert(out.subrange(n + 2, n + 2 + selection.pinned.len()) =~= selection.pinned);
        assert(out.take(n) =~= head);
        assert forall|i: int| 0 <= i < n implies ((#[trigger] out[i]).role == "system"@
            || out[i].role == "developer"@) && selection.summarized.contains(out[i]) by {
            assert(out[i] == head[i]);
            assert(above(head[i]));
        }
        assert forall|i: int|
            0 <= i < selection.summarized.len() && ((#[trigger] selection.summarized[i]).role
                == "system"@ || selection.summarized[i].role == "developer"@) implies out.take(
            n,
        ).contains(selection.summarized[i]) by {
            assert(above(selection.summarized[i]));
        }
    }
}

/// A compaction succeeds where there is a user message to go back to and a summary
/// that is not blank and within 64 KiB, and fails everywhere else.
pub proof fn law_compaction_needs_a_root_and_a_summary(
    messages: Seq<message::MessageView>,
    selection: compact::SelectionView,
    summary: Seq<char>,
)
    ensures
        apply::applied(messages, selection, summary) is Ok <==> (text::trim(summary).len() > 0
            && text::byte_len(summary) <= 65_536 && exists|i: int|
            0 <= i < messages.len() && (#[trigger] messages[i]).role == "user"@),
{
    select::lemma_user_from(messages, 0);
}

proof fn lemma_grouped_front(
    messages: Seq<message::MessageView>,
    group: (int, int),
    rest: Seq<(int, int)>,
    first: int,
    k: int,
)
    requires
        0 <= k <= rest.len(),
    ensures
        select::grouped_from(messages, seq![group] + rest, first, k + 1) == (if group.0 >= first {
            messages.subrange(group.0, group.1)
        } else {
            Seq::empty()
        }) + select::grouped_from(messages, rest, first, k),
    decreases k,
{
    let all = seq![group] + rest;
    let front = if group.0 >= first {
        messages.subrange(group.0, group.1)
    } else {
        Seq::empty()
    };
    if k == 0 {
        assert(select::grouped_from(messages, all, first, 0) =~= Seq::empty());
        assert(all[0] == group);
        assert(select::grouped_from(messages, all, first, 1) =~= front);
        assert(front + select::grouped_from(messages, rest, first, 0) =~= front);
    } else {
        lemma_grouped_front(messages, group, rest, first, k - 1);
        assert(all[k] == rest[k - 1]);
        let before = select::grouped_from(messages, rest, first, k - 1);
        if rest[k - 1].0 >= first {
            let span = messages.subrange(rest[k - 1].0, rest[k - 1].1);
            assert((front + before) + span =~= front + (before + span));
        }
    }
}

proof fn lemma_results(
    messages: Seq<message::MessageView>,
    calls: Seq<message::CallView>,
    end: int,
)
    requires
        0 <= end <= messages.len(),
    ensures
        end <= select::results_end(messages, calls, end) <= messages.len(),
        forall|i: int|
            end <= i < select::results_end(messages, calls, end) ==> select::answers(
                #[trigger] messages[i],
                calls,
            ),
        select::results_end(messages, calls, end) < messages.len() ==> !select::answers(
            messages[select::results_end(messages, calls, end)],
            calls,
        ),
    decreases messages.len() - end,
{
    if end < messages.len() && select::answers(messages[end], calls) {
        lemma_results(messages, calls, end + 1);
    }
}

/// What `grouped_from` keeps of all groups from a position on.
spec fn kept_of(messages: Seq<message::MessageView>, index: int, first: int) -> Seq<
    message::MessageView,
> {
    let found = select::groups_from(messages, index);
    select::grouped_from(messages, found, first, found.len() as int)
}

proof fn lemma_kept_step(messages: Seq<message::MessageView>, index: int, first: int)
    requires
        0 <= index < messages.len(),
        messages[index].role != "tool"@,
    ensures
        index < select::group_end(messages, index) <= messages.len(),
        kept_of(messages, index, first) == (if index >= first {
            messages.subrange(index, select::group_end(messages, index))
        } else {
            Seq::empty()
        }) + kept_of(messages, select::group_end(messages, index), first),
{
    let end = select::group_end(messages, index);
    lemma_results(messages, messages[index].tool_calls, index + 1);
    let rest = select::groups_from(messages, end);
    lemma_grouped_front(messages, (index, end), rest, first, rest.len() as int);
}

proof fn lemma_asking_in_tail(
    messages: Seq<message::MessageView>,
    first: int,
    at: int,
) -> (j: int)
    requires
        0 <= first <= at < messages.len(),
        select::has_asking(messages.skip(first), at - first),
    ensures
        first <= j < at,
        select::asks_until(messages, j, at),
{
    let tail = messages.skip(first);
    let t = choose|t: int|
        0 <= t < at - first && #[trigger] select::asks_until(tail, t, at - first);
    let j = first + t;
    assert(tail[t] == messages[j]);
    assert forall|k: int| j < k <= at implies select::answers(
        #[trigger] messages[k],
        messages[j].tool_calls,
    ) by {
        assert(tail[k - first] == messages[k]);
        assert(select::answers(tail[k - first], tail[t].tool_calls));
    }
    j
}

proof fn lemma_no_result_behind(messages: Seq<message::MessageView>, index: int, j: int)
    requires
        0 <= index < messages.len(),
        messages[index].role != "tool"@,
        select::group_end(messages, index) < messages.len(),
        0 <= j < select::group_end(messages, index),
    ensures
        !select::asks_until(messages, j, select::group_end(messages, index)),
{
    let end = select::group_end(messages, index);
    lemma_results(messages, messages[index].tool_calls, index + 1);
    reveal_strlit("tool");
    reveal_strlit("assistant");
    assert("tool"@.len() != "assistant"@.len());
    if select::asks_until(messages, j, end) {
        assert(select::answers(messages[end], messages[j].tool_calls));
        if j < index {
            assert(select::answers(messages[index], messages[j].tool_calls));
        } else if j > index {
            assert(select::asks(messages[index]));
            assert(select::answers(messages[j], messages[index].tool_calls));
        }
    }
}

/// Nothing behind a position is lost where all results there have their calls.
proof fn lemma_whole_suffix(messages: Seq<message::MessageView>, first: int, index: int)
    requires
        0 <= first <= index <= messages.len(),
        select::no_orphans(messages.skip(first)),
        index < messages.len() ==> messages[index].role != "tool"@,
    ensures
        kept_of(messages, index, first) == messages.skip(index),
    decreases messages.len() - index,
{
    if index == messages.len() {
        assert(kept_of(messages, index, first) =~= messages.skip(index));
    } else {
        let end = select::group_end(messages, index);
        lemma_kept_step(messages, index, first);
        if end < messages.len() && messages[end].role == "tool"@ {
            assert(messages.skip(first)[end - first] == messages[end]);
            let j = lemma_asking_in_tail(messages, first, end);
            lemma_no_result_behind(messages, index, j);
        }
        lemma_whole_suffix(messages, first, end);
        assert(messages.subrange(index, end) + messages.skip(end) =~= messages.skip(index));
    }
}

proof fn lemma_whole_from(messages: Seq<message::MessageView>, first: int, index: int)
    requires
        0 <= index <= first < messages.len(),
        select::no_orphans(messages.skip(first)),
        messages[first].role != "tool"@,
    ensures
        kept_of(messages, index, first) == messages.skip(first),
    decreases first - index,
{
    if index == first {
        lemma_whole_suffix(messages, first, first);
    } else if messages[index].role == "tool"@ {
        lemma_whole_from(messages, first, index + 1);
    } else {
        let end = select::group_end(messages, index);
        lemma_kept_step(messages, index, first);
        lemma_results(messages, messages[index].tool_calls, index + 1);
        if end > first {
            assert(select::answers(messages[first], messages[index].tool_calls));
        }
        lemma_whole_from(messages, first, end);
        assert(Seq::<message::MessageView>::empty() + kept_of(messages, end, first) =~= kept_of(
            messages,
            end,
            first,
        ));
    }
}

proof fn lemma_group_is_kept(
    messages: Seq<message::MessageView>,
    first: int,
    index: int,
    start: int,
    at: int,
)
    requires
        0 <= index <= start < messages.len(),
        first <= start,
        messages[start].role != "tool"@,
        start <= at < select::group_end(messages, start),
    ensures
        kept_of(messages, index, first).contains(messages[at]),
    decreases start - index,
{
    lemma_results(messages, messages[start].tool_calls, start + 1);
    if index == start {
        lemma_kept_step(messages, index, first);
        let end = select::group_end(messages, index);
        let kept = kept_of(messages, index, first);
        assert(kept[at - index] == messages[at]);
    } else if messages[index].role == "tool"@ {
        lemma_group_is_kept(messages, first, index + 1, start, at);
    } else {
        let end = select::group_end(messages, index);
        lemma_kept_step(messages, index, first);
        lemma_results(messages, messages[index].tool_calls, index + 1);
        if end > start {
            assert(select::answers(messages[start], messages[index].tool_calls));
        }
        lemma_group_is_kept(messages, first, end, start, at);
        let rest = kept_of(messages, end, first);
        let kept = kept_of(messages, index, first);
        let k = choose|k: int| 0 <= k < rest.len() && rest[k] == messages[at];
        assert(kept[kept.len() - rest.len() + k] == messages[at]);
    }
}

/// What a selection keeps is the end of the conversation, whole and in order, where
/// every result there follows its call. Where some do not, they alone are missing:
/// each message that is no result, and each result of a message that is kept, stays.
pub proof fn law_selection_keeps_the_end(messages: Seq<message::MessageView>, keep: u64)
    ensures
        select::selected(messages, keep) matches Ok(selection) ==> {
            let first = selection.first_kept_index;
            &&& select::no_orphans(messages.skip(first)) ==> selection.kept == messages.skip(first)
            &&& forall|i: int|
                first <= i < messages.len() && (#[trigger] messages[i]).role != "tool"@
                    ==> selection.kept.contains(messages[i])
            &&& forall|j: int, i: int|
                first <= j < i < messages.len() && #[trigger] select::asks_until(messages, j, i)
                    ==> selection.kept.contains(messages[i])
        },
{
    if let Ok(selection) = select::selected(messages, keep) {
        let first = selection.first_kept_index;
        select::law_selection_splits_no_group(messages, keep);
        assert(selection.kept == kept_of(messages, 0, first));
        if select::no_orphans(messages.skip(first)) {
            let tail = messages.skip(first);
            assert(tail[0] == messages[first]);
            if tail[0].role == "tool"@ {
                assert(select::has_asking(tail, 0));
            }
            lemma_whole_from(messages, first, 0);
        }
        assert forall|i: int|
            first <= i < messages.len() && (#[trigger] messages[i]).role
                != "tool"@ implies selection.kept.contains(messages[i]) by {
            lemma_results(messages, messages[i].tool_calls, i + 1);
            lemma_group_is_kept(messages, first, 0, i, i);
        }
        assert forall|j: int, i: int|
            first <= j < i < messages.len() && #[trigger] select::asks_until(
                messages,
                j,
                i,
            ) implies selection.kept.contains(messages[i]) by {
            reveal_strlit("tool");
            reveal_strlit("assistant");
            assert("tool"@.len() != "assistant"@.len());
            lemma_results(messages, messages[j].tool_calls, j + 1);
            let end = select::group_end(messages, j);
            if end <= i {
                assert(select::answers(messages[end], messages[j].tool_calls));
            }
            lemma_group_is_kept(messages, first, 0, j, i);
        }
    }
}

proof fn lemma_last_instruction(messages: Seq<message::MessageView>, n: int)
    requires
        0 <= n <= messages.len(),
    ensures
        match select::last_instruction(messages, n) {
            Some(i) => 0 <= i < n && select::is_instruction(messages[i]) && forall|j: int|
                i < j < n ==> !select::is_instruction(#[trigger] messages[j]),
            None => forall|j: int| 0 <= j < n ==> !select::is_instruction(#[trigger] messages[j]),
        },
    decreases n,
{
    if n > 0 && !select::is_instruction(messages[n - 1]) {
        lemma_last_instruction(messages, n - 1);
    }
}

/// A selection leaves no message out: what is not kept is summed up, all of it and in
/// order, and at least one message. It names what the user asked for first, and pins
/// the latest instruction where that would be summed up.
pub proof fn law_selection_sums_up_the_rest(messages: Seq<message::MessageView>, keep: u64)
    ensures
        select::selected(messages, keep) matches Ok(selection) ==> {
            let first = selection.first_kept_index;
            &&& 0 < first < messages.len()
            &&& selection.summarized == messages.take(first)
            &&& exists|r: int|
                0 <= r < first && (#[trigger] messages[r]).role == "user"@
                    && selection.root_instruction == messages[r].content && forall|j: int|
                    0 <= j < r ==> (#[trigger] messages[j]).role != "user"@
            &&& forall|i: int|
                0 <= i < first && #[trigger] select::is_instruction(messages[i]) && (exists|r: int|
                    0 <= r < i && (#[trigger] messages[r]).role == "user"@) && (forall|j: int|
                    i < j < messages.len() ==> !select::is_instruction(#[trigger] messages[j]))
                    ==> selection.pinned == seq![messages[i]]
            &&& selection.pinned.len() <= 1
        },
{
    if let Ok(selection) = select::selected(messages, keep) {
        let first = selection.first_kept_index;
        select::law_selection_splits_no_group(messages, keep);
        select::lemma_user_from(messages, 0);
        let root = select::root_of(messages)->0;
        assert(messages[root].role == "user"@);
        lemma_last_instruction(messages, messages.len() as int);
        assert forall|i: int|
            0 <= i < first && #[trigger] select::is_instruction(messages[i]) && (exists|r: int|
                0 <= r < i && (#[trigger] messages[r]).role == "user"@) && (forall|j: int|
                i < j < messages.len() ==> !select::is_instruction(
                    #[trigger] messages[j],
                )) implies selection.pinned == seq![messages[i]] by {
            let latest = select::last_instruction(messages, messages.len() as int);
            assert(latest == Some(i));
            let r = choose|r: int| 0 <= r < i && (#[trigger] messages[r]).role == "user"@;
            assert(root <= r);
            assert(selection.pinned =~= seq![messages[i]]);
        }
    }
}

/// Compacting a conversation by its own selection loses neither the first nor the
/// latest instruction of the user, nor any message of its recent part that is no
/// stray result: where there are none of these, the conversation ends as it did.
pub proof fn law_compaction_keeps_instructions_and_recent_messages(
    messages: Seq<message::MessageView>,
    keep: u64,
    summary: Seq<char>,
    latest: int,
)
    requires
        select::selected(messages, keep) is Ok,
        apply::applied(messages, select::selected(messages, keep)->Ok_0, summary) is Ok,
        0 <= latest < messages.len(),
        messages[latest].role == "user"@,
        !text::starts_with(messages[latest].content, "[Compacted context]\n"@),
        forall|j: int|
            latest < j < messages.len() && (#[trigger] messages[j]).role == "user"@
                ==> text::starts_with(messages[j].content, "[Compacted context]\n"@),
    ensures
        ({
            let selection = select::selected(messages, keep)->Ok_0;
            let out = apply::applied(messages, selection, summary)->Ok_0;
            let first = selection.first_kept_index;
            &&& out.contains(messages[latest])
            &&& forall|i: int|
                first <= i < messages.len() && (#[trigger] messages[i]).role != "tool"@
                    ==> out.contains(messages[i])
            &&& select::no_orphans(messages.skip(first)) ==> out.skip(
                out.len() - (messages.len() - first),
            ) == messages.skip(first)
        }),
{
    let selection = select::selected(messages, keep)->Ok_0;
    let out = apply::applied(messages, selection, summary)->Ok_0;
    let first = selection.first_kept_index;
    let n = head_len(out, selection);
    law_compaction_keeps_the_selection(messages, selection, summary);
    law_selection_keeps_the_end(messages, keep);
    select::law_selection_splits_no_group(messages, keep);
    let tail = out.skip(out.len() - selection.kept.len());
    assert forall|i: int|
        first <= i < messages.len() && (#[trigger] messages[i]).role != "tool"@ implies out.contains(
        messages[i],
    ) by {
        assert(selection.kept.contains(messages[i]));
        let k = choose|k: int| 0 <= k < selection.kept.len() && selection.kept[k] == messages[i];
        assert(tail[k] == messages[i]);
        assert(out[out.len() - selection.kept.len() + k] == messages[i]);
    }
    reveal_strlit("user");
    reveal_strlit("tool");
    assert("user"@[0] != "tool"@[0]);
    if latest < first {
        lemma_last_instruction(messages, messages.len() as int);
        select::lemma_user_from(messages, 0);
        assert(select::is_instruction(messages[latest]));
        let found = select::last_instruction(messages, messages.len() as int)->0;
        assert(found == latest);
        let root = select::root_of(messages)->0;
        if root < latest {
            assert(selection.pinned =~= seq![messages[latest]]);
            let pins = out.subrange(n + 2, n + 2 + selection.pinned.len());
            assert(pins[0] == messages[latest]);
            assert(out[n + 2] == messages[latest]);
        } else {
            let r = choose|r: int|
                0 <= r < messages.len() && out[n] == #[trigger] messages[r] && messages[r].role
                    == "user"@ && forall|j: int|
                    0 <= j < r ==> (#[trigger] messages[j]).role != "user"@;
            assert(r == latest);
            assert(out[n] == messages[latest]);
        }
    }
}

proof fn lemma_last_asking(messages: Seq<message::MessageView>, n: int)
    requires
        0 <= n <= messages.len(),
    ensures
        match apply::last_asking(messages, n) {
            Some(i) => 0 <= i < n && select::asks(messages[i]) && forall|j: int|
                i < j < n ==> !select::asks(#[trigger] messages[j]),
            None => forall|j: int| 0 <= j < n ==> !select::asks(#[trigger] messages[j]),
        },
    decreases n,
{
    if n > 0 && !select::asks(messages[n - 1]) {
        lemma_last_asking(messages, n - 1);
    }
}

proof fn lemma_filter_all<A>(s: Seq<A>, f: spec_fn(A) -> bool)
    requires
        forall|i: int| 0 <= i < s.len() ==> f(#[trigger] s[i]),
    ensures
        s.filter(f) == s,
    decreases s.len(),
{
    reveal(Seq::filter);
    if s.len() > 0 {
        let front = s.drop_last();
        assert forall|i: int| 0 <= i < front.len() implies f(#[trigger] front[i]) by {
            assert(f(s[i]));
        }
        lemma_filter_all(front, f);
        assert(front.push(s.last()) =~= s);
        assert(f(s[s.len() - 1]));
    } else {
        assert(s.filter(f) =~= s);
    }
}

/// The short form of a compaction says the summary in one user message, behind the
/// first instruction of the user, and keeps what follows the last message that asks
/// for tool calls as it is, where its calls and results belong together.
pub proof fn law_short_compaction_keeps_the_last_group(
    messages: Seq<message::MessageView>,
    summary: Seq<char>,
    start: int,
)
    requires
        apply::compacted_messages(messages, summary) is Ok,
        0 <= start < messages.len(),
        select::asks(messages[start]),
        forall|j: int| start < j < messages.len() ==> !select::asks(#[trigger] messages[j]),
        forall|j: int|
            start < j < messages.len() && (#[trigger] messages[j]).role == "tool"@
                ==> select::answers(messages[j], messages[start].tool_calls),
        forall|k: int|
            0 <= k < messages[start].tool_calls.len() ==> exists|j: int|
                start < j < messages.len() && (#[trigger] messages[j]).role == "tool"@
                    && messages[j].tool_call_id == Some(
                    (#[trigger] messages[start].tool_calls[k]).id,
                ),
    ensures
        ({
            let out = apply::compacted_messages(messages, summary)->Ok_0;
            &&& out.len() == 1 + messages.len() - start
            &&& out.skip(1) == messages.skip(start)
            &&& out[0].role == "user"@
            &&& text::ends_with(out[0].content, "[Compacted context]\n"@ + text::trim(summary))
            &&& forall|r: int|
                0 <= r < messages.len() && (#[trigger] messages[r]).role == "user"@ && (forall|j:
                    int|
                    0 <= j < r ==> (#[trigger] messages[j]).role != "user"@)
                    ==> text::contains(out[0].content, messages[r].content)
        }),
{
    let out = apply::compacted_messages(messages, summary)->Ok_0;
    let n = messages.len() as int;
    lemma_last_asking(messages, n);
    assert(apply::last_asking(messages, n) == Some(start));
    assert(apply::suffix_start(messages) == start);
    let suffix = messages.skip(start);
    let first = suffix[0];
    assert(first == messages[start]);
    reveal_strlit("tool");
    reveal_strlit("assistant");
    assert("tool"@.len() != "assistant"@.len());
    let own = |c: message::CallView| apply::has_result(suffix, c.id);
    assert forall|k: int| 0 <= k < first.tool_calls.len() implies own(
        #[trigger] first.tool_calls[k],
    ) by {
        let c = messages[start].tool_calls[k];
        let j = choose|j: int|
            start < j < messages.len() && (#[trigger] messages[j]).role == "tool"@
                && messages[j].tool_call_id == Some(c.id);
        assert(suffix[j - start] == messages[j]);
        assert(apply::has_result(suffix, c.id));
    }
    lemma_filter_all(first.tool_calls, own);
    let rest = suffix.skip(1);
    let stay = |m: message::MessageView| apply::stays(m, first.tool_calls);
    assert forall|i: int| 0 <= i < rest.len() implies stay(#[trigger] rest[i]) by {
        assert(rest[i] == messages[start + 1 + i]);
    }
    lemma_filter_all(rest, stay);
    assert(out =~= seq![out[0]] + (seq![first] + rest));
    assert(out.skip(1) =~= messages.skip(start));
    select::lemma_user_from(messages, 0);
    let root = apply::root_content(messages);
    let context = "[Compacted context]\n"@ + text::trim(summary);
    let content = out[0].content;
    assert(content.subrange(content.len() - context.len(), content.len() as int) =~= context);
    assert(text::occurs_at(content, context, content.len() - context.len()));
    assert forall|r: int|
        0 <= r < messages.len() && (#[trigger] messages[r]).role == "user"@ && (forall|j: int|
            0 <= j < r ==> (#[trigger] messages[j]).role != "user"@) implies text::contains(
        content,
        messages[r].content,
    ) by {
        assert(select::root_of(messages) == Some(r));
        assert(root == messages[r].content);
        if root.len() == 0 {
            assert(content.subrange(0, 0) =~= root);
            assert(text::occurs_at(content, root, 0));
        } else {
            let mark = "[Root instruction]\n"@;
            assert(content.subrange(mark.len() as int, (mark.len() + root.len()) as int) =~= root);
            assert(text::occurs_at(content, root, mark.len() as int));
        }
    }
}

/// Where no message asks for tool calls, the short form keeps the last message.
pub proof fn law_short_compaction_keeps_the_last_message(
    messages: Seq<message::MessageView>,
    summary: Seq<char>,
)
    requires
        apply::compacted_messages(messages, summary) is Ok,
        forall|j: int| 0 <= j < messages.len() ==> !select::asks(#[trigger] messages[j]),
        messages.last().role != "tool"@,
        messages.last().tool_calls.len() == 0,
    ensures
        apply::compacted_messages(messages, summary)->Ok_0.len() == 2,
        apply::compacted_messages(messages, summary)->Ok_0[1] == messages.last(),
{
    let n = messages.len() as int;
    lemma_last_asking(messages, n);
    let out = apply::compacted_messages(messages, summary)->Ok_0;
    let suffix = messages.skip(n - 1);
    assert(suffix[0] == messages.last());
    let own = |c: message::CallView| apply::has_result(suffix, c.id);
    let stay = |m: message::MessageView| apply::stays(m, suffix[0].tool_calls);
    lemma_filter_all(suffix[0].tool_calls, own);
    lemma_filter_all(suffix.skip(1), stay);
    assert(out[1] =~= messages.last());
}

/// The part that is handed to the summary provider is what was summed up, without the
/// last copy of the pinned message: it is not told twice.
pub proof fn law_prompt_leaves_the_pinned_message_out(
    messages: Seq<message::MessageView>,
    m: message::MessageView,
    at: int,
)
    requires
        0 <= at < messages.len(),
        messages[at] == m,
        forall|j: int| at < j < messages.len() ==> #[trigger] messages[j] != m,
    ensures
        apply::unpinned(messages, seq![m]) == messages.remove(at),
        apply::unpinned(messages, Seq::empty()) == messages,
{
    let n = messages.len() as int;
    lemma_last_equal(messages, m, at, n);
    let pins = seq![m];
    assert(pins[0] == m);
    let none = apply::pinned_positions(messages, pins, 0, at);
    let omitted = apply::pinned_positions(messages, pins, 1, n);
    assert(none =~= Set::empty());
    assert(omitted =~= Set::empty().insert(at));
    lemma_without_one(messages, omitted, at, n);
    assert(messages.take(at) + messages.subrange(at + 1, n) =~= messages.remove(at));
    let empty = apply::pinned_positions(messages, Seq::empty(), 0, n);
    lemma_without_none(messages, empty, n);
    assert(messages.take(n) =~= messages);
}

proof fn lemma_last_equal(
    messages: Seq<message::MessageView>,
    m: message::MessageView,
    at: int,
    end: int,
)
    requires
        0 <= at < end <= messages.len(),
        messages[at] == m,
        forall|j: int| at < j < messages.len() ==> #[trigger] messages[j] != m,
    ensures
        apply::last_equal(messages, m, end) == Some(at),
    decreases end,
{
    if end - 1 > at {
        assert(messages[end - 1] != m);
        lemma_last_equal(messages, m, at, end - 1);
    }
}

proof fn lemma_without_none(messages: Seq<message::MessageView>, omitted: Set<int>, n: int)
    requires
        0 <= n <= messages.len(),
        forall|i: int| 0 <= i < n ==> !(#[trigger] omitted.contains(i)),
    ensures
        apply::without_positions(messages, omitted, n) == messages.take(n),
    decreases n,
{
    if n > 0 {
        lemma_without_none(messages, omitted, n - 1);
        assert(!omitted.contains(n - 1));
        assert(messages.take(n - 1).push(messages[n - 1]) =~= messages.take(n));
    } else {
        assert(apply::without_positions(messages, omitted, n) =~= messages.take(n));
    }
}

proof fn lemma_without_one(
    messages: Seq<message::MessageView>,
    omitted: Set<int>,
    at: int,
    n: int,
)
    requires
        0 <= at < n <= messages.len(),
        forall|i: int| #[trigger] omitted.contains(i) <==> i == at,
    ensures
        apply::without_positions(messages, omitted, n) == messages.take(at) + messages.subrange(
            at + 1,
            n,
        ),
    decreases n,
{
    if n - 1 == at {
        assert(omitted.contains(n - 1));
        lemma_without_none(messages, omitted, at);
        assert(messages.take(at) + messages.subrange(at + 1, n) =~= messages.take(at));
    } else {
        assert(!omitted.contains(n - 1));
        lemma_without_one(messages, omitted, at, n - 1);
        assert((messages.take(at) + messages.subrange(at + 1, n - 1)).push(messages[n - 1])
            =~= messages.take(at) + messages.subrange(at + 1, n));
    }
}

} // verus!
