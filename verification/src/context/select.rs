//! Which part of a conversation compaction keeps.
use vstd::prelude::*;
use vstd::string::*;
use crate::arith;
use crate::context::compact;
use crate::context::compact::{CompactionPolicy, CompactionSelection};
use crate::context::estimate;
use crate::context::transcript;
use crate::provider::message;
use crate::provider::message::{ProviderMessage, ProviderToolCall};
use crate::text;

verus! {

/// Whether one of the calls has the id.
pub open spec fn calls_have(calls: Seq<message::CallView>, id: Seq<char>) -> bool {
    exists|i: int| 0 <= i < calls.len() && (#[trigger] calls[i]).id == id
}

/// Whether a message is the result of one of the calls.
pub open spec fn answers(m: message::MessageView, calls: Seq<message::CallView>) -> bool {
    m.role == "tool"@ && m.tool_call_id is Some && calls_have(calls, m.tool_call_id->0)
}

/// Whether a message asks for tool calls.
pub open spec fn asks(m: message::MessageView) -> bool {
    m.role == "assistant"@ && m.tool_calls.len() > 0
}

/// The end of the results that directly follow, from position `end` on.
pub open spec fn results_end(
    messages: Seq<message::MessageView>,
    calls: Seq<message::CallView>,
    end: int,
) -> int
    decreases messages.len() - end,
{
    if end < messages.len() && answers(messages[end], calls) {
        results_end(messages, calls, end + 1)
    } else {
        end
    }
}

/// The end of the group that starts at position `start`: an assistant message that
/// asks for tool calls and the results that directly follow it, or one message.
pub open spec fn group_end(messages: Seq<message::MessageView>, start: int) -> int {
    if asks(messages[start]) {
        results_end(messages, messages[start].tool_calls, start + 1)
    } else {
        start + 1
    }
}

proof fn lemma_results_end(
    messages: Seq<message::MessageView>,
    calls: Seq<message::CallView>,
    end: int,
)
    requires
        0 <= end <= messages.len(),
    ensures
        end <= results_end(messages, calls, end) <= messages.len(),
        forall|i: int|
            end <= i < results_end(messages, calls, end) ==> answers(#[trigger] messages[i], calls),
    decreases messages.len() - end,
{
    if end < messages.len() && answers(messages[end], calls) {
        lemma_results_end(messages, calls, end + 1);
    }
}

/// The groups of a conversation from a position on; a result that no call before it
/// asked for belongs to none.
pub open spec fn groups_from(messages: Seq<message::MessageView>, index: int) -> Seq<(int, int)>
    decreases messages.len() - index,
    when 0 <= index
    via groups_from_decreases
{
    if index >= messages.len() {
        Seq::empty()
    } else if messages[index].role == "tool"@ {
        groups_from(messages, index + 1)
    } else {
        seq![(index, group_end(messages, index))] + groups_from(
            messages,
            group_end(messages, index),
        )
    }
}

#[via_fn]
proof fn groups_from_decreases(messages: Seq<message::MessageView>, index: int) {
    if index < messages.len() {
        lemma_group_end(messages, index);
    }
}

proof fn lemma_group_end(messages: Seq<message::MessageView>, start: int)
    requires
        0 <= start < messages.len(),
    ensures
        start < group_end(messages, start) <= messages.len(),
{
    lemma_results_end(messages, messages[start].tool_calls, start + 1);
}

/// The groups of a conversation.
pub open spec fn groups(messages: Seq<message::MessageView>) -> Seq<(int, int)> {
    groups_from(messages, 0)
}

/// Groups lie in the conversation, one behind the other, and each starts with a
/// message that is no tool result.
pub open spec fn groups_ok(
    messages: Seq<message::MessageView>,
    found: Seq<(int, int)>,
    from: int,
) -> bool {
    &&& forall|k: int|
        0 <= k < found.len() ==> from <= (#[trigger] found[k]).0 < found[k].1 <= messages.len()
            && found[k].1 == group_end(messages, found[k].0) && messages[found[k].0].role
            != "tool"@
    &&& forall|j: int, k: int|
        0 <= j < k < found.len() ==> (#[trigger] found[j]).1 <= (#[trigger] found[k]).0
}

pub proof fn lemma_groups_ok(messages: Seq<message::MessageView>, index: int)
    requires
        0 <= index <= messages.len(),
    ensures
        groups_ok(messages, groups_from(messages, index), index),
    decreases messages.len() - index,
{
    let found = groups_from(messages, index);
    if index < messages.len() {
        lemma_group_end(messages, index);
        if messages[index].role == "tool"@ {
            lemma_groups_ok(messages, index + 1);
        } else {
            let end = group_end(messages, index);
            lemma_groups_ok(messages, end);
            let rest = groups_from(messages, end);
            assert forall|k: int| 0 <= k < found.len() implies index <= (#[trigger] found[k]).0
                < found[k].1 <= messages.len() && found[k].1 == group_end(messages, found[k].0)
                && messages[found[k].0].role != "tool"@ by {
                if k > 0 {
                    assert(found[k] == rest[k - 1]);
                }
            }
            assert forall|j: int, k: int| 0 <= j < k < found.len() implies (
            #[trigger] found[j]).1 <= (#[trigger] found[k]).0 by {
                assert(found[k] == rest[k - 1]);
                if j > 0 {
                    assert(found[j] == rest[j - 1]);
                }
            }
        }
    }
}

pub open spec fn pairs(v: Seq<(usize, usize)>) -> Seq<(int, int)> {
    v.map_values(|p: (usize, usize)| (p.0 as int, p.1 as int))
}

pub fn call_known(calls: &Vec<ProviderToolCall>, id: &str) -> (r: bool)
    ensures
        r == calls_have(message::call_views(calls@), id@),
{
    let ghost all = message::call_views(calls@);
    let mut i: usize = 0;
    while i < calls.len()
        invariant
            i <= calls@.len(),
            all == message::call_views(calls@),
            forall|k: int| 0 <= k < i ==> (#[trigger] all[k]).id != id@,
        decreases calls@.len() - i,
    {
        assert(all[i as int] == calls@[i as int]@);
        if text::same(calls[i].id.as_str(), id) {
            return true;
        }
        i = i + 1;
    }
    false
}

fn is_answer(m: &ProviderMessage, calls: &Vec<ProviderToolCall>) -> (r: bool)
    ensures
        r == answers(m@, message::call_views(calls@)),
{
    if m.role_is("tool") {
        match &m.tool_call_id {
            Some(id) => call_known(calls, id.as_str()),
            None => false,
        }
    } else {
        false
    }
}

fn is_asking(m: &ProviderMessage) -> (r: bool)
    ensures
        r == asks(m@),
{
    m.role_is("assistant") && m.tool_calls.len() > 0
}

/// The groups of a conversation: each start and end.
pub fn complete_message_groups(messages: &Vec<ProviderMessage>) -> (out: Vec<(usize, usize)>)
    ensures
        pairs(out@) == groups(message::views(messages@)),
        groups_ok(message::views(messages@), pairs(out@), 0),
{
    let ghost all = message::views(messages@);
    let mut out: Vec<(usize, usize)> = Vec::new();
    let mut index: usize = 0;
    assert(pairs(out@) + groups_from(all, 0) =~= groups(all));
    while index < messages.len()
        invariant
            index <= messages@.len(),
            all == message::views(messages@),
            pairs(out@) + groups_from(all, index as int) == groups(all),
        decreases messages@.len() - index,
    {
        assert(all[index as int] == messages@[index as int]@);
        if messages[index].role_is("tool") {
            index = index + 1;
        } else {
            let mut end: usize = index + 1;
            if is_asking(&messages[index]) {
                let ghost calls = all[index as int].tool_calls;
                while end < messages.len() && is_answer(&messages[end], &messages[index].tool_calls)
                    invariant
                        index < end <= messages@.len(),
                        all == message::views(messages@),
                        calls == message::call_views(messages@[index as int].tool_calls@),
                        results_end(all, calls, index + 1) == results_end(all, calls, end as int),
                    decreases messages@.len() - end,
                {
                    end = end + 1;
                }
            }
            assert(end == group_end(all, index as int));
            let ghost done = out@;
            out.push((index, end));
            assert(pairs(out@) =~= pairs(done).push((index as int, end as int)));
            assert(pairs(done) + (seq![(index as int, end as int)] + groups_from(all, end as int))
                =~= pairs(out@) + groups_from(all, end as int));
            index = end;
        }
    }
    assert(pairs(out@) + groups_from(all, index as int) =~= pairs(out@));
    proof {
        lemma_groups_ok(all, 0);
    }
    out
}

/// Whether a message is a user's instruction, and no summary of earlier context.
pub open spec fn is_instruction(m: message::MessageView) -> bool {
    m.role == "user"@ && !text::starts_with(m.content, transcript::compacted_mark())
}

/// Whether a message restates earlier context as a user message.
pub open spec fn is_compacted(m: message::MessageView) -> bool {
    m.role == "user"@ && text::starts_with(m.content, transcript::compacted_mark())
}

/// The first message of a user, from a position on.
pub open spec fn user_from(messages: Seq<message::MessageView>, i: int) -> Option<int>
    decreases messages.len() - i,
{
    if i >= messages.len() {
        None
    } else if messages[i].role == "user"@ {
        Some(i)
    } else {
        user_from(messages, i + 1)
    }
}

/// The root instruction of a conversation: its first user message.
pub open spec fn root_of(messages: Seq<message::MessageView>) -> Option<int> {
    user_from(messages, 0)
}

pub proof fn lemma_user_from(messages: Seq<message::MessageView>, i: int)
    requires
        0 <= i,
    ensures
        match user_from(messages, i) {
            Some(k) => i <= k < messages.len() && messages[k].role == "user"@ && (forall|j: int|
                i <= j < k ==> (#[trigger] messages[j]).role != "user"@),
            None => forall|j: int| i <= j < messages.len() ==> (#[trigger] messages[j]).role
                != "user"@,
        },
    decreases messages.len() - i,
{
    if i < messages.len() && messages[i].role != "user"@ {
        lemma_user_from(messages, i + 1);
    }
}

/// The last instruction among the first `n` messages.
pub open spec fn last_instruction(messages: Seq<message::MessageView>, n: int) -> Option<int>
    decreases n,
{
    if n <= 0 {
        None
    } else if is_instruction(messages[n - 1]) {
        Some(n - 1)
    } else {
        last_instruction(messages, n - 1)
    }
}

pub fn find_root(messages: &Vec<ProviderMessage>) -> (r: Option<usize>)
    ensures
        (match r {
            Some(i) => root_of(message::views(messages@)) == Some(i as int) && i < messages@.len(),
            None => root_of(message::views(messages@)) is None,
        }),
{
    let ghost all = message::views(messages@);
    let mut i: usize = 0;
    while i < messages.len()
        invariant
            i <= messages@.len(),
            all == message::views(messages@),
            root_of(all) == user_from(all, i as int),
        decreases messages@.len() - i,
    {
        assert(all[i as int] == messages@[i as int]@);
        if messages[i].role_is("user") {
            return Some(i);
        }
        i = i + 1;
    }
    None
}

fn compacted(m: &ProviderMessage) -> (r: bool)
    ensures
        r == is_compacted(m@),
{
    m.role_is("user") && text::begins(m.content.as_str(), "[Compacted context]\n")
}

pub fn find_last_instruction(messages: &Vec<ProviderMessage>) -> (r: Option<usize>)
    ensures
        (match r {
            Some(i) => last_instruction(message::views(messages@), messages@.len() as int) == Some(
                i as int,
            ) && i < messages@.len(),
            None => last_instruction(message::views(messages@), messages@.len() as int) is None,
        }),
{
    let ghost all = message::views(messages@);
    let mut n: usize = messages.len();
    while n > 0
        invariant
            n <= messages@.len(),
            all == message::views(messages@),
            last_instruction(all, messages@.len() as int) == last_instruction(all, n as int),
        decreases n,
    {
        assert(all[n - 1] == messages@[n - 1]@);
        if messages[n - 1].role_is("user") && !compacted(&messages[n - 1]) {
            return Some(n - 1);
        }
        n = n - 1;
    }
    None
}

/// The latest instruction of a conversation, where it is not its root and stands
/// before a boundary.
pub open spec fn pinned_index(messages: Seq<message::MessageView>, boundary: int) -> Option<int> {
    match (root_of(messages), last_instruction(messages, messages.len() as int)) {
        (Some(root), Some(latest)) => if root < latest < boundary {
            Some(latest)
        } else {
            None
        },
        _ => None,
    }
}

/// Return the latest non-root user instruction that sits before a compaction
/// boundary. The returned index refers to the original transcript, so durable
/// resume can preserve its entry identity while rebuilding the provider view.
pub fn latest_user_instruction_before_boundary(
    messages: &Vec<ProviderMessage>,
    first_kept_index: usize,
) -> (r: Option<(usize, ProviderMessage)>)
    ensures
        (match r {
            Some((i, m)) => pinned_index(message::views(messages@), first_kept_index as int)
                == Some(i as int) && i < messages@.len() && m@ == messages@[i as int]@,
            None => pinned_index(message::views(messages@), first_kept_index as int) is None,
        }),
{
    let root = find_root(messages);
    let latest = find_last_instruction(messages);
    match (root, latest) {
        (Some(root_index), Some(latest_index)) => if latest_index > root_index && latest_index
            < first_kept_index {
            Some((latest_index, messages[latest_index].copy()))
        } else {
            None
        },
        _ => None,
    }
}

/// The pinned instruction, as messages: one or none.
pub open spec fn pinned(messages: Seq<message::MessageView>, boundary: int) -> Seq<
    message::MessageView,
> {
    match pinned_index(messages, boundary) {
        Some(i) => seq![messages[i]],
        None => Seq::empty(),
    }
}

/// Whether a message carries the current text of a file that a write failed on.
pub open spec fn carries_recovery(m: message::MessageView) -> bool {
    m.role == "tool"@ && (text::contains(m.content, "Current file is below"@) || text::contains(
        m.content,
        "Current file edges are below"@,
    ) || text::contains(m.content, "Example context only for the first match"@) || text::contains(
        m.content,
        "Suggested unique expected:"@,
    ))
}

/// Whether one of the messages `start..end` does.
pub open spec fn group_recovers(
    messages: Seq<message::MessageView>,
    start: int,
    end: int,
) -> bool {
    exists|i: int| start <= i < end && carries_recovery(#[trigger] messages[i])
}

fn group_carries_file_recovery(messages: &Vec<ProviderMessage>, start: usize, end: usize) -> (r:
    bool)
    requires
        start <= end <= messages@.len(),
    ensures
        r == group_recovers(message::views(messages@), start as int, end as int),
{
    let ghost all = message::views(messages@);
    let mut i: usize = start;
    while i < end
        invariant
            start <= i <= end <= messages@.len(),
            all == message::views(messages@),
            forall|k: int| start <= k < i ==> !carries_recovery(#[trigger] all[k]),
        decreases end - i,
    {
        assert(all[i as int] == messages@[i as int]@);
        let content = messages[i].content.as_str();
        if messages[i].role_is("tool") && (text::has(content, "Current file is below") || text::has(
            content,
            "Current file edges are below",
        ) || text::has(content, "Example context only for the first match") || text::has(
            content,
            "Suggested unique expected:",
        )) {
            return true;
        }
        i = i + 1;
    }
    false
}

/// The tokens of the messages `start..end`.
pub open spec fn span_tokens(messages: Seq<message::MessageView>, start: int, end: int) -> u64 {
    estimate::history_tokens(messages.subrange(start, end))
}

/// Whether a large group behind recent ones may stay: it carries a recovery body
/// and fits the slack.
pub open spec fn large_group_stays(
    messages: Seq<message::MessageView>,
    group: (int, int),
    keep: u64,
    tokens: u64,
) -> bool {
    let slack = if compact::RECOVERY_KEEP_TOKEN_SLACK < keep {
        compact::RECOVERY_KEEP_TOKEN_SLACK
    } else {
        keep
    };
    group_recovers(messages, group.0, group.1) && arith::clamp64(
        tokens + span_tokens(messages, group.0, group.1),
    ) <= arith::clamp64(keep + slack)
}

/// Where the recent part starts: groups are taken from the end, the `k`-th last
/// first, until they hold `keep` tokens.
pub open spec fn recent_start(
    messages: Seq<message::MessageView>,
    found: Seq<(int, int)>,
    root: int,
    keep: u64,
    k: int,
    first: int,
    tokens: u64,
) -> int
    decreases k,
{
    if k <= 0 {
        first
    } else {
        let group = found[k - 1];
        let own = span_tokens(messages, group.0, group.1);
        let total = arith::clamp64(tokens + own);
        if group.0 <= root {
            first
        } else if tokens > 0 && own > keep && !large_group_stays(messages, group, keep, tokens) {
            first
        } else if total >= keep {
            group.0
        } else {
            recent_start(messages, found, root, keep, k - 1, group.0, total)
        }
    }
}

/// Whether one of the messages `start..end` carries live reasoning.
pub open spec fn span_reasons(messages: Seq<message::MessageView>, start: int, end: int) -> bool {
    exists|i: int| start <= i < end && (#[trigger] messages[i]).has_reasoning()
}

/// The start of a live reasoning continuation: the group that ends the conversation
/// with a tool result and carries reasoning.
pub open spec fn continuation(
    messages: Seq<message::MessageView>,
    found: Seq<(int, int)>,
    k: int,
) -> Option<int>
    decreases k,
{
    if messages.len() == 0 || messages.last().role != "tool"@ || k <= 0 {
        None
    } else if found[k - 1].1 == messages.len() && span_reasons(
        messages,
        found[k - 1].0,
        found[k - 1].1,
    ) {
        Some(found[k - 1].0)
    } else {
        continuation(messages, found, k - 1)
    }
}

/// The first position, from `i` on, that restates no earlier context.
pub open spec fn after_compacted(messages: Seq<message::MessageView>, i: int) -> int
    decreases messages.len() - i,
{
    if i < messages.len() && is_compacted(messages[i]) {
        after_compacted(messages, i + 1)
    } else {
        i
    }
}

/// The first message that a compaction keeps.
pub open spec fn first_kept(messages: Seq<message::MessageView>, root: int, keep: u64) -> int {
    let found = groups(messages);
    let recent = recent_start(
        messages,
        found,
        root,
        keep,
        found.len() as int,
        messages.len() as int,
        0,
    );
    let live = match continuation(messages, found, found.len() as int) {
        Some(start) => if start < recent {
            start
        } else {
            recent
        },
        None => recent,
    };
    after_compacted(messages, live)
}

/// The messages of the first `k` groups that start at or behind a position.
pub open spec fn grouped_from(
    messages: Seq<message::MessageView>,
    found: Seq<(int, int)>,
    first: int,
    k: int,
) -> Seq<message::MessageView>
    decreases k,
{
    if k <= 0 {
        Seq::empty()
    } else {
        let before = grouped_from(messages, found, first, k - 1);
        if found[k - 1].0 >= first {
            before + messages.subrange(found[k - 1].0, found[k - 1].1)
        } else {
            before
        }
    }
}

/// What a compaction selects, or why it cannot.
pub open spec fn selected(messages: Seq<message::MessageView>, keep: u64) -> Result<
    compact::SelectionView,
    Seq<char>,
> {
    let found = groups(messages);
    if messages.len() <= 1 {
        Err("no compactable transcript"@)
    } else {
        match root_of(messages) {
            None => Err("no root instruction"@),
            Some(root) => {
                let first = first_kept(messages, root, keep);
                if first == messages.len() || first <= root {
                    Err("no compactable transcript"@)
                } else {
                    let kept = grouped_from(messages, found, first, found.len() as int);
                    let pin = pinned(messages, first);
                    Ok(
                        compact::SelectionView {
                            root_instruction: messages[root].content,
                            summarized: messages.take(first),
                            pinned: pin,
                            kept,
                            first_kept_index: first,
                            recent_tokens: arith::clamp64(
                                estimate::history_tokens(kept) + estimate::history_tokens(pin),
                            ),
                        },
                    )
                }
            },
        }
    }
}

fn find_recent_start(
    messages: &Vec<ProviderMessage>,
    found: &Vec<(usize, usize)>,
    root: usize,
    keep: u64,
) -> (r: usize)
    requires
        pairs(found@) == groups(message::views(messages@)),
        groups_ok(message::views(messages@), pairs(found@), 0),
    ensures
        r == recent_start(
            message::views(messages@),
            pairs(found@),
            root as int,
            keep,
            found@.len() as int,
            messages@.len() as int,
            0,
        ),
        r <= messages@.len(),
{
    let ghost all = message::views(messages@);
    let ghost spans = pairs(found@);
    let ghost whole = recent_start(
        all,
        spans,
        root as int,
        keep,
        found@.len() as int,
        messages@.len() as int,
        0,
    );
    let slack: u64 = arith::min64(compact::RECOVERY_KEEP_TOKEN_SLACK, keep);
    let mut first: usize = messages.len();
    let mut tokens: u64 = 0;
    let mut k: usize = found.len();
    while k > 0
        invariant
            k <= found@.len(),
            first <= messages@.len(),
            all == message::views(messages@),
            spans == pairs(found@),
            groups_ok(all, spans, 0),
            slack == if compact::RECOVERY_KEEP_TOKEN_SLACK < keep {
                compact::RECOVERY_KEEP_TOKEN_SLACK
            } else {
                keep
            },
            whole == recent_start(
                all,
                spans,
                root as int,
                keep,
                found@.len() as int,
                messages@.len() as int,
                0,
            ),
            whole == recent_start(all, spans, root as int, keep, k as int, first as int, tokens),
        decreases k,
    {
        assert(spans[k - 1] == (found@[k - 1].0 as int, found@[k - 1].1 as int));
        let (start, end) = found[k - 1];
        if start <= root {
            return first;
        }
        let own: u64 = estimate::estimate_range(messages, start, end);
        if tokens > 0 && own > keep {
            let fits = tokens.saturating_add(own) <= keep.saturating_add(slack);
            if !(group_carries_file_recovery(messages, start, end) && fits) {
                return first;
            }
        }
        tokens = tokens.saturating_add(own);
        first = start;
        if tokens >= keep {
            return first;
        }
        k = k - 1;
    }
    first
}

fn active_continuation_start(messages: &Vec<ProviderMessage>, found: &Vec<(usize, usize)>) -> (r:
    Option<usize>)
    requires
        groups_ok(message::views(messages@), pairs(found@), 0),
    ensures
        (match r {
            Some(i) => continuation(
                message::views(messages@),
                pairs(found@),
                found@.len() as int,
            ) == Some(i as int) && i <= messages@.len(),
            None => continuation(
                message::views(messages@),
                pairs(found@),
                found@.len() as int,
            ) is None,
        }),
{
    let ghost all = message::views(messages@);
    let ghost spans = pairs(found@);
    let n: usize = messages.len();
    if n == 0 || !messages[n - 1].role_is("tool") {
        return None;
    }
    assert(all.last() == messages@[n - 1]@);
    let mut k: usize = found.len();
    while k > 0
        invariant
            k <= found@.len(),
            n == messages@.len(),
            all == message::views(messages@),
            all.len() > 0,
            all.last().role == "tool"@,
            spans == pairs(found@),
            groups_ok(all, spans, 0),
            continuation(all, spans, found@.len() as int) == continuation(all, spans, k as int),
        decreases k,
    {
        assert(spans[k - 1] == (found@[k - 1].0 as int, found@[k - 1].1 as int));
        let (start, end) = found[k - 1];
        if end == n {
            let mut i: usize = start;
            while i < end
                invariant
                    start <= i <= end,
                    end == n,
                    n == messages@.len(),
                    k <= found@.len(),
                    k > 0,
                    spans == pairs(found@),
                    spans[k - 1] == (start as int, end as int),
                    all == message::views(messages@),
                    all.len() > 0,
                    all.last().role == "tool"@,
                    groups_ok(all, spans, 0),
                    continuation(all, spans, found@.len() as int) == continuation(
                        all,
                        spans,
                        k as int,
                    ),
                    forall|j: int| start <= j < i ==> !(#[trigger] all[j]).has_reasoning(),
                decreases end - i,
            {
                assert(all[i as int] == messages@[i as int]@);
                if messages[i].carries_reasoning() {
                    assert(span_reasons(all, start as int, end as int));
                    return Some(start);
                }
                i = i + 1;
            }
            assert(!span_reasons(all, start as int, end as int));
        }
        k = k - 1;
    }
    None
}

fn collect_kept(messages: &Vec<ProviderMessage>, found: &Vec<(usize, usize)>, first: usize) -> (out:
    Vec<ProviderMessage>)
    requires
        groups_ok(message::views(messages@), pairs(found@), 0),
    ensures
        message::views(out@) == grouped_from(
            message::views(messages@),
            pairs(found@),
            first as int,
            found@.len() as int,
        ),
{
    let ghost all = message::views(messages@);
    let ghost spans = pairs(found@);
    let mut out: Vec<ProviderMessage> = Vec::new();
    let mut k: usize = 0;
    assert(message::views(out@) =~= Seq::empty());
    while k < found.len()
        invariant
            k <= found@.len(),
            all == message::views(messages@),
            spans == pairs(found@),
            groups_ok(all, spans, 0),
            message::views(out@) == grouped_from(all, spans, first as int, k as int),
        decreases found@.len() - k,
    {
        assert(spans[k as int] == (found@[k as int].0 as int, found@[k as int].1 as int));
        let (start, end) = found[k];
        if start >= first {
            let ghost done = out@;
            let mut part = message::copy_range(messages, start, end);
            let ghost added = part@;
            out.append(&mut part);
            assert(message::views(out@) =~= message::views(done) + message::views(added));
        }
        k = k + 1;
    }
    out
}

/// Selects a deterministic recent suffix without splitting assistant/tool
/// groups. The immutable first user instruction is retained separately.
pub fn select_compaction_history(messages: &Vec<ProviderMessage>, policy: &CompactionPolicy) -> (r:
    Result<CompactionSelection, &'static str>)
    ensures
        (match r {
            Ok(selection) => selected(message::views(messages@), policy.keep_recent_tokens) == Ok::<
                compact::SelectionView,
                Seq<char>,
            >(selection@),
            Err(reason) => selected(message::views(messages@), policy.keep_recent_tokens) == Err::<
                compact::SelectionView,
                Seq<char>,
            >(reason@),
        }),
{
    let ghost all = message::views(messages@);
    if messages.len() <= 1 {
        return Err("no compactable transcript");
    }
    let root_index: usize = match find_root(messages) {
        Some(i) => i,
        None => {
            return Err("no root instruction");
        },
    };
    let found = complete_message_groups(messages);
    assert(pairs(found@).len() == found@.len());
    let keep: u64 = policy.keep_recent_tokens;
    let mut first: usize = find_recent_start(messages, &found, root_index, keep);
    if let Some(start) = active_continuation_start(messages, &found) {
        if start < first {
            first = start;
        }
    }
    let ghost live = first as int;
    while first < messages.len() && compacted(&messages[first])
        invariant
            first <= messages@.len(),
            all == message::views(messages@),
            after_compacted(all, live) == after_compacted(all, first as int),
        decreases messages@.len() - first,
    {
        first = first + 1;
    }
    if first < messages.len() {
        assert(all[first as int] == messages@[first as int]@);
    }
    assert(first == first_kept(all, root_index as int, keep));
    if first == messages.len() || first <= root_index {
        return Err("no compactable transcript");
    }
    let kept = collect_kept(messages, &found, first);
    let mut pin: Vec<ProviderMessage> = Vec::new();
    if let Some((_, m)) = latest_user_instruction_before_boundary(messages, first) {
        pin.push(m);
    }
    assert(message::views(pin@) =~= pinned(all, first as int));
    let recent_tokens: u64 = estimate::estimate_provider_message_tokens(&kept).saturating_add(
        estimate::estimate_provider_message_tokens(&pin),
    );
    let summarized = message::copy_range(messages, 0, first);
    assert(all.take(first as int) =~= all.subrange(0, first as int));
    Ok(
        CompactionSelection {
            root_instruction: messages[root_index].content.clone(),
            summarized,
            pinned: pin,
            kept,
            first_kept_index: first,
            recent_tokens,
        },
    )
}

/// Whether every tool result directly follows the message that asks for its call,
/// with nothing but other results of that message between them.
pub open spec fn no_orphans(messages: Seq<message::MessageView>) -> bool {
    forall|i: int|
        0 <= i < messages.len() && (#[trigger] messages[i]).role == "tool"@ ==> has_asking(
            messages,
            i,
        )
}

/// Whether the nearest message before the `i`-th that is no result asks for the
/// call that it answers.
pub open spec fn has_asking(messages: Seq<message::MessageView>, i: int) -> bool {
    exists|j: int| 0 <= j < i && #[trigger] asks_until(messages, j, i)
}

/// Whether the `j`-th message asks for tool calls, and all that follow it, up to
/// the `i`-th, answer them.
pub open spec fn asks_until(messages: Seq<message::MessageView>, j: int, i: int) -> bool {
    &&& asks(messages[j])
    &&& forall|k: int| j < k <= i ==> answers(#[trigger] messages[k], messages[j].tool_calls)
}

proof fn lemma_grouped_no_orphans(
    messages: Seq<message::MessageView>,
    found: Seq<(int, int)>,
    first: int,
    k: int,
)
    requires
        groups_ok(messages, found, 0),
        0 <= k <= found.len(),
    ensures
        no_orphans(grouped_from(messages, found, first, k)),
    decreases k,
{
    if k > 0 {
        lemma_grouped_no_orphans(messages, found, first, k - 1);
        let before = grouped_from(messages, found, first, k - 1);
        let (start, end) = found[k - 1];
        if start >= first {
            let span = messages.subrange(start, end);
            let all = before + span;
            lemma_results_end(messages, messages[start].tool_calls, start + 1);
            assert forall|i: int|
                0 <= i < all.len() && (#[trigger] all[i]).role == "tool"@ implies has_asking(
                all,
                i,
            ) by {
                if i < before.len() {
                    assert(before[i].role == "tool"@);
                    let j = choose|j: int| 0 <= j < i && #[trigger] asks_until(before, j, i);
                    assert forall|k: int| j < k <= i implies answers(
                        #[trigger] all[k],
                        all[j].tool_calls,
                    ) by {
                        assert(answers(before[k], before[j].tool_calls));
                    }
                    assert(asks_until(all, j, i));
                } else {
                    let t = i - before.len();
                    assert(all[i] == messages[start + t]);
                    let j = before.len() as int;
                    assert(all[j] == messages[start]);
                    assert(t > 0);
                    assert(asks(messages[start]));
                    assert forall|k: int| j < k <= i implies answers(
                        #[trigger] all[k],
                        all[j].tool_calls,
                    ) by {
                        assert(all[k] == messages[start + (k - j)]);
                    }
                    assert(asks_until(all, j, i));
                }
            }
        }
    }
}

/// A selection keeps a part of the conversation behind its root, without splitting
/// a tool call from its results: what is summed up is all before that part, and no
/// result is kept whose call is not.
pub proof fn law_selection_splits_no_group(messages: Seq<message::MessageView>, keep: u64)
    ensures
        selected(messages, keep) matches Ok(selection) ==> {
            &&& 0 < selection.first_kept_index < messages.len()
            &&& selection.summarized == messages.take(selection.first_kept_index)
            &&& root_of(messages) is Some
            &&& root_of(messages)->0 < selection.first_kept_index
            &&& no_orphans(selection.kept)
        },
{
    if let Ok(selection) = selected(messages, keep) {
        let found = groups(messages);
        lemma_groups_ok(messages, 0);
        lemma_user_from(messages, 0);
        let first = selection.first_kept_index;
        lemma_grouped_no_orphans(messages, found, first, found.len() as int);
        let root = root_of(messages)->0;
        lemma_recent_start(
            messages,
            found,
            root,
            keep,
            found.len() as int,
            messages.len() as int,
            0,
        );
        lemma_continuation(messages, found, found.len() as int);
        let recent = recent_start(
            messages,
            found,
            root,
            keep,
            found.len() as int,
            messages.len() as int,
            0,
        );
        let live = match continuation(messages, found, found.len() as int) {
            Some(start) => if start < recent {
                start
            } else {
                recent
            },
            None => recent,
        };
        lemma_after_compacted(messages, live);
    }
}

proof fn lemma_recent_start(
    messages: Seq<message::MessageView>,
    found: Seq<(int, int)>,
    root: int,
    keep: u64,
    k: int,
    first: int,
    tokens: u64,
)
    requires
        groups_ok(messages, found, 0),
        0 <= k <= found.len(),
        0 <= first <= messages.len(),
    ensures
        0 <= recent_start(messages, found, root, keep, k, first, tokens) <= messages.len(),
    decreases k,
{
    if k > 0 {
        let group = found[k - 1];
        let own = span_tokens(messages, group.0, group.1);
        lemma_recent_start(
            messages,
            found,
            root,
            keep,
            k - 1,
            group.0,
            arith::clamp64(tokens + own),
        );
    }
}

proof fn lemma_continuation(
    messages: Seq<message::MessageView>,
    found: Seq<(int, int)>,
    k: int,
)
    requires
        groups_ok(messages, found, 0),
        0 <= k <= found.len(),
    ensures
        continuation(messages, found, k) matches Some(start) ==> 0 <= start < messages.len(),
    decreases k,
{
    if k > 0 {
        lemma_continuation(messages, found, k - 1);
        assert(found[k - 1].0 < messages.len());
    }
}

proof fn lemma_after_compacted(messages: Seq<message::MessageView>, i: int)
    requires
        i <= messages.len(),
    ensures
        i <= after_compacted(messages, i) <= messages.len(),
    decreases messages.len() - i,
{
    if i < messages.len() && is_compacted(messages[i]) {
        lemma_after_compacted(messages, i + 1);
    }
}

proof fn lemma_tokens_sum_parts(a: Seq<message::MessageView>, b: Seq<message::MessageView>)
    ensures
        estimate::tokens_sum(a + b) == estimate::tokens_sum(a) + estimate::tokens_sum(b),
    decreases b.len(),
{
    if b.len() == 0 {
        assert(a + b =~= a);
    } else {
        assert((a + b).drop_last() =~= a + b.drop_last());
        assert((a + b).last() == b.last());
        lemma_tokens_sum_parts(a, b.drop_last());
    }
}

/// The tokens of all groups that start at or behind a position.
spec fn tokens_from(
    messages: Seq<message::MessageView>,
    found: Seq<(int, int)>,
    first: int,
) -> nat {
    estimate::tokens_sum(grouped_from(messages, found, first, found.len() as int))
}

/// Where the groups from the `k`-th on start.
spec fn start_of(messages: Seq<message::MessageView>, found: Seq<(int, int)>, k: int) -> int {
    if k < found.len() {
        found[k].0
    } else {
        messages.len() as int
    }
}

/// Before the groups that start at a position there is nothing to be taken.
proof fn lemma_nothing_before(
    messages: Seq<message::MessageView>,
    found: Seq<(int, int)>,
    k: int,
    m: int,
)
    requires
        groups_ok(messages, found, 0),
        0 <= m <= k <= found.len(),
    ensures
        grouped_from(messages, found, start_of(messages, found, k), m) == Seq::<
            message::MessageView,
        >::empty(),
    decreases m,
{
    if m > 0 {
        lemma_nothing_before(messages, found, k, m - 1);
        assert(found[m - 1].0 < found[m - 1].1 <= start_of(messages, found, k)) by {
            if k < found.len() {
                assert(found[m - 1].1 <= found[k].0);
            }
        }
    }
}

/// One group more is taken in front.
proof fn lemma_one_group_more(
    messages: Seq<message::MessageView>,
    found: Seq<(int, int)>,
    k: int,
    m: int,
)
    requires
        groups_ok(messages, found, 0),
        0 < k <= m <= found.len(),
    ensures
        grouped_from(messages, found, found[k - 1].0, m) == messages.subrange(
            found[k - 1].0,
            found[k - 1].1,
        ) + grouped_from(messages, found, start_of(messages, found, k), m),
    decreases m,
{
    let first = found[k - 1].0;
    let later = start_of(messages, found, k);
    let span = messages.subrange(found[k - 1].0, found[k - 1].1);
    if m == k {
        lemma_nothing_before(messages, found, k - 1, k - 1);
        lemma_nothing_before(messages, found, k, k);
        assert(Seq::<message::MessageView>::empty() + span =~= span + Seq::<
            message::MessageView,
        >::empty());
    } else {
        lemma_one_group_more(messages, found, k, m - 1);
        assert(found[k - 1].1 <= found[m - 1].0);
        assert(later <= found[m - 1].0) by {
            if k < m - 1 {
                assert(found[k].1 <= found[m - 1].0);
            }
        }
        let before = grouped_from(messages, found, later, m - 1);
        let own = messages.subrange(found[m - 1].0, found[m - 1].1);
        assert((span + before) + own =~= span + (before + own));
    }
}

proof fn lemma_group_has_tokens(messages: Seq<message::MessageView>, start: int, end: int)
    requires
        0 <= start < end <= messages.len(),
    ensures
        span_tokens(messages, start, end) > 0,
{
    let span = messages.subrange(start, end);
    assert(estimate::message_tokens(span.last()) > 0);
}

/// What the recent part may hold: twice what is to be kept, or the newest group.
pub open spec fn recent_bound(messages: Seq<message::MessageView>, keep: u64) -> u64 {
    let newest = groups(messages).last();
    let own = span_tokens(messages, newest.0, newest.1);
    if own > 2 * keep {
        own
    } else {
        arith::clamp64(2 * keep)
    }
}

proof fn lemma_recent_bound(
    messages: Seq<message::MessageView>,
    found: Seq<(int, int)>,
    root: int,
    keep: u64,
    k: int,
    tokens: u64,
)
    requires
        found == groups(messages),
        groups_ok(messages, found, 0),
        0 <= k <= found.len(),
        found.len() > 0,
        tokens == arith::clamp64(tokens_from(messages, found, start_of(messages, found, k)) as int),
        k == found.len() ==> tokens == 0,
        k < found.len() ==> 0 < tokens < keep,
    ensures
        arith::clamp64(
            tokens_from(
                messages,
                found,
                recent_start(
                    messages,
                    found,
                    root,
                    keep,
                    k,
                    start_of(messages, found, k),
                    tokens,
                ),
            ) as int,
        ) <= recent_bound(messages, keep),
    decreases k,
{
    if k > 0 {
        let group = found[k - 1];
        let own = span_tokens(messages, group.0, group.1);
        let total = arith::clamp64(tokens + own);
        lemma_one_group_more(messages, found, k, found.len() as int);
        lemma_tokens_sum_parts(
            messages.subrange(group.0, group.1),
            grouped_from(messages, found, start_of(messages, found, k), found.len() as int),
        );
        lemma_group_has_tokens(messages, group.0, group.1);
        assert(total == arith::clamp64(tokens_from(messages, found, group.0) as int));
        if group.0 > root && !(tokens > 0 && own > keep && !large_group_stays(
            messages,
            group,
            keep,
            tokens,
        )) && total < keep {
            lemma_recent_bound(messages, found, root, keep, k - 1, total);
        }
    }
}

/// From a later position no more is taken.
proof fn lemma_later_takes_less(
    messages: Seq<message::MessageView>,
    found: Seq<(int, int)>,
    first: int,
    later: int,
    k: int,
)
    requires
        groups_ok(messages, found, 0),
        first <= later,
        0 <= k <= found.len(),
    ensures
        estimate::tokens_sum(grouped_from(messages, found, later, k)) <= estimate::tokens_sum(
            grouped_from(messages, found, first, k),
        ),
    decreases k,
{
    if k > 0 {
        lemma_later_takes_less(messages, found, first, later, k - 1);
        let own = messages.subrange(found[k - 1].0, found[k - 1].1);
        lemma_tokens_sum_parts(grouped_from(messages, found, later, k - 1), own);
        lemma_tokens_sum_parts(grouped_from(messages, found, first, k - 1), own);
    }
}

/// What is kept of a conversation that no live continuation ends has at most twice
/// the tokens that are to be kept, unless its newest group alone has more.
pub proof fn law_kept_tokens_are_bounded(messages: Seq<message::MessageView>, keep: u64)
    ensures
        continuation(messages, groups(messages), groups(messages).len() as int) is None ==> (
        selected(messages, keep) matches Ok(selection) ==> estimate::history_tokens(selection.kept)
            <= recent_bound(messages, keep)),
{
    let found = groups(messages);
    let n = found.len() as int;
    if selected(messages, keep) is Ok && continuation(messages, found, n) is None {
        let root = root_of(messages)->0;
        let last = messages.len() as int;
        lemma_groups_ok(messages, 0);
        if n == 0 {
            assert(recent_start(messages, found, root, keep, n, last, 0) == last);
            lemma_after_compacted(messages, last);
        } else {
            lemma_nothing_before(messages, found, n, n);
            lemma_recent_bound(messages, found, root, keep, n, 0);
            lemma_recent_start(messages, found, root, keep, n, last, 0);
            let recent = recent_start(messages, found, root, keep, n, last, 0);
            lemma_after_compacted(messages, recent);
            lemma_later_takes_less(messages, found, recent, first_kept(messages, root, keep), n);
        }
    }
}

proof fn lemma_after_compacted_stops(messages: Seq<message::MessageView>, i: int, stop: int)
    requires
        0 <= i <= stop < messages.len(),
        !is_compacted(messages[stop]),
    ensures
        after_compacted(messages, i) <= stop,
    decreases stop - i,
{
    if i < stop && is_compacted(messages[i]) {
        lemma_after_compacted_stops(messages, i + 1, stop);
    }
}

proof fn lemma_continuation_asks(
    messages: Seq<message::MessageView>,
    found: Seq<(int, int)>,
    k: int,
)
    requires
        groups_ok(messages, found, 0),
        0 <= k <= found.len(),
    ensures
        continuation(messages, found, k) matches Some(start) ==> 0 <= start < messages.len()
            && asks(messages[start]),
    decreases k,
{
    if k > 0 {
        lemma_continuation_asks(messages, found, k - 1);
        let (start, end) = found[k - 1];
        if end == messages.len() && !asks(messages[start]) {
            assert(end == start + 1);
            assert(messages.last() == messages[start]);
        }
    }
}

/// A live continuation is kept whole: what is kept starts no later than it.
pub proof fn law_live_continuation_is_kept(messages: Seq<message::MessageView>, keep: u64)
    ensures
        selected(messages, keep) matches Ok(selection) ==> (continuation(
            messages,
            groups(messages),
            groups(messages).len() as int,
        ) matches Some(start) ==> selection.first_kept_index <= start),
{
    let found = groups(messages);
    let n = found.len() as int;
    if selected(messages, keep) is Ok {
        if let Some(start) = continuation(messages, found, n) {
            let root = root_of(messages)->0;
            lemma_groups_ok(messages, 0);
            lemma_user_from(messages, 0);
            lemma_continuation_asks(messages, found, n);
            let recent = recent_start(messages, found, root, keep, n, messages.len() as int, 0);
            lemma_recent_start(messages, found, root, keep, n, messages.len() as int, 0);
            let live = if start < recent {
                start
            } else {
                recent
            };
            reveal_strlit("user");
            reveal_strlit("assistant");
            assert("user"@.len() != "assistant"@.len());
            lemma_after_compacted_stops(messages, live, start);
        }
    }
}

} // verus!
