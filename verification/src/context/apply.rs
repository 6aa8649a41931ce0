//! Compacted conversations: putting a summary in the place of what it sums up.
use vstd::prelude::*;
use vstd::string::*;
use crate::context::compact;
use crate::context::compact::CompactionSelection;
use crate::context::select;
use crate::context::transcript;
use crate::provider::message;
use crate::provider::message::{ProviderMessage, ProviderToolCall};
use crate::text;

verus! {

/// The last position before `end` at which a message stands.
pub open spec fn last_equal(
    messages: Seq<message::MessageView>,
    m: message::MessageView,
    end: int,
) -> Option<int>
    decreases end,
{
    if end <= 0 {
        None
    } else if messages[end - 1] == m {
        Some(end - 1)
    } else {
        last_equal(messages, m, end - 1)
    }
}

/// The positions of the first `k` pinned messages: the last one is looked up from
/// the end, each one before it in front of that.
pub open spec fn pinned_positions(
    messages: Seq<message::MessageView>,
    pinned: Seq<message::MessageView>,
    k: int,
    end: int,
) -> Set<int>
    decreases k,
{
    if k <= 0 {
        Set::empty()
    } else {
        match last_equal(messages, pinned[k - 1], end) {
            Some(i) => pinned_positions(messages, pinned, k - 1, i).insert(i),
            None => pinned_positions(messages, pinned, k - 1, end),
        }
    }
}

/// The first `n` messages without those at the given positions.
pub open spec fn without_positions(
    messages: Seq<message::MessageView>,
    omitted: Set<int>,
    n: int,
) -> Seq<message::MessageView>
    decreases n,
{
    if n <= 0 {
        Seq::empty()
    } else if omitted.contains(n - 1) {
        without_positions(messages, omitted, n - 1)
    } else {
        without_positions(messages, omitted, n - 1).push(messages[n - 1])
    }
}

/// Messages without the pinned ones.
pub open spec fn unpinned(
    messages: Seq<message::MessageView>,
    pinned: Seq<message::MessageView>,
) -> Seq<message::MessageView> {
    without_positions(
        messages,
        pinned_positions(messages, pinned, pinned.len() as int, messages.len() as int),
        messages.len() as int,
    )
}

fn find_last_equal(messages: &Vec<ProviderMessage>, m: &ProviderMessage, end: usize) -> (r: Option<
    usize,
>)
    requires
        end <= messages@.len(),
    ensures
        (match r {
            Some(i) => last_equal(message::views(messages@), m@, end as int) == Some(i as int) && i
                < end,
            None => last_equal(message::views(messages@), m@, end as int) is None,
        }),
{
    let ghost all = message::views(messages@);
    let mut n: usize = end;
    while n > 0
        invariant
            n <= end <= messages@.len(),
            all == message::views(messages@),
            last_equal(all, m@, end as int) == last_equal(all, m@, n as int),
        decreases n,
    {
        assert(all[n - 1] == messages@[n - 1]@);
        if message::same_message(&messages[n - 1], m) {
            return Some(n - 1);
        }
        n = n - 1;
    }
    None
}

fn without_pinned(messages: &Vec<ProviderMessage>, pinned: &Vec<ProviderMessage>) -> (out: Vec<
    ProviderMessage,
>)
    ensures
        message::views(out@) == unpinned(message::views(messages@), message::views(pinned@)),
{
    let ghost all = message::views(messages@);
    let ghost pins = message::views(pinned@);
    let ghost whole = pinned_positions(all, pins, pins.len() as int, all.len() as int);
    let n: usize = messages.len();
    let mut omitted: Vec<bool> = Vec::new();
    let mut s: usize = 0;
    while s < n
        invariant
            s <= n,
            omitted@.len() == s,
            forall|k: int| 0 <= k < s ==> !(#[trigger] omitted@[k]),
        decreases n - s,
    {
        omitted.push(false);
        s = s + 1;
    }
    let mut end: usize = n;
    let mut k: usize = pinned.len();
    while k > 0
        invariant
            k <= pinned@.len(),
            end <= n == messages@.len(),
            omitted@.len() == n,
            all == message::views(messages@),
            pins == message::views(pinned@),
            forall|i: int|
                0 <= i < n ==> whole.contains(i) == (#[trigger] omitted@[i] || pinned_positions(
                    all,
                    pins,
                    k as int,
                    end as int,
                ).contains(i)),
        decreases k,
    {
        assert(pins[k - 1] == pinned@[k - 1]@);
        let ghost before = omitted@;
        let ghost from = end as int;
        let ghost count = k as int;
        if let Some(i) = find_last_equal(messages, &pinned[k - 1], end) {
            omitted.set(i, true);
            end = i;
        }
        k = k - 1;
        assert(count - 1 == k);
        proof {
            assert forall|i: int| 0 <= i < n implies whole.contains(i) == (#[trigger] omitted@[i]
                || pinned_positions(all, pins, k as int, end as int).contains(i)) by {
                assert(whole.contains(i) == (before[i] || pinned_positions(
                    all,
                    pins,
                    count,
                    from,
                ).contains(i)));
            }
        }
    }
    let mut out: Vec<ProviderMessage> = Vec::new();
    let mut i: usize = 0;
    assert(message::views(out@) =~= Seq::empty());
    while i < n
        invariant
            i <= n == messages@.len(),
            omitted@.len() == n,
            all == message::views(messages@),
            forall|i: int| 0 <= i < n ==> whole.contains(i) == #[trigger] omitted@[i],
            message::views(out@) == without_positions(all, whole, i as int),
        decreases n - i,
    {
        if !omitted[i] {
            let ghost done = out@;
            let m = messages[i].copy();
            out.push(m);
            assert(message::views(out@) =~= message::views(done).push(m@));
        }
        i = i + 1;
    }
    out
}

impl CompactionSelection {
    /// Return the prefix that should be sent to the summary provider. Pinned
    /// instructions are retained verbatim in the final conversation and must
    /// not be rewritten into the checkpoint as a second, potentially stale
    /// version.
    pub fn summarized_for_prompt(&self) -> (out: Vec<ProviderMessage>)
        ensures
            message::views(out@) == unpinned(self@.summarized, self@.pinned),
    {
        without_pinned(&self.summarized, &self.pinned)
    }
}

/// Whether a message holds instructions that outrank the user's.
pub open spec fn outranks(m: message::MessageView) -> bool {
    m.role == "system"@ || m.role == "developer"@
}

/// The user message that stands for what was summed up.
pub open spec fn summary_message(summary: Seq<char>) -> message::MessageView {
    message::user_message(transcript::compacted_mark() + text::trim(summary))
}

/// A compacted conversation, or why there is none.
pub open spec fn applied(
    messages: Seq<message::MessageView>,
    selection: compact::SelectionView,
    summary: Seq<char>,
) -> Result<Seq<message::MessageView>, Seq<char>> {
    if text::trim(summary).len() == 0 {
        Err("provider returned an empty compaction summary"@)
    } else if text::byte_len(summary) > compact::default_policy().summary_max_bytes {
        Err("provider compaction summary exceeds 64 KiB"@)
    } else {
        match select::root_of(messages) {
            None => Err("no root instruction"@),
            Some(root) => Ok(
                selection.summarized.filter(|m: message::MessageView| outranks(m)).push(
                    messages[root],
                ).push(summary_message(summary)) + selection.pinned + selection.kept,
            ),
        }
    }
}

fn copy_outranking(messages: &Vec<ProviderMessage>) -> (out: Vec<ProviderMessage>)
    ensures
        message::views(out@) == message::views(messages@).filter(
            |m: message::MessageView| outranks(m),
        ),
{
    let ghost all = message::views(messages@);
    let ghost keep = |m: message::MessageView| outranks(m);
    let mut out: Vec<ProviderMessage> = Vec::new();
    let mut i: usize = 0;
    proof {
        reveal(Seq::filter);
    }
    assert(message::views(out@) =~= all.take(0).filter(keep));
    while i < messages.len()
        invariant
            i <= messages@.len(),
            all == message::views(messages@),
            keep == (|m: message::MessageView| outranks(m)),
            message::views(out@) == all.take(i as int).filter(keep),
        decreases messages@.len() - i,
    {
        proof {
            reveal(Seq::filter);
        }
        assert(all.take(i + 1).drop_last() =~= all.take(i as int));
        assert(all.take(i + 1).last() == messages@[i as int]@);
        if messages[i].role_is("system") || messages[i].role_is("developer") {
            let ghost done = out@;
            let m = messages[i].copy();
            out.push(m);
            assert(message::views(out@) =~= message::views(done).push(m@));
        }
        i = i + 1;
    }
    assert(all.take(all.len() as int) =~= all);
    out
}

fn append_copies(out: &mut Vec<ProviderMessage>, messages: &Vec<ProviderMessage>)
    ensures
        message::views(final(out)@) == message::views(old(out)@) + message::views(messages@),
{
    let ghost done = out@;
    let mut part = message::copy_range(messages, 0, messages.len());
    let ghost added = part@;
    out.append(&mut part);
    assert(message::views(added) =~= message::views(messages@));
    assert(message::views(out@) =~= message::views(done) + message::views(added));
}

fn push_message(out: &mut Vec<ProviderMessage>, m: ProviderMessage)
    ensures
        message::views(final(out)@) == message::views(old(out)@).push(m@),
{
    let ghost done = out@;
    out.push(m);
    assert(message::views(out@) =~= message::views(done).push(m@));
}

fn write_summary_message(summary: &str) -> (r: ProviderMessage)
    ensures
        r@ == summary_message(summary@),
{
    let mut content = "[Compacted context]\n".to_owned();
    content.append(text::trimmed(summary).as_str());
    ProviderMessage::user(content)
}

pub fn apply_compaction_selection(
    messages: &Vec<ProviderMessage>,
    selection: &CompactionSelection,
    summary: String,
) -> (r: Result<Vec<ProviderMessage>, &'static str>)
    ensures
        (match r {
            Ok(out) => applied(message::views(messages@), selection@, summary@) == Ok::<
                Seq<message::MessageView>,
                Seq<char>,
            >(message::views(out@)),
            Err(reason) => applied(message::views(messages@), selection@, summary@) == Err::<
                Seq<message::MessageView>,
                Seq<char>,
            >(reason@),
        }),
        r matches Ok(out) ==> selection@.kept.is_suffix_of(message::views(out@)),
{
    if text::trimmed(summary.as_str()).as_str().is_empty() {
        return Err("provider returned an empty compaction summary");
    }
    if text::byte_count(summary.as_str()) > 65_536 {
        return Err("provider compaction summary exceeds 64 KiB");
    }
    let root: usize = match select::find_root(messages) {
        Some(i) => i,
        None => {
            return Err("no root instruction");
        },
    };
    let mut out = copy_outranking(&selection.summarized);
    push_message(&mut out, messages[root].copy());
    push_message(&mut out, write_summary_message(summary.as_str()));
    append_copies(&mut out, &selection.pinned);
    append_copies(&mut out, &selection.kept);
    proof {
        let all = message::views(out@);
        let kept = selection@.kept;
        assert(kept =~= all.subrange(all.len() - kept.len(), all.len() as int));
    }
    Ok(out)
}

/// The last message, among the first `n`, that asks for tool calls.
pub open spec fn last_asking(messages: Seq<message::MessageView>, n: int) -> Option<int>
    decreases n,
{
    if n <= 0 {
        None
    } else if select::asks(messages[n - 1]) {
        Some(n - 1)
    } else {
        last_asking(messages, n - 1)
    }
}

/// Where the part starts that is not summed up: the last message that asks for tool
/// calls, else the last message; zero where there is nothing to sum up.
pub open spec fn suffix_start(messages: Seq<message::MessageView>) -> int {
    if messages.len() <= 1 {
        0
    } else {
        match last_asking(messages, messages.len() as int) {
            Some(i) => i,
            None => messages.len() - 1,
        }
    }
}

fn compaction_suffix_start(messages: &Vec<ProviderMessage>) -> (r: usize)
    ensures
        r == suffix_start(message::views(messages@)),
        messages@.len() > 0 ==> r < messages@.len(),
{
    let ghost all = message::views(messages@);
    let count: usize = messages.len();
    if count <= 1 {
        return 0;
    }
    let mut n: usize = count;
    while n > 0
        invariant
            n <= count == messages@.len(),
            count > 1,
            all == message::views(messages@),
            last_asking(all, count as int) == last_asking(all, n as int),
        decreases n,
    {
        assert(all[n - 1] == messages@[n - 1]@);
        if messages[n - 1].role_is("assistant") && messages[n - 1].tool_calls.len() > 0 {
            return n - 1;
        }
        n = n - 1;
    }
    count - 1
}

/// Whether a compaction would replace an older message.
pub open spec fn compactable(messages: Seq<message::MessageView>) -> bool {
    let open_reasoning = messages.len() > 0 && messages.last().role == "tool"@ && select::root_of(
        messages,
    ) == select::last_instruction(messages, messages.len() as int) && select::span_reasons(
        messages,
        0,
        messages.len() as int,
    );
    !open_reasoning && suffix_start(messages) > 0
}

/// Returns whether compaction would replace at least one older message.
pub fn has_compactable_history(messages: &Vec<ProviderMessage>) -> (r: bool)
    ensures
        r == compactable(message::views(messages@)),
{
    let ghost all = message::views(messages@);
    let n: usize = messages.len();
    if n > 0 && messages[n - 1].role_is("tool") {
        let root = select::find_root(messages);
        let latest = select::find_last_instruction(messages);
        let same = match (root, latest) {
            (Some(a), Some(b)) => a == b,
            (None, None) => true,
            _ => false,
        };
        if same {
            let mut i: usize = 0;
            while i < n
                invariant
                    i <= n == messages@.len(),
                    all == message::views(messages@),
                    n > 0,
                    all.last().role == "tool"@,
                    select::root_of(all) == select::last_instruction(all, n as int),
                    forall|k: int| 0 <= k < i ==> !(#[trigger] all[k]).has_reasoning(),
                decreases n - i,
            {
                assert(all[i as int] == messages@[i as int]@);
                if messages[i].carries_reasoning() {
                    assert(select::span_reasons(all, 0, n as int));
                    return false;
                }
                i = i + 1;
            }
        }
    }
    compaction_suffix_start(messages) > 0
}

/// Whether a result with the id stands among the messages.
pub open spec fn has_result(messages: Seq<message::MessageView>, id: Seq<char>) -> bool {
    transcript::answered(messages, id)
}

/// The calls of a message that have a result among the messages.
pub open spec fn answered_calls(
    calls: Seq<message::CallView>,
    messages: Seq<message::MessageView>,
) -> Seq<message::CallView> {
    calls.filter(|c: message::CallView| has_result(messages, c.id))
}

/// Whether a message of the suffix stays: it is no tool result, or one of a call of
/// the suffix's first message.
pub open spec fn stays(m: message::MessageView, calls: Seq<message::CallView>) -> bool {
    m.role != "tool"@ || (m.tool_call_id is Some && select::calls_have(calls, m.tool_call_id->0))
}

/// The suffix of a conversation as a compaction keeps it, without results that no
/// call asked for and without calls that have no result.
pub open spec fn closed_suffix(suffix: Seq<message::MessageView>) -> Seq<message::MessageView> {
    let first = suffix[0];
    if first.role == "tool"@ {
        Seq::empty()
    } else {
        seq![
            message::MessageView { tool_calls: answered_calls(first.tool_calls, suffix), ..first },
        ] + suffix.skip(1).filter(|m: message::MessageView| stays(m, first.tool_calls))
    }
}

/// The content of the root instruction; nothing where there is none.
pub open spec fn root_content(messages: Seq<message::MessageView>) -> Seq<char> {
    match select::root_of(messages) {
        Some(i) => messages[i].content,
        None => Seq::empty(),
    }
}

/// The text that stands for a conversation that was summed up.
pub open spec fn rooted_summary(root: Seq<char>, summary: Seq<char>) -> Seq<char> {
    let context = transcript::compacted_mark() + text::trim(summary);
    if root.len() == 0 {
        context
    } else {
        "[Root instruction]\n"@ + root + "\n\n"@ + context
    }
}

/// A conversation with its old part summed up, or why there is none.
pub open spec fn compacted_messages(
    messages: Seq<message::MessageView>,
    summary: Seq<char>,
) -> Result<Seq<message::MessageView>, Seq<char>> {
    if text::trim(summary).len() == 0 {
        Err("provider returned an empty compaction summary"@)
    } else if suffix_start(messages) == 0 {
        Err("no compactable transcript"@)
    } else {
        Ok(
            seq![message::user_message(rooted_summary(root_content(messages), summary))]
                + closed_suffix(messages.skip(suffix_start(messages))),
        )
    }
}

fn keep_answered(calls: &Vec<ProviderToolCall>, suffix: &Vec<ProviderMessage>) -> (out: Vec<
    ProviderToolCall,
>)
    ensures
        message::call_views(out@) == answered_calls(
            message::call_views(calls@),
            message::views(suffix@),
        ),
{
    let ghost all = message::call_views(calls@);
    let ghost own = message::views(suffix@);
    let ghost keep = |c: message::CallView| has_result(own, c.id);
    let mut out: Vec<ProviderToolCall> = Vec::new();
    let mut i: usize = 0;
    proof {
        reveal(Seq::filter);
    }
    assert(message::call_views(out@) =~= all.take(0).filter(keep));
    while i < calls.len()
        invariant
            i <= calls@.len(),
            all == message::call_views(calls@),
            own == message::views(suffix@),
            keep == (|c: message::CallView| has_result(own, c.id)),
            message::call_views(out@) == all.take(i as int).filter(keep),
        decreases calls@.len() - i,
    {
        proof {
            reveal(Seq::filter);
        }
        assert(all.take(i + 1).drop_last() =~= all.take(i as int));
        assert(all.take(i + 1).last() == calls@[i as int]@);
        if transcript::is_answered(suffix, calls[i].id.as_str()) {
            let ghost done = out@;
            let c = calls[i].copy();
            out.push(c);
            assert(message::call_views(out@) =~= message::call_views(done).push(c@));
        }
        i = i + 1;
    }
    assert(all.take(all.len() as int) =~= all);
    out
}

fn append_closed_suffix(out: &mut Vec<ProviderMessage>, suffix: &Vec<ProviderMessage>)
    requires
        suffix@.len() > 0,
    ensures
        message::views(final(out)@) == message::views(old(out)@) + closed_suffix(
            message::views(suffix@),
        ),
{
    let ghost own = message::views(suffix@);
    let ghost start = message::views(out@);
    assert(own[0] == suffix@[0]@);
    if suffix[0].role_is("tool") {
        assert(start + Seq::<message::MessageView>::empty() =~= start);
        return;
    }
    let mut first = suffix[0].copy();
    first.tool_calls = keep_answered(&suffix[0].tool_calls, suffix);
    let ghost head = message::MessageView {
        tool_calls: answered_calls(own[0].tool_calls, own),
        ..own[0]
    };
    assert(first@ =~= head);
    push_message(out, first);
    let ghost rest = own.skip(1);
    let ghost calls = own[0].tool_calls;
    let ghost keep = |m: message::MessageView| stays(m, calls);
    let mut i: usize = 1;
    proof {
        reveal(Seq::filter);
    }
    assert(message::views(out@) =~= start + seq![head] + rest.take(0).filter(keep));
    while i < suffix.len()
        invariant
            1 <= i <= suffix@.len(),
            own == message::views(suffix@),
            rest == own.skip(1),
            calls == message::call_views(suffix@[0].tool_calls@),
            keep == (|m: message::MessageView| stays(m, calls)),
            message::views(out@) == start + seq![head] + rest.take(i - 1).filter(keep),
        decreases suffix@.len() - i,
    {
        proof {
            reveal(Seq::filter);
        }
        assert(rest.take(i as int).drop_last() =~= rest.take(i - 1));
        assert(rest.take(i as int).last() == suffix@[i as int]@);
        let kept = if suffix[i].role_is("tool") {
            match &suffix[i].tool_call_id {
                Some(id) => select::call_known(&suffix[0].tool_calls, id.as_str()),
                None => false,
            }
        } else {
            true
        };
        if kept {
            push_message(out, suffix[i].copy());
            assert(message::views(out@) =~= start + seq![head] + rest.take(i as int).filter(keep));
        }
        i = i + 1;
    }
    assert(rest.take(rest.len() as int) =~= rest);
    assert(start + seq![head] + rest.filter(keep) =~= start + (seq![head] + rest.filter(keep)));
}

/// Replace old transcript with a summary while keeping the latest complete
/// assistant tool-call group. The input is never mutated, and unmatched tool
/// results are omitted from the preserved suffix rather than orphaned.
/// Live agent-loop compaction uses `apply_compaction_selection`; this helper
/// inlines `[Root instruction]`.
pub fn compact_provider_messages(messages: &Vec<ProviderMessage>, summary: String) -> (r: Result<
    Vec<ProviderMessage>,
    &'static str,
>)
    ensures
        (match r {
            Ok(out) => compacted_messages(message::views(messages@), summary@) == Ok::<
                Seq<message::MessageView>,
                Seq<char>,
            >(message::views(out@)),
            Err(reason) => compacted_messages(message::views(messages@), summary@) == Err::<
                Seq<message::MessageView>,
                Seq<char>,
            >(reason@),
        }),
{
    let ghost all = message::views(messages@);
    let trimmed = text::trimmed(summary.as_str());
    if trimmed.as_str().is_empty() {
        return Err("provider returned an empty compaction summary");
    }
    let start: usize = compaction_suffix_start(messages);
    if start == 0 {
        return Err("no compactable transcript");
    }
    let mut content = String::new();
    if let Some(root) = select::find_root(messages) {
        if !messages[root].content.as_str().is_empty() {
            content.append("[Root instruction]\n");
            content.append(messages[root].content.as_str());
            content.append("\n\n");
        }
    }
    content.append("[Compacted context]\n");
    content.append(trimmed.as_str());
    assert(content@ =~= rooted_summary(root_content(all), summary@));
    let mut out: Vec<ProviderMessage> = Vec::new();
    push_message(&mut out, ProviderMessage::user(content));
    let suffix = message::copy_range(messages, start, messages.len());
    assert(all.skip(start as int) =~= all.subrange(start as int, all.len() as int));
    assert(message::views(suffix@).len() == suffix@.len());
    append_closed_suffix(&mut out, &suffix);
    assert(message::views(out@) =~= seq![
        message::user_message(rooted_summary(root_content(all), summary@)),
    ] + closed_suffix(all.skip(start as int)));
    Ok(out)
}

/// A compacted conversation holds no tool result whose call it dropped: each result
/// answers a call of the message that the kept part starts with.
pub proof fn law_compacted_messages_orphan_nothing(
    messages: Seq<message::MessageView>,
    summary: Seq<char>,
)
    ensures
        compacted_messages(messages, summary) matches Ok(out) ==> forall|i: int|
            0 <= i < out.len() && (#[trigger] out[i]).role == "tool"@ ==> i >= 2
                && select::answers(out[i], out[1].tool_calls),
{
    if let Ok(out) = compacted_messages(messages, summary) {
        let suffix = messages.skip(suffix_start(messages));
        let closed = closed_suffix(suffix);
        let first = suffix[0];
        reveal_strlit("user");
        reveal_strlit("tool");
        assert("user"@[0] != "tool"@[0]);
        assert forall|i: int|
            0 <= i < out.len() && (#[trigger] out[i]).role == "tool"@ implies i >= 2
            && select::answers(out[i], out[1].tool_calls) by {
            assert(i > 0);
            assert(first.role != "tool"@);
            assert(out[1] == closed[0]);
            assert(i > 1);
            let rest = suffix.skip(1);
            let keep = |m: message::MessageView| stays(m, first.tool_calls);
            let kept = rest.filter(keep);
            assert(out[i] == kept[i - 2]);
            lemma_filter_element(rest, keep, i - 2);
            let m = out[i];
            let id = m.tool_call_id->0;
            let c = choose|c: int|
                0 <= c < first.tool_calls.len() && (#[trigger] first.tool_calls[c]).id == id;
            lemma_suffix_start(messages);
            assert(rest.contains(m));
            let at = choose|at: int| 0 <= at < rest.len() && rest[at] == m;
            assert(suffix[at + 1] == m);
            assert(has_result(suffix, id));
            let own = |x: message::CallView| has_result(suffix, x.id);
            lemma_filter_keeps(first.tool_calls, own, c);
            let d = choose|d: int|
                0 <= d < first.tool_calls.filter(own).len() && first.tool_calls.filter(own)[d]
                    == first.tool_calls[c];
            assert(out[1].tool_calls[d].id == id);
        }
    }
}

proof fn lemma_suffix_start(messages: Seq<message::MessageView>)
    ensures
        messages.len() > 0 ==> 0 <= suffix_start(messages) < messages.len(),
{
    lemma_last_asking(messages, messages.len() as int);
}

proof fn lemma_last_asking(messages: Seq<message::MessageView>, n: int)
    ensures
        last_asking(messages, n) matches Some(i) ==> 0 <= i < n,
    decreases n,
{
    if n > 0 {
        lemma_last_asking(messages, n - 1);
    }
}

proof fn lemma_filter_element<A>(s: Seq<A>, f: spec_fn(A) -> bool, i: int)
    requires
        0 <= i < s.filter(f).len(),
    ensures
        f(s.filter(f)[i]),
        s.contains(s.filter(f)[i]),
    decreases s.len(),
{
    reveal(Seq::filter);
    let front = s.drop_last();
    if s.len() > 0 {
        if i < front.filter(f).len() {
            lemma_filter_element(front, f, i);
            let k = choose|k: int| 0 <= k < front.len() && front[k] == front.filter(f)[i];
            assert(s[k] == s.filter(f)[i]);
        } else {
            assert(s[s.len() - 1] == s.filter(f)[i]);
        }
    }
}

proof fn lemma_filter_keeps<A>(s: Seq<A>, f: spec_fn(A) -> bool, i: int)
    requires
        0 <= i < s.len(),
        f(s[i]),
    ensures
        s.filter(f).contains(s[i]),
    decreases s.len(),
{
    reveal(Seq::filter);
    let front = s.drop_last();
    if i < front.len() {
        lemma_filter_keeps(front, f, i);
        let k = choose|k: int| 0 <= k < front.filter(f).len() && front.filter(f)[k] == front[i];
        assert(s.filter(f)[k] == s[i]);
    } else {
        assert(s.filter(f)[front.filter(f).len() as int] == s[i]);
    }
}

} // verus!
