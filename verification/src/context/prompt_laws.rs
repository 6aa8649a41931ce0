//! What a reader finds in the texts that a conversation becomes: every message with
//! what it says, every call with its arguments, and what a summary was asked for.
use vstd::prelude::*;
use vstd::string::*;

use crate::context::apply;
use crate::context::compact;
use crate::context::prompt;
use crate::context::transcript;
use crate::json;
use crate::provider::message::{BlockView, CallView, MessageView};
use crate::text;

verus! {

proof fn lemma_between(front: Seq<char>, part: Seq<char>, back: Seq<char>)
    ensures
        text::occurs_at(front + part + back, part, front.len() as int),
        text::contains(front + part + back, part),
{
    assert((front + part + back).subrange(
        front.len() as int,
        (front.len() + part.len()) as int,
    ) =~= part);
    assert(text::occurs_at(front + part + back, part, front.len() as int));
}

proof fn lemma_within(whole: Seq<char>, part: Seq<char>, piece: Seq<char>)
    requires
        text::contains(whole, part),
        text::contains(part, piece),
    ensures
        text::contains(whole, piece),
{
    let i = choose|i: int| #[trigger] text::occurs_at(whole, part, i);
    let j = choose|j: int| #[trigger] text::occurs_at(part, piece, j);
    assert(whole.subrange(i + j, i + j + piece.len()) =~= whole.subrange(
        i,
        i + part.len(),
    ).subrange(j, j + piece.len()));
    assert(text::occurs_at(whole, piece, i + j));
}

proof fn lemma_calls(calls: Seq<CallView>, k: int)
    requires
        0 <= k < calls.len(),
    ensures
        text::contains(
            transcript::calls_text(calls),
            " [tool_call id="@ + calls[k].id + " name="@ + calls[k].name + " args="@
                + calls[k].arguments + " ]"@,
        ),
    decreases calls.len(),
{
    let front = calls.drop_last();
    let before = transcript::calls_text(front);
    let c = calls.last();
    let own = " [tool_call id="@ + c.id + " name="@ + c.name + " args="@ + c.arguments + " ]"@;
    assert(transcript::calls_text(calls) =~= before + own + Seq::<char>::empty());
    if k == calls.len() - 1 {
        lemma_between(before, own, Seq::empty());
    } else {
        lemma_calls(front, k);
        assert(transcript::calls_text(calls) =~= Seq::<char>::empty() + before + own);
        lemma_between(Seq::empty(), before, own);
        let phrase = " [tool_call id="@ + calls[k].id + " name="@ + calls[k].name + " args="@
            + calls[k].arguments + " ]"@;
        lemma_within(transcript::calls_text(calls), before, phrase);
    }
}

proof fn lemma_blocks(blocks: Seq<BlockView>, k: int)
    requires
        0 <= k < blocks.len(),
        blocks[k] is Text,
    ensures
        text::contains(
            transcript::blocks_text(blocks),
            "\n[content text]\n"@ + blocks[k]->Text_0,
        ),
    decreases blocks.len(),
{
    let front = blocks.drop_last();
    let before = transcript::blocks_text(front);
    let all = transcript::blocks_text(blocks);
    let own = match blocks.last() {
        BlockView::Text(t) => "\n[content text]\n"@ + t,
        _ => Seq::empty(),
    };
    if k == blocks.len() - 1 {
        assert(all =~= before + own + Seq::<char>::empty());
        lemma_between(before, own, Seq::empty());
    } else {
        lemma_blocks(front, k);
        assert(all =~= Seq::<char>::empty() + before + own);
        lemma_between(Seq::empty(), before, own);
        lemma_within(all, before, "\n[content text]\n"@ + blocks[k]->Text_0);
    }
}

/// What a line shows of a message's own text: all of it, but of a long result only
/// the start and the end where the line is bounded.
pub open spec fn shows_content(line: Seq<char>, m: MessageView, bounded: bool) -> bool {
    if bounded && m.role == "tool"@ && m.content.len() > 2_000 {
        &&& (m.role + ": "@ + m.content.take(900)).is_prefix_of(line)
        &&& text::contains(line, m.content.skip(m.content.len() - 900))
        &&& text::contains(line, "...[tool result truncated]..."@)
    } else {
        (m.role + ": "@ + m.content).is_prefix_of(line)
    }
}

/// The content that a line shows.
spec fn content_shown(m: MessageView, bounded: bool) -> Seq<char> {
    if bounded && m.role == "tool"@ {
        transcript::short_result(m.content)
    } else {
        m.content
    }
}

spec fn name_shown(m: MessageView) -> Seq<char> {
    match m.name {
        Some(name) => " [name="@ + name + "]"@,
        None => Seq::empty(),
    }
}

spec fn id_shown(m: MessageView) -> Seq<char> {
    match m.tool_call_id {
        Some(id) => " [tool_call_id="@ + id + "]"@,
        None => Seq::empty(),
    }
}

proof fn lemma_six_parts(
    a: Seq<char>,
    b: Seq<char>,
    c: Seq<char>,
    d: Seq<char>,
    e: Seq<char>,
    f: Seq<char>,
)
    ensures
        (a + b).is_prefix_of(a + b + c + d + e + f),
        text::contains(a + b + c + d + e + f, b),
        text::contains(a + b + c + d + e + f, c),
        text::contains(a + b + c + d + e + f, d),
        text::contains(a + b + c + d + e + f, e),
        text::contains(a + b + c + d + e + f, f),
{
    let line = a + b + c + d + e + f;
    let none = Seq::<char>::empty();
    assert(line =~= a + b + (c + d + e + f));
    lemma_between(a, b, c + d + e + f);
    assert(line =~= (a + b) + c + (d + e + f));
    lemma_between(a + b, c, d + e + f);
    assert(line =~= (a + b + c) + d + (e + f));
    lemma_between(a + b + c, d, e + f);
    lemma_between(a + b + c + d, e, f);
    assert(line =~= (a + b + c + d + e) + f + none);
    lemma_between(a + b + c + d + e, f, none);
    assert(a + b =~= line.subrange(0, (a + b).len() as int));
}

proof fn lemma_line_parts(m: MessageView, bounded: bool)
    ensures
        ({
            let line = transcript::message_text(m, bounded);
            &&& (m.role + ": "@ + content_shown(m, bounded)).is_prefix_of(line)
            &&& text::contains(line, content_shown(m, bounded))
            &&& text::contains(line, name_shown(m))
            &&& text::contains(line, id_shown(m))
            &&& text::contains(line, transcript::calls_text(m.tool_calls))
            &&& text::contains(line, transcript::blocks_text(m.content_blocks))
        }),
{
    lemma_six_parts(
        m.role + ": "@,
        content_shown(m, bounded),
        name_shown(m),
        id_shown(m),
        transcript::calls_text(m.tool_calls),
        transcript::blocks_text(m.content_blocks),
    );
}

proof fn lemma_content_shown(m: MessageView, bounded: bool)
    ensures
        shows_content(transcript::message_text(m, bounded), m, bounded),
{
    lemma_line_parts(m, bounded);
    let line = transcript::message_text(m, bounded);
    let none = Seq::<char>::empty();
    if bounded && m.role == "tool"@ && m.content.len() > 2_000 {
        let content = content_shown(m, bounded);
        let marker = "\n...[tool result truncated]...\n"@;
        reveal_strlit("\n...[tool result truncated]...\n");
        reveal_strlit("...[tool result truncated]...");
        let room = 2_000 - marker.len();
        let start = m.content.take(room / 2);
        let end = m.content.skip(m.content.len() - (room - room / 2));
        assert(content == start + marker + end);
        let p = m.role + ": "@ + m.content.take(900);
        let q = m.role + ": "@ + content;
        assert(p =~= q.subrange(0, p.len() as int));
        assert(p =~= line.subrange(0, q.len() as int).subrange(0, p.len() as int));
        assert(p =~= line.subrange(0, p.len() as int));
        let tail = m.content.skip(m.content.len() - 900);
        let rest = end.take(end.len() - 900);
        assert(end =~= rest + tail);
        assert(content =~= (start + marker + rest) + tail + none);
        lemma_between(start + marker + rest, tail, none);
        lemma_within(line, content, tail);
        let word = "...[tool result truncated]..."@;
        assert(marker.subrange(1, 1 + word.len() as int) =~= word);
        assert(text::occurs_at(marker, word, 1));
        lemma_between(start, marker, end);
        lemma_within(line, content, marker);
        lemma_within(line, marker, word);
    }
}

/// The line of a message begins with its role and its text and shows its name, the
/// id of the call that it answers, each of its calls with id, name and arguments,
/// and each of its blocks of text.
pub proof fn law_lines_show_their_message(m: MessageView, bounded: bool)
    ensures
        ({
            let line = transcript::message_text(m, bounded);
            &&& shows_content(line, m, bounded)
            &&& m.name matches Some(name) ==> text::contains(line, " [name="@ + name + "]"@)
            &&& m.tool_call_id matches Some(id) ==> text::contains(
                line,
                " [tool_call_id="@ + id + "]"@,
            )
            &&& forall|k: int|
                0 <= k < m.tool_calls.len() ==> text::contains(
                    line,
                    " [tool_call id="@ + (#[trigger] m.tool_calls[k]).id + " name="@
                        + m.tool_calls[k].name + " args="@ + m.tool_calls[k].arguments + " ]"@,
                )
            &&& forall|k: int|
                0 <= k < m.content_blocks.len() && (#[trigger] m.content_blocks[k]) is Text
                    ==> text::contains(
                    line,
                    "\n[content text]\n"@ + m.content_blocks[k]->Text_0,
                )
        }),
{
    let line = transcript::message_text(m, bounded);
    lemma_line_parts(m, bounded);
    lemma_content_shown(m, bounded);
    assert forall|k: int| 0 <= k < m.tool_calls.len() implies text::contains(
        line,
        " [tool_call id="@ + (#[trigger] m.tool_calls[k]).id + " name="@ + m.tool_calls[k].name
            + " args="@ + m.tool_calls[k].arguments + " ]"@,
    ) by {
        lemma_calls(m.tool_calls, k);
        lemma_within(
            line,
            transcript::calls_text(m.tool_calls),
            " [tool_call id="@ + m.tool_calls[k].id + " name="@ + m.tool_calls[k].name + " args="@
                + m.tool_calls[k].arguments + " ]"@,
        );
    }
    assert forall|k: int|
        0 <= k < m.content_blocks.len() && (#[trigger] m.content_blocks[k]) is Text implies text::contains(
        line,
        "\n[content text]\n"@ + m.content_blocks[k]->Text_0,
    ) by {
        lemma_blocks(m.content_blocks, k);
        lemma_within(
            line,
            transcript::blocks_text(m.content_blocks),
            "\n[content text]\n"@ + m.content_blocks[k]->Text_0,
        );
    }
}

/// Where the line of a message begins in a transcript.
pub open spec fn line_start(messages: Seq<MessageView>, i: int) -> int {
    text::part_start(transcript::message_texts(messages, true), "\n\n"@, i)
}

/// A transcript shows the line of every message, in the order of the messages.
pub proof fn law_transcripts_show_every_message(messages: Seq<MessageView>, i: int)
    requires
        0 <= i < messages.len(),
    ensures
        text::occurs_at(
            transcript::transcript(messages),
            transcript::message_text(messages[i], true),
            line_start(messages, i),
        ),
        line_start(messages, i + 1) == line_start(messages, i) + transcript::message_text(
            messages[i],
            true,
        ).len() + 2,
{
    reveal_strlit("\n\n");
    let parts = transcript::message_texts(messages, true);
    assert(parts[i] == transcript::message_text(messages[i], true));
    text::law_joined_parts_are_there(parts, "\n\n"@, i);
}

/// The only messages that a summary's transcript leaves out are those with which the
/// user restates the very checkpoint that it continues from; the others keep their
/// order.
pub proof fn law_only_the_restated_checkpoint_is_left_out(
    messages: Seq<MessageView>,
    checkpoint: Option<Seq<char>>,
)
    ensures
        transcript::without_restored(messages, checkpoint) == messages.filter(
            |m: MessageView|
                !(checkpoint matches Some(summary) && text::trim(summary).len() > 0 && m.role
                    == "user"@ && m.content == "[Compacted context]\n"@ + text::trim(summary)),
        ),
    decreases messages.len(),
{
    reveal(Seq::filter);
    if messages.len() > 0 {
        law_only_the_restated_checkpoint_is_left_out(messages.drop_last(), checkpoint);
    } else {
        assert(messages =~= Seq::empty());
    }
}

/// What a bounded text keeps: all of it where it fits, else its start and its end.
pub proof fn law_bounded_transcripts_keep_both_ends(t: Seq<char>, max_chars: int)
    requires
        max_chars >= 0,
    ensures
        ({
            let kept = transcript::bounded(t, max_chars);
            &&& kept.len() <= max_chars
            &&& t.len() <= max_chars ==> kept == t
            &&& t.len() > max_chars && max_chars >= 128 ==> kept.len() == max_chars && t.take(
                max_chars / 2 - 16,
            ).is_prefix_of(kept) && t.skip(t.len() - (max_chars / 2 - 16)).is_suffix_of(kept)
                && text::contains(kept, "...[transcript bounded]..."@)
        }),
{
    reveal_strlit("\n...[transcript bounded]...\n");
    reveal_strlit("...[transcript bounded]...");
    let marker = "\n...[transcript bounded]...\n"@;
    let kept = transcript::bounded(t, max_chars);
    if t.len() > max_chars && max_chars >= 128 {
        let room = max_chars - marker.len();
        let n = max_chars / 2 - 16;
        assert(t.take(n) =~= kept.subrange(0, n));
        assert(t.skip(t.len() - n) =~= kept.subrange(kept.len() - n, kept.len() as int));
        lemma_between(t.take(room / 2), marker, t.skip(t.len() - (room - room / 2)));
        let word = "...[transcript bounded]..."@;
        assert(marker.subrange(1, 1 + word.len() as int) =~= word);
        assert(text::occurs_at(marker, word, 1));
        lemma_within(kept, marker, word);
    }
}

/// A prompt for a summary ends with what is asked for, and before that says what the
/// last checkpoint was; it begins with the transcript of all messages but the one
/// that restates that checkpoint, cut in the middle where it is long.
pub proof fn law_summary_prompts_say_what_to_sum_up(
    messages: Seq<MessageView>,
    checkpoint: Option<Seq<char>>,
)
    ensures
        ({
            let asked = prompt::summary_prompt(messages, checkpoint);
            let history = transcript::transcript(
                transcript::without_restored(messages, checkpoint),
            );
            &&& ("\n\n"@ + compact::SUMMARY_PROMPT_INSTRUCTION@).is_suffix_of(asked)
            &&& checkpoint matches Some(summary) ==> text::trim(summary).len() > 0
                ==> text::contains(
                asked,
                "[Untrusted previous checkpoint]\n"@ + text::trim(summary),
            )
            &&& history.len() <= 65_536 ==> history.is_prefix_of(asked)
            &&& transcript::bounded(history, 65_536).is_prefix_of(asked)
        }),
{
    let asked = prompt::summary_prompt(messages, checkpoint);
    let history = transcript::transcript(transcript::without_restored(messages, checkpoint));
    let kept = transcript::bounded(history, 65_536);
    let back = prompt::checkpoint_suffix(checkpoint);
    let end = "\n\n"@ + compact::SUMMARY_PROMPT_INSTRUCTION@;
    assert(asked =~= kept + back + end);
    assert(end =~= asked.subrange(asked.len() - end.len(), asked.len() as int));
    assert(kept =~= asked.subrange(0, kept.len() as int));
    if let Some(summary) = checkpoint {
        if text::trim(summary).len() > 0 {
            lemma_between(kept, back, end);
            lemma_checkpoint_shown(checkpoint);
            lemma_within(
                asked,
                back,
                "[Untrusted previous checkpoint]\n"@ + text::trim(summary),
            );
        }
    }
}

proof fn lemma_checkpoint_shown(checkpoint: Option<Seq<char>>)
    requires
        checkpoint is Some,
        text::trim(checkpoint->Some_0).len() > 0,
    ensures
        text::contains(
            prompt::checkpoint_suffix(checkpoint),
            "[Untrusted previous checkpoint]\n"@ + text::trim(checkpoint->Some_0),
        ),
        ("[Untrusted previous checkpoint]\n"@ + text::trim(checkpoint->Some_0)).is_suffix_of(
            prompt::checkpoint_suffix(checkpoint),
        ),
{
    reveal_strlit("\n\n[Untrusted previous checkpoint]\n");
    reveal_strlit("[Untrusted previous checkpoint]\n");
    let none = Seq::<char>::empty();
    let gap = seq!['\n', '\n'];
    let phrase = "[Untrusted previous checkpoint]\n"@ + text::trim(checkpoint->Some_0);
    let back = prompt::checkpoint_suffix(checkpoint);
    assert("\n\n[Untrusted previous checkpoint]\n"@ =~= gap + "[Untrusted previous checkpoint]\n"@);
    assert(back =~= gap + phrase + none);
    lemma_between(gap, phrase, none);
    assert(phrase =~= back.subrange(back.len() - phrase.len(), back.len() as int));
}

/// A bounded prompt begins with the instructions that were given, ends with the last
/// checkpoint, and shows the transcript between them: whole where the whole prompt
/// fits the window beside its reserve, else cut in the middle.
pub proof fn law_bounded_prompts_say_what_to_sum_up(
    messages: Seq<MessageView>,
    checkpoint: Option<Seq<char>>,
    instructions: Option<Seq<char>>,
    window: u64,
    reserve: u64,
)
    ensures
        prompt::bounded_prompt(messages, checkpoint, instructions, window, reserve) matches Ok(
            asked,
        ) ==> ({
            let history = transcript::transcript(
                transcript::without_restored(messages, checkpoint),
            );
            &&& instructions matches Some(given) ==> text::trim(given).len() > 0 ==> (
            "[Compaction instructions]\n"@ + text::trim(given) + "\n\n[Transcript]\n"@).is_prefix_of(
                asked,
            )
            &&& checkpoint matches Some(summary) ==> text::trim(summary).len() > 0 ==> (
            "[Untrusted previous checkpoint]\n"@ + text::trim(summary)).is_suffix_of(asked)
            &&& text::contains(asked, "[Transcript]\n"@ + history) || exists|n: int|
                0 <= n < history.len() && text::contains(
                    asked,
                    "[Transcript]\n"@ + #[trigger] transcript::bounded(history, n),
                ) && !prompt::prompt_fits(asked.len() + 1, window, reserve)
        }),
{
    if let Ok(asked) = prompt::bounded_prompt(
        messages,
        checkpoint,
        instructions,
        window,
        reserve,
    ) {
        let history = transcript::transcript(transcript::without_restored(messages, checkpoint));
        let front = prompt::instructions_block(instructions);
        let back = prompt::checkpoint_suffix(checkpoint);
        let bare = prompt::framed(front, Seq::empty(), back);
        let n = prompt::most_fitting(bare.len(), window, reserve, history.len()) as int;
        let whole = asked == prompt::framed(front, history, back);
        let body = if whole {
            history
        } else {
            transcript::bounded(history, n)
        };
        assert(asked == prompt::framed(front, body, back));
        assert(asked =~= front + ("[Transcript]\n"@ + body) + back);
        lemma_between(front, "[Transcript]\n"@ + body, back);
        if let Some(given) = instructions {
            if text::trim(given).len() > 0 {
                reveal_strlit("\n\n[Transcript]\n");
                reveal_strlit("\n\n");
                reveal_strlit("[Transcript]\n");
                assert("\n\n[Transcript]\n"@ =~= "\n\n"@ + "[Transcript]\n"@);
                let p = "[Compaction instructions]\n"@ + text::trim(given) + "\n\n[Transcript]\n"@;
                assert(p =~= asked.subrange(0, p.len() as int));
            }
        }
        if let Some(summary) = checkpoint {
            if text::trim(summary).len() > 0 {
                lemma_checkpoint_shown(checkpoint);
                let phrase = "[Untrusted previous checkpoint]\n"@ + text::trim(summary);
                assert(phrase =~= asked.subrange(
                    asked.len() - phrase.len(),
                    asked.len() as int,
                ));
            }
        }
        if !whole {
            lemma_fitting_is_most(bare.len(), window, reserve, history.len());
            law_bounded_transcripts_keep_both_ends(history, n);
            lemma_bounded_is_full(history, n);
            assert(asked.len() == bare.len() + n);
        }
    }
}

proof fn lemma_bounded_is_full(t: Seq<char>, n: int)
    requires
        0 <= n <= t.len(),
    ensures
        transcript::bounded(t, n).len() == n,
{
    reveal_strlit("\n...[transcript bounded]...\n");
}

proof fn lemma_fitting_is_most(fixed: nat, window: u64, reserve: u64, n: nat)
    ensures
        prompt::most_fitting(fixed, window, reserve, n) <= n,
        prompt::most_fitting(fixed, window, reserve, n) == n || !prompt::prompt_fits(
            fixed + prompt::most_fitting(fixed, window, reserve, n) + 1,
            window,
            reserve,
        ),
    decreases n,
{
    if n > 0 && !prompt::prompt_fits(fixed + n, window, reserve) {
        lemma_fitting_is_most(fixed, window, reserve, (n - 1) as nat);
    }
}

/// Every call of an assistant is among those that a manifest lists.
proof fn lemma_listed_call(messages: Seq<MessageView>, a: int, k: int) -> (at: int)
    requires
        0 <= a < messages.len(),
        messages[a].role == "assistant"@,
        0 <= k < messages[a].tool_calls.len(),
    ensures
        0 <= at < transcript::assistant_calls(messages).len(),
        transcript::assistant_calls(messages)[at] == messages[a].tool_calls[k],
    decreases messages.len(),
{
    let front = messages.drop_last();
    let before = transcript::assistant_calls(front);
    if a == messages.len() - 1 {
        before.len() + k
    } else {
        assert(front[a] == messages[a]);
        let at = lemma_listed_call(front, a, k);
        at
    }
}

proof fn lemma_all_fit(entries: Seq<Seq<char>>, budget: int, k: int)
    requires
        0 <= k <= entries.len(),
        text::byte_len(transcript::manifest_lines(entries, entries.len() as int)) <= budget,
    ensures
        transcript::manifest_fitting(entries, budget, k) == entries.len(),
    decreases entries.len() - k,
{
    if k < entries.len() {
        lemma_all_fit(entries, budget, k + 1);
        lemma_lines_grow(entries, k + 1, entries.len() as int);
        let lines = transcript::manifest_lines(entries, k);
        text::lemma_byte_len_push(lines, '\n');
        text::lemma_byte_len_add(lines.push('\n'), entries[k]);
        reveal_strlit("\n");
    }
}

proof fn lemma_lines_grow(entries: Seq<Seq<char>>, k: int, n: int)
    requires
        0 <= k <= n <= entries.len(),
    ensures
        text::byte_len(transcript::manifest_lines(entries, k)) <= text::byte_len(
            transcript::manifest_lines(entries, n),
        ),
    decreases n - k,
{
    if k < n {
        lemma_lines_grow(entries, k, n - 1);
        let lines = transcript::manifest_lines(entries, n - 1);
        text::lemma_byte_len_push(lines, '\n');
        text::lemma_byte_len_add(lines.push('\n'), entries[n - 1]);
    }
}

proof fn lemma_entry_shown(entries: Seq<Seq<char>>, n: int, j: int)
    requires
        0 <= j < n <= entries.len(),
    ensures
        text::contains(transcript::manifest_lines(entries, n), entries[j]),
    decreases n,
{
    let before = transcript::manifest_lines(entries, n - 1);
    let all = transcript::manifest_lines(entries, n);
    let none = Seq::<char>::empty();
    if j == n - 1 {
        assert(all =~= before.push('\n') + entries[j] + none);
        lemma_between(before.push('\n'), entries[j], none);
    } else {
        lemma_entry_shown(entries, n - 1, j);
        assert(all =~= none + before + (seq!['\n'] + entries[n - 1]));
        lemma_between(none, before, seq!['\n'] + entries[n - 1]);
        lemma_within(all, before, entries[j]);
    }
}

/// Where all calls fit below its header, a manifest shows every call of every
/// assistant message: its id, its tool, its arguments as far as they are shown, and
/// whether a result is there.
pub proof fn law_manifests_show_every_call(
    messages: Seq<MessageView>,
    max_bytes: nat,
    a: int,
    k: int,
)
    requires
        0 <= a < messages.len(),
        messages[a].role == "assistant"@,
        0 <= k < messages[a].tool_calls.len(),
        max_bytes >= 4_096,
        text::byte_len(
            transcript::manifest_lines(
                transcript::manifest_entries(messages),
                transcript::manifest_entries(messages).len() as int,
            ),
        ) <= 4_096 - 128,
    ensures
        ({
            let call = messages[a].tool_calls[k];
            let present = exists|t: int|
                0 <= t < messages.len() && (#[trigger] messages[t]).role == "tool"@
                    && messages[t].tool_call_id == Some(call.id);
            text::contains(
                transcript::manifest(messages, max_bytes),
                "{\"call_id\":"@ + json::quoted(call.id) + ",\"tool\":"@ + json::quoted(call.name)
                    + ",\"arguments\":"@ + json::quoted(transcript::short_arguments(call.arguments))
                    + ",\"result_present\":"@ + (if present {
                    "true"@
                } else {
                    "false"@
                }) + "}"@,
            )
        }),
{
    let entries = transcript::manifest_entries(messages);
    let at = lemma_listed_call(messages, a, k);
    let call = messages[a].tool_calls[k];
    assert(entries[at] == transcript::manifest_entry(messages, call));
    lemma_all_fit(entries, 4_096 - 128, 0);
    lemma_lines_grow(entries, 0, entries.len() as int);
    lemma_entry_shown(entries, entries.len() as int, at);
    assert(transcript::manifest(messages, max_bytes) == transcript::manifest_lines(
        entries,
        entries.len() as int,
    ));
}

/// Arguments are shown whole where they are short, else their start and their end
/// with dots between them, and no more bytes than the bound.
pub proof fn law_shown_arguments_keep_both_ends(arguments: Seq<char>)
    ensures
        ({
            let shown = transcript::short_arguments(arguments);
            &&& text::byte_len(arguments) <= 512 ==> shown == arguments
            &&& text::byte_len(arguments) > 512 ==> exists|h: int, t: int|
                0 <= h <= arguments.len() && 0 <= t <= arguments.len() && shown
                    == #[trigger] arguments.take(h) + "..."@ + #[trigger] arguments.skip(t)
                    && text::byte_len(arguments.take(h)) > 250 && text::byte_len(arguments.skip(t))
                    <= 255
        }),
{
    if text::byte_len(arguments) > 512 {
        reveal_strlit("...");
        assert(vstd::utf8::is_ascii_chars("..."@));
        vstd::utf8::is_ascii_chars_encode_utf8("..."@);
        assert(text::byte_len("..."@) == 3);
        let h = text::fitting_head(arguments, 254) as int;
        let t = arguments.len() - text::fitting_tail(arguments, 255);
        text::lemma_fitting_head(arguments, 254);
        text::lemma_fitting_tail(arguments, 255);
        assert(arguments.take(arguments.len() as int) =~= arguments);
        assert(arguments.skip(0) =~= arguments);
        assert(text::head_within(arguments, 254) == arguments.take(h));
        assert(text::tail_within(arguments, 255) == arguments.skip(t));
        assert(transcript::short_arguments(arguments) == arguments.take(h) + "..."@
            + arguments.skip(t));
    }
}

/// The extract that stands in for a summary shows the goal and the history, each on
/// one line, where both fit into their room, and says that it is no summary.
pub proof fn law_extracts_show_goal_and_history(selection: compact::SelectionView)
    requires
        text::byte_len(prompt::field_text(text::trim(selection.root_instruction))) <= (
        prompt::LOCAL_EMERGENCY_SUMMARY_MAX_BYTES - text::byte_len(prompt::emergency_fixed())) / 3,
        text::byte_len(
            prompt::field_text(
                transcript::transcript(apply::unpinned(selection.summarized, selection.pinned)),
            ),
        ) < (prompt::LOCAL_EMERGENCY_SUMMARY_MAX_BYTES - text::byte_len(prompt::emergency_fixed()))
            / 2,
    ensures
        ({
            let extract = prompt::emergency(selection);
            let history = transcript::transcript(
                apply::unpinned(selection.summarized, selection.pinned),
            );
            &&& text::contains(
                extract,
                "## Goal\n> "@ + text::replaced(
                    text::trim(selection.root_instruction),
                    "\n"@,
                    "\\n"@,
                ),
            )
            &&& text::contains(
                extract,
                "## Progress\n> "@ + text::replaced(history, "\n"@, "\\n"@),
            )
            &&& text::contains(extract, "[local extract; not an LLM summary]"@)
        }),
{
    let history = transcript::transcript(apply::unpinned(selection.summarized, selection.pinned));
    let goal = prompt::field_text(text::trim(selection.root_instruction));
    let progress = prompt::field_text(history);
    let extract = prompt::emergency(selection);
    assert(extract == prompt::emergency_text(goal, progress));
    let none = Seq::<char>::empty();
    let middle = "\n\n## Constraints\n\n## Progress\n"@;
    let end =
        "\n\n## Blocked\n\n## Decisions\n\n## Next steps\n\n## Critical context\n[local extract; not an LLM summary]"@;
    reveal_strlit("## Goal\n");
    reveal_strlit("> ");
    reveal_strlit("## Goal\n> ");
    let told = text::replaced(text::trim(selection.root_instruction), "\n"@, "\\n"@);
    assert("## Goal\n> "@ =~= "## Goal\n"@ + "> "@);
    assert(extract =~= none + ("## Goal\n> "@ + told) + (middle + progress + end));
    lemma_between(none, "## Goal\n> "@ + told, middle + progress + end);
    reveal_strlit("\n\n## Constraints\n\n## Progress\n");
    reveal_strlit("\n\n## Constraints\n\n");
    reveal_strlit("## Progress\n> ");
    let gap = "\n\n## Constraints\n\n"@;
    assert(middle + "> "@ =~= gap + "## Progress\n> "@);
    let done = text::replaced(history, "\n"@, "\\n"@);
    assert(extract =~= ("## Goal\n"@ + goal + gap) + ("## Progress\n> "@ + done) + end);
    lemma_between("## Goal\n"@ + goal + gap, "## Progress\n> "@ + done, end);
    reveal_strlit("\n\n## Blocked\n\n## Decisions\n\n## Next steps\n\n## Critical context\n[local extract; not an LLM summary]");
    reveal_strlit("[local extract; not an LLM summary]");
    reveal_strlit("\n\n## Blocked\n\n## Decisions\n\n## Next steps\n\n## Critical context\n");
    let lead = "\n\n## Blocked\n\n## Decisions\n\n## Next steps\n\n## Critical context\n"@;
    let word = "[local extract; not an LLM summary]"@;
    assert(end =~= lead + word + none);
    lemma_between(lead, word, none);
    assert(extract =~= ("## Goal\n"@ + goal + middle + progress) + end + none);
    lemma_between("## Goal\n"@ + goal + middle + progress, end, none);
    lemma_within(extract, end, word);
}

} // verus!
