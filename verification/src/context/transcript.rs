//! Conversations as text: transcripts for summaries, the manifest of tool calls,
//! and the recovery artifact with its index.
use vstd::prelude::*;
use vstd::string::*;
use crate::json;
use crate::provider::message;
use crate::provider::message::{ProviderContentBlock, ProviderMessage, ProviderToolCall};
use crate::text;

verus! {

pub const TOOL_RESULT_MAX_CHARS: usize = 2_000;

/// What marks a message as the summary of earlier context.
pub open spec fn compacted_mark() -> Seq<char> {
    "[Compacted context]\n"@
}

/// The start and the end of a text with a marker between them: `room` characters
/// of it are kept, half of them (rounded down) at the start.
pub open spec fn middle_cut(s: Seq<char>, marker: Seq<char>, room: int) -> Seq<char> {
    s.take(room / 2) + marker + s.skip(s.len() - (room - room / 2))
}

pub fn cut_middle(s: &str, marker: &str, room: usize) -> (out: String)
    requires
        room <= s@.len(),
    ensures
        out@ == middle_cut(s@, marker@, room as int),
{
    let chars = text::chars_of(s);
    let head: usize = room / 2;
    let tail: usize = room - head;
    let mut out = text::string_of(&chars, 0, head);
    out.append(marker);
    out.append(text::string_of(&chars, chars.len() - tail, chars.len()).as_str());
    assert(s@.take(head as int) =~= s@.subrange(0, head as int));
    assert(s@.skip(s@.len() - tail) =~= s@.subrange(s@.len() - tail, s@.len() as int));
    out
}

/// A tool result, with its middle cut out where it is long.
pub open spec fn short_result(content: Seq<char>) -> Seq<char> {
    let marker = "\n...[tool result truncated]...\n"@;
    if content.len() <= TOOL_RESULT_MAX_CHARS {
        content
    } else {
        middle_cut(content, marker, TOOL_RESULT_MAX_CHARS - marker.len())
    }
}

fn bounded_tool_result(content: &str) -> (out: String)
    ensures
        out@ == short_result(content@),
{
    if text::char_count(content) <= TOOL_RESULT_MAX_CHARS {
        return content.to_owned();
    }
    proof {
        reveal_strlit("\n...[tool result truncated]...\n");
    }
    let marker = "\n...[tool result truncated]...\n";
    cut_middle(content, marker, TOOL_RESULT_MAX_CHARS - text::char_count(marker))
}

/// The tool calls of a message, as its line shows them.
pub open spec fn calls_text(calls: Seq<message::CallView>) -> Seq<char>
    decreases calls.len(),
{
    if calls.len() == 0 {
        Seq::empty()
    } else {
        let c = calls.last();
        calls_text(calls.drop_last()) + " [tool_call id="@ + c.id + " name="@ + c.name + " args="@
            + c.arguments + " ]"@
    }
}

/// The text blocks of a message, as its line shows them.
pub open spec fn blocks_text(blocks: Seq<message::BlockView>) -> Seq<char>
    decreases blocks.len(),
{
    if blocks.len() == 0 {
        Seq::empty()
    } else {
        let before = blocks_text(blocks.drop_last());
        match blocks.last() {
            message::BlockView::Text(t) => before + "\n[content text]\n"@ + t,
            _ => before,
        }
    }
}

/// A message as text; with `bounded`, a long tool result is shortened.
pub open spec fn message_text(m: message::MessageView, bounded: bool) -> Seq<char> {
    let content = if bounded && m.role == "tool"@ {
        short_result(m.content)
    } else {
        m.content
    };
    let named = match m.name {
        Some(name) => " [name="@ + name + "]"@,
        None => Seq::empty(),
    };
    let called = match m.tool_call_id {
        Some(id) => " [tool_call_id="@ + id + "]"@,
        None => Seq::empty(),
    };
    m.role + ": "@ + content + named + called + calls_text(m.tool_calls) + blocks_text(
        m.content_blocks,
    )
}

fn append_calls(line: &mut String, calls: &Vec<ProviderToolCall>)
    ensures
        final(line)@ == old(line)@ + calls_text(message::call_views(calls@)),
{
    let ghost all = message::call_views(calls@);
    let ghost start = line@;
    let mut i: usize = 0;
    assert(line@ =~= start + calls_text(all.take(0)));
    while i < calls.len()
        invariant
            i <= calls@.len(),
            all == message::call_views(calls@),
            line@ == start + calls_text(all.take(i as int)),
        decreases calls@.len() - i,
    {
        let ghost before = calls_text(all.take(i as int));
        assert(all.take(i + 1).drop_last() =~= all.take(i as int));
        let call = &calls[i];
        line.append(" [tool_call id=");
        line.append(call.id.as_str());
        line.append(" name=");
        line.append(call.name.as_str());
        line.append(" args=");
        line.append(call.arguments.as_str());
        line.append(" ]");
        assert(line@ =~= start + calls_text(all.take(i + 1)));
        i = i + 1;
    }
    assert(all.take(all.len() as int) =~= all);
}

fn append_blocks(line: &mut String, blocks: &Vec<ProviderContentBlock>)
    ensures
        final(line)@ == old(line)@ + blocks_text(message::block_views(blocks@)),
{
    let ghost all = message::block_views(blocks@);
    let ghost start = line@;
    let mut i: usize = 0;
    assert(line@ =~= start + blocks_text(all.take(0)));
    while i < blocks.len()
        invariant
            i <= blocks@.len(),
            all == message::block_views(blocks@),
            line@ == start + blocks_text(all.take(i as int)),
        decreases blocks@.len() - i,
    {
        assert(all.take(i + 1).drop_last() =~= all.take(i as int));
        if let ProviderContentBlock::Text(t) = &blocks[i] {
            line.append("\n[content text]\n");
            line.append(t.as_str());
            assert(line@ =~= start + blocks_text(all.take(i + 1)));
        }
        i = i + 1;
    }
    assert(all.take(all.len() as int) =~= all);
}

pub fn format_provider_message(message: &ProviderMessage, bounded: bool) -> (line: String)
    ensures
        line@ == message_text(message@, bounded),
{
    let mut line = message.role.clone();
    line.append(": ");
    if bounded && message.role_is("tool") {
        line.append(bounded_tool_result(message.content.as_str()).as_str());
    } else {
        line.append(message.content.as_str());
    }
    let ghost front = line@;
    if let Some(name) = &message.name {
        line.append(" [name=");
        line.append(name.as_str());
        line.append("]");
    }
    let ghost named = match message@.name {
        Some(name) => " [name="@ + name + "]"@,
        None => Seq::empty(),
    };
    assert(line@ =~= front + named);
    if let Some(id) = &message.tool_call_id {
        line.append(" [tool_call_id=");
        line.append(id.as_str());
        line.append("]");
    }
    let ghost called = match message@.tool_call_id {
        Some(id) => " [tool_call_id="@ + id + "]"@,
        None => Seq::empty(),
    };
    assert(line@ =~= front + named + called);
    append_calls(&mut line, &message.tool_calls);
    append_blocks(&mut line, &message.content_blocks);
    line
}

/// The texts of messages, each as its line.
pub open spec fn message_texts(messages: Seq<message::MessageView>, bounded: bool) -> Seq<
    Seq<char>,
> {
    messages.map_values(|m: message::MessageView| message_text(m, bounded))
}

/// Messages as one text, a blank line between each two.
pub open spec fn transcript(messages: Seq<message::MessageView>) -> Seq<char> {
    text::join(message_texts(messages, true), "\n\n"@)
}

fn format_all(messages: &Vec<ProviderMessage>, bounded: bool) -> (out: Vec<String>)
    ensures
        text::texts(out@) == message_texts(message::views(messages@), bounded),
{
    let ghost all = message_texts(message::views(messages@), bounded);
    let mut out: Vec<String> = Vec::new();
    let mut i: usize = 0;
    while i < messages.len()
        invariant
            i <= messages@.len(),
            all == message_texts(message::views(messages@), bounded),
            text::texts(out@) == all.take(i as int),
        decreases messages@.len() - i,
    {
        let ghost done = out@;
        let line = format_provider_message(&messages[i], bounded);
        out.push(line);
        assert(text::texts(out@) =~= text::texts(done).push(line@));
        assert(all.take(i + 1) =~= all.take(i as int).push(line@));
        i = i + 1;
    }
    assert(all.take(all.len() as int) =~= all);
    out
}

pub fn format_transcript(messages: &Vec<ProviderMessage>) -> (out: String)
    ensures
        out@ == transcript(message::views(messages@)),
{
    text::joined(&format_all(messages, true), "\n\n")
}

/// Whether a text holds more than white space.
pub open spec fn not_blank(s: Seq<char>) -> bool {
    text::trim(s).len() > 0
}

/// The checkpoint that a summary continues from, where it is not blank.
pub open spec fn given_checkpoint(checkpoint: Option<Seq<char>>) -> Option<Seq<char>> {
    match checkpoint {
        Some(summary) => if not_blank(summary) {
            Some(text::trim(summary))
        } else {
            None
        },
        None => None,
    }
}

/// The messages of a conversation without the one that restates the checkpoint.
pub open spec fn without_restored(
    messages: Seq<message::MessageView>,
    checkpoint: Option<Seq<char>>,
) -> Seq<message::MessageView>
    decreases messages.len(),
{
    if messages.len() == 0 {
        messages
    } else {
        let before = without_restored(messages.drop_last(), checkpoint);
        let m = messages.last();
        match given_checkpoint(checkpoint) {
            Some(summary) => if m.role == "user"@ && m.content == compacted_mark() + summary {
                before
            } else {
                before.push(m)
            },
            None => before.push(m),
        }
    }
}

/// The transcript that a summary is asked for.
pub open spec fn summary_transcript(
    messages: Seq<message::MessageView>,
    checkpoint: Option<Seq<char>>,
) -> Seq<char> {
    transcript(without_restored(messages, checkpoint))
}

/// A text that may be missing, by reference.
pub open spec fn opt_str(s: Option<&str>) -> Option<Seq<char>> {
    match s {
        Some(t) => Some(t@),
        None => None,
    }
}

pub fn trimmed_checkpoint(checkpoint: Option<&str>) -> (r: Option<String>)
    ensures
        message::opt_text(r) == given_checkpoint(opt_str(checkpoint)),
{
    match checkpoint {
        Some(summary) => {
            let t = text::trimmed(summary);
            if t.as_str().is_empty() {
                None
            } else {
                Some(t)
            }
        },
        None => None,
    }
}

pub fn format_summary_transcript(messages: &Vec<ProviderMessage>, checkpoint: Option<&str>) -> (out:
    String)
    ensures
        out@ == summary_transcript(message::views(messages@), opt_str(checkpoint)),
{
    let ghost all = message::views(messages@);
    let ghost given = opt_str(checkpoint);
    let restored: Option<String> = match trimmed_checkpoint(checkpoint) {
        Some(summary) => {
            let mut r = "[Compacted context]\n".to_owned();
            r.append(summary.as_str());
            Some(r)
        },
        None => None,
    };
    let mut lines: Vec<String> = Vec::new();
    let mut i: usize = 0;
    assert(text::texts(lines@) =~= message_texts(without_restored(all.take(0), given), true));
    while i < messages.len()
        invariant
            i <= messages@.len(),
            all == message::views(messages@),
            match restored {
                Some(r) => given_checkpoint(given) is Some && r@ == compacted_mark()
                    + given_checkpoint(given)->0,
                None => given_checkpoint(given) is None,
            },
            text::texts(lines@) == message_texts(without_restored(all.take(i as int), given), true),
        decreases messages@.len() - i,
    {
        assert(all.take(i + 1).drop_last() =~= all.take(i as int));
        let ghost before = without_restored(all.take(i as int), given);
        let m = &messages[i];
        let skip = match &restored {
            Some(r) => m.role_is("user") && text::same(r.as_str(), m.content.as_str()),
            None => false,
        };
        if !skip {
            let ghost done = lines@;
            let line = format_provider_message(m, true);
            lines.push(line);
            assert(text::texts(lines@) =~= text::texts(done).push(line@));
            assert(message_texts(before.push(m@), true) =~= message_texts(before, true).push(line@));
        }
        i = i + 1;
    }
    assert(all.take(all.len() as int) =~= all);
    text::joined(&lines, "\n\n")
}

/// A transcript cut to `max_chars` characters.
pub open spec fn bounded(t: Seq<char>, max_chars: int) -> Seq<char> {
    let marker = "\n...[transcript bounded]...\n"@;
    if t.len() <= max_chars {
        t
    } else if max_chars <= marker.len() {
        marker.take(max_chars)
    } else {
        middle_cut(t, marker, max_chars - marker.len())
    }
}

pub fn bounded_transcript(transcript: &str, max_chars: usize) -> (out: String)
    ensures
        out@ == bounded(transcript@, max_chars as int),
        out@.len() <= max_chars,
{
    let n: usize = text::char_count(transcript);
    if n <= max_chars {
        return transcript.to_owned();
    }
    let marker = "\n...[transcript bounded]...\n";
    let marked: usize = text::char_count(marker);
    if max_chars <= marked {
        assert(marker@.take(marker@.len() as int) =~= marker@);
        return text::first_chars_of(marker, max_chars);
    }
    cut_middle(transcript, marker, max_chars - marked)
}

pub const TOOL_CALL_MANIFEST_MAX_BYTES: usize = 4_096;

pub const TOOL_CALL_MANIFEST_ARGUMENT_MAX_BYTES: usize = 512;

pub const TOOL_CALL_MANIFEST_OMISSION_RESERVE_BYTES: usize = 128;

/// The first line of a manifest.
pub open spec fn manifest_header() -> Seq<char> {
    "[Prior tool calls; full results are recoverable from the prior visible transcript]"@
}

/// The start and the end of a text in at most `max_bytes` bytes, a marker between
/// them, no character split.
pub open spec fn byte_cut(s: Seq<char>, marker: Seq<char>, max_bytes: int) -> Seq<char> {
    let room = max_bytes - text::byte_len(marker);
    text::head_within(s, room / 2) + marker + text::tail_within(s, room - room / 2)
}

/// The cut keeps within its bytes.
pub proof fn lemma_byte_cut(s: Seq<char>, marker: Seq<char>, max_bytes: int)
    requires
        text::byte_len(marker) <= max_bytes,
    ensures
        text::byte_len(byte_cut(s, marker, max_bytes)) <= max_bytes,
{
    let room = max_bytes - text::byte_len(marker);
    let head = text::head_within(s, room / 2);
    let tail = text::tail_within(s, room - room / 2);
    text::lemma_fitting_head(s, room / 2);
    text::lemma_fitting_tail(s, room - room / 2);
    text::lemma_byte_len_add(head, marker);
    text::lemma_byte_len_add(head + marker, tail);
}

pub fn cut_bytes(s: &str, marker: &str, max_bytes: usize) -> (out: String)
    requires
        text::byte_len(marker@) <= max_bytes,
    ensures
        out@ == byte_cut(s@, marker@, max_bytes as int),
        text::byte_len(out@) <= max_bytes,
{
    let room: usize = max_bytes - text::byte_count(marker);
    let mut out = text::head_of(s, room / 2);
    out.append(marker);
    out.append(text::tail_of(s, room - room / 2).as_str());
    proof {
        lemma_byte_cut(s@, marker@, max_bytes as int);
    }
    out
}

/// A call's arguments as the manifest shows them.
pub open spec fn short_arguments(arguments: Seq<char>) -> Seq<char> {
    if text::byte_len(arguments) <= TOOL_CALL_MANIFEST_ARGUMENT_MAX_BYTES {
        arguments
    } else {
        byte_cut(arguments, "..."@, TOOL_CALL_MANIFEST_ARGUMENT_MAX_BYTES as int)
    }
}

proof fn lemma_dots()
    ensures
        text::byte_len("..."@) == 3,
{
    reveal_strlit("...");
    assert(vstd::utf8::is_ascii_chars("..."@));
    vstd::utf8::is_ascii_chars_encode_utf8("..."@);
}

fn bounded_manifest_arguments(arguments: &str) -> (out: String)
    ensures
        out@ == short_arguments(arguments@),
{
    if text::byte_count(arguments) <= TOOL_CALL_MANIFEST_ARGUMENT_MAX_BYTES {
        return arguments.to_owned();
    }
    proof {
        lemma_dots();
    }
    cut_bytes(arguments, "...", TOOL_CALL_MANIFEST_ARGUMENT_MAX_BYTES)
}

/// Whether a tool message answers the call.
pub open spec fn answered(messages: Seq<message::MessageView>, id: Seq<char>) -> bool {
    exists|i: int|
        0 <= i < messages.len() && (#[trigger] messages[i]).role == "tool"@
            && messages[i].tool_call_id == Some(id)
}

pub fn is_answered(messages: &Vec<ProviderMessage>, id: &str) -> (r: bool)
    ensures
        r == answered(message::views(messages@), id@),
{
    let ghost all = message::views(messages@);
    let mut i: usize = 0;
    while i < messages.len()
        invariant
            i <= messages@.len(),
            all == message::views(messages@),
            forall|k: int|
                0 <= k < i ==> !((#[trigger] all[k]).role == "tool"@ && all[k].tool_call_id == Some(
                    id@,
                )),
        decreases messages@.len() - i,
    {
        assert(all[i as int] == messages@[i as int]@);
        if messages[i].role_is("tool") {
            if let Some(known) = &messages[i].tool_call_id {
                if text::same(known.as_str(), id) {
                    return true;
                }
            }
        }
        i = i + 1;
    }
    false
}

/// The manifest's line for one call.
pub open spec fn manifest_entry(
    messages: Seq<message::MessageView>,
    call: message::CallView,
) -> Seq<char> {
    "{\"call_id\":"@ + json::quoted(call.id) + ",\"tool\":"@ + json::quoted(call.name)
        + ",\"arguments\":"@ + json::quoted(short_arguments(call.arguments))
        + ",\"result_present\":"@ + (if answered(messages, call.id) {
        "true"@
    } else {
        "false"@
    }) + "}"@
}

/// The calls of the assistant messages, in order.
pub open spec fn assistant_calls(messages: Seq<message::MessageView>) -> Seq<message::CallView>
    decreases messages.len(),
{
    if messages.len() == 0 {
        Seq::empty()
    } else {
        let before = assistant_calls(messages.drop_last());
        if messages.last().role == "assistant"@ {
            before + messages.last().tool_calls
        } else {
            before
        }
    }
}

pub open spec fn manifest_entries(messages: Seq<message::MessageView>) -> Seq<Seq<char>> {
    assistant_calls(messages).map_values(|c: message::CallView| manifest_entry(messages, c))
}

/// The first `k` entries below the header.
pub open spec fn manifest_lines(entries: Seq<Seq<char>>, k: int) -> Seq<char>
    decreases k,
{
    if k <= 0 {
        manifest_header()
    } else {
        manifest_lines(entries, k - 1).push('\n') + entries[k - 1]
    }
}

/// How many entries, from the `k`-th on, still fit below the lines before them.
pub open spec fn manifest_fitting(entries: Seq<Seq<char>>, budget: int, k: int) -> int
    decreases entries.len() - k,
{
    if k >= entries.len() || text::byte_len(manifest_lines(entries, k)) + 1 + text::byte_len(
        entries[k],
    ) > budget {
        k
    } else {
        manifest_fitting(entries, budget, k + 1)
    }
}

/// The line that says how many calls the manifest leaves out.
pub open spec fn omission(n: nat) -> Seq<char> {
    "\n["@ + text::decimal(n) + " tool call(s) omitted from this manifest]"@
}

/// The manifest of the tool calls of a conversation.
pub open spec fn manifest(messages: Seq<message::MessageView>, max_bytes: nat) -> Seq<char> {
    let limit = if max_bytes < TOOL_CALL_MANIFEST_MAX_BYTES {
        max_bytes
    } else {
        TOOL_CALL_MANIFEST_MAX_BYTES as nat
    };
    let entries = manifest_entries(messages);
    let budget = limit - TOOL_CALL_MANIFEST_OMISSION_RESERVE_BYTES;
    let included = manifest_fitting(entries, budget, 0);
    let lines = manifest_lines(entries, included);
    let rest = omission((entries.len() - included) as nat);
    if entries.len() == 0 || limit < text::byte_len(manifest_header()) {
        Seq::empty()
    } else if included < entries.len() && text::byte_len(lines) + text::byte_len(rest) <= limit {
        lines + rest
    } else {
        lines
    }
}

proof fn lemma_manifest_lines(entries: Seq<Seq<char>>, budget: int, k: int)
    requires
        0 <= k <= entries.len(),
        text::byte_len(manifest_lines(entries, k)) <= budget || k == 0,
    ensures
        k <= manifest_fitting(entries, budget, k) <= entries.len(),
        manifest_fitting(entries, budget, k) == 0 || text::byte_len(
            manifest_lines(entries, manifest_fitting(entries, budget, k)),
        ) <= budget,
    decreases entries.len() - k,
{
    if k < entries.len() && text::byte_len(manifest_lines(entries, k)) + 1 + text::byte_len(
        entries[k],
    ) <= budget {
        let lines = manifest_lines(entries, k);
        text::lemma_byte_len_push(lines, '\n');
        text::lemma_byte_len_add(lines.push('\n'), entries[k]);
        lemma_manifest_lines(entries, budget, k + 1);
    }
}

/// The manifest keeps within the limit that it is given, and within its own.
pub proof fn law_manifest_is_bounded(messages: Seq<message::MessageView>, max_bytes: nat)
    ensures
        text::byte_len(manifest(messages, max_bytes)) <= max_bytes,
        text::byte_len(manifest(messages, max_bytes)) <= TOOL_CALL_MANIFEST_MAX_BYTES,
{
    let limit = if max_bytes < TOOL_CALL_MANIFEST_MAX_BYTES {
        max_bytes
    } else {
        TOOL_CALL_MANIFEST_MAX_BYTES as nat
    };
    let entries = manifest_entries(messages);
    let budget = limit - TOOL_CALL_MANIFEST_OMISSION_RESERVE_BYTES;
    let included = manifest_fitting(entries, budget, 0);
    let lines = manifest_lines(entries, included);
    let rest = omission((entries.len() - included) as nat);
    lemma_manifest_lines(entries, budget, 0);
    text::lemma_byte_len_add(lines, rest);
    text::lemma_byte_len_empty();
}

fn write_manifest_entry(messages: &Vec<ProviderMessage>, call: &ProviderToolCall) -> (out: String)
    ensures
        out@ == manifest_entry(message::views(messages@), call@),
{
    let mut out = "{\"call_id\":".to_owned();
    out.append(json::quote(call.id.as_str()).as_str());
    out.append(",\"tool\":");
    out.append(json::quote(call.name.as_str()).as_str());
    out.append(",\"arguments\":");
    out.append(json::quote(bounded_manifest_arguments(call.arguments.as_str()).as_str()).as_str());
    out.append(",\"result_present\":");
    if is_answered(messages, call.id.as_str()) {
        out.append("true");
    } else {
        out.append("false");
    }
    out.append("}");
    out
}

fn write_manifest_entries(messages: &Vec<ProviderMessage>) -> (out: Vec<String>)
    ensures
        text::texts(out@) == manifest_entries(message::views(messages@)),
{
    let ghost all = message::views(messages@);
    let ghost show = |c: message::CallView| manifest_entry(all, c);
    let mut out: Vec<String> = Vec::new();
    let mut i: usize = 0;
    assert(text::texts(out@) =~= assistant_calls(all.take(0)).map_values(show));
    while i < messages.len()
        invariant
            i <= messages@.len(),
            all == message::views(messages@),
            show == (|c: message::CallView| manifest_entry(all, c)),
            text::texts(out@) == assistant_calls(all.take(i as int)).map_values(show),
        decreases messages@.len() - i,
    {
        let ghost before = assistant_calls(all.take(i as int));
        assert(all.take(i + 1).drop_last() =~= all.take(i as int));
        assert(all[i as int] == messages@[i as int]@);
        if messages[i].role_is("assistant") {
            let calls = &messages[i].tool_calls;
            let ghost own = message::call_views(calls@);
            let mut j: usize = 0;
            assert(before + own.take(0) =~= before);
            while j < calls.len()
                invariant
                    j <= calls@.len(),
                    own == message::call_views(calls@),
                    all == message::views(messages@),
                    show == (|c: message::CallView| manifest_entry(all, c)),
                    text::texts(out@) == (before + own.take(j as int)).map_values(show),
                decreases calls@.len() - j,
            {
                let ghost done = out@;
                let entry = write_manifest_entry(messages, &calls[j]);
                out.push(entry);
                assert(text::texts(out@) =~= text::texts(done).push(entry@));
                assert(own.take(j + 1) =~= own.take(j as int).push(own[j as int]));
                assert((before + own.take(j + 1)).map_values(show) =~= (before + own.take(
                    j as int,
                )).map_values(show).push(entry@));
                j = j + 1;
            }
            assert(own.take(own.len() as int) =~= own);
        }
        i = i + 1;
    }
    assert(all.take(all.len() as int) =~= all);
    out
}

/// The manifest of the tool calls of a conversation: its calls, their arguments and
/// whether a result is there, in at most `max_bytes` bytes.
pub fn tool_call_manifest_with_limit(messages: &Vec<ProviderMessage>, max_bytes: usize) -> (out:
    String)
    ensures
        out@ == manifest(message::views(messages@), max_bytes as nat),
{
    let limit: usize = if max_bytes < TOOL_CALL_MANIFEST_MAX_BYTES {
        max_bytes
    } else {
        TOOL_CALL_MANIFEST_MAX_BYTES
    };
    let entries = write_manifest_entries(messages);
    let ghost all = manifest_entries(message::views(messages@));
    let header = "[Prior tool calls; full results are recoverable from the prior visible transcript]";
    if entries.len() == 0 || limit < text::byte_count(header) {
        return String::new();
    }
    let budget: usize = limit.saturating_sub(TOOL_CALL_MANIFEST_OMISSION_RESERVE_BYTES);
    let ghost given = limit - TOOL_CALL_MANIFEST_OMISSION_RESERVE_BYTES;
    let mut out = header.to_owned();
    let mut k: usize = 0;
    while k < entries.len()
        invariant
            k <= entries@.len(),
            text::texts(entries@) == all,
            budget == if given < 0 {
                0
            } else {
                given
            },
            out@ == manifest_lines(all, k as int),
            manifest_fitting(all, given, 0) == manifest_fitting(all, given, k as int),
        ensures
            k <= entries@.len(),
            text::texts(entries@) == all,
            out@ == manifest_lines(all, k as int),
            manifest_fitting(all, given, 0) == k,
        decreases entries@.len() - k,
    {
        assert(all[k as int] == entries@[k as int]@);
        let size: usize = text::byte_count(out.as_str());
        let next: usize = text::byte_count(entries[k].as_str());
        if size >= budget || next > budget - size - 1 {
            break;
        }
        out.push('\n');
        out.append(entries[k].as_str());
        k = k + 1;
    }
    if k < entries.len() {
        let mut rest = "\n[".to_owned();
        rest.append(text::decimal_of((entries.len() - k) as u64).as_str());
        rest.append(" tool call(s) omitted from this manifest]");
        let size: usize = text::byte_count(out.as_str());
        if size <= limit && text::byte_count(rest.as_str()) <= limit - size {
            out.append(rest.as_str());
        }
    }
    out
}

/// How many lines a text takes: those that a line feed ends, and the rest behind
/// the last one; at least one.
pub open spec fn line_total(body: Seq<char>) -> nat {
    let ended = text::count_of(body, '\n');
    let total = if body.len() > 0 && body.last() != '\n' {
        ended + 1
    } else {
        ended
    };
    if total == 0 {
        1
    } else {
        total
    }
}

/// What a message is to the recovery index.
pub open spec fn message_kind(m: message::MessageView) -> Seq<char> {
    if m.role == "tool"@ {
        "tool"@
    } else if m.role == "user"@ && text::starts_with(m.content, compacted_mark()) {
        "checkpoint"@
    } else if m.role == "user"@ {
        "user_message"@
    } else {
        "other"@
    }
}

/// The line of the recovery index for one message whose text starts at line `offset`.
pub open spec fn recovery_entry(m: message::MessageView, offset: nat, page_lines: nat) -> Seq<
    char,
> {
    let total = line_total(message_text(m, false));
    let page = if total < page_lines {
        total
    } else {
        page_lines
    };
    let named = match m.name {
        Some(name) => ",\"name\":"@ + json::quoted(name),
        None => Seq::empty(),
    };
    let called = match m.tool_call_id {
        Some(id) => ",\"call_id\":"@ + json::quoted(id),
        None => Seq::empty(),
    };
    "{\"role\":"@ + json::quoted(m.role) + ",\"kind\":"@ + json::quoted(message_kind(m)) + named
        + called + ",\"offset\":"@ + text::decimal(offset) + ",\"max_lines\":"@ + text::decimal(
        page,
    ) + ",\"total_lines\":"@ + text::decimal(total) + "}"@
}

/// The number that a machine word holds for a line: the line, or the largest.
pub open spec fn word(n: nat) -> nat {
    if n > usize::MAX {
        usize::MAX as nat
    } else {
        n
    }
}

/// The line, counted from one, at which the `i`-th message starts.
pub open spec fn recovery_line(messages: Seq<message::MessageView>, i: int) -> nat
    decreases i,
{
    if i <= 0 {
        messages.len() + 5
    } else {
        recovery_line(messages, i - 1) + text::count_of(message_text(messages[i - 1], false), '\n')
            + 2
    }
}

pub open spec fn recovery_entries(messages: Seq<message::MessageView>, page_lines: nat) -> Seq<
    Seq<char>,
> {
    Seq::new(
        messages.len(),
        |i: int| recovery_entry(messages[i], word(recovery_line(messages, i)), page_lines),
    )
}

/// The lines above the entries of the recovery index.
pub open spec fn recovery_header() -> Seq<char> {
    "[Recovery transcript index]\noffset is one-based; max_lines is a read page count and total_lines is the whole-message line count; follow read offsets for pagination\ncheckpoint bodies may link to earlier context-history archives; follow those links as needed\n"@
}

/// The recovery index.
pub open spec fn recovery_index(messages: Seq<message::MessageView>, page_lines: nat) -> Seq<
    char,
> {
    recovery_header() + text::join(recovery_entries(messages, page_lines), "\n"@) + "\n\n"@
}

/// The recovery artifact: the index, and below it every message in full.
pub open spec fn recovery(messages: Seq<message::MessageView>, page_lines: nat) -> Seq<char> {
    if messages.len() == 0 {
        Seq::empty()
    } else {
        recovery_index(messages, page_lines) + text::join(
            message_texts(messages, false),
            "\n\n"@,
        )
    }
}

/// The position in the recovery artifact at which the `i`-th message stands.
pub open spec fn recovery_position(
    messages: Seq<message::MessageView>,
    page_lines: nat,
    i: int,
) -> int
    decreases i,
{
    if i <= 0 {
        recovery_index(messages, page_lines).len() as int
    } else {
        recovery_position(messages, page_lines, i - 1) + message_text(
            messages[i - 1],
            false,
        ).len() + 2
    }
}

fn count_lines(body: &str) -> (n: usize)
    ensures
        n == line_total(body@),
{
    let ended: usize = text::occurrences(body, '\n');
    let chars = text::chars_of(body);
    let total: usize = if chars.len() > 0 && chars[chars.len() - 1] != '\n' {
        proof {
            text::lemma_count_bound(body@.drop_last(), '\n');
        }
        ended + 1
    } else {
        ended
    };
    if total == 0 {
        1
    } else {
        total
    }
}

fn kind_of(m: &ProviderMessage) -> (r: &'static str)
    ensures
        r@ == message_kind(m@),
{
    if m.role_is("tool") {
        "tool"
    } else if m.role_is("user") && text::begins(m.content.as_str(), "[Compacted context]\n") {
        "checkpoint"
    } else if m.role_is("user") {
        "user_message"
    } else {
        "other"
    }
}

fn write_recovery_entry(m: &ProviderMessage, body: &str, offset: usize, page_lines: usize) -> (out:
    String)
    requires
        body@ == message_text(m@, false),
    ensures
        out@ == recovery_entry(m@, offset as nat, page_lines as nat),
        text::count_of(out@, '\n') == 0,
{
    let ghost lf = '\n';
    let total: usize = count_lines(body);
    let page: usize = if total < page_lines {
        total
    } else {
        page_lines
    };
    proof {
        reveal_strlit("{\"role\":");
        reveal_strlit(",\"kind\":");
        reveal_strlit(",\"name\":");
        reveal_strlit(",\"call_id\":");
        reveal_strlit(",\"offset\":");
        reveal_strlit(",\"max_lines\":");
        reveal_strlit(",\"total_lines\":");
        reveal_strlit("}");
        text::lemma_count_absent("{\"role\":"@, lf);
        text::lemma_count_absent(",\"kind\":"@, lf);
        text::lemma_count_absent(",\"name\":"@, lf);
        text::lemma_count_absent(",\"call_id\":"@, lf);
        text::lemma_count_absent(",\"offset\":"@, lf);
        text::lemma_count_absent(",\"max_lines\":"@, lf);
        text::lemma_count_absent(",\"total_lines\":"@, lf);
        text::lemma_count_absent("}"@, lf);
        text::lemma_decimal_one_line(offset as nat);
        text::lemma_decimal_one_line(page as nat);
        text::lemma_decimal_one_line(total as nat);
    }
    let mut out = "{\"role\":".to_owned();
    append_line(&mut out, json::quote(m.role.as_str()).as_str());
    append_line(&mut out, ",\"kind\":");
    append_line(&mut out, json::quote(kind_of(m)).as_str());
    let ghost front = out@;
    if let Some(name) = &m.name {
        append_line(&mut out, ",\"name\":");
        append_line(&mut out, json::quote(name.as_str()).as_str());
    }
    let ghost named = match m@.name {
        Some(name) => ",\"name\":"@ + json::quoted(name),
        None => Seq::empty(),
    };
    assert(out@ =~= front + named);
    if let Some(id) = &m.tool_call_id {
        append_line(&mut out, ",\"call_id\":");
        append_line(&mut out, json::quote(id.as_str()).as_str());
    }
    let ghost called = match m@.tool_call_id {
        Some(id) => ",\"call_id\":"@ + json::quoted(id),
        None => Seq::empty(),
    };
    assert(out@ =~= front + named + called);
    append_line(&mut out, ",\"offset\":");
    append_line(&mut out, text::decimal_of(offset as u64).as_str());
    append_line(&mut out, ",\"max_lines\":");
    append_line(&mut out, text::decimal_of(page as u64).as_str());
    append_line(&mut out, ",\"total_lines\":");
    append_line(&mut out, text::decimal_of(total as u64).as_str());
    append_line(&mut out, "}");
    out
}

/// Puts a text behind another; together they hold the line feeds of both.
fn append_line(out: &mut String, s: &str)
    ensures
        final(out)@ == old(out)@ + s@,
        !s@.contains('\n') || text::count_of(s@, '\n') == 0 ==> text::count_of(final(out)@, '\n')
            == text::count_of(old(out)@, '\n'),
{
    proof {
        text::lemma_count_add(out@, s@, '\n');
        if !s@.contains('\n') {
            text::lemma_count_absent(s@, '\n');
        }
    }
    out.append(s);
}

proof fn lemma_join_count(parts: Seq<Seq<char>>, sep: Seq<char>, k: int)
    requires
        0 < k <= parts.len(),
        forall|i: int| 0 <= i < parts.len() ==> text::count_of(#[trigger] parts[i], '\n') == 0,
    ensures
        text::count_of(text::join(parts.take(k), sep), '\n') == (k - 1) * text::count_of(sep, '\n'),
    decreases k,
{
    let front = parts.take(k);
    if k == 1 {
        assert(front[0] == parts[0]);
    } else {
        assert(front.drop_last() =~= parts.take(k - 1));
        assert(front.last() == parts[k - 1]);
        lemma_join_count(parts, sep, k - 1);
        let before = text::join(parts.take(k - 1), sep);
        text::lemma_count_add(before, sep, '\n');
        text::lemma_count_add(before + sep, parts[k - 1], '\n');
        let c = text::count_of(sep, '\n') as int;
        assert((k - 2) * c + c == (k - 1) * c) by (nonlinear_arith);
    }
}

/// Where each body stands in the joined bodies, and how many lines come before it.
proof fn lemma_recovery_at(messages: Seq<message::MessageView>, page_lines: nat, i: int)
    requires
        0 <= i < messages.len(),
        text::count_of(recovery_index(messages, page_lines), '\n') == messages.len() + 4,
    ensures
        text::occurs_at(
            recovery(messages, page_lines),
            message_text(messages[i], false),
            recovery_position(messages, page_lines, i),
        ),
        text::count_of(
            recovery(messages, page_lines).take(recovery_position(messages, page_lines, i)),
            '\n',
        ) + 1 == recovery_line(messages, i),
{
    let bodies = message_texts(messages, false);
    let index = recovery_index(messages, page_lines);
    let all = index + text::join(bodies, "\n\n"@);
    lemma_join_at(bodies, i);
    let at = recovery_position(messages, page_lines, i);
    lemma_recovery_position(messages, page_lines, i);
    let inner = at - index.len();
    let joined = text::join(bodies, "\n\n"@);
    assert(all.subrange(at, at + bodies[i].len()) =~= joined.subrange(
        inner,
        inner + bodies[i].len(),
    ));
    assert(all.take(at) =~= index + joined.take(inner));
    text::lemma_count_add(index, joined.take(inner), '\n');
}

/// The position of the `i`-th text among texts that two line feeds part.
spec fn joined_position(parts: Seq<Seq<char>>, i: int) -> int
    decreases i,
{
    if i <= 0 {
        0
    } else {
        joined_position(parts, i - 1) + parts[i - 1].len() + 2
    }
}

spec fn joined_lines(parts: Seq<Seq<char>>, i: int) -> int
    decreases i,
{
    if i <= 0 {
        0
    } else {
        joined_lines(parts, i - 1) + text::count_of(parts[i - 1], '\n') + 2
    }
}

proof fn lemma_recovery_position(messages: Seq<message::MessageView>, page_lines: nat, i: int)
    requires
        0 <= i < messages.len(),
    ensures
        recovery_position(messages, page_lines, i) == recovery_index(messages, page_lines).len()
            + joined_position(message_texts(messages, false), i),
        recovery_line(messages, i) == messages.len() + 5 + joined_lines(
            message_texts(messages, false),
            i,
        ),
    decreases i,
{
    if i > 0 {
        lemma_recovery_position(messages, page_lines, i - 1);
    }
}

proof fn lemma_joined_len(parts: Seq<Seq<char>>, k: int)
    requires
        0 < k <= parts.len(),
    ensures
        text::join(parts.take(k), "\n\n"@).len() == joined_position(parts, k - 1)
            + parts[k - 1].len(),
        text::count_of(text::join(parts.take(k), "\n\n"@), '\n') == joined_lines(parts, k - 1)
            + text::count_of(parts[k - 1], '\n'),
    decreases k,
{
    reveal_strlit("\n\n");
    let front = parts.take(k);
    if k == 1 {
        assert(front[0] == parts[0]);
    } else {
        assert(front.drop_last() =~= parts.take(k - 1));
        lemma_joined_len(parts, k - 1);
        let before = text::join(parts.take(k - 1), "\n\n"@);
        text::lemma_count_add(before, "\n\n"@, '\n');
        text::lemma_count_add(before + "\n\n"@, parts[k - 1], '\n');
        lemma_two_feeds();
    }
}

proof fn lemma_two_feeds()
    ensures
        text::count_of("\n\n"@, '\n') == 2,
        text::count_of("\n"@, '\n') == 1,
{
    reveal_strlit("\n\n");
    reveal_strlit("\n");
    let s = "\n\n"@;
    assert(s.drop_last().drop_last() =~= Seq::empty());
    assert(text::count_of(s.drop_last().drop_last(), '\n') == 0);
    assert(text::count_of(s.drop_last(), '\n') == 1);
    assert("\n"@.drop_last() =~= Seq::empty());
    assert(text::count_of("\n"@.drop_last(), '\n') == 0);
}

proof fn lemma_join_at(parts: Seq<Seq<char>>, i: int)
    requires
        0 <= i < parts.len(),
    ensures
        text::occurs_at(text::join(parts, "\n\n"@), parts[i], joined_position(parts, i)),
        0 <= joined_position(parts, i),
        text::count_of(
            text::join(parts, "\n\n"@).take(joined_position(parts, i)),
            '\n',
        ) == joined_lines(parts, i),
    decreases parts.len(),
{
    reveal_strlit("\n\n");
    let all = text::join(parts, "\n\n"@);
    let at = joined_position(parts, i);
    let n = parts.len() as int;
    lemma_joined_len(parts, n);
    assert(parts.take(n) =~= parts);
    if n > 1 {
        let front = parts.drop_last();
        let before = text::join(front, "\n\n"@);
        lemma_joined_len(parts, n - 1);
        assert(parts.take(n - 1) =~= front);
        assert(all == before + "\n\n"@ + parts.last());
        if i < n - 1 {
            lemma_join_at(front, i);
            lemma_joined_same(parts, front, i);
            assert(all.subrange(at, at + parts[i].len()) =~= before.subrange(
                at,
                at + parts[i].len(),
            ));
            assert(all.take(at) =~= before.take(at));
        } else {
            assert(all.subrange(at, at + parts[i].len()) =~= parts[i]);
            assert(all.take(at) =~= before + "\n\n"@);
            text::lemma_count_add(before, "\n\n"@, '\n');
            lemma_two_feeds();
        }
    } else {
        assert(all.subrange(0, parts[0].len() as int) =~= parts[0]);
        assert(all.take(0) =~= Seq::empty());
    }
}

proof fn lemma_joined_same(a: Seq<Seq<char>>, b: Seq<Seq<char>>, i: int)
    requires
        a.len() > 0,
        b == a.drop_last(),
        0 <= i < b.len(),
    ensures
        joined_position(a, i) == joined_position(b, i),
        joined_lines(a, i) == joined_lines(b, i),
    decreases i,
{
    if i > 0 {
        lemma_joined_same(a, b, i - 1);
        assert(a[i - 1] == b[i - 1]);
    }
}

proof fn lemma_recovery_index_lines(messages: Seq<message::MessageView>, page_lines: nat)
    requires
        messages.len() > 0,
        forall|i: int|
            0 <= i < messages.len() ==> text::count_of(
                #[trigger] recovery_entries(messages, page_lines)[i],
                '\n',
            ) == 0,
    ensures
        text::count_of(recovery_index(messages, page_lines), '\n') == messages.len() + 4,
{
    let entries = recovery_entries(messages, page_lines);
    let n = messages.len() as int;
    lemma_join_count(entries, "\n"@, n);
    assert(entries.take(n) =~= entries);
    lemma_two_feeds();
    lemma_header_lines();
    let h = recovery_header();
    let j = text::join(entries, "\n"@);
    text::lemma_count_add(h, j, '\n');
    text::lemma_count_add(h + j, "\n\n"@, '\n');
}

proof fn lemma_header_lines()
    ensures
        text::count_of(recovery_header(), '\n') == 3,
{
    let h = recovery_header();
    let a = "[Recovery transcript index]"@;
    let b = "offset is one-based; max_lines is a read page count and total_lines is the whole-message line count; follow read offsets for pagination"@;
    let c = "checkpoint bodies may link to earlier context-history archives; follow those links as needed"@;
    reveal_strlit("[Recovery transcript index]");
    reveal_strlit("offset is one-based; max_lines is a read page count and total_lines is the whole-message line count; follow read offsets for pagination");
    reveal_strlit("checkpoint bodies may link to earlier context-history archives; follow those links as needed");
    reveal_strlit("[Recovery transcript index]\noffset is one-based; max_lines is a read page count and total_lines is the whole-message line count; follow read offsets for pagination\ncheckpoint bodies may link to earlier context-history archives; follow those links as needed\n");
    lemma_two_feeds();
    reveal_strlit("\n");
    text::lemma_count_absent(a, '\n');
    text::lemma_count_absent(b, '\n');
    text::lemma_count_absent(c, '\n');
    let f = "\n"@;
    assert(h =~= a + f + b + f + c + f);
    text::lemma_count_add(a, f, '\n');
    text::lemma_count_add(a + f, b, '\n');
    text::lemma_count_add(a + f + b, f, '\n');
    text::lemma_count_add(a + f + b + f, c, '\n');
    text::lemma_count_add(a + f + b + f + c, f, '\n');
}

/// Writes the entries of the recovery index, each on one line.
fn write_recovery_entries(
    messages: &Vec<ProviderMessage>,
    bodies: &Vec<String>,
    page_lines: usize,
) -> (lines: Vec<String>)
    requires
        text::texts(bodies@) == message_texts(message::views(messages@), false),
    ensures
        text::texts(lines@) == recovery_entries(message::views(messages@), page_lines as nat),
        forall|k: int|
            0 <= k < messages@.len() ==> text::count_of(
                #[trigger] recovery_entries(message::views(messages@), page_lines as nat)[k],
                '\n',
            ) == 0,
{
    let ghost all = message::views(messages@);
    let ghost entries = recovery_entries(all, page_lines as nat);
    let ghost texts = message_texts(all, false);
    assert(text::texts(bodies@).len() == texts.len());
    let mut lines: Vec<String> = Vec::new();
    let mut offset: usize = messages.len().saturating_add(5);
    let mut i: usize = 0;
    while i < messages.len()
        invariant
            i <= messages@.len(),
            all == message::views(messages@),
            texts == message_texts(all, false),
            entries == recovery_entries(all, page_lines as nat),
            text::texts(bodies@) == texts,
            bodies@.len() == messages@.len(),
            text::texts(lines@) == entries.take(i as int),
            offset == word(recovery_line(all, i as int)),
            forall|k: int| 0 <= k < i ==> text::count_of(#[trigger] entries[k], '\n') == 0,
        decreases messages@.len() - i,
    {
        let ghost done = lines@;
        assert(texts[i as int] == bodies@[i as int]@);
        let line = write_recovery_entry(&messages[i], bodies[i].as_str(), offset, page_lines);
        lines.push(line);
        assert(text::texts(lines@) =~= text::texts(done).push(line@));
        assert(entries.take(i + 1) =~= entries.take(i as int).push(line@));
        offset = offset.saturating_add(
            text::occurrences(bodies[i].as_str(), '\n'),
        ).saturating_add(2);
        i = i + 1;
    }
    assert(entries.take(entries.len() as int) =~= entries);
    lines
}

/// Writes the recovery index; it takes a known number of lines.
fn write_recovery_index(
    messages: &Vec<ProviderMessage>,
    bodies: &Vec<String>,
    page_lines: usize,
) -> (out: String)
    requires
        messages@.len() > 0,
        text::texts(bodies@) == message_texts(message::views(messages@), false),
    ensures
        out@ == recovery_index(message::views(messages@), page_lines as nat),
        text::count_of(out@, '\n') == messages@.len() + 4,
{
    let ghost all = message::views(messages@);
    let lines = write_recovery_entries(messages, bodies, page_lines);
    let mut out =
        "[Recovery transcript index]\noffset is one-based; max_lines is a read page count and total_lines is the whole-message line count; follow read offsets for pagination\ncheckpoint bodies may link to earlier context-history archives; follow those links as needed\n".to_owned();
    out.append(text::joined(&lines, "\n").as_str());
    out.append("\n\n");
    proof {
        lemma_recovery_index_lines(all, page_lines as nat);
    }
    out
}

/// Whether the `i`-th message stands in the artifact in full, at the line that the
/// index gives for it.
pub open spec fn recoverable(
    artifact: Seq<char>,
    messages: Seq<message::MessageView>,
    page_lines: nat,
    i: int,
) -> bool {
    let at = recovery_position(messages, page_lines, i);
    &&& text::occurs_at(artifact, message_text(messages[i], false), at)
    &&& text::count_of(artifact.take(at), '\n') + 1 == recovery_line(messages, i)
}

/// Full visible text for the existing artifact/read path. Opaque protocol
/// state and binary attachments are intentionally not a textual transcript.
/// `page_lines` is the most lines that one read gives.
pub fn recovery_transcript(messages: &Vec<ProviderMessage>, page_lines: usize) -> (out: String)
    ensures
        out@ == recovery(message::views(messages@), page_lines as nat),
        forall|i: int|
            0 <= i < messages@.len() ==> #[trigger] recoverable(
                out@,
                message::views(messages@),
                page_lines as nat,
                i,
            ),
{
    let ghost all = message::views(messages@);
    if messages.len() == 0 {
        return String::new();
    }
    let bodies = format_all(messages, false);
    let mut out = write_recovery_index(messages, &bodies, page_lines);
    out.append(text::joined(&bodies, "\n\n").as_str());
    proof {
        assert forall|i: int| 0 <= i < messages@.len() implies #[trigger] recoverable(
            out@,
            all,
            page_lines as nat,
            i,
        ) by {
            lemma_recovery_at(all, page_lines as nat, i);
        }
    }
    out
}

} // verus!
