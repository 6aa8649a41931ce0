//! Prompts that ask for a summary, and the extract that stands in for one.
use vstd::prelude::*;
use vstd::string::*;
use crate::arith;
use crate::context::apply;
use crate::context::compact;
use crate::context::compact::CompactionSelection;
use crate::context::estimate;
use crate::context::transcript;
use crate::provider::message;
use crate::provider::message::ProviderMessage;
use crate::text;

verus! {

/// What a prompt says of the checkpoint that it continues from.
pub open spec fn checkpoint_suffix(checkpoint: Option<Seq<char>>) -> Seq<char> {
    match transcript::given_checkpoint(checkpoint) {
        Some(summary) => "\n\n[Untrusted previous checkpoint]\n"@ + summary,
        None => Seq::empty(),
    }
}

fn previous_checkpoint_suffix(checkpoint: Option<&str>) -> (out: String)
    ensures
        out@ == checkpoint_suffix(transcript::opt_str(checkpoint)),
{
    match transcript::trimmed_checkpoint(checkpoint) {
        Some(summary) => {
            let mut out = "\n\n[Untrusted previous checkpoint]\n".to_owned();
            out.append(summary.as_str());
            out
        },
        None => String::new(),
    }
}

/// The self-contained prompt that asks for a summary.
pub open spec fn summary_prompt(
    messages: Seq<message::MessageView>,
    checkpoint: Option<Seq<char>>,
) -> Seq<char> {
    transcript::bounded(
        transcript::summary_transcript(messages, checkpoint),
        compact::SUMMARY_PROMPT_MAX_CHARS as int,
    ) + checkpoint_suffix(checkpoint) + "\n\n"@ + compact::SUMMARY_PROMPT_INSTRUCTION@
}

/// Build a self-contained prompt for non-provider summary callbacks.
/// Provider compaction uses the bounded transcript-only builder below.
pub fn build_summary_prompt(messages: &Vec<ProviderMessage>) -> (out: String)
    ensures
        out@ == summary_prompt(message::views(messages@), None),
{
    build_summary_prompt_with_checkpoint(messages, None)
}

pub fn build_summary_prompt_with_checkpoint(
    messages: &Vec<ProviderMessage>,
    previous_checkpoint: Option<&str>,
) -> (out: String)
    ensures
        out@ == summary_prompt(
            message::views(messages@),
            transcript::opt_str(previous_checkpoint),
        ),
{
    let full = transcript::format_summary_transcript(messages, previous_checkpoint);
    let mut out = transcript::bounded_transcript(full.as_str(), compact::SUMMARY_PROMPT_MAX_CHARS);
    out.append(previous_checkpoint_suffix(previous_checkpoint).as_str());
    out.append("\n\n");
    out.append(compact::SUMMARY_PROMPT_INSTRUCTION);
    out
}

/// The instructions that a prompt carries, where they are not blank.
pub open spec fn given_instructions(instructions: Option<Seq<char>>) -> Option<Seq<char>> {
    match instructions {
        Some(given) => if text::trim(given).len() > 0 {
            Some(text::trim(given))
        } else {
            None
        },
        None => None,
    }
}

/// What a prompt says of its instructions.
pub open spec fn instructions_block(instructions: Option<Seq<char>>) -> Seq<char> {
    match given_instructions(instructions) {
        Some(given) => "[Compaction instructions]\n"@ + given + "\n\n"@,
        None => Seq::empty(),
    }
}

/// A prompt that holds a transcript, with what stands before and behind it.
pub open spec fn framed(front: Seq<char>, body: Seq<char>, back: Seq<char>) -> Seq<char> {
    front + "[Transcript]\n"@ + body + back
}

/// Whether a prompt of `chars` characters leaves room for the reserve.
pub open spec fn prompt_fits(chars: nat, window: u64, reserve: u64) -> bool {
    arith::clamp64(estimate::user_tokens(chars) + reserve) <= window
}

/// The most characters of transcript, up to `n`, that fit beside `fixed` others.
pub open spec fn most_fitting(fixed: nat, window: u64, reserve: u64, n: nat) -> nat
    decreases n,
{
    if n == 0 || prompt_fits(fixed + n, window, reserve) {
        n
    } else {
        most_fitting(fixed, window, reserve, (n - 1) as nat)
    }
}

/// The bounded prompt, or why there is none.
pub open spec fn bounded_prompt(
    messages: Seq<message::MessageView>,
    checkpoint: Option<Seq<char>>,
    instructions: Option<Seq<char>>,
    window: u64,
    reserve: u64,
) -> Result<Seq<char>, Seq<char>> {
    let body = transcript::summary_transcript(messages, checkpoint);
    let front = instructions_block(instructions);
    let back = checkpoint_suffix(checkpoint);
    let full = framed(front, body, back);
    let bare = framed(front, Seq::empty(), back);
    let available = if reserve < window {
        (window - reserve) as u64
    } else {
        0
    };
    let too_long = given_instructions(instructions) matches Some(given) && text::byte_len(given)
        > compact::default_policy().manual_instructions_max_bytes;
    if too_long {
        Err("manual compaction instructions exceed 4 KiB"@)
    } else if prompt_fits(full.len(), window, reserve) {
        Ok(full)
    } else if estimate::user_tokens(bare.len()) > available {
        Err("summary request cannot fit context window and reserve"@)
    } else {
        Ok(
            framed(
                front,
                transcript::bounded(
                    body,
                    most_fitting(bare.len(), window, reserve, body.len()) as int,
                ),
                back,
            ),
        )
    }
}

/// A shorter prompt fits wherever a longer one does.
pub proof fn lemma_fits_monotone(a: nat, b: nat, window: u64, reserve: u64)
    requires
        a <= b,
        prompt_fits(b, window, reserve),
    ensures
        prompt_fits(a, window, reserve),
{
}

proof fn lemma_most_fitting(fixed: nat, window: u64, reserve: u64, n: nat, best: nat)
    requires
        best <= n,
        best == 0 || prompt_fits(fixed + best, window, reserve),
        best < n ==> !prompt_fits(fixed + best + 1, window, reserve),
    ensures
        most_fitting(fixed, window, reserve, n) == best,
    decreases n,
{
    if best < n {
        if prompt_fits(fixed + n, window, reserve) {
            lemma_fits_monotone(fixed + best + 1, fixed + n, window, reserve);
        }
        lemma_most_fitting(fixed, window, reserve, (n - 1) as nat, best);
    }
}

fn prompt_tokens(chars: usize) -> (r: u64)
    ensures
        r == estimate::user_tokens(chars as nat),
{
    let estimator = estimate::AdaptiveTokenEstimator::default();
    let all: u64 = 4u64.saturating_add(chars as u64);
    estimator.estimate("compaction", "local", all).saturating_add(
        estimate::MESSAGE_OVERHEAD_TOKENS,
    )
}

fn frame(front: &str, body: &str, back: &str) -> (out: String)
    ensures
        out@ == framed(front@, body@, back@),
{
    let mut out = front.to_owned();
    out.append("[Transcript]\n");
    out.append(body);
    out.append(back);
    out
}

/// Build transcript-only user data that fits the deterministic provider-message
/// estimator. Only transcript data is shortened; compaction authority is added
/// separately by the provider request.
pub fn build_bounded_summary_prompt(
    messages: &Vec<ProviderMessage>,
    context_window_tokens: u64,
    reserve_tokens: u64,
) -> (r: Result<String, &'static str>)
    ensures
        (match r {
            Ok(out) => bounded_prompt(
                message::views(messages@),
                None,
                None,
                context_window_tokens,
                reserve_tokens,
            ) == Ok::<Seq<char>, Seq<char>>(out@),
            Err(reason) => bounded_prompt(
                message::views(messages@),
                None,
                None,
                context_window_tokens,
                reserve_tokens,
            ) == Err::<Seq<char>, Seq<char>>(reason@),
        }),
{
    build_bounded_summary_prompt_with_checkpoint(
        messages,
        None,
        context_window_tokens,
        reserve_tokens,
    )
}

pub fn build_bounded_summary_prompt_with_checkpoint(
    messages: &Vec<ProviderMessage>,
    previous_checkpoint: Option<&str>,
    context_window_tokens: u64,
    reserve_tokens: u64,
) -> (r: Result<String, &'static str>)
    ensures
        (match r {
            Ok(out) => bounded_prompt(
                message::views(messages@),
                transcript::opt_str(previous_checkpoint),
                None,
                context_window_tokens,
                reserve_tokens,
            ) == Ok::<Seq<char>, Seq<char>>(out@),
            Err(reason) => bounded_prompt(
                message::views(messages@),
                transcript::opt_str(previous_checkpoint),
                None,
                context_window_tokens,
                reserve_tokens,
            ) == Err::<Seq<char>, Seq<char>>(reason@),
        }),
{
    build_bounded_summary_prompt_with_checkpoint_and_instructions(
        messages,
        previous_checkpoint,
        None,
        context_window_tokens,
        reserve_tokens,
    )
}

pub fn build_bounded_summary_prompt_with_checkpoint_and_instructions(
    messages: &Vec<ProviderMessage>,
    previous_checkpoint: Option<&str>,
    instructions: Option<&str>,
    context_window_tokens: u64,
    reserve_tokens: u64,
) -> (r: Result<String, &'static str>)
    ensures
        (match r {
            Ok(out) => bounded_prompt(
                message::views(messages@),
                transcript::opt_str(previous_checkpoint),
                transcript::opt_str(instructions),
                context_window_tokens,
                reserve_tokens,
            ) == Ok::<Seq<char>, Seq<char>>(out@),
            Err(reason) => bounded_prompt(
                message::views(messages@),
                transcript::opt_str(previous_checkpoint),
                transcript::opt_str(instructions),
                context_window_tokens,
                reserve_tokens,
            ) == Err::<Seq<char>, Seq<char>>(reason@),
        }),
{
    let available: u64 = context_window_tokens.saturating_sub(reserve_tokens);
    let body = transcript::format_summary_transcript(messages, previous_checkpoint);
    let back = previous_checkpoint_suffix(previous_checkpoint);
    let mut front = String::new();
    if let Some(given) = instructions {
        let trimmed = text::trimmed(given);
        if !trimmed.as_str().is_empty() {
            if text::byte_count(trimmed.as_str()) > 4_096 {
                return Err("manual compaction instructions exceed 4 KiB");
            }
            front.append("[Compaction instructions]\n");
            front.append(trimmed.as_str());
            front.append("\n\n");
        }
    }
    assert(front@ =~= instructions_block(transcript::opt_str(instructions)));
    let full = frame(front.as_str(), body.as_str(), back.as_str());
    if prompt_tokens(text::char_count(full.as_str())).saturating_add(reserve_tokens)
        <= context_window_tokens {
        return Ok(full);
    }
    let bare = frame(front.as_str(), "", back.as_str());
    proof {
        reveal_strlit("");
        assert(""@ =~= Seq::<char>::empty());
    }
    let fixed: usize = text::char_count(bare.as_str());
    if prompt_tokens(fixed) > available {
        return Err("summary request cannot fit context window and reserve");
    }
    let whole: usize = text::char_count(body.as_str());
    assert(full@.len() == fixed + whole);
    let total: usize = text::char_count(full.as_str());
    let mut best: usize = 0;
    let mut beyond: usize = whole;
    while best + 1 < beyond
        invariant
            best <= beyond <= whole,
            fixed + whole == total,
            best == 0 || prompt_fits((fixed + best) as nat, context_window_tokens, reserve_tokens),
            !prompt_fits((fixed + beyond) as nat, context_window_tokens, reserve_tokens),
        decreases beyond - best,
    {
        let length: usize = best + (beyond - best) / 2;
        if prompt_tokens(fixed + length).saturating_add(reserve_tokens) <= context_window_tokens {
            best = length;
        } else {
            beyond = length;
        }
    }
    proof {
        assert(prompt_fits(fixed as nat, context_window_tokens, reserve_tokens));
        lemma_most_fitting(
            fixed as nat,
            context_window_tokens,
            reserve_tokens,
            whole as nat,
            best as nat,
        );
    }
    let shortened = transcript::bounded_transcript(body.as_str(), best);
    Ok(frame(front.as_str(), shortened.as_str(), back.as_str()))
}

/// A bounded prompt leaves room for the reserve.
pub proof fn law_bounded_prompt_fits(
    messages: Seq<message::MessageView>,
    checkpoint: Option<Seq<char>>,
    instructions: Option<Seq<char>>,
    window: u64,
    reserve: u64,
)
    ensures
        bounded_prompt(messages, checkpoint, instructions, window, reserve) matches Ok(prompt)
            ==> prompt_fits(prompt.len(), window, reserve),
{
    let body = transcript::summary_transcript(messages, checkpoint);
    let front = instructions_block(instructions);
    let back = checkpoint_suffix(checkpoint);
    let bare = framed(front, Seq::empty(), back);
    if let Ok(prompt) = bounded_prompt(messages, checkpoint, instructions, window, reserve) {
        if prompt != framed(front, body, back) || !prompt_fits(prompt.len(), window, reserve) {
            let n = most_fitting(bare.len(), window, reserve, body.len());
            lemma_most_fitting_fits(bare.len(), window, reserve, body.len());
            lemma_bounded_len(body, n as int);
            assert(prompt.len() <= bare.len() + n);
            if n > 0 {
                lemma_fits_monotone(prompt.len(), bare.len() + n, window, reserve);
            }
        }
    }
}

/// A conversation without what the providers keep of their thinking.
pub open spec fn without_thinking(messages: Seq<message::MessageView>) -> Seq<
    message::MessageView,
> {
    messages.map_values(
        |m: message::MessageView|
            message::MessageView { chat_reasoning: None, responses_reasoning: Seq::empty(), ..m },
    )
}

proof fn lemma_restored_without_thinking(
    messages: Seq<message::MessageView>,
    checkpoint: Option<Seq<char>>,
)
    ensures
        transcript::without_restored(without_thinking(messages), checkpoint) == without_thinking(
            transcript::without_restored(messages, checkpoint),
        ),
    decreases messages.len(),
{
    let quiet = without_thinking(messages);
    if messages.len() > 0 {
        lemma_restored_without_thinking(messages.drop_last(), checkpoint);
        assert(quiet.drop_last() =~= without_thinking(messages.drop_last()));
        let before = transcript::without_restored(messages.drop_last(), checkpoint);
        assert(without_thinking(before.push(messages.last())) =~= without_thinking(before).push(
            quiet.last(),
        ));
    }
    assert(transcript::without_restored(quiet, checkpoint) =~= without_thinking(
        transcript::without_restored(messages, checkpoint),
    ));
}

proof fn lemma_transcript_without_thinking(messages: Seq<message::MessageView>)
    ensures
        transcript::transcript(without_thinking(messages)) == transcript::transcript(messages),
{
    assert(transcript::message_texts(without_thinking(messages), true)
        =~= transcript::message_texts(messages, true));
}

/// The thinking that providers are handed back never enters what a summary is made
/// of.
pub proof fn law_thinking_stays_out_of_prompts(
    messages: Seq<message::MessageView>,
    checkpoint: Option<Seq<char>>,
    instructions: Option<Seq<char>>,
    window: u64,
    reserve: u64,
)
    ensures
        summary_prompt(without_thinking(messages), checkpoint) == summary_prompt(
            messages,
            checkpoint,
        ),
        bounded_prompt(without_thinking(messages), checkpoint, instructions, window, reserve)
            == bounded_prompt(messages, checkpoint, instructions, window, reserve),
{
    lemma_restored_without_thinking(messages, checkpoint);
    lemma_transcript_without_thinking(transcript::without_restored(messages, checkpoint));
}

proof fn lemma_most_fitting_fits(fixed: nat, window: u64, reserve: u64, n: nat)
    ensures
        most_fitting(fixed, window, reserve, n) <= n,
        most_fitting(fixed, window, reserve, n) > 0 ==> prompt_fits(
            fixed + most_fitting(fixed, window, reserve, n),
            window,
            reserve,
        ),
    decreases n,
{
    if n > 0 && !prompt_fits(fixed + n, window, reserve) {
        lemma_most_fitting_fits(fixed, window, reserve, (n - 1) as nat);
    }
}

proof fn lemma_bounded_len(t: Seq<char>, n: int)
    requires
        0 <= n,
    ensures
        transcript::bounded(t, n).len() <= n,
{
}

pub const LOCAL_EMERGENCY_SUMMARY_MAX_BYTES: usize = 8_192;

/// The extract without its two fields.
pub open spec fn emergency_fixed() -> Seq<char> {
    "## Goal\n\n## Constraints\n\n## Progress\n\n## Blocked\n\n## Decisions\n\n## Next steps\n\n## Critical context\n[local extract; not an LLM summary]\n"@
}

/// A value on one line, as a quotation.
pub open spec fn field_text(value: Seq<char>) -> Seq<char> {
    "> "@ + text::replaced(value, "\n"@, "\\n"@)
}

/// A value in at most `max_bytes` bytes.
pub open spec fn bounded_field(value: Seq<char>, max_bytes: int, marker: Seq<char>) -> Seq<char> {
    if text::byte_len(value) <= max_bytes {
        value
    } else if max_bytes <= text::byte_len(marker) {
        text::head_within(marker, max_bytes)
    } else {
        transcript::byte_cut(value, marker, max_bytes)
    }
}

fn write_field(value: &str) -> (out: String)
    ensures
        out@ == field_text(value@),
{
    proof {
        reveal_strlit("\n");
    }
    let mut out = "> ".to_owned();
    out.append(text::replace(value, "\n", "\\n").as_str());
    out
}

fn bounded_checkpoint_field(value: &str, max_bytes: usize, marker: &str) -> (out: String)
    ensures
        out@ == bounded_field(value@, max_bytes as int, marker@),
        text::byte_len(out@) <= max_bytes,
{
    if text::byte_count(value) <= max_bytes {
        return value.to_owned();
    }
    if max_bytes <= text::byte_count(marker) {
        return text::head_of(marker, max_bytes);
    }
    transcript::cut_bytes(value, marker, max_bytes)
}

/// The extract with its two fields.
pub open spec fn emergency_text(goal: Seq<char>, progress: Seq<char>) -> Seq<char> {
    "## Goal\n"@ + goal + "\n\n## Constraints\n\n## Progress\n"@ + progress
        + "\n\n## Blocked\n\n## Decisions\n\n## Next steps\n\n## Critical context\n[local extract; not an LLM summary]"@
}

/// The bounded extract of a selection: a third of the room for the goal, the rest
/// for the transcript, which gives up one more byte where both fill their part.
pub open spec fn emergency(selection: compact::SelectionView) -> Seq<char> {
    let available = LOCAL_EMERGENCY_SUMMARY_MAX_BYTES - text::byte_len(emergency_fixed());
    let goal_budget = available / 3;
    let progress_budget = available - goal_budget;
    let goal = bounded_field(
        field_text(text::trim(selection.root_instruction)),
        goal_budget,
        "\n...[goal bounded; omitted text is not recoverable from this extract]...\n"@,
    );
    let history = field_text(
        transcript::transcript(apply::unpinned(selection.summarized, selection.pinned)),
    );
    let marker =
        "\n...[transcript bounded; omitted facts are not recoverable from this extract]...\n"@;
    let progress = bounded_field(history, progress_budget, marker);
    if text::byte_len(emergency_text(goal, progress)) <= LOCAL_EMERGENCY_SUMMARY_MAX_BYTES {
        emergency_text(goal, progress)
    } else {
        emergency_text(goal, bounded_field(history, progress_budget - 1, marker))
    }
}

proof fn lemma_ascii_len(s: &str)
    requires
        vstd::utf8::is_ascii_chars(s@),
    ensures
        text::byte_len(s@) == s@.len(),
{
    vstd::utf8::is_ascii_chars_encode_utf8(s@);
}

fn write_emergency(goal: &str, progress: &str) -> (out: String)
    ensures
        out@ == emergency_text(goal@, progress@),
{
    let mut out = "## Goal\n".to_owned();
    out.append(goal);
    out.append("\n\n## Constraints\n\n## Progress\n");
    out.append(progress);
    out.append(
        "\n\n## Blocked\n\n## Decisions\n\n## Next steps\n\n## Critical context\n[local extract; not an LLM summary]",
    );
    out
}

/// How long the extract is beside its fields, and what it is without them.
proof fn lemma_emergency_len(goal: Seq<char>, progress: Seq<char>)
    ensures
        text::byte_len(emergency_fixed()) == 135,
        text::byte_len(emergency_text(goal, progress)) == 136 + text::byte_len(goal)
            + text::byte_len(progress),
{
    reveal_strlit("## Goal\n\n## Constraints\n\n## Progress\n\n## Blocked\n\n## Decisions\n\n## Next steps\n\n## Critical context\n[local extract; not an LLM summary]\n");
    reveal_strlit("## Goal\n");
    reveal_strlit("\n\n## Constraints\n\n## Progress\n");
    reveal_strlit("\n\n## Blocked\n\n## Decisions\n\n## Next steps\n\n## Critical context\n[local extract; not an LLM summary]");
    lemma_ascii_len("## Goal\n\n## Constraints\n\n## Progress\n\n## Blocked\n\n## Decisions\n\n## Next steps\n\n## Critical context\n[local extract; not an LLM summary]\n");
    lemma_ascii_len("## Goal\n");
    lemma_ascii_len("\n\n## Constraints\n\n## Progress\n");
    lemma_ascii_len("\n\n## Blocked\n\n## Decisions\n\n## Next steps\n\n## Critical context\n[local extract; not an LLM summary]");
    let a = "## Goal\n"@;
    let b = "\n\n## Constraints\n\n## Progress\n"@;
    let c =
        "\n\n## Blocked\n\n## Decisions\n\n## Next steps\n\n## Critical context\n[local extract; not an LLM summary]"@;
    text::lemma_byte_len_add(a, goal);
    text::lemma_byte_len_add(a + goal, b);
    text::lemma_byte_len_add(a + goal + b, progress);
    text::lemma_byte_len_add(a + goal + b + progress, c);
}

/// Bounded extract of dropped history used when the hard threshold hits
/// without a prepared LLM summary. Never performs a provider round-trip.
pub fn local_emergency_summary(selection: &CompactionSelection) -> (out: String)
    ensures
        out@ == emergency(selection@),
        text::byte_len(out@) <= LOCAL_EMERGENCY_SUMMARY_MAX_BYTES,
{
    let summarized = selection.summarized_for_prompt();
    let history = write_field(transcript::format_transcript(&summarized).as_str());
    let fixed: usize = text::byte_count(
        "## Goal\n\n## Constraints\n\n## Progress\n\n## Blocked\n\n## Decisions\n\n## Next steps\n\n## Critical context\n[local extract; not an LLM summary]\n",
    );
    proof {
        lemma_emergency_len(Seq::empty(), Seq::empty());
    }
    let available: usize = LOCAL_EMERGENCY_SUMMARY_MAX_BYTES - fixed;
    let goal_budget: usize = available / 3;
    let progress_budget: usize = available - goal_budget;
    let goal = bounded_checkpoint_field(
        write_field(text::trimmed(selection.root_instruction.as_str()).as_str()).as_str(),
        goal_budget,
        "\n...[goal bounded; omitted text is not recoverable from this extract]...\n",
    );
    let marker =
        "\n...[transcript bounded; omitted facts are not recoverable from this extract]...\n";
    let progress = bounded_checkpoint_field(history.as_str(), progress_budget, marker);
    proof {
        lemma_emergency_len(goal@, progress@);
    }
    let out = write_emergency(goal.as_str(), progress.as_str());
    if text::byte_count(out.as_str()) <= LOCAL_EMERGENCY_SUMMARY_MAX_BYTES {
        return out;
    }
    let shorter = bounded_checkpoint_field(history.as_str(), progress_budget - 1, marker);
    proof {
        lemma_emergency_len(goal@, shorter@);
    }
    write_emergency(goal.as_str(), shorter.as_str())
}

} // verus!
