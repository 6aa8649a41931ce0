//! Conservative token estimates.
use vstd::prelude::*;
use crate::arith;
use crate::json;
use crate::provider::message;
use crate::provider::message::{ProviderContentBlock, ProviderMessage, ProviderToolCall, ResponsesReasoning};
use crate::text;

verus! {

/// Conservative wire-size estimate: ~3.5 characters per token (2 tokens per
/// 7 characters). Code-heavy content tokenizes denser than prose, so the
/// estimator deliberately overestimates prose slightly rather than
/// underestimating code and triggering compaction too late.
pub const TOKENS_PER_ESTIMATED_CHARS_X2: u64 = 7;

pub const DEFAULT_CHARS_PER_TOKEN_MILLI: u64 = 3_500;

pub const MIN_CHARS_PER_TOKEN_MILLI: u64 = 250;

pub const MAX_CHARS_PER_TOKEN_MILLI: u64 = 16_000;

pub const MESSAGE_OVERHEAD_TOKENS: u64 = 4;

/// What the estimator has learned of one provider and model.
#[derive(Clone, Debug, PartialEq, Eq)]
pub struct LearnedRatio {
    pub provider: String,
    pub model: String,
    pub chars_per_token_milli: u64,
}

/// Process-local adaptive estimator keyed by provider/model. It learns from
/// complete provider input totals without requiring a model-specific tokenizer.
#[derive(Debug)]
pub struct AdaptiveTokenEstimator {
    ratios: Vec<LearnedRatio>,
}

/// The ratio that stands for a provider and model, if one was learned.
pub open spec fn ratio_in(ratios: Seq<LearnedRatio>, provider: Seq<char>, model: Seq<char>) -> Option<
    u64,
>
    decreases ratios.len(),
{
    if ratios.len() == 0 {
        None
    } else if ratios[0].provider@ == provider && ratios[0].model@ == model {
        Some(ratios[0].chars_per_token_milli)
    } else {
        ratio_in(ratios.drop_first(), provider, model)
    }
}

/// No provider and model occur twice.
spec fn each_once(ratios: Seq<LearnedRatio>) -> bool {
    forall|i: int, j: int|
        0 <= i < j < ratios.len() ==> !((#[trigger] ratios[i]).provider@ == (
        #[trigger] ratios[j]).provider@ && ratios[i].model@ == ratios[j].model@)
}

/// Every ratio is one that an estimate may have.
spec fn each_bounded(ratios: Seq<LearnedRatio>) -> bool {
    forall|i: int| 0 <= i < ratios.len() ==> may_be_learned(#[trigger] ratios[i].chars_per_token_milli)
}

/// The bounds that every learned ratio keeps.
pub open spec fn may_be_learned(ratio: u64) -> bool {
    MIN_CHARS_PER_TOKEN_MILLI <= ratio <= MAX_CHARS_PER_TOKEN_MILLI
}

/// The ratio that estimates go by.
pub open spec fn ratio_or_default(ratio: Option<u64>) -> u64 {
    match ratio {
        Some(r) => r,
        None => DEFAULT_CHARS_PER_TOKEN_MILLI,
    }
}

/// The tokens that characters stand for at a ratio of characters per thousand tokens.
pub open spec fn tokens_at(chars: u64, ratio: u64) -> u64 {
    arith::ceil_div(
        arith::clamp64(chars * 1_000) as int,
        if ratio == 0 {
            1
        } else {
            ratio as int
        },
    ) as u64
}

/// The ratio that one observation shows, within the bounds that an estimate may have.
pub open spec fn observed_ratio(chars: u64, tokens: u64) -> u64 {
    let shown = (chars * 1_000) / (tokens as int);
    if shown < MIN_CHARS_PER_TOKEN_MILLI {
        MIN_CHARS_PER_TOKEN_MILLI
    } else if shown > MAX_CHARS_PER_TOKEN_MILLI {
        MAX_CHARS_PER_TOKEN_MILLI
    } else {
        shown as u64
    }
}

/// A ratio moved a quarter of the way towards an observed one, rounded up.
pub open spec fn moved_ratio(current: u64, observed: u64) -> u64 {
    arith::ceil_div(
        arith::clamp64(arith::clamp64(current * 3) + observed) as int,
        4,
    ) as u64
}

impl AdaptiveTokenEstimator {
    #[verifier::type_invariant]
    spec fn is_sound(self) -> bool {
        each_once(self.ratios@) && each_bounded(self.ratios@)
    }

    /// The ratio learned for a provider and model.
    pub closed spec fn ratio(&self, provider: Seq<char>, model: Seq<char>) -> Option<u64> {
        ratio_in(self.ratios@, provider, model)
    }

    fn find(&self, provider: &str, model: &str) -> (r: Option<usize>)
        ensures
            (match r {
                Some(i) => i < self.ratios@.len() && self.ratio(provider@, model@) == Some(
                    self.ratios@[i as int].chars_per_token_milli,
                ) && self.ratios@[i as int].provider@ == provider@
                    && self.ratios@[i as int].model@ == model@ && forall|k: int|
                    0 <= k < i ==> !((#[trigger] self.ratios@[k]).provider@ == provider@
                        && self.ratios@[k].model@ == model@),
                None => self.ratio(provider@, model@) is None && forall|k: int|
                    0 <= k < self.ratios@.len() ==> !((#[trigger] self.ratios@[k]).provider@
                        == provider@ && self.ratios@[k].model@ == model@),
            }),
    {
        let mut i: usize = 0;
        assert(self.ratios@.skip(0) =~= self.ratios@);
        while i < self.ratios.len()
            invariant
                i <= self.ratios@.len(),
                self.ratio(provider@, model@) == ratio_in(
                    self.ratios@.skip(i as int),
                    provider@,
                    model@,
                ),
                forall|k: int|
                    0 <= k < i ==> !((#[trigger] self.ratios@[k]).provider@ == provider@
                        && self.ratios@[k].model@ == model@),
            decreases self.ratios@.len() - i,
        {
            assert(self.ratios@.skip(i as int).drop_first() =~= self.ratios@.skip(i + 1));
            if text::same(self.ratios[i].provider.as_str(), provider) && text::same(
                self.ratios[i].model.as_str(),
                model,
            ) {
                return Some(i);
            }
            i = i + 1;
        }
        None
    }

    pub fn estimate(&self, provider: &str, model: &str, serialized_chars: u64) -> (r: u64)
        ensures
            r == tokens_at(serialized_chars, ratio_or_default(self.ratio(provider@, model@))),
            may_be_learned(ratio_or_default(self.ratio(provider@, model@))),
    {
        proof {
            use_type_invariant(self);
        }
        let ratio: u64 = match self.find(provider, model) {
            Some(i) => self.ratios[i].chars_per_token_milli,
            None => DEFAULT_CHARS_PER_TOKEN_MILLI,
        };
        let divisor: u64 = if ratio == 0 {
            1
        } else {
            ratio
        };
        arith::div_ceil(arith::saturating_mul(serialized_chars, 1_000), divisor)
    }

    /// Learns from one complete request. EWMA alpha = 1/4: responsive enough to
    /// converge, stable enough not to swing compaction timing on one unusual request.
    pub fn observe(
        &mut self,
        provider: &str,
        model: &str,
        serialized_chars: u64,
        actual_input_tokens: u64,
    )
        ensures
            serialized_chars == 0 || actual_input_tokens == 0 ==> *final(self) == *old(self),
            serialized_chars > 0 && actual_input_tokens > 0 ==> final(self).ratio(provider@, model@)
                == Some(
                moved_ratio(
                    ratio_or_default(old(self).ratio(provider@, model@)),
                    observed_ratio(serialized_chars, actual_input_tokens),
                ),
            ),
            forall|p: Seq<char>, m: Seq<char>|
                p != provider@ || m != model@ ==> #[trigger] final(self).ratio(p, m) == old(
                    self,
                ).ratio(p, m),
    {
        if serialized_chars == 0 || actual_input_tokens == 0 {
            return;
        }
        let shown: u128 = ((serialized_chars as u128) * 1_000) / (actual_input_tokens as u128);
        let observed: u64 = if shown < MIN_CHARS_PER_TOKEN_MILLI as u128 {
            MIN_CHARS_PER_TOKEN_MILLI
        } else if shown > MAX_CHARS_PER_TOKEN_MILLI as u128 {
            MAX_CHARS_PER_TOKEN_MILLI
        } else {
            shown as u64
        };
        let at = self.find(provider, model);
        let current: u64 = match at {
            Some(i) => self.ratios[i].chars_per_token_milli,
            None => DEFAULT_CHARS_PER_TOKEN_MILLI,
        };
        let next: u64 = arith::div_ceil(
            arith::saturating_mul(current, 3).saturating_add(observed),
            4,
        );
        let entry = LearnedRatio {
            provider: provider.to_owned(),
            model: model.to_owned(),
            chars_per_token_milli: next,
        };
        let ghost before = self.ratios@;
        proof {
            use_type_invariant(&*self);
        }
        let mut ratios: Vec<LearnedRatio> = Vec::new();
        std::mem::swap(&mut ratios, &mut self.ratios);
        match at {
            Some(i) => {
                ratios.set(i, entry);
                self.ratios = ratios;
                proof {
                    assert forall|p: Seq<char>, m: Seq<char>| #[trigger]
                        self.ratio(p, m) == if p == provider@ && m == model@ {
                            Some(next)
                        } else {
                            old(self).ratio(p, m)
                        } by {
                        lemma_ratio_set(before, i as int, entry, p, m);
                    }
                }
            },
            None => {
                ratios.push(entry);
                self.ratios = ratios;
                proof {
                    assert forall|p: Seq<char>, m: Seq<char>| #[trigger]
                        self.ratio(p, m) == if p == provider@ && m == model@ {
                            Some(next)
                        } else {
                            old(self).ratio(p, m)
                        } by {
                        lemma_ratio_push(before, entry, p, m);
                    }
                }
            },
        }
    }
}

proof fn lemma_ratio_set(
    before: Seq<LearnedRatio>,
    i: int,
    entry: LearnedRatio,
    p: Seq<char>,
    m: Seq<char>,
)
    requires
        0 <= i < before.len(),
        before[i].provider@ == entry.provider@,
        before[i].model@ == entry.model@,
        forall|k: int|
            0 <= k < i ==> !((#[trigger] before[k]).provider@ == entry.provider@
                && before[k].model@ == entry.model@),
    ensures
        ratio_in(before.update(i, entry), p, m) == if p == entry.provider@ && m == entry.model@ {
            Some(entry.chars_per_token_milli)
        } else {
            ratio_in(before, p, m)
        },
    decreases before.len(),
{
    let after = before.update(i, entry);
    if i > 0 {
        assert(after.drop_first() =~= before.drop_first().update(i - 1, entry));
        assert(before.drop_first()[i - 1] == before[i]);
        lemma_ratio_set(before.drop_first(), i - 1, entry, p, m);
    } else {
        assert(after.drop_first() =~= before.drop_first());
    }
}

proof fn lemma_ratio_push(
    before: Seq<LearnedRatio>,
    entry: LearnedRatio,
    p: Seq<char>,
    m: Seq<char>,
)
    requires
        forall|k: int|
            0 <= k < before.len() ==> !((#[trigger] before[k]).provider@ == entry.provider@
                && before[k].model@ == entry.model@),
    ensures
        ratio_in(before.push(entry), p, m) == if p == entry.provider@ && m == entry.model@ {
            Some(entry.chars_per_token_milli)
        } else {
            ratio_in(before, p, m)
        },
    decreases before.len(),
{
    let after = before.push(entry);
    if before.len() > 0 {
        assert(after.drop_first() =~= before.drop_first().push(entry));
        lemma_ratio_push(before.drop_first(), entry, p, m);
    } else {
        assert(after.drop_first() =~= Seq::<LearnedRatio>::empty());
        assert(ratio_in(after.drop_first(), p, m) is None);
    }
}

impl Clone for AdaptiveTokenEstimator {
    fn clone(&self) -> (r: AdaptiveTokenEstimator)
        ensures
            forall|p: Seq<char>, m: Seq<char>| #[trigger] r.ratio(p, m) == self.ratio(p, m),
    {
        proof {
            use_type_invariant(self);
        }
        let mut ratios: Vec<LearnedRatio> = Vec::new();
        let mut i: usize = 0;
        while i < self.ratios.len()
            invariant
                i <= self.ratios@.len(),
                ratios@ =~= self.ratios@.take(i as int),
            decreases self.ratios@.len() - i,
        {
            let entry = &self.ratios[i];
            ratios.push(
                LearnedRatio {
                    provider: entry.provider.clone(),
                    model: entry.model.clone(),
                    chars_per_token_milli: entry.chars_per_token_milli,
                },
            );
            i = i + 1;
        }
        assert(ratios@ =~= self.ratios@);
        AdaptiveTokenEstimator { ratios }
    }
}

impl Default for AdaptiveTokenEstimator {
    fn default() -> (r: AdaptiveTokenEstimator)
        ensures
            forall|p: Seq<char>, m: Seq<char>| #[trigger] r.ratio(p, m) is None,
    {
        AdaptiveTokenEstimator { ratios: Vec::new() }
    }
}

/// A learned ratio stays within the bounds that an estimate may have.
pub proof fn law_ratio_stays_bounded(current: u64, observed: u64)
    requires
        MIN_CHARS_PER_TOKEN_MILLI <= current <= MAX_CHARS_PER_TOKEN_MILLI,
        MIN_CHARS_PER_TOKEN_MILLI <= observed <= MAX_CHARS_PER_TOKEN_MILLI,
    ensures
        MIN_CHARS_PER_TOKEN_MILLI <= moved_ratio(current, observed) <= MAX_CHARS_PER_TOKEN_MILLI,
        (current <= observed ==> current <= moved_ratio(current, observed) <= observed),
        (observed <= current ==> observed <= moved_ratio(current, observed) <= current),
{
}

/// Deterministic, conservative token estimate for one text-bearing payload.
/// This is not a tokenizer; it shares the exact ratio used by context budgets.
pub fn estimate_text_tokens_from_chars(chars: u64) -> (r: u64)
    ensures
        r == arith::clamp64(
            MESSAGE_OVERHEAD_TOKENS + arith::ceil_div(
                arith::clamp64(chars * 2) as int,
                TOKENS_PER_ESTIMATED_CHARS_X2 as int,
            ),
        ),
{
    let tokens: u64 = arith::div_ceil(
        arith::saturating_mul(chars, 2),
        TOKENS_PER_ESTIMATED_CHARS_X2,
    );
    MESSAGE_OVERHEAD_TOKENS.saturating_add(tokens)
}

pub open spec fn opt_len(s: Option<Seq<char>>) -> nat {
    match s {
        Some(t) => t.len(),
        None => 0,
    }
}

pub open spec fn calls_chars(calls: Seq<message::CallView>) -> nat
    decreases calls.len(),
{
    if calls.len() == 0 {
        0
    } else {
        let c = calls.last();
        calls_chars(calls.drop_last()) + c.id.len() + c.name.len() + c.arguments.len()
    }
}

pub open spec fn block_chars(block: message::BlockView) -> nat {
    match block {
        message::BlockView::Text(t) => t.len(),
        message::BlockView::Image { media_type, data } => media_type.len() + data.len(),
        message::BlockView::Audio { media_type, data } => media_type.len() + data.len(),
        message::BlockView::File { media_type, data } => media_type.len() + data.len(),
        message::BlockView::Unsupported { kind } => kind.len(),
    }
}

pub open spec fn blocks_chars(blocks: Seq<message::BlockView>) -> nat
    decreases blocks.len(),
{
    if blocks.len() == 0 {
        0
    } else {
        blocks_chars(blocks.drop_last()) + block_chars(blocks.last())
    }
}

pub open spec fn responses_chars(states: Seq<message::ResponsesView>) -> nat
    decreases states.len(),
{
    if states.len() == 0 {
        0
    } else {
        responses_chars(states.drop_last()) + json::json_text(states.last().item).len()
    }
}

/// The characters of a message that its estimate goes by.
pub open spec fn message_chars(m: message::MessageView) -> nat {
    m.role.len() + m.content.len() + opt_len(m.name) + opt_len(m.tool_call_id) + calls_chars(
        m.tool_calls,
    ) + blocks_chars(m.content_blocks) + responses_chars(m.responses_reasoning) + (
    match m.chat_reasoning {
        Some(state) => state.content.len(),
        None => 0,
    })
}

/// The estimate for one message.
pub open spec fn message_tokens(m: message::MessageView) -> u64 {
    arith::clamp64(
        tokens_at(arith::clamp64(message_chars(m) as int), DEFAULT_CHARS_PER_TOKEN_MILLI)
            + MESSAGE_OVERHEAD_TOKENS,
    )
}

pub open spec fn tokens_sum(messages: Seq<message::MessageView>) -> nat
    decreases messages.len(),
{
    if messages.len() == 0 {
        0
    } else {
        tokens_sum(messages.drop_last()) + message_tokens(messages.last()) as nat
    }
}

/// The estimate for messages: the sum over them, as far as 64 bits hold it.
pub open spec fn history_tokens(messages: Seq<message::MessageView>) -> u64 {
    arith::clamp64(tokens_sum(messages) as int)
}

fn count(s: &str) -> (n: u64)
    ensures
        n == s@.len(),
{
    text::char_count(s) as u64
}

fn count_opt(s: &Option<String>) -> (n: u64)
    ensures
        n == opt_len(message::opt_text(*s)),
{
    match s {
        Some(t) => count(t.as_str()),
        None => 0,
    }
}

fn count_calls(calls: &Vec<ProviderToolCall>) -> (n: u64)
    ensures
        n == arith::clamp64(calls_chars(message::call_views(calls@)) as int),
{
    let ghost all = message::call_views(calls@);
    let mut n: u64 = 0;
    let mut i: usize = 0;
    while i < calls.len()
        invariant
            i <= calls@.len(),
            all == message::call_views(calls@),
            n == arith::clamp64(calls_chars(all.take(i as int)) as int),
        decreases calls@.len() - i,
    {
        assert(all.take(i + 1).drop_last() =~= all.take(i as int));
        let call = &calls[i];
        n = n.saturating_add(count(call.id.as_str()));
        n = n.saturating_add(count(call.name.as_str()));
        n = n.saturating_add(count(call.arguments.as_str()));
        i = i + 1;
    }
    assert(all.take(all.len() as int) =~= all);
    n
}

fn count_blocks(blocks: &Vec<ProviderContentBlock>) -> (n: u64)
    ensures
        n == arith::clamp64(blocks_chars(message::block_views(blocks@)) as int),
{
    let ghost all = message::block_views(blocks@);
    let mut n: u64 = 0;
    let mut i: usize = 0;
    while i < blocks.len()
        invariant
            i <= blocks@.len(),
            all == message::block_views(blocks@),
            n == arith::clamp64(blocks_chars(all.take(i as int)) as int),
        decreases blocks@.len() - i,
    {
        assert(all.take(i + 1).drop_last() =~= all.take(i as int));
        match &blocks[i] {
            ProviderContentBlock::Text(t) => {
                n = n.saturating_add(count(t.as_str()));
            },
            ProviderContentBlock::Image { media_type, data } => {
                n = n.saturating_add(count(media_type.as_str())).saturating_add(
                    count(data.as_str()),
                );
            },
            ProviderContentBlock::Audio { media_type, data } => {
                n = n.saturating_add(count(media_type.as_str())).saturating_add(
                    count(data.as_str()),
                );
            },
            ProviderContentBlock::File { media_type, data } => {
                n = n.saturating_add(count(media_type.as_str())).saturating_add(
                    count(data.as_str()),
                );
            },
            ProviderContentBlock::Unsupported { kind } => {
                n = n.saturating_add(count(kind.as_str()));
            },
        }
        i = i + 1;
    }
    assert(all.take(all.len() as int) =~= all);
    n
}

fn count_responses(states: &Vec<ResponsesReasoning>) -> (n: u64)
    ensures
        n == arith::clamp64(responses_chars(message::responses_views(states@)) as int),
{
    let ghost all = message::responses_views(states@);
    let mut n: u64 = 0;
    let mut i: usize = 0;
    while i < states.len()
        invariant
            i <= states@.len(),
            all == message::responses_views(states@),
            n == arith::clamp64(responses_chars(all.take(i as int)) as int),
        decreases states@.len() - i,
    {
        assert(all.take(i + 1).drop_last() =~= all.take(i as int));
        n = n.saturating_add(count(json::to_text(&states[i].item).as_str()));
        i = i + 1;
    }
    assert(all.take(all.len() as int) =~= all);
    n
}

fn count_message(m: &ProviderMessage) -> (n: u64)
    ensures
        n == arith::clamp64(message_chars(m@) as int),
{
    let chat: u64 = match &m.chat_reasoning {
        Some(state) => count(state.content.as_str()),
        None => 0,
    };
    count(m.role.as_str()).saturating_add(count(m.content.as_str())).saturating_add(
        count_opt(&m.name),
    ).saturating_add(count_opt(&m.tool_call_id)).saturating_add(
        count_calls(&m.tool_calls),
    ).saturating_add(count_blocks(&m.content_blocks)).saturating_add(
        count_responses(&m.responses_reasoning),
    ).saturating_add(chat)
}

/// The estimate for messages `from..to` of a conversation.
pub fn estimate_range(messages: &Vec<ProviderMessage>, from: usize, to: usize) -> (r: u64)
    requires
        from <= to <= messages@.len(),
    ensures
        r == history_tokens(message::views(messages@).subrange(from as int, to as int)),
{
    let ghost all = message::views(messages@);
    let estimator = AdaptiveTokenEstimator::default();
    let mut total: u64 = 0;
    let mut i: usize = from;
    while i < to
        invariant
            from <= i <= to <= messages@.len(),
            all == message::views(messages@),
            forall|p: Seq<char>, m: Seq<char>| #[trigger] estimator.ratio(p, m) is None,
            total == history_tokens(all.subrange(from as int, i as int)),
        decreases to - i,
    {
        assert(all.subrange(from as int, i + 1).drop_last() =~= all.subrange(
            from as int,
            i as int,
        ));
        let tokens: u64 = estimator.estimate("compaction", "local", count_message(&messages[i]));
        total = total.saturating_add(tokens.saturating_add(MESSAGE_OVERHEAD_TOKENS));
        i = i + 1;
    }
    total
}

/// Deterministic, conservative wire-size estimate. This is not a tokenizer
/// count; it exists only to make the pre-send budget decision reproducible.
pub fn estimate_provider_message_tokens(messages: &Vec<ProviderMessage>) -> (r: u64)
    ensures
        r == history_tokens(message::views(messages@)),
{
    let ghost all = message::views(messages@);
    assert(all.subrange(0, all.len() as int) =~= all);
    estimate_range(messages, 0, messages.len())
}

/// The estimate for one user message with a content of `chars` characters.
pub open spec fn user_tokens(chars: nat) -> u64 {
    arith::clamp64(
        tokens_at(arith::clamp64(4 + chars as int), DEFAULT_CHARS_PER_TOKEN_MILLI)
            + MESSAGE_OVERHEAD_TOKENS,
    )
}

/// The estimate for a user message goes by its number of characters alone.
pub proof fn lemma_user_tokens(content: Seq<char>)
    ensures
        history_tokens(seq![message::user_message(content)]) == user_tokens(content.len()),
{
    reveal_strlit("user");
    let m = message::user_message(content);
    assert(seq![m].drop_last() =~= Seq::empty());
    assert(tokens_sum(seq![m].drop_last()) == 0);
    assert(message_chars(m) == 4 + content.len());
}

} // verus!
