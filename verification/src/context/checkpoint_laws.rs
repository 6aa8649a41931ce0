//! What a checkpoint keeps of a summary, and what an estimate counts of a message.
use vstd::prelude::*;
use vstd::string::*;

use crate::arith;
use crate::context::checkpoint;
use crate::context::estimate;
use crate::provider::message::{BlockView, CallView, MessageView};
use crate::text;

verus! {

proof fn lemma_at(front: Seq<char>, part: Seq<char>, back: Seq<char>)
    ensures
        text::contains(front + part + back, part),
{
    let at = front.len() as int;
    assert((front + part + back).subrange(at, at + part.len()) =~= part);
    assert(text::occurs_at(front + part + back, part, at));
}

proof fn lemma_inside(whole: Seq<char>, part: Seq<char>, piece: Seq<char>)
    requires
        text::contains(whole, part),
        text::contains(part, piece),
    ensures
        text::contains(whole, piece),
{
    let i = choose|i: int| #[trigger] text::occurs_at(whole, part, i);
    let j = choose|j: int| #[trigger] text::occurs_at(part, piece, j);
    assert(whole.subrange(i + j, i + j + piece.len()) =~= whole.subrange(
        i,
        i + part.len(),
    ).subrange(j, j + piece.len()));
    assert(text::occurs_at(whole, piece, i + j));
}

proof fn lemma_rendered(bodies: Seq<Seq<char>>, n: int, i: int)
    requires
        0 <= i < n <= bodies.len(),
    ensures
        text::contains(
            checkpoint::rendered(bodies, n),
            checkpoint::heading_text(i).push('\n') + bodies[i],
        ),
    decreases n,
{
    let none = Seq::<char>::empty();
    let all = checkpoint::rendered(bodies, n);
    let before = if n > 1 {
        checkpoint::rendered(bodies, n - 1).push('\n')
    } else {
        none
    };
    let own = checkpoint::heading_text(n - 1).push('\n') + bodies[n - 1];
    assert(all =~= before + own + none);
    if i == n - 1 {
        lemma_at(before, own, none);
    } else {
        lemma_rendered(bodies, n - 1, i);
        let inner = checkpoint::rendered(bodies, n - 1);
        assert(all =~= none + inner + (seq!['\n'] + own));
        lemma_at(none, inner, seq!['\n'] + own);
        lemma_inside(all, inner, checkpoint::heading_text(i).push('\n') + bodies[i]);
    }
}

/// A checkpoint that fits holds every section of the summary under its heading, word
/// for word, and ends with the words that were added.
pub proof fn law_fitting_checkpoints_keep_every_section(
    summary: Seq<char>,
    suffix: Seq<char>,
    max_bytes: nat,
    i: int,
)
    requires
        0 <= i < 7,
        checkpoint::checkpoint_fault(summary, usize::MAX as nat) is None,
        text::byte_len(checkpoint::checkpoint(checkpoint::section_bodies(summary), suffix))
            <= max_bytes,
    ensures
        checkpoint::fitted(summary, suffix, max_bytes) matches Ok(content) ==> text::contains(
            content,
            checkpoint::heading_text(i).push('\n') + checkpoint::section_bodies(summary)[i],
        ) && suffix.is_suffix_of(content),
{
    let bodies = checkpoint::section_bodies(summary);
    lemma_section_count(text::lines(summary));
    lemma_rendered(bodies, 7, i);
    let front = checkpoint::rendered(bodies, 7);
    let content = checkpoint::checkpoint(bodies, suffix);
    let none = Seq::<char>::empty();
    let back = if suffix.len() == 0 {
        none
    } else {
        seq!['\n'] + suffix
    };
    assert(content =~= none + front + back);
    lemma_at(none, front, back);
    lemma_inside(content, front, checkpoint::heading_text(i).push('\n') + bodies[i]);
    assert(suffix =~= content.subrange(content.len() - suffix.len(), content.len() as int));
}

proof fn lemma_section_count(lines: Seq<Seq<char>>)
    ensures
        checkpoint::sections_of(lines).bodies.len() == 7,
        0 <= checkpoint::sections_of(lines).next <= 7,
    decreases lines.len(),
{
    if lines.len() > 0 {
        lemma_section_count(lines.drop_last());
        lemma_heading_bound(text::trim(lines.last()), 0);
    }
}

proof fn lemma_heading_bound(line: Seq<char>, i: int)
    requires
        0 <= i,
    ensures
        checkpoint::heading_from(line, i) matches Some(k) ==> k < 7,
    decreases 7 - i,
{
    if i < 7 {
        lemma_heading_bound(line, i + 1);
    }
}

/// No line of a summary is lost: each line behind the first heading that is not
/// itself the next heading stands in the section of the last heading before it.
pub proof fn law_sections_lose_no_line(lines: Seq<Seq<char>>, j: int)
    requires
        0 <= j < lines.len(),
        checkpoint::sections_of(lines.take(j)).next > 0,
        checkpoint::heading_of(lines[j]) != Some(checkpoint::sections_of(lines.take(j)).next),
    ensures
        text::contains(
            checkpoint::sections_of(lines).bodies[checkpoint::sections_of(lines.take(j)).next - 1],
            lines[j],
        ),
    decreases lines.len(),
{
    let front = lines.drop_last();
    let before = checkpoint::sections_of(front);
    let after = checkpoint::sections_of(lines);
    let none = Seq::<char>::empty();
    lemma_section_count(front);
    lemma_section_count(lines.take(j));
    if j == lines.len() - 1 {
        assert(lines.take(j) =~= front);
        let old = before.bodies[before.next - 1];
        let body = after.bodies[before.next - 1];
        if old.len() == 0 {
            assert(body =~= none + lines[j] + none);
            lemma_at(none, lines[j], none);
        } else {
            assert(body =~= old.push('\n') + lines[j] + none);
            lemma_at(old.push('\n'), lines[j], none);
        }
    } else {
        assert(front.take(j) =~= lines.take(j));
        law_sections_lose_no_line(front, j);
        let k = checkpoint::sections_of(lines.take(j)).next - 1;
        let old = before.bodies[k];
        let body = after.bodies[k];
        if body != old {
            let line = lines.last();
            if old.len() == 0 {
                assert(text::contains(old, lines[j]));
                let at = choose|at: int| #[trigger] text::occurs_at(old, lines[j], at);
                assert(lines[j].len() == 0);
                assert(lines[j] =~= none);
                assert(body.subrange(0, 0) =~= none);
                assert(text::occurs_at(body, lines[j], 0));
            } else {
                assert(body =~= none + old + (seq!['\n'] + line));
                lemma_at(none, old, seq!['\n'] + line);
                lemma_inside(body, old, lines[j]);
            }
        }
    }
}

proof fn lemma_calls_count(calls: Seq<CallView>, k: int, call: CallView)
    requires
        0 <= k < calls.len(),
    ensures
        estimate::calls_chars(calls.update(k, call)) + calls[k].id.len() + calls[k].name.len()
            + calls[k].arguments.len() == estimate::calls_chars(calls) + call.id.len()
            + call.name.len() + call.arguments.len(),
    decreases calls.len(),
{
    let front = calls.drop_last();
    if k == calls.len() - 1 {
        assert(calls.update(k, call).drop_last() =~= front);
    } else {
        assert(calls.update(k, call).drop_last() =~= front.update(k, call));
        lemma_calls_count(front, k, call);
    }
}

/// Every character of a message counts: a longer text, or longer arguments of any
/// call, make the message longer by as much.
pub proof fn law_every_character_counts(m: MessageView, more: Seq<char>, k: int)
    ensures
        estimate::message_chars((MessageView { content: m.content + more, ..m }))
            == estimate::message_chars(m) + more.len(),
        0 <= k < m.tool_calls.len() ==> estimate::message_chars(
            (MessageView {
                tool_calls: m.tool_calls.update(
                    k,
                    CallView {
                        arguments: m.tool_calls[k].arguments + more,
                        ..m.tool_calls[k]
                    },
                ),
                ..m
            }),
        ) == estimate::message_chars(m) + more.len(),
        estimate::message_chars(
            (MessageView { content_blocks: m.content_blocks.push(BlockView::Text(more)), ..m }),
        ) == estimate::message_chars(m) + more.len(),
{
    if 0 <= k < m.tool_calls.len() {
        lemma_calls_count(
            m.tool_calls,
            k,
            CallView { arguments: m.tool_calls[k].arguments + more, ..m.tool_calls[k] },
        );
    }
    assert(m.content_blocks.push(BlockView::Text(more)).drop_last() =~= m.content_blocks);
}

/// An estimate is the least number of tokens that have room for the characters at the
/// ratio given.
pub proof fn law_estimates_have_room_for_the_text(chars: u64, ratio: u64)
    requires
        ratio > 0,
        chars * 1_000 <= u64::MAX,
    ensures
        estimate::tokens_at(chars, ratio) * ratio >= chars * 1_000,
        chars > 0 ==> (estimate::tokens_at(chars, ratio) - 1) * ratio < chars * 1_000,
{
    let a = chars * 1_000;
    let r = ratio as int;
    let q = estimate::tokens_at(chars, ratio) as int;
    lemma_ceiling(a, r);
    assert(arith::clamp64(a) == a);
    assert(q == arith::ceil_div(a, r));
}

proof fn lemma_ceiling(a: int, r: int)
    requires
        0 <= a <= u64::MAX,
        0 < r <= u64::MAX,
    ensures
        0 <= arith::ceil_div(a, r) <= u64::MAX,
        arith::ceil_div(a, r) * r >= a,
        (arith::ceil_div(a, r) - 1) * r < a || a == 0,
{
    let b = a + r - 1;
    vstd::arithmetic::div_mod::lemma_fundamental_div_mod(b, r);
    vstd::arithmetic::div_mod::lemma_mod_bound(b, r);
    let q = b / r;
    let m = b % r;
    assert(b == r * q + m);
    assert(q * r == r * q) by (nonlinear_arith);
    assert((q - 1) * r == r * q - r) by (nonlinear_arith);
    assert(0 <= q <= a) by (nonlinear_arith)
        requires
            a + r - 1 == r * q + m,
            0 <= m < r,
            0 < r,
            0 <= a,
    ;
}

/// The tokens of two stretches of a history add up.
pub proof fn law_estimates_add_up(a: Seq<MessageView>, b: Seq<MessageView>)
    ensures
        estimate::tokens_sum(a + b) == estimate::tokens_sum(a) + estimate::tokens_sum(b),
    decreases b.len(),
{
    if b.len() == 0 {
        assert(a + b =~= a);
    } else {
        assert((a + b).drop_last() =~= a + b.drop_last());
        assert((a + b).last() == b.last());
        law_estimates_add_up(a, b.drop_last());
    }
}

} // verus!
