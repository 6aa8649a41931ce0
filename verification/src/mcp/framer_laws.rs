//! What the bytes from a server come to: every byte belongs to one line, every line
//! that is not empty is read, and every event says what its data says.
use vstd::prelude::*;
use vstd::string::*;

use crate::json;
use crate::json::Tree;
use crate::mcp::framer;
use crate::mcp::framer::{LineView, SseView, StepView};
use crate::mcp::rpc;
use crate::mcp::spec::McpErrorView;
use crate::text;

verus! {

proof fn lemma_break(bytes: Seq<u8>, from: int)
    requires
        0 <= from,
    ensures
        match framer::newline_at(bytes, from) {
            Some(i) => from <= i < bytes.len() && bytes[i] == 10 && forall|j: int|
                from <= j < i ==> #[trigger] bytes[j] != 10,
            None => forall|j: int| from <= j < bytes.len() ==> #[trigger] bytes[j] != 10,
        },
    decreases bytes.len() - from,
{
    if from < bytes.len() && bytes[from] != 10 {
        lemma_break(bytes, from + 1);
    }
}

/// Lines as bytes again, a line feed behind each.
pub open spec fn ended_lines(lines: Seq<Seq<u8>>) -> Seq<u8>
    decreases lines.len(),
{
    if lines.len() == 0 {
        Seq::empty()
    } else {
        lines[0] + seq![10u8] + ended_lines(lines.skip(1))
    }
}

/// The lines of a stream and what is left behind them are the stream: no byte is lost
/// or moved, and no line feed stands within a line.
pub proof fn law_lines_make_up_the_stream(bytes: Seq<u8>)
    ensures
        ended_lines(framer::lines_in(bytes)) + framer::rest_of(bytes) == bytes,
        forall|i: int|
            0 <= i < framer::lines_in(bytes).len() ==> !(#[trigger] framer::lines_in(
                bytes,
            )[i]).contains(10),
        !framer::rest_of(bytes).contains(10),
    decreases bytes.len(),
{
    lemma_break(bytes, 0);
    let lines = framer::lines_in(bytes);
    match framer::newline_at(bytes, 0) {
        Some(i) => {
            let rest = bytes.skip(i + 1);
            law_lines_make_up_the_stream(rest);
            let later = framer::lines_in(rest);
            assert(lines =~= seq![bytes.take(i)] + later);
            assert(lines.skip(1) =~= later);
            assert(bytes =~= bytes.take(i) + seq![10u8] + rest);
            assert(ended_lines(lines) + framer::rest_of(bytes) =~= bytes.take(i) + seq![10u8] + (
            ended_lines(later) + framer::rest_of(rest)));
            assert forall|k: int| 0 <= k < lines.len() implies !(#[trigger] lines[k]).contains(
                10,
            ) by {
                if k > 0 {
                    assert(lines[k] == later[k - 1]);
                }
            }
        },
        None => {
            assert(ended_lines(lines) + framer::rest_of(bytes) =~= bytes);
        },
    }
}

/// How many of some lines are not empty.
pub open spec fn filled(lines: Seq<Seq<u8>>) -> nat
    decreases lines.len(),
{
    if lines.len() == 0 {
        0
    } else {
        filled(lines.drop_last()) + if lines.last().len() > 0 {
            1nat
        } else {
            0nat
        }
    }
}

/// Every line that is not empty is read, at its place among them: as the JSON that it
/// holds, or else as noise that begins as the line does.
pub proof fn law_every_line_is_read(lines: Seq<Seq<u8>>, i: int)
    requires
        0 <= i < lines.len(),
        lines[i].len() > 0,
    ensures
        framer::framed(lines).len() == filled(lines),
        filled(lines.take(i)) < framer::framed(lines).len(),
        match (json::parsed_bytes(lines[i]), framer::framed(lines)[filled(lines.take(i)) as int]) {
            (Ok(tree), LineView::Message(read)) => read == tree,
            (Err(_), LineView::Noise(words)) => text::lossy(lines[i]).len() <= words.len() && words
                == text::lossy(lines[i]) || words.len() > 0 && words.drop_last().is_prefix_of(
                text::lossy(lines[i]),
            ),
            _ => false,
        },
    decreases lines.len(),
{
    reveal_strlit("…");
    let front = lines.drop_last();
    let all = framer::framed(lines);
    lemma_framed_len(front);
    lemma_framed_len(lines);
    if i == lines.len() - 1 {
        assert(lines.take(i) =~= front);
        let words = text::lossy(lines[i]);
        let noise = framer::noise_of(lines[i]);
        if words.len() > framer::NOISE_CHARS {
            assert(noise.drop_last() =~= words.take(framer::NOISE_CHARS as int));
            assert(noise.drop_last() =~= words.subrange(0, noise.drop_last().len() as int));
        }
    } else {
        assert(front.take(i) =~= lines.take(i));
        assert(front[i] == lines[i]);
        law_every_line_is_read(front, i);
        assert(all[filled(lines.take(i)) as int] == framer::framed(front)[filled(
            lines.take(i),
        ) as int]);
    }
}

proof fn lemma_framed_len(lines: Seq<Seq<u8>>)
    ensures
        framer::framed(lines).len() == filled(lines),
    decreases lines.len(),
{
    if lines.len() > 0 {
        lemma_framed_len(lines.drop_last());
    }
}

proof fn lemma_first_break(line: Seq<u8>, rest: Seq<u8>, from: int)
    requires
        0 <= from <= line.len(),
        !line.contains(10),
    ensures
        framer::newline_at(line + seq![10u8] + rest, from) == Some(line.len() as int),
    decreases line.len() - from,
{
    let all = line + seq![10u8] + rest;
    if from < line.len() {
        assert(all[from] == line[from]);
        assert(line.contains(line[from]));
        lemma_first_break(line, rest, from + 1);
    } else {
        assert(all[from] == 10);
    }
}

/// A response that comes as an event of one line is handed to whoever waits under its
/// id, as it was given; what follows it waits for the next step.
pub proof fn law_responses_in_events_are_handed_on(
    line: Seq<u8>,
    payload: Seq<char>,
    message: Tree,
    rest: Seq<u8>,
    id: u64,
)
    requires
        !line.contains(10),
        text::lossy(line) == "data: "@ + payload,
        text::lossy(Seq::<u8>::empty()) == Seq::<char>::empty(),
        payload.len() > 0,
        !text::is_space(payload[0]),
        !text::is_space(payload.last()),
        text::byte_len(payload + "\n"@) <= rpc::MAX_MESSAGE_BYTES,
        json::parsed(payload) == Ok::<Tree, Seq<char>>(message),
        message.unsigned_at("id"@) == Some(id),
        message.get("method"@) is None,
    ensures
        framer::next_step(
            (SseView { buffer: line + seq![10u8, 10u8] + rest, payload: Seq::empty() }),
            id,
        ) == (
            StepView::Response(rpc::result_of(message)),
            SseView { buffer: rest, payload: Seq::empty() },
        ),
{
    reveal_strlit("data: ");
    reveal_strlit("data:");
    reveal_strlit("\n");
    let none = Seq::<u8>::empty();
    let nothing = Seq::<char>::empty();
    let after = seq![10u8] + rest;
    let all = line + seq![10u8, 10u8] + rest;
    assert(all =~= line + seq![10u8] + after);
    lemma_first_break(line, after, 0);
    assert(all.take(line.len() as int) =~= line);
    assert(all.skip(line.len() as int + 1) =~= after);
    let said = "data: "@ + payload;
    assert(said.last() == payload.last());
    assert(text::without_returns(said) == said);
    assert(said.subrange(0, 5) =~= "data:"@);
    assert(said.skip(5) =~= seq![' '] + payload);
    let spaced = seq![' '] + payload;
    assert(spaced.drop_first() =~= payload);
    assert(text::trim_start(payload) == payload);
    assert(text::trim_start(spaced) == payload);
    let held = payload + "\n"@;
    assert(nothing + payload + "\n"@ =~= held);
    assert(after =~= none + seq![10u8] + rest);
    lemma_first_break(none, rest, 0);
    assert(after.take(0) =~= none);
    assert(after.skip(1) =~= rest);
    assert(held.drop_last() =~= payload);
    assert(text::trim_end(payload) == payload);
    assert(text::trim_end(held) == payload);
    let start = SseView { buffer: all, payload: nothing };
    let middle = SseView { buffer: after, payload: held };
    assert(framer::next_step(start, id) == framer::next_step(middle, id));
    assert(framer::event_step(held, id) == Some(StepView::Response(rpc::result_of(message))));
}

/// The body of a response is handed on where its id is the one asked for, and is an
/// error otherwise.
pub proof fn law_bodies_are_handed_on(body: Seq<u8>, message: Tree, id: u64)
    requires
        json::parsed_bytes(body) == Ok::<Tree, Seq<char>>(message),
    ensures
        message.unsigned_at("id"@) == Some(id) && message.get("error"@) is None && message.get(
            "result"@,
        ) is Some ==> framer::body_result(body, id) == Ok::<Tree, McpErrorView>(
            message.get("result"@)->0,
        ),
        message.unsigned_at("id"@) != Some(id) ==> framer::body_result(body, id) is Err,
{
}

} // verus!
