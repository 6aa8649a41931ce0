//! What the bytes of an answer come to, event by event: each event is read as the
//! JSON that its lines of data hold, and nothing else is read.
use vstd::prelude::*;
use vstd::string::*;
use vstd::utf8::{decode_utf8, valid_utf8};

use crate::json;
use crate::json::Tree;
use crate::provider::adapter::ProviderAdapter;
use crate::provider::sse;
use crate::provider::sse::ReadView;
use crate::provider::types::{ErrorView, StreamView};
use crate::text;

verus! {

/// A line that begins with the name of data carries what follows the colon, less
/// one space; a line that begins otherwise carries nothing, unless it is that name
/// alone.
pub proof fn law_data_lines_carry_their_rest(rest: Seq<char>, other: Seq<char>)
    ensures
        sse::line_data("data: "@ + rest) == Some(rest),
        rest.len() == 0 || rest[0] != ' ' ==> sse::line_data("data:"@ + rest) == Some(rest),
        !"data:"@.is_prefix_of(other) && other != "data"@ ==> sse::line_data(other) is None,
{
    reveal_strlit("data: ");
    reveal_strlit("data:");
    reveal_strlit("data");
    reveal_strlit(" ");
    let spaced = "data: "@ + rest;
    assert(spaced.subrange(0, 5) =~= "data:"@);
    assert(spaced.skip(5) =~= " "@ + rest);
    assert((" "@ + rest).subrange(0, 1) =~= " "@);
    assert((" "@ + rest).skip(1) =~= rest);
    let close = "data:"@ + rest;
    assert(close.subrange(0, 5) =~= "data:"@);
    assert(close.skip(5) =~= rest);
    if rest.len() > 0 && rest[0] != ' ' {
        assert(rest.subrange(0, 1)[0] != " "@[0]);
    }
    assert(rest.len() == 0 ==> !text::starts_with(rest, " "@));
}

/// The lines of data of an event add up, each as a line, as long as there is room;
/// no event comes of them before the event ends.
pub proof fn law_data_lines_add_up<A: ProviderAdapter>(
    adapter: &A,
    line: Seq<char>,
    value: Seq<char>,
    data: Seq<char>,
)
    requires
        sse::line_data(line) == Some(value),
        text::byte_len(line) <= 1_048_576,
        text::byte_len(data) + text::byte_len(value) < 1_048_576,
        data.len() > 0 || text::trim(value) != "[DONE]"@,
    ensures
        sse::accumulated(adapter, line, data) == (ReadView {
            events: Seq::empty(),
            result: Ok(false),
            data: data + value + "\n"@,
        }),
{
    reveal_strlit("data:");
    reveal_strlit("data");
    if line.len() == 0 {
        assert(line != "data"@);
        assert(!text::starts_with(line, "data:"@));
    }
}

/// A line that carries no data, such as a comment or the name of an event, changes
/// nothing.
pub proof fn law_other_lines_change_nothing<A: ProviderAdapter>(
    adapter: &A,
    line: Seq<char>,
    data: Seq<char>,
)
    requires
        line.len() > 0,
        !"data:"@.is_prefix_of(line),
        line != "data"@,
        text::byte_len(line) <= 1_048_576,
    ensures
        sse::accumulated(adapter, line, data) == (ReadView {
            events: Seq::empty(),
            result: Ok(false),
            data,
        }),
{
    law_data_lines_carry_their_rest(Seq::empty(), line);
}

/// The blank line ends an event: what its data says is read, all of it and nothing
/// else, and the next event begins with no data.
pub proof fn law_events_are_read_as_sent<A: ProviderAdapter>(
    adapter: &A,
    data: Seq<char>,
    tree: Tree,
)
    requires
        text::trim(data).len() > 0,
        text::trim(data) != "[DONE]"@,
        json::parsed(text::trim(data)) == Ok::<Tree, Seq<char>>(tree),
    ensures
        ({
            let read = sse::accumulated(adapter, Seq::empty(), data);
            &&& read.data == Seq::<char>::empty()
            &&& match adapter.events_of(tree) {
                Ok(events) => read.events == events && read.result == Ok::<bool, ErrorView>(
                    sse::terminal(adapter.wire_of(), tree),
                ),
                Err(error) => read.events == Seq::<StreamView>::empty() && read.result == Err::<
                    bool,
                    ErrorView,
                >(error),
            }
        }),
{
    text::lemma_byte_len_empty();
}

/// Data that is no JSON, and no sign of the end, is an error and no event.
pub proof fn law_broken_events_are_errors<A: ProviderAdapter>(adapter: &A, data: Seq<char>)
    requires
        text::trim(data).len() > 0,
        text::trim(data) != "[DONE]"@,
        json::parsed(text::trim(data)) is Err,
    ensures
        sse::accumulated(adapter, Seq::empty(), data).result is Err,
        sse::accumulated(adapter, Seq::empty(), data).events == Seq::<StreamView>::empty(),
{
    text::lemma_byte_len_empty();
}

proof fn lemma_same_trim(s: Seq<char>)
    requires
        text::trim(s) == s,
        s.len() > 0,
    ensures
        text::trim(s + "\n"@) == s,
{
    reveal_strlit("\n");
    let a = text::law_trimming_takes_outer_space_alone(s);
    assert(!text::is_space(s[0]));
    assert(!text::is_space(s.last()));
    let longer = s + "\n"@;
    assert(longer[0] == s[0]);
    assert(text::trim_start(longer) == longer);
    assert(text::is_space(longer.last()));
    assert(longer.drop_last() =~= s);
    assert(text::trim_end(s) == s);
}

proof fn lemma_first_line(line: Seq<u8>, rest: Seq<u8>, from: int)
    requires
        0 <= from <= line.len(),
        forall|i: int| 0 <= i < line.len() ==> #[trigger] line[i] != 10,
    ensures
        sse::line_end(line + seq![10u8] + rest, from) == Some(line.len() as int),
    decreases line.len() - from,
{
    let all = line + seq![10u8] + rest;
    if from < line.len() {
        assert(all[from] == line[from]);
        lemma_first_line(line, rest, from + 1);
    } else {
        assert(all[from] == 10);
    }
}

/// An event of one line, as bytes, is read as the JSON that the line holds, and the
/// bytes behind it are read as if they had come alone, unless the event ends the
/// answer or cannot be read.
pub proof fn law_a_line_of_data_is_an_event<A: ProviderAdapter>(
    adapter: &A,
    line: Seq<u8>,
    payload: Seq<char>,
    tree: Tree,
    rest: Seq<u8>,
)
    requires
        forall|i: int| 0 <= i < line.len() ==> #[trigger] line[i] != 10,
        line.len() > 0 && line.last() != 13,
        line.len() <= 1_048_576,
        valid_utf8(line),
        decode_utf8(line) == "data: "@ + payload,
        text::byte_len("data: "@ + payload) <= 1_048_576,
        text::byte_len(payload) < 1_048_576,
        payload.len() > 0,
        text::trim(payload) == payload,
        payload != "[DONE]"@,
        json::parsed(payload) == Ok::<Tree, Seq<char>>(tree),
    ensures
        ({
            let read = sse::drained(
                adapter,
                line + seq![10u8, 10u8] + rest,
                Seq::empty(),
            ).read;
            let next = sse::drained(adapter, rest, Seq::empty()).read;
            match adapter.events_of(tree) {
                Ok(events) => if sse::terminal(adapter.wire_of(), tree) {
                    read.events == events && read.result == Ok::<bool, ErrorView>(true)
                } else {
                    read.events == events + next.events && read.result == next.result
                },
                Err(error) => read.events == Seq::<StreamView>::empty() && read.result == Err::<
                    bool,
                    ErrorView,
                >(error),
            }
        }),
{
    let none = Seq::<u8>::empty();
    let all = line + seq![10u8, 10u8] + rest;
    let after = seq![10u8] + rest;
    assert(all =~= line + seq![10u8] + after);
    lemma_first_line(line, after, 0);
    assert(all.take(line.len() as int) =~= line);
    assert(all.skip(line.len() as int + 1) =~= after);
    law_data_lines_carry_their_rest(payload, payload);
    text::lemma_byte_len_empty();
    let nothing = Seq::<char>::empty();
    law_data_lines_add_up(adapter, "data: "@ + payload, payload, nothing);
    let data = payload + "\n"@;
    assert(nothing + payload + "\n"@ =~= data);
    let first = sse::line_read(adapter, line, nothing);
    assert(first.data == data);
    assert(first.result == Ok::<bool, ErrorView>(false));
    lemma_first_line(none, rest, 0);
    assert(after =~= none + seq![10u8] + rest);
    assert(after.take(0) =~= none);
    assert(after.skip(1) =~= rest);
    assert(sse::bare_line(none) == none);
    vstd::utf8::encode_utf8_decode_utf8(nothing);
    vstd::utf8::encode_utf8_valid_utf8(nothing);
    assert(vstd::utf8::encode_utf8(nothing) =~= none);
    lemma_same_trim(payload);
    law_events_are_read_as_sent(adapter, data, tree);
    let second = sse::line_read(adapter, none, data);
    assert(second == sse::accumulated(adapter, nothing, data));
    let inner = sse::drained(adapter, after, data).read;
    let outer = sse::drained(adapter, all, nothing).read;
    assert(outer.events =~= inner.events);
    let next = sse::drained(adapter, rest, nothing).read;
}

} // verus!
