//! Server-sent events: how the bytes of an answer become messages, whatever the
//! chunks they arrive in.
use vstd::prelude::*;
use vstd::string::*;
use vstd::utf8::{decode_utf8, valid_utf8};

use crate::json;
use crate::json::{Json, Tree};
use crate::provider::adapter;
use crate::provider::adapter::ProviderAdapter;
use crate::provider::failures;
use crate::provider::types;
use crate::provider::types::{ErrorView, ProviderError, ProviderEvent, ProviderKind, StreamView};
use crate::text;

verus! {

/// Most bytes of a line and of the data of an event.
pub const MAX_SSE_LINE_BYTES: usize = 1_048_576;

/// Most bytes of an answer.
pub const MAX_PROVIDER_STREAM_BYTES: usize = 67_108_864;

pub open spec fn line_too_long() -> ErrorView {
    adapter::invalid("provider SSE line exceeded byte limit"@)
}

pub open spec fn event_too_long() -> ErrorView {
    adapter::invalid("provider SSE event exceeded byte limit"@)
}

pub open spec fn not_utf8() -> ErrorView {
    adapter::invalid("provider SSE line was not valid UTF-8"@)
}

/// Counts the bytes of an answer.
pub fn checked_provider_stream_bytes(total: usize, chunk: usize) -> (r: Result<
    usize,
    ProviderError,
>)
    ensures
        total + chunk <= MAX_PROVIDER_STREAM_BYTES ==> r == Ok::<usize, ProviderError>(
            (total + chunk) as usize,
        ),
        total + chunk > MAX_PROVIDER_STREAM_BYTES ==> (r matches Err(error) && error@
            == adapter::invalid("provider stream exceeded byte limit"@)),
{
    if total <= MAX_PROVIDER_STREAM_BYTES && chunk <= MAX_PROVIDER_STREAM_BYTES - total {
        Ok(total + chunk)
    } else {
        Err(ProviderError::invalid("provider stream exceeded byte limit"))
    }
}

/// What reading came to: the events so far, whether the answer is over or why it
/// cannot be read, and the data of the event that is still open.
#[verifier::ext_equal]
pub struct ReadView {
    pub events: Seq<StreamView>,
    pub result: Result<bool, ErrorView>,
    pub data: Seq<char>,
}

/// Whether a message of the provider ends its answer. The end of a chat is not
/// known by its messages: what it used may follow.
pub open spec fn terminal(wire_kind: ProviderKind, tree: Tree) -> bool {
    let kind = tree.text_at("type"@);
    match wire_kind {
        ProviderKind::OpenAiCodex => kind == Some("response.completed"@) || kind == Some(
            "response.incomplete"@,
        ),
        ProviderKind::Anthropic => kind == Some("message_stop"@),
        _ => false,
    }
}

pub fn is_terminal(wire_kind: ProviderKind, value: &Json) -> (r: bool)
    ensures
        r == terminal(wire_kind, value@),
{
    let kind = match value.str_at("type") {
        Some(kind) => kind,
        None => return false,
    };
    match wire_kind {
        ProviderKind::OpenAiCodex => text::same(kind, "response.completed") || text::same(
            kind,
            "response.incomplete",
        ),
        ProviderKind::Anthropic => text::same(kind, "message_stop"),
        _ => false,
    }
}

/// What a message of the provider comes to.
pub open spec fn message_read<A: ProviderAdapter>(adapter: &A, tree: Tree) -> ReadView {
    match adapter.events_of(tree) {
        Ok(events) => ReadView {
            events,
            result: Ok(terminal(adapter.wire_of(), tree)),
            data: Seq::empty(),
        },
        Err(error) => ReadView { events: Seq::empty(), result: Err(error), data: Seq::empty() },
    }
}

/// What the data of an event comes to.
pub open spec fn dispatched<A: ProviderAdapter>(adapter: &A, data: Seq<char>) -> ReadView {
    let payload = text::trim(data);
    if payload == "[DONE]"@ {
        ReadView { events: Seq::empty(), result: Ok(true), data: Seq::empty() }
    } else if payload.len() == 0 {
        ReadView { events: Seq::empty(), result: Ok(false), data: Seq::empty() }
    } else {
        match json::parsed(payload) {
            Ok(tree) => message_read(adapter, tree),
            Err(words) => ReadView {
                events: Seq::empty(),
                result: Err(adapter::invalid("invalid SSE JSON: "@ + words)),
                data: Seq::empty(),
            },
        }
    }
}

/// The data that a line carries, where it carries any.
pub open spec fn line_data(line: Seq<char>) -> Option<Seq<char>> {
    let value = match text::strip_prefix(line, "data:"@) {
        Some(rest) => Some(rest),
        None => if line == "data"@ {
            Some(Seq::empty())
        } else {
            None
        },
    };
    match value {
        Some(rest) => Some(
            match text::strip_prefix(rest, " "@) {
                Some(bare) => bare,
                None => rest,
            },
        ),
        None => None,
    }
}

/// What a line comes to.
pub open spec fn accumulated<A: ProviderAdapter>(
    adapter: &A,
    line: Seq<char>,
    data: Seq<char>,
) -> ReadView {
    if text::byte_len(line) > MAX_SSE_LINE_BYTES {
        ReadView { events: Seq::empty(), result: Err(line_too_long()), data }
    } else if line.len() == 0 {
        dispatched(adapter, data)
    } else {
        match line_data(line) {
            None => ReadView { events: Seq::empty(), result: Ok(false), data },
            Some(value) => if data.len() == 0 && text::trim(value) == "[DONE]"@ {
                ReadView { events: Seq::empty(), result: Ok(true), data }
            } else if text::byte_len(data) + text::byte_len(value) + 1 > MAX_SSE_LINE_BYTES {
                ReadView { events: Seq::empty(), result: Err(event_too_long()), data }
            } else {
                ReadView { events: Seq::empty(), result: Ok(false), data: data + value + "\n"@ }
            },
        }
    }
}

/// A result whose outcome is the one given.
pub open spec fn same_outcome(
    r: Result<bool, ProviderError>,
    expected: Result<bool, ErrorView>,
) -> bool {
    match (r, expected) {
        (Ok(a), Ok(b)) => a == b,
        (Err(error), Err(view)) => error@ == view,
        _ => false,
    }
}

/// Reads a message of the provider.
pub fn read_message<A: ProviderAdapter>(
    adapter: &A,
    value: &Json,
    events: &mut Vec<ProviderEvent>,
) -> (r: Result<bool, ProviderError>)
    ensures
        same_outcome(r, message_read(adapter, value@).result),
        types::stream_views(final(events)@) == types::stream_views(old(events)@) + message_read(
            adapter,
            value@,
        ).events,
{
    let ghost start = types::stream_views(events@);
    match adapter.parse_event(value) {
        Ok(parsed) => {
            let mut parsed = parsed;
            let ghost more = types::stream_views(parsed@);
            events.append(&mut parsed);
            assert(types::stream_views(events@) =~= start + more);
            Ok(is_terminal(adapter.wire_kind(), value))
        },
        Err(error) => {
            assert(start =~= start + Seq::<StreamView>::empty());
            Err(error)
        },
    }
}

/// Reads the data of an event.
pub fn dispatch_sse_data<A: ProviderAdapter>(
    adapter: &A,
    data: &mut String,
    events: &mut Vec<ProviderEvent>,
) -> (r: Result<bool, ProviderError>)
    ensures
        ({
            let read = dispatched(adapter, old(data)@);
            &&& same_outcome(r, read.result)
            &&& final(data)@ == read.data
            &&& types::stream_views(final(events)@) == types::stream_views(old(events)@)
                + read.events
        }),
{
    let ghost start = types::stream_views(events@);
    let mut payload = String::new();
    std::mem::swap(&mut payload, data);
    assert(data@ =~= Seq::empty());
    assert(start =~= start + Seq::<StreamView>::empty());
    let trimmed = text::trimmed(payload.as_str());
    if text::same(trimmed.as_str(), "[DONE]") {
        return Ok(true);
    }
    if trimmed.as_str().is_empty() {
        return Ok(false);
    }
    match json::parse(trimmed.as_str()) {
        Ok(value) => read_message(adapter, &value, events),
        Err(error) => {
            let mut words = "invalid SSE JSON: ".to_owned();
            words.append(error.as_str());
            Err(ProviderError::InvalidResponse { message: words })
        },
    }
}

fn data_of(line: &str) -> (r: Option<String>)
    ensures
        (match r {
            Some(s) => line_data(line@) == Some(s@),
            None => line_data(line@) is None,
        }),
{
    let rest = match text::without_prefix(line, "data:") {
        Some(rest) => rest,
        None => if text::same(line, "data") {
            let empty = String::new();
            assert(empty@ =~= Seq::empty());
            empty
        } else {
            return None;
        },
    };
    match text::without_prefix(rest.as_str(), " ") {
        Some(bare) => Some(bare),
        None => Some(rest),
    }
}

/// Reads a line.
pub fn accumulate_sse_line<A: ProviderAdapter>(
    adapter: &A,
    line: &str,
    data: &mut String,
    events: &mut Vec<ProviderEvent>,
) -> (r: Result<bool, ProviderError>)
    ensures
        ({
            let read = accumulated(adapter, line@, old(data)@);
            &&& same_outcome(r, read.result)
            &&& final(data)@ == read.data
            &&& types::stream_views(final(events)@) == types::stream_views(old(events)@)
                + read.events
        }),
{
    let ghost start = types::stream_views(events@);
    assert(start =~= start + Seq::<StreamView>::empty());
    if text::byte_count(line) > MAX_SSE_LINE_BYTES {
        return Err(ProviderError::invalid("provider SSE line exceeded byte limit"));
    }
    if line.is_empty() {
        return dispatch_sse_data(adapter, data, events);
    }
    let value = match data_of(line) {
        Some(value) => value,
        None => return Ok(false),
    };
    if data.as_str().is_empty() {
        let trimmed = text::trimmed(value.as_str());
        if text::same(trimmed.as_str(), "[DONE]") {
            return Ok(true);
        }
    }
    let held: usize = text::byte_count(data.as_str());
    let added: usize = text::byte_count(value.as_str());
    if held >= MAX_SSE_LINE_BYTES || added >= MAX_SSE_LINE_BYTES - held {
        return Err(ProviderError::invalid("provider SSE event exceeded byte limit"));
    }
    data.append(value.as_str());
    data.append("\n");
    Ok(false)
}

/// Where the first line of bytes ends.
pub open spec fn line_end(bytes: Seq<u8>, from: int) -> Option<int>
    decreases bytes.len() - from,
{
    if from < 0 || from >= bytes.len() {
        None
    } else if bytes[from] == 10 {
        Some(from)
    } else {
        line_end(bytes, from + 1)
    }
}

proof fn lemma_line_end(bytes: Seq<u8>, from: int)
    requires
        0 <= from,
    ensures
        match line_end(bytes, from) {
            Some(i) => from <= i < bytes.len() && bytes[i] == 10 && (forall|j: int|
                from <= j < i ==> #[trigger] bytes[j] != 10),
            None => forall|j: int| from <= j < bytes.len() ==> #[trigger] bytes[j] != 10,
        },
    decreases bytes.len() - from,
{
    if from < bytes.len() && bytes[from] != 10 {
        lemma_line_end(bytes, from + 1);
    }
}

/// A line without the carriage return at its end.
pub open spec fn bare_line(line: Seq<u8>) -> Seq<u8> {
    if line.len() > 0 && line.last() == 13 {
        line.drop_last()
    } else {
        line
    }
}

/// What a line of bytes comes to.
pub open spec fn line_read<A: ProviderAdapter>(
    adapter: &A,
    line: Seq<u8>,
    data: Seq<char>,
) -> ReadView {
    let bare = bare_line(line);
    if bare.len() > MAX_SSE_LINE_BYTES {
        ReadView { events: Seq::empty(), result: Err(line_too_long()), data }
    } else if !valid_utf8(bare) {
        ReadView { events: Seq::empty(), result: Err(not_utf8()), data }
    } else {
        accumulated(adapter, decode_utf8(bare), data)
    }
}

/// What the bytes that have arrived come to, and those that are left.
#[verifier::ext_equal]
pub struct DrainView {
    pub read: ReadView,
    pub pending: Seq<u8>,
}

/// Reading all whole lines of the bytes that have arrived, until the answer is
/// over or cannot be read.
pub open spec fn drained<A: ProviderAdapter>(
    adapter: &A,
    pending: Seq<u8>,
    data: Seq<char>,
) -> DrainView
    decreases pending.len(),
{
    match line_end(pending, 0) {
        None => if pending.len() > MAX_SSE_LINE_BYTES {
            DrainView {
                read: ReadView { events: Seq::empty(), result: Err(line_too_long()), data },
                pending: Seq::empty(),
            }
        } else {
            DrainView {
                read: ReadView { events: Seq::empty(), result: Ok(false), data },
                pending,
            }
        },
        Some(end) => {
            let read = line_read(adapter, pending.take(end), data);
            let rest = pending.skip(end + 1);
            if !(0 <= end < pending.len()) {
                DrainView { read, pending: rest }
            } else if read.result == Ok::<bool, ErrorView>(true) {
                DrainView { read, pending: Seq::empty() }
            } else if read.result is Err {
                DrainView { read, pending: rest }
            } else {
                let more = drained(adapter, rest, read.data);
                DrainView {
                    read: ReadView { events: read.events + more.read.events, ..more.read },
                    pending: more.pending,
                }
            }
        },
    }
}

fn end_of_line(bytes: &Vec<u8>, from: usize) -> (r: Option<usize>)
    requires
        from <= bytes@.len(),
    ensures
        (match r {
            Some(i) => line_end(bytes@.skip(from as int), 0) == Some(i - from) && from <= i
                < bytes@.len(),
            None => line_end(bytes@.skip(from as int), 0) is None,
        }),
{
    let ghost rest = bytes@.skip(from as int);
    let mut i: usize = from;
    while i < bytes.len()
        invariant
            from <= i <= bytes.len(),
            rest == bytes@.skip(from as int),
            line_end(rest, 0) == line_end(rest, i - from),
        decreases bytes.len() - i,
    {
        assert(rest[i - from] == bytes@[i as int]);
        if bytes[i] == 10 {
            return Some(i);
        }
        i = i + 1;
    }
    None
}

fn copy_bytes(bytes: &Vec<u8>, from: usize, to: usize) -> (out: Vec<u8>)
    requires
        from <= to <= bytes@.len(),
    ensures
        out@ == bytes@.subrange(from as int, to as int),
{
    let mut out: Vec<u8> = Vec::new();
    let mut i: usize = from;
    while i < to
        invariant
            from <= i <= to <= bytes@.len(),
            out@ == bytes@.subrange(from as int, i as int),
        decreases to - i,
    {
        out.push(bytes[i]);
        assert(bytes@.subrange(from as int, i + 1) =~= bytes@.subrange(from as int, i as int).push(
            bytes@[i as int],
        ));
        i = i + 1;
    }
    out
}

/// Reads a line of bytes.
fn read_line<A: ProviderAdapter>(
    adapter: &A,
    pending: &Vec<u8>,
    from: usize,
    end: usize,
    data: &mut String,
    events: &mut Vec<ProviderEvent>,
) -> (r: Result<bool, ProviderError>)
    requires
        from <= end <= pending@.len(),
    ensures
        ({
            let read = line_read(
                adapter,
                pending@.subrange(from as int, end as int),
                old(data)@,
            );
            &&& same_outcome(r, read.result)
            &&& final(data)@ == read.data
            &&& types::stream_views(final(events)@) == types::stream_views(old(events)@)
                + read.events
        }),
{
    let ghost start = types::stream_views(events@);
    assert(start =~= start + Seq::<StreamView>::empty());
    let ghost line = pending@.subrange(from as int, end as int);
    let stop: usize = if end > from && pending[end - 1] == 13 {
        end - 1
    } else {
        end
    };
    assert(pending@.subrange(from as int, stop as int) =~= bare_line(line));
    if stop - from > MAX_SSE_LINE_BYTES {
        return Err(ProviderError::invalid("provider SSE line exceeded byte limit"));
    }
    let bytes = copy_bytes(pending, from, stop);
    match text::utf8_text(bytes.as_slice()) {
        Some(s) => accumulate_sse_line(adapter, s.as_str(), data, events),
        None => Err(ProviderError::invalid("provider SSE line was not valid UTF-8")),
    }
}

/// Reads all whole lines of the bytes that have arrived, until the answer is over
/// or cannot be read.
pub fn drain_sse<A: ProviderAdapter>(
    adapter: &A,
    pending: &mut Vec<u8>,
    data: &mut String,
    events: &mut Vec<ProviderEvent>,
) -> (r: Result<bool, ProviderError>)
    ensures
        ({
            let all = drained(adapter, old(pending)@, old(data)@);
            &&& same_outcome(r, all.read.result)
            &&& final(pending)@ == all.pending
            &&& final(data)@ == all.read.data
            &&& types::stream_views(final(events)@) == types::stream_views(old(events)@)
                + all.read.events
        }),
{
    let ghost whole = drained(adapter, pending@, data@);
    let ghost start = types::stream_views(events@);
    let ghost bytes = pending@;
    let mut consumed: usize = 0;
    let ghost mut so_far: Seq<StreamView> = Seq::empty();
    assert(bytes.skip(0) =~= bytes);
    assert(start =~= start + so_far);
    assert(whole.read.events =~= so_far + whole.read.events);
    loop
        invariant
            bytes == pending@,
            consumed <= pending@.len(),
            types::stream_views(events@) == start + so_far,
            ({
                let rest = drained(adapter, bytes.skip(consumed as int), data@);
                &&& whole.read.result == rest.read.result
                &&& whole.read.data == rest.read.data
                &&& whole.pending == rest.pending
                &&& whole.read.events == so_far + rest.read.events
            }),
            whole == drained(adapter, old(pending)@, old(data)@),
            start == types::stream_views(old(events)@),
        ensures
            bytes == pending@,
            consumed <= pending@.len(),
            types::stream_views(events@) == start + so_far,
            line_end(bytes.skip(consumed as int), 0) is None,
            ({
                let rest = drained(adapter, bytes.skip(consumed as int), data@);
                &&& whole.read.result == rest.read.result
                &&& whole.read.data == rest.read.data
                &&& whole.pending == rest.pending
                &&& whole.read.events == so_far + rest.read.events
            }),
        decreases pending@.len() - consumed,
    {
        let ghost rest = bytes.skip(consumed as int);
        let end: usize = match end_of_line(pending, consumed) {
            Some(end) => end,
            None => {
                break;
            },
        };
        assert(end < pending.len());
        let ghost line = rest.take(end - consumed);
        assert(line =~= bytes.subrange(consumed as int, end as int));
        let ghost read = line_read(adapter, line, data@);
        let ghost before = data@;
        let outcome = read_line(adapter, pending, consumed, end, data, events);
        let ghost after = bytes.skip(end + 1);
        assert(rest.skip(end - consumed + 1) =~= after);
        assert(start + so_far + read.events =~= start + (so_far + read.events));
        match outcome {
            Ok(true) => {
                pending.clear();
                assert(pending@ =~= Seq::empty());
                return Ok(true);
            },
            Ok(false) => {
                proof {
                    let more = drained(adapter, after, data@);
                    assert(so_far + (read.events + more.read.events) =~= (so_far + read.events)
                        + more.read.events);
                    so_far = so_far + read.events;
                }
                consumed = end + 1;
            },
            Err(error) => {
                let left = copy_bytes(pending, end + 1, pending.len());
                assert(left@ =~= after);
                *pending = left;
                return Err(error);
            },
        }
    }
    let left = copy_bytes(pending, consumed, pending.len());
    assert(left@ =~= bytes.skip(consumed as int));
    assert(so_far + Seq::<StreamView>::empty() =~= so_far);
    *pending = left;
    if pending.len() > MAX_SSE_LINE_BYTES {
        pending.clear();
        assert(pending@ =~= Seq::empty());
        return Err(ProviderError::invalid("provider SSE line exceeded byte limit"));
    }
    Ok(false)
}

/// A result whose error holds no secret.
pub open spec fn redacted_outcome(r: Result<bool, ErrorView>, values: Seq<Seq<char>>) -> Result<
    bool,
    ErrorView,
> {
    match r {
        Ok(done) => Ok(done),
        Err(error) => Err(failures::redacted_error(error, values)),
    }
}

/// What the last bytes of an answer come to: an unfinished line, and the data of
/// the event that is open. The secrets are taken out of an error that this data
/// gives.
pub open spec fn tail_read<A: ProviderAdapter>(
    adapter: &A,
    pending: Seq<u8>,
    data: Seq<char>,
    values: Seq<Seq<char>>,
) -> ReadView {
    if !valid_utf8(pending) {
        ReadView { events: Seq::empty(), result: Err(not_utf8()), data }
    } else {
        let read = accumulated(adapter, text::without_returns(decode_utf8(pending)), data);
        if read.result == Ok::<bool, ErrorView>(false) {
            let last = dispatched(adapter, read.data);
            ReadView {
                events: read.events + last.events,
                result: redacted_outcome(last.result, values),
                ..last
            }
        } else {
            read
        }
    }
}

/// Reads the last bytes of an answer.
pub fn finish_sse<A: ProviderAdapter>(
    adapter: &A,
    pending: &Vec<u8>,
    data: &mut String,
    events: &mut Vec<ProviderEvent>,
    sensitive_values: &Vec<String>,
) -> (r: Result<bool, ProviderError>)
    ensures
        ({
            let read = tail_read(
                adapter,
                pending@,
                old(data)@,
                text::texts(sensitive_values@),
            );
            &&& same_outcome(r, read.result)
            &&& final(data)@ == read.data
            &&& types::stream_views(final(events)@) == types::stream_views(old(events)@)
                + read.events
        }),
{
    let ghost start = types::stream_views(events@);
    assert(start =~= start + Seq::<StreamView>::empty());
    let tail = match text::utf8_text(pending.as_slice()) {
        Some(s) => text::drop_returns(s.as_str()),
        None => return Err(ProviderError::invalid("provider SSE line was not valid UTF-8")),
    };
    let ghost read = accumulated(adapter, tail@, data@);
    match accumulate_sse_line(adapter, tail.as_str(), data, events) {
        Ok(true) => Ok(true),
        Ok(false) => {
            let ghost last = dispatched(adapter, data@);
            let r = dispatch_sse_data(adapter, data, events);
            assert(start + read.events + last.events =~= start + (read.events + last.events));
            match r {
                Ok(done) => Ok(done),
                Err(error) => Err(
                    failures::redact_provider_error_values(error, sensitive_values),
                ),
            }
        },
        Err(error) => Err(error),
    }
}

/// The chunks in which an answer arrives do not matter: reading what has arrived
/// and then what follows is reading both at once, as long as the answer is not
/// over.
pub proof fn law_chunks_do_not_matter<A: ProviderAdapter>(
    adapter: &A,
    pending: Seq<u8>,
    more: Seq<u8>,
    data: Seq<char>,
)
    requires
        drained(adapter, pending, data).read.result == Ok::<bool, ErrorView>(false),
    ensures
        ({
            let first = drained(adapter, pending, data);
            let second = drained(adapter, first.pending + more, first.read.data);
            let both = drained(adapter, pending + more, data);
            &&& both.read.events == first.read.events + second.read.events
            &&& both.read.result == second.read.result
            &&& both.read.data == second.read.data
            &&& both.pending == second.pending
        }),
    decreases pending.len(),
{
    let first = drained(adapter, pending, data);
    let all = pending + more;
    lemma_line_end(pending, 0);
    lemma_line_end(all, 0);
    match line_end(pending, 0) {
        None => {
            let second = drained(adapter, first.pending + more, first.read.data);
            assert(first.read.events + second.read.events =~= second.read.events);
        },
        Some(end) => {
            let other = line_end(all, 0);
            assert(all[end] == pending[end]);
            assert(other is Some);
            assert(other->0 == end) by {
                let k = other->0;
                if k < end {
                    assert(all[k] == pending[k]);
                }
            }
            assert(all.take(end) =~= pending.take(end));
            let read = line_read(adapter, pending.take(end), data);
            let rest = pending.skip(end + 1);
            assert(all.skip(end + 1) =~= rest + more);
            law_chunks_do_not_matter(adapter, rest, more, read.data);
            let inner = drained(adapter, rest, read.data);
            let second = drained(adapter, inner.pending + more, inner.read.data);
            assert(read.events + (inner.read.events + second.read.events) =~= (read.events
                + inner.read.events) + second.read.events);
        },
    }
}

proof fn lemma_accumulated_is_bounded<A: ProviderAdapter>(
    adapter: &A,
    line: Seq<char>,
    data: Seq<char>,
)
    requires
        text::byte_len(data) <= MAX_SSE_LINE_BYTES,
    ensures
        text::byte_len(accumulated(adapter, line, data).data) <= MAX_SSE_LINE_BYTES,
{
    text::lemma_byte_len_empty();
    if let Some(value) = line_data(line) {
        reveal_strlit("\n");
        text::lemma_byte_len_add(data, value);
        assert("\n"@ =~= seq!['\n']);
        text::lemma_byte_len_one('\n');
        text::lemma_byte_len_add(data + value, "\n"@);
    }
}

/// However an answer arrives, no more of it is held than one line and the data of
/// one event, each within its bound.
pub proof fn law_what_is_held_is_bounded<A: ProviderAdapter>(
    adapter: &A,
    pending: Seq<u8>,
    data: Seq<char>,
)
    requires
        text::byte_len(data) <= MAX_SSE_LINE_BYTES,
    ensures
        ({
            let r = drained(adapter, pending, data);
            &&& text::byte_len(r.read.data) <= MAX_SSE_LINE_BYTES
            &&& r.read.result is Ok ==> r.pending.len() <= MAX_SSE_LINE_BYTES
        }),
    decreases pending.len(),
{
    lemma_line_end(pending, 0);
    if let Some(end) = line_end(pending, 0) {
        let line = pending.take(end);
        let read = line_read(adapter, line, data);
        lemma_accumulated_is_bounded(adapter, decode_utf8(bare_line(line)), data);
        if read.result == Ok::<bool, ErrorView>(false) {
            law_what_is_held_is_bounded(adapter, pending.skip(end + 1), read.data);
        }
    }
}

} // verus!
