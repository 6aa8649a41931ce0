//! Cutting streams of bytes into messages: newline-delimited JSON on standard
//! output, and server-sent events over HTTP.
use vstd::prelude::*;
use vstd::string::*;

use crate::json;
use crate::json::{Json, Tree};
use crate::mcp::rpc;
use crate::mcp::rpc::{Inbound, InboundView};
use crate::mcp::spec::{McpError, McpErrorView};
use crate::process::capture;
use crate::text;

verus! {

/// Most characters of a line that is no message.
pub const NOISE_CHARS: usize = 160;

/// Bytes of standard error that are kept.
pub const STDERR_TAIL_BYTES: usize = 16_384;

/// The first line feed from `from` on.
pub open spec fn newline_at(bytes: Seq<u8>, from: int) -> Option<int>
    decreases bytes.len() - from,
{
    if from < 0 || from >= bytes.len() {
        None
    } else if bytes[from] == 10 {
        Some(from)
    } else {
        newline_at(bytes, from + 1)
    }
}

/// The complete lines of a stream, without their line feeds.
pub open spec fn lines_in(bytes: Seq<u8>) -> Seq<Seq<u8>>
    decreases bytes.len(),
{
    match newline_at(bytes, 0) {
        Some(i) => if 0 <= i < bytes.len() {
            seq![bytes.take(i)] + lines_in(bytes.skip(i + 1))
        } else {
            Seq::empty()
        },
        None => Seq::empty(),
    }
}

/// What follows the last line feed.
pub open spec fn rest_of(bytes: Seq<u8>) -> Seq<u8>
    decreases bytes.len(),
{
    match newline_at(bytes, 0) {
        Some(i) => if 0 <= i < bytes.len() {
            rest_of(bytes.skip(i + 1))
        } else {
            bytes
        },
        None => bytes,
    }
}

proof fn lemma_newline(bytes: Seq<u8>, from: int)
    requires
        0 <= from,
    ensures
        match newline_at(bytes, from) {
            Some(i) => from <= i < bytes.len() && bytes[i] == 10 && forall|k: int|
                from <= k < i ==> bytes[k] != 10,
            None => forall|k: int| from <= k < bytes.len() ==> bytes[k] != 10,
        },
    decreases bytes.len() - from,
{
    if from < bytes.len() && bytes[from] != 10 {
        lemma_newline(bytes, from + 1);
    }
}

proof fn lemma_newline_is(bytes: Seq<u8>, from: int, i: int)
    requires
        0 <= from <= i < bytes.len(),
        bytes[i] == 10,
        forall|k: int| from <= k < i ==> bytes[k] != 10,
    ensures
        newline_at(bytes, from) == Some(i),
{
    lemma_newline(bytes, from);
}

/// How a stream is cut into lines does not depend on how it arrives: the lines
/// of two chunks are those of the first, then those of what it left open
/// together with the second.
pub proof fn law_chunks_do_not_matter(a: Seq<u8>, b: Seq<u8>)
    ensures
        lines_in(a + b) == lines_in(a) + lines_in(rest_of(a) + b),
        rest_of(a + b) == rest_of(rest_of(a) + b),
    decreases a.len(),
{
    lemma_newline(a, 0);
    match newline_at(a, 0) {
        Some(i) => {
            assert forall|k: int| 0 <= k < i implies (a + b)[k] != 10 by {
                assert((a + b)[k] == a[k]);
            }
            lemma_newline_is(a + b, 0, i);
            law_chunks_do_not_matter(a.skip(i + 1), b);
            assert((a + b).skip(i + 1) =~= a.skip(i + 1) + b);
            assert((a + b).take(i) =~= a.take(i));
            assert(lines_in(a + b) =~= lines_in(a) + lines_in(rest_of(a) + b));
        },
        None => {
            assert(lines_in(a) =~= Seq::empty());
            assert(lines_in(a + b) =~= lines_in(a) + lines_in(rest_of(a) + b));
        },
    }
}

/// A line that a server wrote: a message, or something else, as real servers
/// sometimes put log lines among their messages.
#[derive(Debug)]
pub enum FramedLine {
    Message(Json),
    Noise(String),
}

#[verifier::ext_equal]
pub enum LineView {
    Message(Tree),
    Noise(Seq<char>),
}

impl View for FramedLine {
    type V = LineView;

    open spec fn view(&self) -> LineView {
        match *self {
            FramedLine::Message(json) => LineView::Message(json@),
            FramedLine::Noise(words) => LineView::Noise(words@),
        }
    }
}

pub open spec fn line_views(lines: Seq<FramedLine>) -> Seq<LineView> {
    lines.map_values(|l: FramedLine| l@)
}

/// A line that is no message, cut to its bound.
pub open spec fn noise_of(line: Seq<u8>) -> Seq<char> {
    let words = text::lossy(line);
    if words.len() > NOISE_CHARS {
        words.take(NOISE_CHARS as int) + "…"@
    } else {
        words
    }
}

/// A line by what it holds.
pub open spec fn framed_line(line: Seq<u8>) -> LineView {
    match json::parsed_bytes(line) {
        Ok(tree) => LineView::Message(tree),
        Err(_) => LineView::Noise(noise_of(line)),
    }
}

/// All lines that hold something.
pub open spec fn framed(lines: Seq<Seq<u8>>) -> Seq<LineView>
    decreases lines.len(),
{
    if lines.len() == 0 {
        Seq::empty()
    } else if lines.last().len() == 0 {
        framed(lines.drop_last())
    } else {
        framed(lines.drop_last()).push(framed_line(lines.last()))
    }
}

/// The bytes at positions `from..to`.
fn slice_of(bytes: &Vec<u8>, from: usize, to: usize) -> (out: Vec<u8>)
    requires
        from <= to <= bytes@.len(),
    ensures
        out@ == bytes@.subrange(from as int, to as int),
{
    let mut out: Vec<u8> = Vec::new();
    let mut i: usize = from;
    assert(out@ =~= bytes@.subrange(from as int, from as int));
    while i < to
        invariant
            from <= i <= to <= bytes@.len(),
            out@ == bytes@.subrange(from as int, i as int),
        decreases to - i,
    {
        out.push(bytes[i]);
        assert(bytes@.subrange(from as int, i + 1) =~= bytes@.subrange(
            from as int,
            i as int,
        ).push(bytes@[i as int]));
        i = i + 1;
    }
    out
}

fn find_newline(bytes: &Vec<u8>, from: usize) -> (r: Option<usize>)
    requires
        from <= bytes@.len(),
    ensures
        match r {
            Some(i) => from <= i < bytes@.len() && newline_at(
                bytes@.skip(from as int),
                0,
            ) == Some(i - from),
            None => newline_at(bytes@.skip(from as int), 0) is None,
        },
{
    let ghost rest = bytes@.skip(from as int);
    let mut i: usize = from;
    while i < bytes.len()
        invariant
            from <= i <= bytes.len(),
            rest == bytes@.skip(from as int),
            forall|k: int| 0 <= k < i - from ==> rest[k] != 10,
        decreases bytes.len() - i,
    {
        assert(rest[i - from] == bytes@[i as int]);
        if bytes[i] == 10 {
            proof {
                lemma_newline_is(rest, 0, i - from);
            }
            return Some(i);
        }
        i = i + 1;
    }
    proof {
        lemma_newline(rest, 0);
    }
    None
}

fn noise(line: &Vec<u8>) -> (r: String)
    ensures
        r@ == noise_of(line@),
{
    let words = text::lossy_text(line.as_slice());
    let chars = text::chars_of(words.as_str());
    if chars.len() > NOISE_CHARS {
        let mut out = text::string_of(&chars, 0, NOISE_CHARS);
        assert(out@ =~= words@.take(NOISE_CHARS as int));
        out.append("…");
        out
    } else {
        words
    }
}

fn frame(line: &Vec<u8>) -> (r: FramedLine)
    ensures
        r@ == framed_line(line@),
{
    match json::parse_bytes(line.as_slice()) {
        Ok(message) => FramedLine::Message(message),
        Err(_) => FramedLine::Noise(noise(line)),
    }
}

/// Cuts standard output into lines. Its view is the line that is still open.
pub struct JsonLineFramer {
    buffer: Vec<u8>,
}

impl View for JsonLineFramer {
    type V = Seq<u8>;

    closed spec fn view(&self) -> Seq<u8> {
        self.buffer@
    }
}

impl Default for JsonLineFramer {
    fn default() -> (r: JsonLineFramer)
        ensures
            r@ == Seq::<u8>::empty(),
    {
        JsonLineFramer { buffer: Vec::new() }
    }
}

fn extend(buffer: &mut Vec<u8>, chunk: &[u8])
    ensures
        final(buffer)@ == old(buffer)@ + chunk@,
{
    let ghost before = buffer@;
    let mut i: usize = 0;
    assert(buffer@ =~= before + chunk@.take(0));
    while i < chunk.len()
        invariant
            i <= chunk@.len(),
            buffer@ == before + chunk@.take(i as int),
        decreases chunk@.len() - i,
    {
        buffer.push(chunk[i]);
        assert(chunk@.take(i + 1) =~= chunk@.take(i as int).push(chunk@[i as int]));
        assert(buffer@ =~= before + chunk@.take(i + 1));
        i = i + 1;
    }
    assert(chunk@.take(chunk@.len() as int) =~= chunk@);
}

impl JsonLineFramer {
    /// Takes a chunk in; gives the lines that it completes.
    pub fn push(&mut self, chunk: &[u8]) -> (r: Vec<FramedLine>)
        ensures
            line_views(r@) == framed(lines_in(old(self)@ + chunk@)),
            final(self)@ == rest_of(old(self)@ + chunk@),
    {
        extend(&mut self.buffer, chunk);
        let ghost whole = self.buffer@;
        let mut lines: Vec<FramedLine> = Vec::new();
        let ghost mut seen: Seq<Seq<u8>> = Seq::empty();
        let mut from: usize = 0;
        assert(whole.skip(0) =~= whole);
        assert(lines_in(whole) =~= seen + lines_in(whole.skip(0)));
        assert(line_views(lines@) =~= framed(seen));
        loop
            invariant
                whole == self.buffer@,
                from <= whole.len(),
                lines_in(whole) == seen + lines_in(whole.skip(from as int)),
                rest_of(whole) == rest_of(whole.skip(from as int)),
                line_views(lines@) == framed(seen),
            ensures
                from <= whole.len(),
                lines_in(whole) == seen,
                rest_of(whole) == whole.skip(from as int),
            decreases whole.len() - from,
        {
            match find_newline(&self.buffer, from) {
                None => {
                    assert(seen + lines_in(whole.skip(from as int)) =~= seen);
                    break;
                },
                Some(end) => {
                    let line = slice_of(&self.buffer, from, end);
                    assert(end < self.buffer.len());
                    let ghost rest = whole.skip(from as int);
                    let ghost before = seen;
                    proof {
                        assert(rest.take(end - from) =~= line@);
                        assert(rest.skip(end - from + 1) =~= whole.skip(end + 1));
                        seen = seen.push(line@);
                        assert(seen.drop_last() =~= before);
                        assert(before + (seq![line@] + lines_in(whole.skip(end + 1))) =~= seen
                            + lines_in(whole.skip(end + 1)));
                    }
                    if line.len() > 0 {
                        let framed_one = frame(&line);
                        let ghost done = lines@;
                        lines.push(framed_one);
                        assert(line_views(lines@) =~= line_views(done).push(framed_one@));
                    }
                    from = end + 1;
                },
            }
        }
        let rest = slice_of(&self.buffer, from, self.buffer.len());
        assert(rest@ =~= whole.skip(from as int));
        self.buffer = rest;
        lines
    }

    /// Bytes of the line that is still open.
    pub fn pending_bytes(&self) -> (r: usize)
        ensures
            r == self@.len(),
    {
        self.buffer.len()
    }

    /// Whether a chunk of so many bytes keeps the open line within the bound on
    /// one message.
    pub fn has_room_for(&self, bytes: usize) -> (r: bool)
        ensures
            r == (self@.len() + bytes <= rpc::MAX_MESSAGE_BYTES),
    {
        let pending: usize = self.buffer.len();
        pending <= rpc::MAX_MESSAGE_BYTES && bytes <= rpc::MAX_MESSAGE_BYTES - pending
    }
}

/// The last bytes that a child process wrote on standard error.
pub struct StderrTail {
    bytes: Vec<u8>,
}

impl View for StderrTail {
    type V = Seq<u8>;

    closed spec fn view(&self) -> Seq<u8> {
        self.bytes@
    }
}

impl StderrTail {
    pub fn new() -> (r: StderrTail)
        ensures
            r@ == Seq::<u8>::empty(),
    {
        StderrTail { bytes: Vec::new() }
    }

    pub fn push(&mut self, chunk: &[u8])
        ensures
            final(self)@ == capture::last_bytes(old(self)@ + chunk@, STDERR_TAIL_BYTES as int),
    {
        let kept = capture::last_of(&self.bytes, chunk, 0, STDERR_TAIL_BYTES);
        assert(chunk@.skip(0) =~= chunk@);
        self.bytes = kept;
    }

    /// Why the connection is closed, from these words and the last noise.
    pub fn closed_error(&self, noise: &str) -> (r: McpError)
        ensures
            r@ == rpc::closed_fault(self@, noise@),
    {
        rpc::closed_error(self.bytes.as_slice(), noise)
    }
}

/// What a stream of server-sent events asks for next.
#[derive(Debug)]
pub enum SseStep {
    /// Nothing more in what has arrived.
    NeedMore,
    /// The response that was waited for; the stream is done.
    Response(Result<Json, McpError>),
    /// A request of the server, to be rejected under this id.
    Reject(Json),
    /// The server's tools changed.
    ToolsChanged,
    /// The stream cannot be read on.
    Fail(McpError),
}

#[verifier::ext_equal]
pub enum StepView {
    NeedMore,
    Response(Result<Tree, McpErrorView>),
    Reject(Tree),
    ToolsChanged,
    Fail(McpErrorView),
}

impl View for SseStep {
    type V = StepView;

    open spec fn view(&self) -> StepView {
        match *self {
            SseStep::NeedMore => StepView::NeedMore,
            SseStep::Response(result) => StepView::Response(rpc::result_view(result)),
            SseStep::Reject(id) => StepView::Reject(id@),
            SseStep::ToolsChanged => StepView::ToolsChanged,
            SseStep::Fail(error) => StepView::Fail(error@),
        }
    }
}

/// The bytes that have arrived and the data of the event that is open.
#[verifier::ext_equal]
pub struct SseView {
    pub buffer: Seq<u8>,
    pub payload: Seq<char>,
}

/// The error of an event beyond the bound.
pub open spec fn too_long() -> McpErrorView {
    McpErrorView::Protocol("sse message exceeds 16 MiB"@)
}

/// What an event's data asks for; nothing where it is not for us.
pub open spec fn event_step(payload: Seq<char>, expected_id: u64) -> Option<StepView> {
    match json::parsed(text::trim_end(payload)) {
        Err(error) => Some(
            StepView::Fail(McpErrorView::Protocol("invalid SSE message: "@ + error)),
        ),
        Ok(message) => match rpc::classified(message, expected_id) {
            InboundView::Response(result) => Some(StepView::Response(result)),
            InboundView::ServerRequest(id) => Some(StepView::Reject(id)),
            InboundView::ToolsChanged => Some(StepView::ToolsChanged),
            InboundView::Other => None,
        },
    }
}

/// The next step of a stream, and the stream after it.
pub open spec fn next_step(stream: SseView, expected_id: u64) -> (StepView, SseView)
    decreases stream.buffer.len(),
{
    match newline_at(stream.buffer, 0) {
        None => (StepView::NeedMore, stream),
        Some(end) => if !(0 <= end < stream.buffer.len()) {
            (StepView::NeedMore, stream)
        } else {
            let line = text::without_returns(text::lossy(stream.buffer.take(end)));
            let buffer = stream.buffer.skip(end + 1);
            if line.len() == 0 {
                if stream.payload.len() == 0 {
                    next_step(SseView { buffer, payload: stream.payload }, expected_id)
                } else {
                    let after = SseView { buffer, payload: Seq::empty() };
                    match event_step(stream.payload, expected_id) {
                        Some(step) => (step, after),
                        None => next_step(after, expected_id),
                    }
                }
            } else {
                match text::strip_prefix(line, "data:"@) {
                    None => next_step(SseView { buffer, payload: stream.payload }, expected_id),
                    Some(data) => {
                        let payload = stream.payload + text::trim_start(data) + "\n"@;
                        let after = SseView { buffer, payload };
                        if text::byte_len(payload) > rpc::MAX_MESSAGE_BYTES {
                            (StepView::Fail(too_long()), after)
                        } else {
                            next_step(after, expected_id)
                        }
                    },
                }
            }
        },
    }
}

/// A stream of server-sent events that is being read.
pub struct SseStream {
    buffer: Vec<u8>,
    payload: String,
}

impl View for SseStream {
    type V = SseView;

    closed spec fn view(&self) -> SseView {
        SseView { buffer: self.buffer@, payload: self.payload@ }
    }
}

fn message_step(payload: &str, expected_id: u64) -> (r: Option<SseStep>)
    ensures
        match r {
            Some(step) => event_step(payload@, expected_id) == Some(step@),
            None => event_step(payload@, expected_id) is None,
        },
{
    let body = text::end_trimmed(payload);
    match json::parse(body.as_str()) {
        Err(error) => {
            let mut message = "invalid SSE message: ".to_owned();
            message.append(error.as_str());
            Some(SseStep::Fail(McpError::Protocol(message)))
        },
        Ok(message) => match rpc::classify_inbound(&message, expected_id) {
            Inbound::Response(result) => Some(SseStep::Response(result)),
            Inbound::ServerRequest(id) => Some(SseStep::Reject(id)),
            Inbound::ToolsChanged => Some(SseStep::ToolsChanged),
            Inbound::Other => None,
        },
    }
}

impl SseStream {
    pub fn new() -> (r: SseStream)
        ensures
            r@ == (SseView { buffer: Seq::empty(), payload: Seq::empty() }),
    {
        SseStream { buffer: Vec::new(), payload: String::new() }
    }

    /// Takes a chunk in; refuses what goes beyond the bound on one message.
    pub fn push(&mut self, chunk: &[u8]) -> (r: Result<(), McpError>)
        ensures
            final(self)@ == (SseView {
                buffer: old(self)@.buffer + chunk@,
                payload: old(self)@.payload,
            }),
            match r {
                Ok(_) => final(self)@.buffer.len() <= rpc::MAX_MESSAGE_BYTES,
                Err(error) => final(self)@.buffer.len() > rpc::MAX_MESSAGE_BYTES && error@
                    == too_long(),
            },
    {
        extend(&mut self.buffer, chunk);
        if self.buffer.len() > rpc::MAX_MESSAGE_BYTES {
            Err(McpError::protocol("sse message exceeds 16 MiB"))
        } else {
            Ok(())
        }
    }

    /// The rest of the buffer from a position on, with an event's data.
    fn cut(&mut self, from: usize, payload: String)
        requires
            from <= old(self)@.buffer.len(),
        ensures
            final(self)@ == (SseView {
                buffer: old(self)@.buffer.skip(from as int),
                payload: payload@,
            }),
    {
        let rest = slice_of(&self.buffer, from, self.buffer.len());
        assert(rest@ =~= self.buffer@.skip(from as int));
        self.buffer = rest;
        self.payload = payload;
    }

    /// The next step, for one who waits for the response with an id.
    pub fn next(&mut self, expected_id: u64) -> (r: SseStep)
        ensures
            (r@, final(self)@) == next_step(old(self)@, expected_id),
    {
        let ghost start = self@;
        let mut payload = self.payload.clone();
        let mut from: usize = 0;
        assert(self.buffer@.skip(0) =~= self.buffer@);
        loop
            invariant
                from <= self.buffer.len(),
                *self == *old(self),
                start == old(self)@,
                self.buffer@ == start.buffer,
                next_step(start, expected_id) == next_step(
                    SseView { buffer: start.buffer.skip(from as int), payload: payload@ },
                    expected_id,
                ),
            decreases self.buffer.len() - from,
        {
            let ghost rest = start.buffer.skip(from as int);
            match find_newline(&self.buffer, from) {
                None => {
                    self.cut(from, payload);
                    return SseStep::NeedMore;
                },
                Some(end) => {
                    let raw = slice_of(&self.buffer, from, end);
                    assert(raw@ =~= rest.take(end - from));
                    assert(rest.skip(end - from + 1) =~= start.buffer.skip(end + 1));
                    let shown = text::lossy_text(raw.as_slice());
                    let line = text::drop_returns(shown.as_str());
                    from = end + 1;
                    if line.as_str().is_empty() {
                        if payload.as_str().is_empty() {
                            assert(payload@ =~= Seq::<char>::empty());
                            continue;
                        }
                        let step = message_step(payload.as_str(), expected_id);
                        payload = String::new();
                        assert(payload@ =~= Seq::<char>::empty());
                        match step {
                            Some(step) => {
                                self.cut(from, payload);
                                return step;
                            },
                            None => {},
                        }
                    } else {
                        match text::without_prefix(line.as_str(), "data:") {
                            None => {},
                            Some(data) => {
                                let trimmed = text::start_trimmed(data.as_str());
                                payload.append(trimmed.as_str());
                                payload.append("\n");
                                if text::byte_count(payload.as_str()) > rpc::MAX_MESSAGE_BYTES {
                                    self.cut(from, payload);
                                    return SseStep::Fail(
                                        McpError::protocol("sse message exceeds 16 MiB"),
                                    );
                                }
                            },
                        }
                    }
                },
            }
        }
    }
}

/// Data that one event carries never outgrows the bound: a stream that goes on
/// holds no more of an open event.
pub proof fn law_open_event_is_bounded(stream: SseView, expected_id: u64)
    requires
        text::byte_len(stream.payload) <= rpc::MAX_MESSAGE_BYTES,
    ensures
        next_step(stream, expected_id).0 == StepView::Fail(too_long()) || text::byte_len(
            next_step(stream, expected_id).1.payload,
        ) <= rpc::MAX_MESSAGE_BYTES,
    decreases stream.buffer.len(),
{
    text::lemma_byte_len_empty();
    match newline_at(stream.buffer, 0) {
        None => {},
        Some(end) => if 0 <= end < stream.buffer.len() {
            let line = text::without_returns(text::lossy(stream.buffer.take(end)));
            let buffer = stream.buffer.skip(end + 1);
            let empty = Seq::<char>::empty();
            if line.len() == 0 {
                if stream.payload.len() == 0 {
                    law_open_event_is_bounded(
                        SseView { buffer, payload: stream.payload },
                        expected_id,
                    );
                } else {
                    law_open_event_is_bounded(SseView { buffer, payload: empty }, expected_id);
                }
            } else {
                match text::strip_prefix(line, "data:"@) {
                    None => {
                        law_open_event_is_bounded(
                            SseView { buffer, payload: stream.payload },
                            expected_id,
                        );
                    },
                    Some(data) => {
                        let payload = stream.payload + text::trim_start(data) + "\n"@;
                        if text::byte_len(payload) <= rpc::MAX_MESSAGE_BYTES {
                            law_open_event_is_bounded(SseView { buffer, payload }, expected_id);
                        }
                    },
                }
            }
        },
    }
}

/// The body of a response that is one JSON document.
pub struct JsonBody {
    bytes: Vec<u8>,
}

impl View for JsonBody {
    type V = Seq<u8>;

    closed spec fn view(&self) -> Seq<u8> {
        self.bytes@
    }
}

/// What a whole body says to one who waits for the response with an id.
pub open spec fn body_result(body: Seq<u8>, expected_id: u64) -> Result<Tree, McpErrorView> {
    match json::parsed_bytes(body) {
        Err(error) => Err(McpErrorView::Protocol("invalid JSON response: "@ + error)),
        Ok(message) => if message.unsigned_at("id"@) != Some(expected_id) {
            Err(McpErrorView::Protocol("response id mismatch"@))
        } else {
            rpc::result_of(message)
        },
    }
}

/// What a document says to one who waits for the response with an id.
pub fn accept_response(message: &Json, expected_id: u64) -> (r: Result<Json, McpError>)
    ensures
        rpc::result_view(r) == if message@.unsigned_at("id"@) != Some(expected_id) {
            Err(McpErrorView::Protocol("response id mismatch"@))
        } else {
            rpc::result_of(message@)
        },
{
    let answers = match message.u64_at("id") {
        Some(id) => id == expected_id,
        None => false,
    };
    if !answers {
        return Err(McpError::protocol("response id mismatch"));
    }
    rpc::extract_result(message)
}

impl JsonBody {
    /// A body of which nothing has arrived, refused where it announces more
    /// than the bound on one message.
    pub fn start(declared: Option<u64>) -> (r: Result<JsonBody, McpError>)
        ensures
            match r {
                Ok(body) => !(declared is Some && declared->0 > rpc::MAX_MESSAGE_BYTES) && body@
                    == Seq::<u8>::empty(),
                Err(error) => declared is Some && declared->0 > rpc::MAX_MESSAGE_BYTES && error@
                    == McpErrorView::Protocol("response exceeds 16 MiB"@),
            },
    {
        match declared {
            Some(length) => {
                if length > rpc::MAX_MESSAGE_BYTES as u64 {
                    return Err(McpError::protocol("response exceeds 16 MiB"));
                }
            },
            None => {},
        }
        Ok(JsonBody { bytes: Vec::new() })
    }

    /// Takes a chunk in, within the bound.
    pub fn push(&mut self, chunk: &[u8]) -> (r: Result<(), McpError>)
        ensures
            match r {
                Ok(_) => old(self)@.len() + chunk@.len() <= rpc::MAX_MESSAGE_BYTES
                    && final(self)@ == old(self)@ + chunk@,
                Err(error) => old(self)@.len() + chunk@.len() > rpc::MAX_MESSAGE_BYTES
                    && final(self)@ == old(self)@ && error@ == McpErrorView::Protocol(
                    "response exceeds 16 MiB"@,
                ),
            },
    {
        let held: usize = self.bytes.len();
        if held > rpc::MAX_MESSAGE_BYTES || chunk.len() > rpc::MAX_MESSAGE_BYTES - held {
            return Err(McpError::protocol("response exceeds 16 MiB"));
        }
        extend(&mut self.bytes, chunk);
        Ok(())
    }

    /// What the whole body says.
    pub fn finish(self, expected_id: u64) -> (r: Result<Json, McpError>)
        ensures
            rpc::result_view(r) == body_result(self@, expected_id),
    {
        match json::parse_bytes(self.bytes.as_slice()) {
            Err(error) => {
                let mut message = "invalid JSON response: ".to_owned();
                message.append(error.as_str());
                Err(McpError::Protocol(message))
            },
            Ok(message) => accept_response(&message, expected_id),
        }
    }
}

} // verus!
