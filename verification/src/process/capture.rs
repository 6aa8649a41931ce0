//! What is kept of a process's output: the first and the last bytes of each
//! stream within its budget, and the last line seen for progress reports.
use vstd::prelude::*;
use vstd::string::*;

use crate::text;

verus! {

/// Most characters of a line that a progress report shows.
pub const LAST_LINE_LIMIT: usize = 160;

/// Share of a budget that goes to the beginning of a stream.
pub open spec fn head_budget(budget: int) -> int {
    budget / 2 + budget % 2
}

/// The last `n` bytes.
pub open spec fn last_bytes(bytes: Seq<u8>, n: int) -> Seq<u8> {
    if bytes.len() <= n {
        bytes
    } else {
        bytes.skip(bytes.len() - n)
    }
}

/// The part of a stream's beginning that is kept.
pub open spec fn kept_head(stream: Seq<u8>, budget: int) -> Seq<u8> {
    if stream.len() <= head_budget(budget) {
        stream
    } else {
        stream.take(head_budget(budget))
    }
}

/// The part of a stream's end that is kept.
pub open spec fn kept_tail(stream: Seq<u8>, budget: int) -> Seq<u8> {
    last_bytes(
        stream.skip(kept_head(stream, budget).len() as int),
        budget - head_budget(budget),
    )
}

/// Everything that is kept of a stream.
pub open spec fn kept(stream: Seq<u8>, budget: int) -> Seq<u8> {
    kept_head(stream, budget) + kept_tail(stream, budget)
}

/// A length as far as a machine word counts it.
pub open spec fn word(n: int) -> int {
    if n > usize::MAX {
        usize::MAX as int
    } else {
        n
    }
}

/// Number of bytes of a stream that are not kept.
pub open spec fn lost(stream: Seq<u8>, budget: int) -> int {
    word(stream.len() as int) - kept(stream, budget).len()
}

/// What was captured of one stream.
#[derive(Debug)]
pub struct PipeCapture {
    pub bytes: Vec<u8>,
    pub discarded_bytes: usize,
}

/// Which of the two streams of a process is meant.
#[derive(Clone, Copy, Debug, PartialEq, Eq, Structural)]
pub enum PipeKind {
    Stdout,
    Stderr,
}

/// The bounded memory of one stream while it is being read. Its view is the
/// stream read so far.
pub struct PipeBuffer {
    head: Vec<u8>,
    tail: Vec<u8>,
    budget: usize,
    total: usize,
    stream: Ghost<Seq<u8>>,
}

proof fn lemma_last_of_last(a: Seq<u8>, b: Seq<u8>, n: int)
    requires
        n >= 0,
    ensures
        last_bytes(last_bytes(a, n) + b, n) == last_bytes(a + b, n),
{
    if a.len() > n {
        let cut = a.skip(a.len() - n);
        assert(last_bytes(cut + b, n) =~= last_bytes(a + b, n));
    }
}

/// How the kept ends of a stream move when a chunk is read.
proof fn lemma_kept_grows(stream: Seq<u8>, chunk: Seq<u8>, budget: int, taken: int)
    requires
        budget >= 0,
        taken == if chunk.len() <= head_budget(budget) - kept_head(stream, budget).len() {
            chunk.len() as int
        } else {
            head_budget(budget) - kept_head(stream, budget).len()
        },
    ensures
        kept_head(stream + chunk, budget) == kept_head(stream, budget) + chunk.take(taken),
        kept_tail(stream + chunk, budget) == last_bytes(
            kept_tail(stream, budget) + chunk.skip(taken),
            budget - head_budget(budget),
        ),
{
    let head = kept_head(stream, budget);
    assert(kept_head(stream + chunk, budget) =~= head + chunk.take(taken));
    let rest = stream.skip(head.len() as int);
    assert((stream + chunk).skip((head + chunk.take(taken)).len() as int) =~= rest + chunk.skip(
        taken,
    ));
    lemma_last_of_last(rest, chunk.skip(taken), budget - head_budget(budget));
}

/// Appends the bytes of `from` at positions `start..end`.
fn append_range(to: &mut Vec<u8>, from: &[u8], start: usize, end: usize)
    requires
        start <= end <= from@.len(),
    ensures
        final(to)@ == old(to)@ + from@.subrange(start as int, end as int),
{
    let ghost before = to@;
    let mut i: usize = start;
    assert(to@ =~= before + from@.subrange(start as int, start as int));
    while i < end
        invariant
            start <= i <= end <= from@.len(),
            to@ == before + from@.subrange(start as int, i as int),
        decreases end - i,
    {
        to.push(from[i]);
        assert(from@.subrange(start as int, i + 1) =~= from@.subrange(start as int, i as int).push(
            from@[i as int],
        ));
        i = i + 1;
    }
}

/// The last `room` bytes of `tail` followed by the chunk from `taken` on.
pub(crate) fn last_of(tail: &Vec<u8>, chunk: &[u8], taken: usize, room: usize) -> (end: Vec<u8>)
    requires
        taken <= chunk@.len(),
    ensures
        end@ == last_bytes(tail@ + chunk@.skip(taken as int), room as int),
{
    let length: usize = chunk.len();
    let trailing: usize = length - taken;
    let mut end: Vec<u8> = Vec::new();
    if trailing >= room {
        append_range(&mut end, chunk, length - room, length);
    } else {
        let left: usize = room - trailing;
        let skipped: usize = if tail.len() > left {
            tail.len() - left
        } else {
            0
        };
        append_range(&mut end, tail.as_slice(), skipped, tail.len());
        append_range(&mut end, chunk, taken, length);
    }
    assert(end@ =~= last_bytes(tail@ + chunk@.skip(taken as int), room as int));
    end
}

impl View for PipeBuffer {
    type V = Seq<u8>;

    closed spec fn view(&self) -> Seq<u8> {
        self.stream@
    }
}

impl PipeBuffer {
    /// Most bytes that are kept.
    pub closed spec fn limit(&self) -> int {
        self.budget as int
    }

    #[verifier::type_invariant]
    spec fn inv(self) -> bool {
        &&& self.head@ == kept_head(self.stream@, self.budget as int)
        &&& self.tail@ == kept_tail(self.stream@, self.budget as int)
        &&& self.total == word(self.stream@.len() as int)
    }

    /// A buffer that has read nothing.
    pub fn new(budget: usize) -> (r: PipeBuffer)
        ensures
            r@ == Seq::<u8>::empty(),
            r.limit() == budget,
    {
        let head: Vec<u8> = Vec::new();
        let tail: Vec<u8> = Vec::new();
        assert(kept_head(Seq::empty(), budget as int) =~= Seq::<u8>::empty());
        assert(kept_tail(Seq::empty(), budget as int) =~= Seq::<u8>::empty());
        PipeBuffer { head, tail, budget, total: 0, stream: Ghost(Seq::empty()) }
    }

    /// Reads one more chunk of the stream.
    pub fn take(self, chunk: &[u8]) -> (r: PipeBuffer)
        ensures
            r@ == self@ + chunk@,
            r.limit() == self.limit(),
    {
        proof {
            use_type_invariant(&self);
        }
        let budget = self.budget;
        let ghost stream = self.stream@;
        let mut head = self.head;
        let tail = self.tail;
        let head_room: usize = budget / 2 + budget % 2;
        let tail_room: usize = budget - head_room;
        let length: usize = chunk.len();
        let taken: usize = if length <= head_room - head.len() {
            length
        } else {
            head_room - head.len()
        };
        append_range(&mut head, chunk, 0, taken);
        proof {
            lemma_kept_grows(stream, chunk@, budget as int, taken as int);
            assert(chunk@.subrange(0, taken as int) =~= chunk@.take(taken as int));
        }
        let end = last_of(&tail, chunk, taken, tail_room);
        PipeBuffer {
            head,
            tail: end,
            budget,
            total: self.total.saturating_add(length),
            stream: Ghost(stream + chunk@),
        }
    }

    /// What was captured of the whole stream.
    pub fn finish(self) -> (r: PipeCapture)
        ensures
            r.bytes@ == kept(self@, self.limit()),
            r.discarded_bytes == lost(self@, self.limit()),
            r.bytes@.len() <= self.limit(),
    {
        proof {
            use_type_invariant(&self);
        }
        let mut bytes = self.head;
        let tail = self.tail;
        append_range(&mut bytes, tail.as_slice(), 0, tail.len());
        assert(tail@.subrange(0, tail@.len() as int) =~= tail@);
        let discarded_bytes: usize = self.total - bytes.len();
        PipeCapture { bytes, discarded_bytes }
    }
}

/// A stream within its budget is captured whole, and nothing of it is lost.
pub proof fn law_short_stream_is_kept_whole(stream: Seq<u8>, budget: usize)
    requires
        stream.len() <= budget,
    ensures
        kept(stream, budget as int) == stream,
        lost(stream, budget as int) == 0,
{
    assert(kept(stream, budget as int) =~= stream);
}

/// A longer stream fills its budget exactly, with its first and its last bytes.
pub proof fn law_long_stream_fills_budget(stream: Seq<u8>, budget: usize)
    requires
        stream.len() > budget,
    ensures
        kept(stream, budget as int).len() == budget,
        kept_head(stream, budget as int).is_prefix_of(stream),
        kept_tail(stream, budget as int).is_suffix_of(stream),
{
    let tail = kept_tail(stream, budget as int);
    assert(tail =~= stream.skip(stream.len() - tail.len()));
}

/// The shown form of a line: trimmed, and cut with an ellipsis past the limit.
pub open spec fn bounded_line(line: Seq<char>) -> Seq<char> {
    let trimmed = text::trim(line);
    if trimmed.len() <= LAST_LINE_LIMIT {
        trimmed
    } else {
        trimmed.take(LAST_LINE_LIMIT - 1).push('…')
    }
}

pub fn bound_last_line(line: &str) -> (r: String)
    ensures
        r@ == bounded_line(line@),
        r@.len() <= LAST_LINE_LIMIT,
{
    let trimmed = text::trimmed(line);
    let chars = text::chars_of(trimmed.as_str());
    if chars.len() <= LAST_LINE_LIMIT {
        trimmed
    } else {
        let mut bounded = text::string_of(&chars, 0, LAST_LINE_LIMIT - 1);
        assert(chars@.subrange(0, LAST_LINE_LIMIT - 1) =~= chars@.take(LAST_LINE_LIMIT - 1));
        bounded.push('…');
        bounded
    }
}

/// The last line that is not blank.
pub open spec fn last_visible(lines: Seq<Seq<char>>) -> Option<Seq<char>>
    decreases lines.len(),
{
    if lines.len() == 0 {
        None
    } else if text::trim(lines.last()).len() > 0 {
        Some(lines.last())
    } else {
        last_visible(lines.drop_last())
    }
}

fn visible_line(lines: &Vec<String>) -> (r: Option<usize>)
    ensures
        match r {
            Some(i) => i < lines@.len() && last_visible(text::texts(lines@)) == Some(
                lines@[i as int]@,
            ),
            None => last_visible(text::texts(lines@)) is None,
        },
{
    let ghost all = text::texts(lines@);
    let mut i: usize = lines.len();
    assert(all.take(i as int) =~= all);
    while i > 0
        invariant
            i <= lines@.len(),
            all == text::texts(lines@),
            last_visible(all) == last_visible(all.take(i as int)),
        decreases i,
    {
        let trimmed = text::trimmed(lines[i - 1].as_str());
        assert(all.take(i as int).last() == lines@[i - 1]@);
        assert(all.take(i as int).drop_last() =~= all.take(i - 1));
        if !trimmed.as_str().is_empty() {
            return Some(i - 1);
        }
        i = i - 1;
    }
    None
}

/// What a run has shown so far.
#[derive(Debug)]
pub struct PipeProgress {
    pub stdout_bytes: usize,
    pub stderr_bytes: usize,
    pub last_line: String,
}

/// A report on a process that is still running.
#[derive(Debug)]
pub struct ProcessProgress {
    pub elapsed_ms: u64,
    pub stdout_bytes: usize,
    pub stderr_bytes: usize,
    pub last_line: String,
}

impl Default for PipeProgress {
    fn default() -> (r: PipeProgress)
        ensures
            r.stdout_bytes == 0,
            r.stderr_bytes == 0,
            r.last_line@ == Seq::<char>::empty(),
    {
        PipeProgress { stdout_bytes: 0, stderr_bytes: 0, last_line: String::new() }
    }
}

impl PipeProgress {
    /// Counts a chunk for its stream and remembers its last visible line.
    pub fn note(&mut self, kind: PipeKind, chunk: &[u8])
        ensures
            final(self).stdout_bytes == match kind {
                PipeKind::Stdout => word(old(self).stdout_bytes + chunk@.len()),
                PipeKind::Stderr => old(self).stdout_bytes as int,
            },
            final(self).stderr_bytes == match kind {
                PipeKind::Stdout => old(self).stderr_bytes as int,
                PipeKind::Stderr => word(old(self).stderr_bytes + chunk@.len()),
            },
            final(self).last_line@ == match last_visible(text::lines(text::lossy(chunk@))) {
                Some(line) => bounded_line(line),
                None => old(self).last_line@,
            },
    {
        let length: usize = chunk.len();
        match kind {
            PipeKind::Stdout => {
                self.stdout_bytes = self.stdout_bytes.saturating_add(length);
            },
            PipeKind::Stderr => {
                self.stderr_bytes = self.stderr_bytes.saturating_add(length);
            },
        }
        let shown = text::lossy_text(chunk);
        let lines = text::lines_of(shown.as_str());
        match visible_line(&lines) {
            Some(i) => {
                self.last_line = bound_last_line(lines[i].as_str());
            },
            None => {},
        }
    }

    /// The report after `elapsed` nanoseconds.
    pub fn snapshot(&self, elapsed: u128) -> (r: ProcessProgress)
        ensures
            r.elapsed_ms == (if elapsed / 1_000_000 > u64::MAX {
                u64::MAX as int
            } else {
                (elapsed / 1_000_000) as int
            }),
            r.stdout_bytes == self.stdout_bytes,
            r.stderr_bytes == self.stderr_bytes,
            r.last_line@ == self.last_line@,
    {
        let millis: u128 = elapsed / 1_000_000;
        let elapsed_ms: u64 = if millis > u64::MAX as u128 {
            u64::MAX
        } else {
            millis as u64
        };
        ProcessProgress {
            elapsed_ms,
            stdout_bytes: self.stdout_bytes,
            stderr_bytes: self.stderr_bytes,
            last_line: self.last_line.as_str().to_owned(),
        }
    }
}

} // verus!
