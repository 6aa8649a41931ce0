//! The bytes of an answer, chunk by chunk: what they say, what of it may be shown, and
//! whether the answer is over.
use vstd::prelude::*;
use vstd::string::*;

use crate::provider::adapter;
use crate::provider::adapter::ProviderAdapter;
use crate::provider::failures;
use crate::provider::forward;
use crate::provider::redactor::{ProviderEventRedactor, RedactorView};
use crate::provider::secrets;
use crate::provider::sse;
use crate::provider::types;
use crate::provider::types::{
    ErrorView, ProviderError, ProviderEvent, ProviderPhase, StreamView,
};
use crate::text;

verus! {

/// What reads an answer.
pub struct StreamReader {
    pending: Vec<u8>,
    data: String,
    redactor: ProviderEventRedactor,
    values: Vec<String>,
    received: usize,
    saw_first_byte: bool,
    saw_semantic: bool,
}

#[verifier::ext_equal]
pub struct ReaderView {
    /// What has arrived and is no whole line yet.
    pub pending: Seq<u8>,
    /// The data of the event that is open.
    pub data: Seq<char>,
    pub redactor: RedactorView,
    /// What is secret.
    pub values: Seq<Seq<char>>,
    pub received: usize,
    pub saw_first_byte: bool,
    /// Something of the answer itself has come.
    pub saw_semantic: bool,
}

impl View for StreamReader {
    type V = ReaderView;

    closed spec fn view(&self) -> ReaderView {
        ReaderView {
            pending: self.pending@,
            data: self.data@,
            redactor: self.redactor@,
            values: text::texts(self.values@),
            received: self.received,
            saw_first_byte: self.saw_first_byte,
            saw_semantic: self.saw_semantic,
        }
    }
}

/// What a chunk, or the end of an answer, comes to.
#[verifier::ext_equal]
pub struct StepView {
    pub reader: ReaderView,
    /// What is to be passed on, in this order and before the outcome counts.
    pub events: Seq<StreamView>,
    /// Whether the answer is over, and then whether it said so; or why it failed.
    pub outcome: Result<Option<bool>, ErrorView>,
}

pub open spec fn any_semantic(events: Seq<StreamView>) -> bool {
    exists|i: int| 0 <= i < events.len() && forward::semantic(#[trigger] events[i])
}

/// The mark of a phase.
pub open spec fn phase_mark(phase: ProviderPhase, elapsed_ms: u64) -> StreamView {
    StreamView::Phase { phase, elapsed_ms }
}

impl ReaderView {
    /// What one event that was read comes to: what may be shown of it, behind a mark
    /// where it is the first that says something.
    pub open spec fn shown(self, event: StreamView, elapsed_ms: u64) -> (ReaderView, Seq<StreamView>) {
        let (redactor, out) = self.redactor.stepped(event);
        let first = !self.saw_semantic && (forward::semantic(event) || any_semantic(out));
        (
            ReaderView { redactor, saw_semantic: self.saw_semantic || first, ..self },
            (if first {
                seq![phase_mark(ProviderPhase::FirstSemantic, elapsed_ms)]
            } else {
                Seq::empty()
            }) + out,
        )
    }

    /// What events that were read come to, one after the other.
    pub open spec fn all_shown(self, events: Seq<StreamView>, elapsed_ms: u64) -> (
        ReaderView,
        Seq<StreamView>,
    )
        decreases events.len(),
    {
        if events.len() == 0 {
            (self, Seq::empty())
        } else {
            let (before, out) = self.all_shown(events.drop_last(), elapsed_ms);
            let (after, more) = before.shown(events.last(), elapsed_ms);
            (after, out + more)
        }
    }

    /// What reading comes to: the events are shown first; then an error of reading
    /// counts, then one of the filter, then whether the answer is over.
    pub open spec fn settled(
        self,
        events: Seq<StreamView>,
        result: Result<bool, ErrorView>,
        ended: bool,
        elapsed_ms: u64,
    ) -> StepView {
        let (after, out) = self.all_shown(events, elapsed_ms);
        match result {
            Err(error) => StepView { reader: after, events: out, outcome: Err(error) },
            Ok(done) => match after.redactor.error {
                Some(error) => StepView {
                    reader: ReaderView {
                        redactor: RedactorView { error: None, ..after.redactor },
                        ..after
                    },
                    events: out,
                    outcome: Err(error),
                },
                None => StepView {
                    reader: after,
                    events: out,
                    outcome: Ok(
                        if done || ended {
                            Some(done)
                        } else {
                            None
                        },
                    ),
                },
            },
        }
    }

    /// What a chunk comes to.
    pub open spec fn after_chunk<A: ProviderAdapter>(
        self,
        adapter: &A,
        chunk: Seq<u8>,
        elapsed_ms: u64,
    ) -> StepView {
        let mark = if self.saw_first_byte {
            Seq::empty()
        } else {
            seq![phase_mark(ProviderPhase::FirstByte, elapsed_ms)]
        };
        let started = ReaderView { saw_first_byte: true, ..self };
        if self.received + chunk.len() > sse::MAX_PROVIDER_STREAM_BYTES {
            StepView {
                reader: started,
                events: mark,
                outcome: Err(adapter::invalid("provider stream exceeded byte limit"@)),
            }
        } else {
            let all = sse::drained(adapter, self.pending + chunk, self.data);
            let step = ReaderView {
                pending: all.pending,
                data: all.read.data,
                received: (self.received + chunk.len()) as usize,
                ..started
            }.settled(
                all.read.events,
                sse::redacted_outcome(all.read.result, self.values),
                false,
                elapsed_ms,
            );
            StepView { events: mark + step.events, ..step }
        }
    }

    /// What the end of an answer comes to.
    pub open spec fn after_end<A: ProviderAdapter>(self, adapter: &A, elapsed_ms: u64) -> StepView {
        let read = sse::tail_read(adapter, self.pending, self.data, self.values);
        ReaderView { data: read.data, ..self }.settled(read.events, read.result, true, elapsed_ms)
    }
}

/// What is to be passed on of a chunk, and what it comes to.
pub struct StreamStep {
    pub events: Vec<ProviderEvent>,
    pub outcome: Result<Option<bool>, ProviderError>,
}

/// A step that does what is expected.
pub open spec fn is_step(step: StreamStep, reader: ReaderView, expected: StepView) -> bool {
    &&& reader == expected.reader
    &&& types::stream_views(step.events@) == expected.events
    &&& match (step.outcome, expected.outcome) {
        (Ok(a), Ok(b)) => a == b,
        (Err(error), Err(view)) => error@ == view,
        _ => false,
    }
}

impl StreamReader {
    /// A reader for an answer, which shows none of the secrets.
    pub fn new(sensitive_values: Vec<String>) -> (r: StreamReader)
        ensures
            r@ == (ReaderView {
                pending: Seq::empty(),
                data: Seq::empty(),
                redactor: RedactorView {
                    values: secrets::normal_secrets(text::texts(sensitive_values@)),
                    tools: Seq::empty(),
                    error: None,
                    text: Seq::empty(),
                    reasoning: Seq::empty(),
                },
                values: text::texts(sensitive_values@),
                received: 0,
                saw_first_byte: false,
                saw_semantic: false,
            }),
    {
        let mut values: Vec<String> = Vec::new();
        let mut i: usize = 0;
        while i < sensitive_values.len()
            invariant
                i <= sensitive_values.len(),
                text::texts(values@) == text::texts(sensitive_values@).take(i as int),
            decreases sensitive_values.len() - i,
        {
            let ghost done = values@;
            values.push(sensitive_values[i].clone());
            assert(text::texts(values@) =~= text::texts(done).push(sensitive_values@[i as int]@));
            assert(text::texts(sensitive_values@).take(i + 1) =~= text::texts(
                sensitive_values@,
            ).take(i as int).push(sensitive_values@[i as int]@));
            i = i + 1;
        }
        assert(text::texts(values@) =~= text::texts(sensitive_values@));
        let r = StreamReader {
            pending: Vec::new(),
            data: String::new(),
            redactor: ProviderEventRedactor::new(sensitive_values),
            values,
            received: 0,
            saw_first_byte: false,
            saw_semantic: false,
        };
        assert(r@.pending =~= Seq::empty());
        assert(r@.data =~= Seq::empty());
        r
    }

    /// Whether something of the answer itself has come.
    pub fn saw_semantic(&self) -> (r: bool)
        ensures
            r == self@.saw_semantic,
    {
        self.saw_semantic
    }

    fn show(&mut self, event: ProviderEvent, elapsed_ms: u64, out: &mut Vec<ProviderEvent>)
        ensures
            final(self)@ == old(self)@.shown(event@, elapsed_ms).0,
            types::stream_views(final(out)@) == types::stream_views(old(out)@) + old(self)@.shown(
                event@,
                elapsed_ms,
            ).1,
    {
        let ghost start = types::stream_views(out@);
        let told = forward::event_is_semantic(&event);
        let mut shown = self.redactor.push(event);
        let ghost passed = types::stream_views(shown@);
        let ghost mut mark: Seq<StreamView> = Seq::empty();
        if !self.saw_semantic && (told || forward::provider_events_have_semantic_output(&shown)) {
            let phase = ProviderEvent::Phase { phase: ProviderPhase::FirstSemantic, elapsed_ms };
            proof {
                mark = seq![phase@];
            }
            out.push(phase);
            self.saw_semantic = true;
        }
        assert(types::stream_views(out@) =~= start + mark);
        out.append(&mut shown);
        assert(types::stream_views(out@) =~= start + (mark + passed));
    }

    fn show_all(
        &mut self,
        events: Vec<ProviderEvent>,
        elapsed_ms: u64,
        out: &mut Vec<ProviderEvent>,
    )
        ensures
            final(self)@ == old(self)@.all_shown(types::stream_views(events@), elapsed_ms).0,
            types::stream_views(final(out)@) == types::stream_views(old(out)@)
                + old(self)@.all_shown(types::stream_views(events@), elapsed_ms).1,
    {
        let ghost all = types::stream_views(events@);
        let ghost first = self@;
        let ghost start = types::stream_views(out@);
        let mut i: usize = 0;
        assert(all.take(0) =~= Seq::empty());
        assert(start =~= start + Seq::<StreamView>::empty());
        while i < events.len()
            invariant
                i <= events.len(),
                all == types::stream_views(events@),
                self@ == first.all_shown(all.take(i as int), elapsed_ms).0,
                types::stream_views(out@) == start + first.all_shown(
                    all.take(i as int),
                    elapsed_ms,
                ).1,
            decreases events.len() - i,
        {
            let event = events[i].copy();
            let ghost before = first.all_shown(all.take(i as int), elapsed_ms).1;
            let ghost more = self@.shown(event@, elapsed_ms).1;
            self.show(event, elapsed_ms, out);
            assert(all.take(i + 1).drop_last() =~= all.take(i as int));
            assert(all.take(i + 1).last() == events@[i as int]@);
            assert(start + before + more =~= start + (before + more));
            i = i + 1;
        }
        assert(all.take(all.len() as int) =~= all);
    }

    fn settle(
        &mut self,
        events: Vec<ProviderEvent>,
        result: Result<bool, ProviderError>,
        ended: bool,
        elapsed_ms: u64,
        out: &mut Vec<ProviderEvent>,
    ) -> (r: Result<Option<bool>, ProviderError>)
        ensures
            ({
                let read = match result {
                    Ok(done) => Ok::<bool, ErrorView>(done),
                    Err(error) => Err(error@),
                };
                let step = old(self)@.settled(
                    types::stream_views(events@),
                    read,
                    ended,
                    elapsed_ms,
                );
                &&& final(self)@ == step.reader
                &&& types::stream_views(final(out)@) == types::stream_views(old(out)@) + step.events
                &&& match (r, step.outcome) {
                    (Ok(a), Ok(b)) => a == b,
                    (Err(error), Err(view)) => error@ == view,
                    _ => false,
                }
            }),
    {
        self.show_all(events, elapsed_ms, out);
        let done = match result {
            Ok(done) => done,
            Err(error) => return Err(error),
        };
        let mut fault = None;
        std::mem::swap(&mut fault, &mut self.redactor.error);
        match fault {
            Some(error) => Err(error),
            None => if done || ended {
                Ok(Some(done))
            } else {
                Ok(None)
            },
        }
    }

    /// Reads a chunk of an answer.
    pub fn take_chunk<A: ProviderAdapter>(
        &mut self,
        adapter: &A,
        chunk: &[u8],
        elapsed_ms: u64,
    ) -> (r: StreamStep)
        ensures
            is_step(r, final(self)@, old(self)@.after_chunk(adapter, chunk@, elapsed_ms)),
    {
        let mut out: Vec<ProviderEvent> = Vec::new();
        let ghost mut mark: Seq<StreamView> = Seq::empty();
        if !self.saw_first_byte {
            let phase = ProviderEvent::Phase { phase: ProviderPhase::FirstByte, elapsed_ms };
            proof {
                mark = seq![phase@];
            }
            out.push(phase);
            self.saw_first_byte = true;
        }
        assert(types::stream_views(out@) =~= mark);
        match sse::checked_provider_stream_bytes(self.received, chunk.len()) {
            Ok(received) => {
                self.received = received;
            },
            Err(error) => return StreamStep { events: out, outcome: Err(error) },
        }
        let ghost arrived = self.pending@ + chunk@;
        let mut i: usize = 0;
        let ghost before = *self;
        while i < chunk.len()
            invariant
                i <= chunk.len(),
                self.pending@ == before.pending@ + chunk@.take(i as int),
                self.data == before.data,
                self.redactor == before.redactor,
                self.values == before.values,
                self.received == before.received,
                self.saw_first_byte == before.saw_first_byte,
                self.saw_semantic == before.saw_semantic,
            decreases chunk.len() - i,
        {
            self.pending.push(chunk[i]);
            assert(before.pending@ + chunk@.take(i + 1) =~= (before.pending@ + chunk@.take(
                i as int,
            )).push(chunk@[i as int]));
            i = i + 1;
        }
        assert(chunk@.take(chunk@.len() as int) =~= chunk@);
        let mut events: Vec<ProviderEvent> = Vec::new();
        assert(types::stream_views(events@) =~= Seq::empty());
        let parsed = sse::drain_sse(adapter, &mut self.pending, &mut self.data, &mut events);
        let ghost read = sse::drained(adapter, arrived, before.data@).read.events;
        assert(Seq::<StreamView>::empty() + read =~= read);
        let result = match parsed {
            Ok(done) => Ok(done),
            Err(error) => Err(failures::redact_provider_error_values(error, &self.values)),
        };
        let outcome = self.settle(events, result, false, elapsed_ms, &mut out);
        StreamStep { events: out, outcome }
    }

    /// Reads the end of an answer.
    pub fn take_end<A: ProviderAdapter>(&mut self, adapter: &A, elapsed_ms: u64) -> (r: StreamStep)
        ensures
            is_step(r, final(self)@, old(self)@.after_end(adapter, elapsed_ms)),
    {
        let mut events: Vec<ProviderEvent> = Vec::new();
        assert(types::stream_views(events@) =~= Seq::empty());
        let result = sse::finish_sse(
            adapter,
            &self.pending,
            &mut self.data,
            &mut events,
            &self.values,
        );
        let ghost read = sse::tail_read(
            adapter,
            old(self)@.pending,
            old(self)@.data,
            old(self)@.values,
        ).events;
        assert(Seq::<StreamView>::empty() + read =~= read);
        let mut out: Vec<ProviderEvent> = Vec::new();
        assert(types::stream_views(out@) =~= Seq::empty());
        let outcome = self.settle(events, result, true, elapsed_ms, &mut out);
        let ghost step = old(self)@.after_end(adapter, elapsed_ms);
        assert(Seq::<StreamView>::empty() + step.events =~= step.events);
        StreamStep { events: out, outcome }
    }
}

} // verus!
