//! What of an answer is passed on while it arrives: not its reasoning where there
//! is to be none, and its usage once where it is told several times.
use vstd::prelude::*;
use vstd::string::*;

use crate::provider::adapter;
use crate::provider::cache;
use crate::provider::cache::{MAX_CACHED_PROVIDER_ENTRY_BYTES, MAX_CACHED_PROVIDER_EVENTS};
use crate::provider::reasoning;
use crate::provider::types;
use crate::provider::types::{
    ErrorView, ProviderError, ProviderEvent, ProviderKind, StreamView, UsageBreakdown,
};

verus! {

pub open spec fn larger(a: u64, b: u64) -> u64 {
    if a < b {
        b
    } else {
        a
    }
}

fn larger_of(a: u64, b: u64) -> (r: u64)
    ensures
        r == larger(a, b),
{
    if a < b {
        b
    } else {
        a
    }
}

/// Two accounts of the same usage as one that covers both.
pub open spec fn merged(a: UsageBreakdown, b: UsageBreakdown) -> UsageBreakdown {
    UsageBreakdown {
        uncached_input_tokens: larger(a.uncached_input_tokens, b.uncached_input_tokens),
        cache_write_tokens: larger(a.cache_write_tokens, b.cache_write_tokens),
        cache_read_tokens: larger(a.cache_read_tokens, b.cache_read_tokens),
        output_tokens: larger(a.output_tokens, b.output_tokens),
        reasoning_tokens: larger(a.reasoning_tokens, b.reasoning_tokens),
        usage_unknown: a.usage_unknown || b.usage_unknown,
    }
}

pub fn merge_usage_breakdowns(previous: UsageBreakdown, current: UsageBreakdown) -> (r:
    UsageBreakdown)
    ensures
        r == merged(previous, current),
{
    UsageBreakdown {
        uncached_input_tokens: larger_of(
            previous.uncached_input_tokens,
            current.uncached_input_tokens,
        ),
        cache_write_tokens: larger_of(previous.cache_write_tokens, current.cache_write_tokens),
        cache_read_tokens: larger_of(previous.cache_read_tokens, current.cache_read_tokens),
        output_tokens: larger_of(previous.output_tokens, current.output_tokens),
        reasoning_tokens: larger_of(previous.reasoning_tokens, current.reasoning_tokens),
        usage_unknown: previous.usage_unknown || current.usage_unknown,
    }
}

/// It does not matter in which order accounts of the same usage arrive.
pub proof fn law_merging_usage_has_no_order(
    a: UsageBreakdown,
    b: UsageBreakdown,
    c: UsageBreakdown,
)
    ensures
        merged(a, b) == merged(b, a),
        merged(merged(a, b), c) == merged(a, merged(b, c)),
        merged(a, a) == a,
{
}

/// Whether an event carries something of the answer itself.
pub open spec fn semantic(event: StreamView) -> bool {
    match event {
        StreamView::ResponsesReasoning(_) => true,
        StreamView::ChatReasoning(state) => state.content.len() > 0,
        StreamView::TextDelta(s) => s.len() > 0,
        StreamView::ReasoningDelta(s) => s.len() > 0,
        StreamView::ToolCallDelta { id, name, arguments, .. } => (id matches Some(s) && s.len() > 0)
            || (name matches Some(s) && s.len() > 0) || arguments.len() > 0,
        StreamView::ToolCallStart { .. } => true,
        StreamView::ToolCallInputDelta { .. } => true,
        StreamView::ToolCallComplete { .. } => true,
        StreamView::ToolCall { .. } => true,
        _ => false,
    }
}

fn has_text(s: &Option<String>) -> (r: bool)
    ensures
        r == (*s matches Some(t) && t@.len() > 0),
{
    match s {
        Some(t) => !t.as_str().is_empty(),
        None => false,
    }
}

pub fn event_is_semantic(event: &ProviderEvent) -> (r: bool)
    ensures
        r == semantic(event@),
{
    match event {
        ProviderEvent::ResponsesReasoning(_) => true,
        ProviderEvent::ChatReasoning(state) => !state.content.as_str().is_empty(),
        ProviderEvent::TextDelta(s) => !s.as_str().is_empty(),
        ProviderEvent::ReasoningDelta(s) => !s.as_str().is_empty(),
        ProviderEvent::ToolCallDelta { id, name, arguments, .. } => has_text(id) || has_text(name)
            || !arguments.as_str().is_empty(),
        ProviderEvent::ToolCallStart { .. } => true,
        ProviderEvent::ToolCallInputDelta { .. } => true,
        ProviderEvent::ToolCallComplete { .. } => true,
        ProviderEvent::ToolCall { .. } => true,
        _ => false,
    }
}

/// Whether one of several events carries something of the answer itself.
pub fn provider_events_have_semantic_output(events: &Vec<ProviderEvent>) -> (r: bool)
    ensures
        r == exists|i: int|
            0 <= i < events@.len() && semantic(#[trigger] types::stream_views(events@)[i]),
{
    let ghost all = types::stream_views(events@);
    let mut i: usize = 0;
    while i < events.len()
        invariant
            i <= events.len(),
            all == types::stream_views(events@),
            forall|k: int| 0 <= k < i ==> !semantic(#[trigger] all[k]),
        decreases events.len() - i,
    {
        assert(all[i as int] == events@[i as int]@);
        if event_is_semantic(&events[i]) {
            assert(semantic(all[i as int]));
            return true;
        }
        i = i + 1;
    }
    false
}

/// Whether an event tells usage.
pub open spec fn tells_usage(event: StreamView) -> bool {
    event is Usage || event is UsagePartial || event is UsageBreakdown
}

/// The providers that tell the usage of one answer several times.
pub open spec fn repeats_usage(kind: ProviderKind, wire_kind: ProviderKind) -> bool {
    (kind == ProviderKind::OpenCodeGo || kind == ProviderKind::OpenCodeZen) && wire_kind
        == ProviderKind::OpenAiCompatible
}

pub fn coalesces_terminal_usage(kind: ProviderKind, wire_kind: ProviderKind) -> (r: bool)
    ensures
        r == repeats_usage(kind, wire_kind),
{
    (kind == ProviderKind::OpenCodeGo || kind == ProviderKind::OpenCodeZen) && wire_kind
        == ProviderKind::OpenAiCompatible
}

/// What passes the events of an answer on.
pub struct StreamForwarder {
    disabled: bool,
    violated: bool,
    saw_stopped: bool,
    captured: Option<Vec<ProviderEvent>>,
    captured_bytes: usize,
    coalesce: bool,
    usage: Option<(u64, u64)>,
    breakdown: Option<UsageBreakdown>,
}

#[verifier::ext_equal]
pub struct ForwardView {
    /// There is to be no reasoning.
    pub disabled: bool,
    /// There was some.
    pub violated: bool,
    pub saw_stopped: bool,
    /// What may be kept of the answer.
    pub captured: Option<Seq<StreamView>>,
    pub captured_bytes: usize,
    /// Usage is held back until the end.
    pub coalesce: bool,
    pub usage: Option<(u64, u64)>,
    pub breakdown: Option<UsageBreakdown>,
}

impl View for StreamForwarder {
    type V = ForwardView;

    closed spec fn view(&self) -> ForwardView {
        ForwardView {
            disabled: self.disabled,
            violated: self.violated,
            saw_stopped: self.saw_stopped,
            captured: match self.captured {
                Some(events) => Some(types::stream_views(events@)),
                None => None,
            },
            captured_bytes: self.captured_bytes,
            coalesce: self.coalesce,
            usage: self.usage,
            breakdown: self.breakdown,
        }
    }
}

/// What an event takes where it is captured: the bytes that its texts have room
/// for, and the events that the list has room for with it.
pub struct Room {
    pub texts: nat,
    pub list: nat,
}

impl ForwardView {
    /// Whether an event may take so much.
    pub open spec fn may_take(self, event: StreamView, room: Room) -> bool {
        &&& cache::may_have_room(event, room.texts)
        &&& self.captured matches Some(events) ==> room.list > events.len()
    }

    /// What may be kept after one more event: no more than the bounds allow, with
    /// all that the texts and the list have room for.
    pub open spec fn capturing(self, event: StreamView, room: Room) -> ForwardView {
        let bytes = self.captured_bytes + vstd::layout::size_of::<ProviderEvent>() + room.texts;
        match self.captured {
            Some(events) => if events.len() < MAX_CACHED_PROVIDER_EVENTS && bytes
                <= MAX_CACHED_PROVIDER_ENTRY_BYTES {
                ForwardView {
                    captured: if bytes + cache::spare_bytes(room.list, events.len() + 1)
                        <= MAX_CACHED_PROVIDER_ENTRY_BYTES {
                        Some(events.push(event))
                    } else {
                        None
                    },
                    captured_bytes: bytes as usize,
                    ..self
                }
            } else {
                ForwardView { captured: None, ..self }
            },
            None => self,
        }
    }

    /// The state with the reasoning of an event noted.
    pub open spec fn noting(self, event: StreamView) -> ForwardView {
        ForwardView {
            violated: self.violated || (self.disabled && reasoning::shows_reasoning(event)),
            ..self
        }
    }

    /// Whether an event is passed on: after reasoning that was not to be, nothing
    /// but usage passes.
    pub open spec fn lets_pass(self, event: StreamView) -> bool {
        !self.noting(event).violated || tells_usage(event)
    }

    /// The state after an event was passed on, or not.
    pub open spec fn forwarded(self, event: StreamView, room: Room) -> ForwardView {
        let noted = self.noting(event);
        if !self.lets_pass(event) || event is Phase {
            noted
        } else {
            (ForwardView { saw_stopped: self.saw_stopped || event is Stopped, ..noted }).capturing(
                event,
                room,
            )
        }
    }

    /// Whether an event is held back until the end: usage that is told several
    /// times.
    pub open spec fn holds_back(self, event: StreamView) -> bool {
        self.coalesce && (event is Usage || event is UsageBreakdown)
    }

    /// Whether an event that is taken in is passed on now.
    pub open spec fn passes(self, event: StreamView) -> bool {
        !self.holds_back(event) && self.lets_pass(event)
    }

    /// The state after an event was taken in.
    pub open spec fn taken(self, event: StreamView, room: Room) -> ForwardView {
        if !self.holds_back(event) {
            self.forwarded(event, room)
        } else {
            match event {
                StreamView::Usage { input_tokens, output_tokens } => ForwardView {
                    usage: Some(
                        match self.usage {
                            Some((a, b)) => (larger(a, input_tokens), larger(b, output_tokens)),
                            None => (input_tokens, output_tokens),
                        },
                    ),
                    ..self
                },
                StreamView::UsageBreakdown { usage } => ForwardView {
                    breakdown: Some(
                        match self.breakdown {
                            Some(previous) => merged(previous, usage),
                            None => usage,
                        },
                    ),
                    ..self
                },
                _ => self,
            }
        }
    }

    /// The usage that was held back.
    pub open spec fn held_back(self) -> Seq<StreamView> {
        (match self.breakdown {
            Some(usage) => seq![StreamView::UsageBreakdown { usage }],
            None => Seq::empty(),
        }) + (match self.usage {
            Some((input_tokens, output_tokens)) => seq![
                StreamView::Usage { input_tokens, output_tokens },
            ],
            None => Seq::empty(),
        })
    }

    /// The state after a part of the usage that was held back was passed on.
    pub open spec fn flushed_breakdown(self, room: Room) -> ForwardView {
        match self.breakdown {
            Some(usage) => self.forwarded(StreamView::UsageBreakdown { usage }, room),
            None => self,
        }
    }

    /// The same of the other part.
    pub open spec fn flushed_usage(self, room: Room) -> ForwardView {
        match self.usage {
            Some((input_tokens, output_tokens)) => self.forwarded(
                StreamView::Usage { input_tokens, output_tokens },
                room,
            ),
            None => self,
        }
    }

    /// Whether a state is one that passing on the usage that was held back may
    /// lead to.
    pub open spec fn flushes_to(self, after: ForwardView) -> bool {
        exists|first: Room, second: Room|
            {
                &&& self.captured matches Some(events) ==> first.list > events.len()
                &&& self.flushed_breakdown(first).captured matches Some(events) ==> second.list
                    > events.len()
                &&& first.texts == 0 && second.texts == 0
                &&& after == #[trigger] self.flushed_breakdown(first).flushed_usage(second)
            }
    }

    /// Whether a state is one that taking an event in may lead to: the room that
    /// the event takes is open.
    pub open spec fn leads_to(self, event: StreamView, after: ForwardView) -> bool {
        exists|room: Room|
            self.may_take(event, room) && after == #[trigger] self.taken(event, room)
    }

    /// What an answer that arrived came to: an error, or what may be kept of it.
    /// Reasoning that was not to be counts before any other failure.
    pub open spec fn concluded(self, result: Result<bool, ErrorView>) -> Result<
        Option<Seq<StreamView>>,
        ErrorView,
    > {
        if self.violated {
            Err(adapter::invalid(reasoning::violation_words()))
        } else {
            match result {
                Err(error) => Err(error),
                Ok(_) => if !self.saw_stopped {
                    Err(adapter::invalid("provider stream ended before completion"@))
                } else {
                    Ok(
                        match self.captured {
                            Some(events) => if exists|i: int|
                                0 <= i < events.len() && cache::is_call_event(
                                    #[trigger] events[i],
                                ) {
                                None
                            } else {
                                Some(events)
                            },
                            None => None,
                        },
                    )
                },
            }
        }
    }
}

/// Once reasoning was seen that was not to be, nothing but usage passes, and the
/// answer fails whatever follows.
pub proof fn law_violation_stops_the_answer(
    state: ForwardView,
    event: StreamView,
    room: Room,
    result: Result<bool, ErrorView>,
)
    requires
        state.violated || (state.disabled && reasoning::shows_reasoning(event) && !(state.coalesce
            && event is UsageBreakdown)),
    ensures
        ({
            let after = state.taken(event, room);
            &&& after.violated
            &&& state.passes(event) ==> tells_usage(event)
            &&& after.concluded(result) == Err::<Option<Seq<StreamView>>, ErrorView>(
                adapter::invalid(reasoning::violation_words()),
            )
        }),
{
}

/// What is captured of an answer stays within the bounds, whatever room its events
/// take: one that does not is given up, and not taken up again.
pub proof fn law_captured_answers_are_bounded(state: ForwardView, event: StreamView, room: Room)
    requires
        state.captured matches Some(events) ==> events.len() <= MAX_CACHED_PROVIDER_EVENTS,
        state.captured is Some && state.captured->0.len() > 0 ==> state.captured_bytes
            <= MAX_CACHED_PROVIDER_ENTRY_BYTES,
    ensures
        ({
            let after = state.taken(event, room);
            &&& state.captured is None ==> after.captured is None
            &&& after.captured matches Some(events) ==> events.len() <= MAX_CACHED_PROVIDER_EVENTS
            &&& after.captured is Some && after.captured->0.len() > 0 ==> after.captured_bytes
                <= MAX_CACHED_PROVIDER_ENTRY_BYTES
        }),
{
}

pub open spec fn opt_view(event: Option<ProviderEvent>) -> Option<StreamView> {
    match event {
        Some(e) => Some(e@),
        None => None,
    }
}

fn is_usage(event: &ProviderEvent) -> (r: bool)
    ensures
        r == tells_usage(event@),
{
    match event {
        ProviderEvent::Usage { .. } => true,
        ProviderEvent::UsagePartial { .. } => true,
        ProviderEvent::UsageBreakdown { .. } => true,
        _ => false,
    }
}

impl StreamForwarder {
    /// For an answer that has arrived in no part yet. Where it may be kept, the
    /// bytes of its key are given.
    pub fn new(disabled: bool, key_bytes: Option<usize>, coalesce: bool) -> (r: StreamForwarder)
        ensures
            r@ == (ForwardView {
                disabled,
                violated: false,
                saw_stopped: false,
                captured: if key_bytes is Some {
                    Some(Seq::empty())
                } else {
                    None
                },
                captured_bytes: match key_bytes {
                    Some(n) => n,
                    None => 0,
                },
                coalesce,
                usage: None,
                breakdown: None,
            }),
    {
        let captured = match key_bytes {
            Some(_) => {
                let none: Vec<ProviderEvent> = Vec::new();
                assert(types::stream_views(none@) =~= Seq::empty());
                Some(none)
            },
            None => None,
        };
        StreamForwarder {
            disabled,
            violated: false,
            saw_stopped: false,
            captured,
            captured_bytes: match key_bytes {
                Some(n) => n,
                None => 0,
            },
            coalesce,
            usage: None,
            breakdown: None,
        }
    }

    /// Whether there was reasoning that was not to be.
    pub fn violated(&self) -> (r: bool)
        ensures
            r == self@.violated,
    {
        self.violated
    }

    /// Captures an event where the bounds allow it; tells the room that it takes.
    fn capture(&mut self, event: &ProviderEvent) -> (room: Ghost<Room>)
        ensures
            old(self)@.may_take(event@, room@),
            final(self)@ == old(self)@.capturing(event@, room@),
    {
        let texts: u128 = cache::text_room(event);
        let ghost mut list: nat = match self@.captured {
            Some(events) => events.len() + 1,
            None => 0,
        };
        let mut kept = None;
        std::mem::swap(&mut kept, &mut self.captured);
        if let Some(events) = kept {
            let mut events = events;
            if cache::may_capture(events.len(), self.captured_bytes, texts) {
                let ghost done = events@;
                events.push(event.copy());
                assert(types::stream_views(events@) =~= types::stream_views(done).push(event@));
                let place: usize = core::mem::size_of::<ProviderEvent>();
                self.captured_bytes = self.captured_bytes + place + texts as usize;
                let room: usize = cache::list_room(&events);
                proof {
                    list = room as nat;
                }
                if !cache::list_outgrown(self.captured_bytes, room, events.len()) {
                    self.captured = Some(events);
                }
            }
        }
        Ghost(Room { texts: texts as nat, list })
    }

    fn forward(&mut self, event: ProviderEvent) -> (r: (Option<ProviderEvent>, Ghost<Room>))
        ensures
            opt_view(r.0) == (if old(self)@.lets_pass(event@) {
                Some(event@)
            } else {
                None
            }),
            old(self)@.may_take(event@, r.1@),
            final(self)@ == old(self)@.forwarded(event@, r.1@),
    {
        let ghost any = Room {
            texts: cache::text_bytes(event@),
            list: match self@.captured {
                Some(events) => events.len() + 1,
                None => 0,
            },
        };
        if self.disabled && reasoning::event_contains_reasoning(&event) {
            self.violated = true;
        }
        if self.violated && !is_usage(&event) {
            return (None, Ghost(any));
        }
        let is_phase = match &event {
            ProviderEvent::Phase { .. } => true,
            _ => false,
        };
        if is_phase {
            return (Some(event), Ghost(any));
        }
        let is_stop = match &event {
            ProviderEvent::Stopped { .. } => true,
            _ => false,
        };
        if is_stop {
            self.saw_stopped = true;
        }
        let room = self.capture(&event);
        (Some(event), room)
    }

    /// Takes an event in; gives it on where it is to be passed on now. What is
    /// captured of the answer rests on the room that the event takes.
    pub fn push(&mut self, event: ProviderEvent) -> (r: Option<ProviderEvent>)
        ensures
            opt_view(r) == (if old(self)@.passes(event@) {
                Some(event@)
            } else {
                None
            }),
            old(self)@.leads_to(event@, final(self)@),
    {
        let ghost before = self@;
        let ghost any = Room {
            texts: cache::text_bytes(event@),
            list: match self@.captured {
                Some(events) => events.len() + 1,
                None => 0,
            },
        };
        if self.coalesce {
            match &event {
                ProviderEvent::Usage { input_tokens, output_tokens } => {
                    self.usage = Some(
                        match self.usage {
                            Some((a, b)) => (
                                larger_of(a, *input_tokens),
                                larger_of(b, *output_tokens),
                            ),
                            None => (*input_tokens, *output_tokens),
                        },
                    );
                    assert(self@ == before.taken(event@, any));
                    return None;
                },
                ProviderEvent::UsageBreakdown { usage } => {
                    self.breakdown = Some(
                        match self.breakdown {
                            Some(previous) => merge_usage_breakdowns(previous, *usage),
                            None => *usage,
                        },
                    );
                    assert(self@ == before.taken(event@, any));
                    return None;
                },
                _ => {},
            }
        }
        let ghost shown = event@;
        let (passed, Ghost(room)) = self.forward(event);
        assert(self@ == before.taken(shown, room));
        passed
    }

    /// Gives on the usage that was held back.
    pub fn flush(&mut self) -> (out: Vec<ProviderEvent>)
        ensures
            types::stream_views(out@) == old(self)@.held_back(),
            old(self)@.flushes_to(final(self)@),
    {
        let ghost before = self@;
        let ghost mut first = Room {
            texts: 0,
            list: match self@.captured {
                Some(events) => events.len() + 1,
                None => 0,
            },
        };
        let mut out: Vec<ProviderEvent> = Vec::new();
        if let Some(usage) = self.breakdown {
            let (event, Ghost(room)) = self.forward(ProviderEvent::UsageBreakdown { usage });
            proof {
                first = room;
            }
            if let Some(event) = event {
                out.push(event);
            }
        }
        let ghost middle = self@;
        assert(middle == before.flushed_breakdown(first));
        let ghost mut second = Room {
            texts: 0,
            list: match self@.captured {
                Some(events) => events.len() + 1,
                None => 0,
            },
        };
        if let Some((input_tokens, output_tokens)) = self.usage {
            let (event, Ghost(room)) = self.forward(
                ProviderEvent::Usage { input_tokens, output_tokens },
            );
            proof {
                second = room;
            }
            if let Some(event) = event {
                out.push(event);
            }
        }
        assert(types::stream_views(out@) =~= before.held_back());
        assert(self@ == before.flushed_breakdown(first).flushed_usage(second));
        out
    }

    /// What an answer came to: an error, or what may be kept of it.
    pub fn conclude(self, result: Result<bool, ProviderError>) -> (r: Result<
        Option<Vec<ProviderEvent>>,
        ProviderError,
    >)
        ensures
            ({
                let outcome = match result {
                    Ok(done) => Ok(done),
                    Err(error) => Err(error@),
                };
                match (r, self@.concluded(outcome)) {
                    (Ok(None), Ok(None)) => true,
                    (Ok(Some(events)), Ok(Some(views))) => types::stream_views(events@) == views,
                    (Err(error), Err(view)) => error@ == view,
                    _ => false,
                }
            }),
    {
        if self.violated {
            return Err(reasoning::reasoning_disabled_violation());
        }
        if let Err(error) = result {
            return Err(error);
        }
        if !self.saw_stopped {
            return Err(ProviderError::invalid("provider stream ended before completion"));
        }
        let events = match self.captured {
            Some(events) => events,
            None => return Ok(None),
        };
        let ghost all = types::stream_views(events@);
        let mut i: usize = 0;
        while i < events.len()
            invariant
                i <= events.len(),
                all == types::stream_views(events@),
                forall|k: int| 0 <= k < i ==> !cache::is_call_event(#[trigger] all[k]),
            ensures
                i <= events.len(),
                all == types::stream_views(events@),
                i == events.len() ==> forall|k: int|
                    0 <= k < all.len() ==> !cache::is_call_event(#[trigger] all[k]),
                i < events.len() ==> cache::is_call_event(all[i as int]),
            decreases events.len() - i,
        {
            assert(all[i as int] == events@[i as int]@);
            if cache::is_tool_call_event(&events[i]) {
                break;
            }
            i = i + 1;
        }
        if i < events.len() {
            Ok(None)
        } else {
            Ok(Some(events))
        }
    }
}

/// What is passed on of an answer that was kept: that it was kept, and its events
/// up to one that shows reasoning where there is to be none.
pub open spec fn replayed(events: Seq<StreamView>, disabled: bool) -> Seq<StreamView>
    decreases events.len(),
{
    if events.len() == 0 {
        Seq::empty()
    } else if stops_replay(events.drop_last(), disabled) || (disabled
        && reasoning::shows_reasoning(events.last())) {
        replayed(events.drop_last(), disabled)
    } else {
        let front = replayed(events.drop_last(), disabled);
        (if front.len() == 0 {
            seq![StreamView::ResponseCacheHit]
        } else {
            front
        }).push(events.last())
    }
}

/// Whether an answer that was kept shows reasoning where there is to be none.
pub open spec fn stops_replay(events: Seq<StreamView>, disabled: bool) -> bool {
    disabled && exists|i: int|
        0 <= i < events.len() && reasoning::shows_reasoning(#[trigger] events[i])
}

/// Passes an answer on that was kept.
pub fn replay_cached(events: Vec<ProviderEvent>, disabled: bool) -> (r: (
    Vec<ProviderEvent>,
    Result<(), ProviderError>,
))
    ensures
        types::stream_views(r.0@) == replayed(types::stream_views(events@), disabled),
        r.1 is Err <==> stops_replay(types::stream_views(events@), disabled),
        r.1 matches Err(error) ==> error@ == adapter::invalid(reasoning::violation_words()),
{
    let ghost list = events@;
    let ghost all = types::stream_views(events@);
    let mut out: Vec<ProviderEvent> = Vec::new();
    let mut stopped = false;
    assert(all.take(0) =~= Seq::empty());
    assert(types::stream_views(out@) =~= replayed(all.take(0), disabled));
    for event in it: events
        invariant
            it.seq() == list,
            all == types::stream_views(list),
            stopped == stops_replay(all.take(it.index()), disabled),
            types::stream_views(out@) == replayed(all.take(it.index()), disabled),
            out@.len() == types::stream_views(out@).len(),
    {
        let ghost n = it.index();
        let ghost part = all.take(n + 1);
        assert(event == list[n]);
        assert(part.drop_last() =~= all.take(n));
        assert(part.last() == event@);
        let shows = reasoning::event_contains_reasoning(&event);
        proof {
            if stopped {
                let i = choose|i: int|
                    0 <= i < all.take(n).len() && reasoning::shows_reasoning(
                        #[trigger] all.take(n)[i],
                    );
                assert(reasoning::shows_reasoning(part[i]));
            }
            if shows {
                assert(reasoning::shows_reasoning(part[n]));
            }
            if disabled && !stopped && !shows {
                assert forall|i: int| 0 <= i < part.len() implies !reasoning::shows_reasoning(
                    #[trigger] part[i],
                ) by {
                    if i < n {
                        assert(part[i] == all.take(n)[i]);
                    }
                }
            }
        }
        if stopped || (disabled && shows) {
            stopped = true;
        } else {
            let ghost done = types::stream_views(out@);
            let ghost shown = event@;
            if out.len() == 0 {
                out.push(ProviderEvent::ResponseCacheHit);
            }
            out.push(event);
            assert(types::stream_views(out@) =~= (if done.len() == 0 {
                seq![StreamView::ResponseCacheHit]
            } else {
                done
            }).push(shown));
        }
    }
    assert(all.take(all.len() as int) =~= all);
    if stopped {
        (out, Err(reasoning::reasoning_disabled_violation()))
    } else {
        (out, Ok(()))
    }
}

} // verus!
