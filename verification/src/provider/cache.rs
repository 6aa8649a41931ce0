//! Answers that are kept to be given again: which can be, and how many.
use vstd::prelude::*;
use vstd::string::*;

use crate::arith;
use crate::json;
use crate::json::Json;
use crate::provider::adapter;
use crate::provider::adapter::ProviderAdapter;
use crate::provider::message;
use crate::provider::message::ProviderMessage;
use crate::provider::types;
use crate::provider::types::{ProviderEvent, StreamView};
use crate::text;

verus! {

/// Most events of an answer that is kept.
pub const MAX_CACHED_PROVIDER_EVENTS: usize = 4_096;

/// Most bytes of an answer that is kept.
pub const MAX_CACHED_PROVIDER_ENTRY_BYTES: usize = 2_097_152;

/// Most bytes of all answers that are kept.
pub const MAX_CACHED_PROVIDER_TOTAL_BYTES: usize = 8_388_608;

/// Most answers that are kept unless said otherwise.
pub const DEFAULT_PROVIDER_CACHE_CAPACITY: usize = 128;

pub open spec fn opt_bytes(s: Option<Seq<char>>) -> nat {
    match s {
        Some(t) => text::byte_len(t),
        None => 0,
    }
}

/// The bytes of an event's texts.
pub open spec fn text_bytes(event: StreamView) -> nat {
    match event {
        StreamView::ResponsesReasoning(state) => text::byte_len(json::json_text(state.item)),
        StreamView::ChatReasoning(state) => text::byte_len(state.content) + text::byte_len(
            state.model,
        ),
        StreamView::Stopped { reason } => text::byte_len(reason),
        StreamView::TextDelta(s) => text::byte_len(s),
        StreamView::ReasoningDelta(s) => text::byte_len(s),
        StreamView::ToolCallDelta { id, name, arguments, .. } => opt_bytes(id) + opt_bytes(name)
            + text::byte_len(arguments),
        StreamView::ToolCallComplete { id, name, arguments, .. } => text::byte_len(id)
            + text::byte_len(name) + text::byte_len(arguments),
        StreamView::ToolCall { name, arguments } => text::byte_len(name) + text::byte_len(
            arguments,
        ),
        StreamView::ToolCallStart { id, name, .. } => text::byte_len(id) + text::byte_len(name),
        StreamView::ToolCallInputDelta { partial_json, .. } => text::byte_len(partial_json),
        _ => 0,
    }
}

/// The bytes that keeping an event takes: its place and its texts, shrunk to their
/// length.
pub open spec fn event_bytes(event: StreamView) -> nat {
    vstd::layout::size_of::<ProviderEvent>() + text_bytes(event)
}

fn opt_count(s: &Option<String>) -> (r: u128)
    ensures
        r == opt_bytes(message::opt_text(*s)),
        r <= usize::MAX,
{
    match s {
        Some(t) => text::byte_count(t.as_str()) as u128,
        None => 0,
    }
}

fn count(s: &String) -> (r: u128)
    ensures
        r == text::byte_len(s@),
        r <= usize::MAX,
{
    text::byte_count(s.as_str()) as u128
}

/// The bytes that keeping an event takes.
pub fn provider_event_retained_bytes(event: &ProviderEvent) -> (r: u128)
    ensures
        r == event_bytes(event@),
        r <= 4 * usize::MAX,
{
    let place: u128 = core::mem::size_of::<ProviderEvent>() as u128;
    let texts: u128 = match event {
        ProviderEvent::ResponsesReasoning(state) => {
            let written = json::to_text(&state.item);
            count(&written)
        },
        ProviderEvent::ChatReasoning(state) => count(&state.content) + count(&state.model),
        ProviderEvent::Stopped { reason } => count(reason),
        ProviderEvent::TextDelta(s) => count(s),
        ProviderEvent::ReasoningDelta(s) => count(s),
        ProviderEvent::ToolCallDelta { id, name, arguments, .. } => opt_count(id) + opt_count(name)
            + count(arguments),
        ProviderEvent::ToolCallComplete { id, name, arguments, .. } => count(id) + count(name)
            + count(arguments),
        ProviderEvent::ToolCall { name, arguments } => count(name) + count(arguments),
        ProviderEvent::ToolCallStart { id, name, .. } => count(id) + count(name),
        ProviderEvent::ToolCallInputDelta { partial_json, .. } => count(partial_json),
        _ => 0,
    };
    place + texts
}

/// Whether an event holds texts that may have room to spare.
pub open spec fn holds_texts(event: StreamView) -> bool {
    match event {
        StreamView::ChatReasoning(_) => true,
        StreamView::Stopped { .. } => true,
        StreamView::TextDelta(_) => true,
        StreamView::ReasoningDelta(_) => true,
        StreamView::ToolCallDelta { .. } => true,
        StreamView::ToolCallComplete { .. } => true,
        StreamView::ToolCall { .. } => true,
        StreamView::ToolCallStart { .. } => true,
        StreamView::ToolCallInputDelta { .. } => true,
        _ => false,
    }
}

/// Whether the texts of an event may have room for so many bytes.
pub open spec fn may_have_room(event: StreamView, room: nat) -> bool {
    if holds_texts(event) {
        room >= text_bytes(event)
    } else {
        room == text_bytes(event)
    }
}

fn room(s: &String) -> (r: u128)
    ensures
        text::byte_len(s@) <= r <= usize::MAX,
{
    s.capacity() as u128
}

fn opt_room(s: &Option<String>) -> (r: u128)
    ensures
        opt_bytes(message::opt_text(*s)) <= r <= usize::MAX,
{
    match s {
        Some(t) => room(t),
        None => 0,
    }
}

/// The bytes that the texts of an event have room for.
pub fn text_room(event: &ProviderEvent) -> (r: u128)
    ensures
        may_have_room(event@, r as nat),
{
    match event {
        ProviderEvent::ResponsesReasoning(state) => {
            let written = json::to_text(&state.item);
            count(&written)
        },
        ProviderEvent::ChatReasoning(state) => room(&state.content) + room(&state.model),
        ProviderEvent::Stopped { reason } => room(reason),
        ProviderEvent::TextDelta(s) => room(s),
        ProviderEvent::ReasoningDelta(s) => room(s),
        ProviderEvent::ToolCallDelta { id, name, arguments, .. } => opt_room(id) + opt_room(name)
            + room(arguments),
        ProviderEvent::ToolCallComplete { id, name, arguments, .. } => room(id) + room(name)
            + room(arguments),
        ProviderEvent::ToolCall { name, arguments } => room(name) + room(arguments),
        ProviderEvent::ToolCallStart { id, name, .. } => room(id) + room(name),
        ProviderEvent::ToolCallInputDelta { partial_json, .. } => room(partial_json),
        _ => 0,
    }
}

/// `Vec::capacity` gives the events that a list has room for, at least those that
/// it has. How many more there are rests on how `Vec` grows, and is left open.
#[verifier::external_body]
pub(crate) fn list_room(events: &Vec<ProviderEvent>) -> (r: usize)
    ensures
        r >= events@.len(),
{
    events.capacity()
}

/// The bytes of the places that a list has to spare.
pub open spec fn spare_bytes(room: nat, len: nat) -> nat {
    if room <= len {
        0
    } else {
        ((room - len) * vstd::layout::size_of::<ProviderEvent>()) as nat
    }
}

/// Whether one more event may be captured of an answer, which has so many events
/// and bytes: `texts` is what the texts of the event have room for.
pub fn may_capture(events: usize, bytes: usize, texts: u128) -> (r: bool)
    ensures
        r == (events < MAX_CACHED_PROVIDER_EVENTS && bytes + vstd::layout::size_of::<
            ProviderEvent,
        >() + texts <= MAX_CACHED_PROVIDER_ENTRY_BYTES),
{
    let place: u128 = core::mem::size_of::<ProviderEvent>() as u128;
    let bound: u128 = MAX_CACHED_PROVIDER_ENTRY_BYTES as u128;
    events < MAX_CACHED_PROVIDER_EVENTS && texts <= bound && bytes as u128 + place + texts <= bound
}

/// Whether the list of a captured answer has grown too large: it has so many
/// bytes and events, and room for so many.
pub fn list_outgrown(bytes: usize, room: usize, events: usize) -> (r: bool)
    ensures
        r == (bytes + spare_bytes(room as nat, events as nat) > MAX_CACHED_PROVIDER_ENTRY_BYTES),
{
    if room <= events {
        return bytes > MAX_CACHED_PROVIDER_ENTRY_BYTES;
    }
    let place: usize = core::mem::size_of::<ProviderEvent>();
    let spare: u128 = (room - events) as u128;
    proof {
        assert(spare * place <= 0xffff_ffff_ffff_ffff * 0xffff_ffff_ffff_ffff) by (nonlinear_arith)
            requires
                0 <= spare <= 0xffff_ffff_ffff_ffff,
                0 <= place <= 0xffff_ffff_ffff_ffff,
        ;
    }
    bytes as u128 + spare * (place as u128) > MAX_CACHED_PROVIDER_ENTRY_BYTES as u128
}

/// The events that belong to tool calls.
pub open spec fn is_call_event(event: StreamView) -> bool {
    match event {
        StreamView::ToolCallDelta { .. } => true,
        StreamView::ToolCallStart { .. } => true,
        StreamView::ToolCallInputDelta { .. } => true,
        StreamView::ToolCallComplete { .. } => true,
        StreamView::ToolCall { .. } => true,
        _ => false,
    }
}

pub fn is_tool_call_event(event: &ProviderEvent) -> (r: bool)
    ensures
        r == is_call_event(event@),
{
    match event {
        ProviderEvent::ToolCallDelta { .. } => true,
        ProviderEvent::ToolCallStart { .. } => true,
        ProviderEvent::ToolCallInputDelta { .. } => true,
        ProviderEvent::ToolCallComplete { .. } => true,
        ProviderEvent::ToolCall { .. } => true,
        _ => false,
    }
}

/// The reasons for which an answer ends well.
pub open spec fn good_end(reason: Seq<char>) -> bool {
    let word = text::lower(text::trim(reason));
    word == "stop"@ || word == "end_turn"@ || word == "stop_sequence"@ || word == "completed"@
        || word == "complete"@
}

pub fn is_cacheable_stop_reason(reason: &str) -> (r: bool)
    ensures
        r == good_end(reason@),
{
    let trimmed = text::trimmed(reason);
    let word = text::lowered(trimmed.as_str());
    text::same(word.as_str(), "stop") || text::same(word.as_str(), "end_turn") || text::same(
        word.as_str(),
        "stop_sequence",
    ) || text::same(word.as_str(), "completed") || text::same(word.as_str(), "complete")
}

/// What was seen of an answer that may be kept.
#[verifier::ext_equal]
pub struct KeepView {
    pub kept: Seq<StreamView>,
    pub stopped: bool,
    pub usage: Option<(u64, u64)>,
    pub input_complete: bool,
    pub output_complete: bool,
}

impl KeepView {
    pub open spec fn nothing() -> KeepView {
        KeepView {
            kept: Seq::empty(),
            stopped: false,
            usage: None,
            input_complete: false,
            output_complete: false,
        }
    }

    /// Whether usage is told for the first time or as before.
    pub open spec fn agrees(self, input_tokens: u64, output_tokens: u64) -> bool {
        self.usage is None || self.usage == Some((input_tokens, output_tokens))
    }

    /// What is seen after one more event; nothing where the answer cannot be
    /// kept. Usage is left out, for it is not used again; behind the end there
    /// may be nothing but usage.
    pub open spec fn after(self, event: StreamView) -> Option<KeepView> {
        if self.stopped {
            match event {
                StreamView::Usage { input_tokens, output_tokens } => if self.agrees(
                    input_tokens,
                    output_tokens,
                ) {
                    Some(KeepView { usage: Some((input_tokens, output_tokens)), ..self })
                } else {
                    None
                },
                StreamView::UsageBreakdown { .. } => Some(self),
                _ => None,
            }
        } else {
            match event {
                StreamView::Phase { .. } => Some(self),
                StreamView::ResponseCacheHit => None,
                StreamView::UsageBreakdown { .. } => Some(self),
                StreamView::Usage { input_tokens, output_tokens } => if self.agrees(
                    input_tokens,
                    output_tokens,
                ) {
                    Some(KeepView { usage: Some((input_tokens, output_tokens)), ..self })
                } else {
                    None
                },
                StreamView::UsagePartial { input_complete, output_complete, .. } => if self.usage
                    is Some || (input_complete && self.input_complete) || (output_complete
                    && self.output_complete) {
                    None
                } else {
                    Some(
                        KeepView {
                            input_complete: self.input_complete || input_complete,
                            output_complete: self.output_complete || output_complete,
                            ..self
                        },
                    )
                },
                StreamView::Stopped { reason } => if good_end(reason) {
                    Some(KeepView { stopped: true, kept: self.kept.push(event), ..self })
                } else {
                    None
                },
                _ => if is_call_event(event) {
                    None
                } else {
                    Some(KeepView { kept: self.kept.push(event), ..self })
                },
            }
        }
    }
}

/// What is seen of an answer; nothing where it cannot be kept.
pub open spec fn seen(events: Seq<StreamView>) -> Option<KeepView>
    decreases events.len(),
{
    if events.len() == 0 {
        Some(KeepView::nothing())
    } else {
        match seen(events.drop_last()) {
            Some(state) => state.after(events.last()),
            None => None,
        }
    }
}

/// The events that are bound to one request: tool calls, and reasoning that is
/// handed back.
pub open spec fn is_bound(event: StreamView) -> bool {
    is_call_event(event) || event is ResponsesReasoning || event is ChatReasoning
}

/// What is kept of an answer; nothing where it cannot be.
pub open spec fn keepable(events: Seq<StreamView>) -> Option<Seq<StreamView>> {
    if events.len() > MAX_CACHED_PROVIDER_EVENTS || (exists|i: int|
        0 <= i < events.len() && is_bound(#[trigger] events[i])) {
        None
    } else {
        match seen(events) {
            Some(state) => if state.stopped {
                Some(state.kept)
            } else {
                None
            },
            None => None,
        }
    }
}

/// An answer with a tool call is never kept.
pub proof fn law_tool_calls_are_never_kept(events: Seq<StreamView>, i: int)
    requires
        0 <= i < events.len(),
        is_call_event(events[i]),
    ensures
        keepable(events) is None,
{
    assert(is_bound(events[i]));
}

/// An answer that is kept ends well, and nothing stands behind its end.
pub proof fn law_kept_answers_end_well(events: Seq<StreamView>)
    ensures
        keepable(events) matches Some(kept) ==> kept.len() > 0 && kept.len() <= events.len() && (
        kept.last() matches StreamView::Stopped { reason } && good_end(reason)),
{
    if keepable(events) is Some {
        lemma_seen(events);
    }
}

proof fn lemma_seen(events: Seq<StreamView>)
    ensures
        seen(events) matches Some(state) ==> state.kept.len() <= events.len() && (state.stopped
            ==> state.kept.len() > 0 && (state.kept.last() matches StreamView::Stopped { reason }
            && good_end(reason))),
    decreases events.len(),
{
    if events.len() > 0 {
        lemma_seen(events.drop_last());
    }
}

struct Keeper {
    kept: Vec<ProviderEvent>,
    stopped: bool,
    usage: Option<(u64, u64)>,
    input_complete: bool,
    output_complete: bool,
}

impl View for Keeper {
    type V = KeepView;

    closed spec fn view(&self) -> KeepView {
        KeepView {
            kept: types::stream_views(self.kept@),
            stopped: self.stopped,
            usage: self.usage,
            input_complete: self.input_complete,
            output_complete: self.output_complete,
        }
    }
}

impl Keeper {
    fn agrees(&self, input_tokens: u64, output_tokens: u64) -> (r: bool)
        ensures
            r == self@.agrees(input_tokens, output_tokens),
    {
        match self.usage {
            Some((a, b)) => a == input_tokens && b == output_tokens,
            None => true,
        }
    }

    fn push(&mut self, event: ProviderEvent)
        ensures
            final(self)@ == (KeepView { kept: old(self)@.kept.push(event@), ..old(self)@ }),
    {
        let ghost done = self.kept@;
        let ghost shown = event@;
        self.kept.push(event);
        assert(types::stream_views(self.kept@) =~= types::stream_views(done).push(shown));
    }

    /// Takes an event in; whether the answer can still be kept.
    fn take(&mut self, event: ProviderEvent) -> (r: bool)
        ensures
            (match old(self)@.after(event@) {
                Some(state) => r && final(self)@ == state,
                None => !r,
            }),
    {
        if self.stopped {
            return match event {
                ProviderEvent::Usage { input_tokens, output_tokens } => {
                    if self.agrees(input_tokens, output_tokens) {
                        self.usage = Some((input_tokens, output_tokens));
                        true
                    } else {
                        false
                    }
                },
                ProviderEvent::UsageBreakdown { .. } => true,
                _ => false,
            };
        }
        match event {
            ProviderEvent::Phase { .. } => true,
            ProviderEvent::ResponseCacheHit => false,
            ProviderEvent::UsageBreakdown { .. } => true,
            ProviderEvent::Usage { input_tokens, output_tokens } => {
                if self.agrees(input_tokens, output_tokens) {
                    self.usage = Some((input_tokens, output_tokens));
                    true
                } else {
                    false
                }
            },
            ProviderEvent::UsagePartial { input_complete, output_complete, .. } => {
                if self.usage.is_some() || (input_complete && self.input_complete) || (
                output_complete && self.output_complete) {
                    false
                } else {
                    self.input_complete = self.input_complete || input_complete;
                    self.output_complete = self.output_complete || output_complete;
                    true
                }
            },
            ProviderEvent::Stopped { reason } => {
                if is_cacheable_stop_reason(reason.as_str()) {
                    self.stopped = true;
                    self.push(ProviderEvent::Stopped { reason });
                    true
                } else {
                    false
                }
            },
            other => {
                if is_tool_call_event(&other) {
                    false
                } else {
                    self.push(other);
                    true
                }
            },
        }
    }
}

/// What is kept of an answer; nothing where it cannot be.
pub fn prepare_cached_events(events: Vec<ProviderEvent>) -> (r: Option<Vec<ProviderEvent>>)
    ensures
        (match r {
            Some(kept) => keepable(types::stream_views(events@)) == Some(
                types::stream_views(kept@),
            ),
            None => keepable(types::stream_views(events@)) is None,
        }),
{
    let ghost all = types::stream_views(events@);
    if events.len() > MAX_CACHED_PROVIDER_EVENTS {
        return None;
    }
    let mut i: usize = 0;
    while i < events.len()
        invariant
            i <= events.len(),
            all == types::stream_views(events@),
            forall|k: int| 0 <= k < i ==> !is_bound(#[trigger] all[k]),
        decreases events.len() - i,
    {
        let bound = match &events[i] {
            ProviderEvent::ResponsesReasoning(_) => true,
            ProviderEvent::ChatReasoning(_) => true,
            _ => false,
        };
        assert(all[i as int] == events@[i as int]@);
        if bound || is_tool_call_event(&events[i]) {
            assert(is_bound(all[i as int]));
            return None;
        }
        i = i + 1;
    }
    let mut keeper = Keeper {
        kept: Vec::new(),
        stopped: false,
        usage: None,
        input_complete: false,
        output_complete: false,
    };
    assert(keeper@.kept =~= Seq::empty());
    assert(all.take(0) =~= Seq::empty());
    let ghost list = events@;
    for event in it: events
        invariant
            it.seq() == list,
            all == types::stream_views(list),
            all.len() <= MAX_CACHED_PROVIDER_EVENTS,
            forall|k: int| 0 <= k < all.len() ==> !is_bound(#[trigger] all[k]),
            seen(all.take(it.index())) == Some(keeper@),
    {
        let ghost n = it.index();
        assert(event == list[n]);
        assert(all.take(n + 1).drop_last() =~= all.take(n));
        assert(all.take(n + 1).last() == event@);
        if !keeper.take(event) {
            proof {
                lemma_seen_none(all, n + 1);
            }
            return None;
        }
    }
    assert(all.take(all.len() as int) =~= all);
    if keeper.stopped {
        Some(keeper.kept)
    } else {
        None
    }
}

proof fn lemma_seen_none(events: Seq<StreamView>, n: int)
    requires
        0 <= n <= events.len(),
        seen(events.take(n)) is None,
    ensures
        seen(events) is None,
    decreases events.len(),
{
    if n < events.len() {
        assert(events.drop_last().take(n) =~= events.take(n));
        lemma_seen_none(events.drop_last(), n);
    } else {
        assert(events.take(n) =~= events);
    }
}

/// Numbers of a cache.
#[derive(Clone, Copy, Debug, PartialEq, Eq, Structural)]
pub struct ProviderCacheStats {
    pub hits: u64,
    pub misses: u64,
    pub evictions: u64,
    pub entries: usize,
    pub retained_bytes: u64,
}

struct ProviderCacheEntry {
    key: String,
    events: Vec<ProviderEvent>,
    retained_bytes: usize,
}

/// An answer that is kept.
#[verifier::ext_equal]
pub struct EntryView {
    pub key: Seq<char>,
    pub events: Seq<StreamView>,
    pub bytes: nat,
}

impl View for ProviderCacheEntry {
    type V = EntryView;

    closed spec fn view(&self) -> EntryView {
        EntryView {
            key: self.key@,
            events: types::stream_views(self.events@),
            bytes: self.retained_bytes as nat,
        }
    }
}

closed spec fn entry_views(entries: Seq<ProviderCacheEntry>) -> Seq<EntryView> {
    entries.map_values(|e: ProviderCacheEntry| e@)
}

/// Answers that are kept, the one used last behind the others.
pub struct ProviderCache {
    entries: Vec<ProviderCacheEntry>,
    capacity: usize,
    hits: u64,
    misses: u64,
    evictions: u64,
}

#[verifier::ext_equal]
pub struct CacheView {
    pub entries: Seq<EntryView>,
    pub capacity: usize,
    pub hits: u64,
    pub misses: u64,
    pub evictions: u64,
}

impl View for ProviderCache {
    type V = CacheView;

    closed spec fn view(&self) -> CacheView {
        CacheView {
            entries: entry_views(self.entries@),
            capacity: self.capacity,
            hits: self.hits,
            misses: self.misses,
            evictions: self.evictions,
        }
    }
}

/// The bytes of all answers.
pub open spec fn total(entries: Seq<EntryView>) -> nat
    decreases entries.len(),
{
    if entries.len() == 0 {
        0
    } else {
        total(entries.drop_last()) + entries.last().bytes
    }
}

/// Where the answer to a key stands.
pub open spec fn entry_index(entries: Seq<EntryView>, key: Seq<char>, from: int) -> Option<int>
    decreases entries.len() - from,
{
    if from < 0 || from >= entries.len() {
        None
    } else if entries[from].key == key {
        Some(from)
    } else {
        entry_index(entries, key, from + 1)
    }
}

/// The answers without the one to a key.
pub open spec fn without_key(entries: Seq<EntryView>, key: Seq<char>) -> Seq<EntryView> {
    match entry_index(entries, key, 0) {
        Some(i) => entries.remove(i),
        None => entries,
    }
}

/// What is left when room is made for an answer: the oldest go first.
pub open spec fn with_room(entries: Seq<EntryView>, capacity: int, bytes: nat) -> Seq<EntryView>
    decreases entries.len(),
{
    if entries.len() > 0 && (entries.len() >= capacity || total(entries) + bytes
        > MAX_CACHED_PROVIDER_TOTAL_BYTES) {
        with_room(entries.skip(1), capacity, bytes)
    } else {
        entries
    }
}

/// The bytes that keeping events takes.
pub open spec fn events_bytes(events: Seq<StreamView>) -> nat
    decreases events.len(),
{
    if events.len() == 0 {
        0
    } else {
        events_bytes(events.drop_last()) + event_bytes(events.last())
    }
}

/// The bytes that keeping an answer takes.
pub open spec fn answer_bytes(key: Seq<char>, events: Seq<StreamView>) -> nat {
    text::byte_len(key) + events_bytes(events)
}

impl CacheView {
    /// What holds of every cache: one answer to a key, and never more than the
    /// bounds allow.
    pub open spec fn wf(self) -> bool {
        &&& self.capacity >= 1
        &&& self.entries.len() <= self.capacity
        &&& total(self.entries) <= MAX_CACHED_PROVIDER_TOTAL_BYTES
        &&& forall|i: int, j: int|
            0 <= i < j < self.entries.len() ==> (#[trigger] self.entries[i]).key != (
            #[trigger] self.entries[j]).key
    }

    /// Asking for an answer: it becomes the one used last.
    pub open spec fn asked(self, key: Seq<char>) -> (CacheView, Option<Seq<StreamView>>) {
        match entry_index(self.entries, key, 0) {
            Some(i) => (
                CacheView {
                    entries: self.entries.remove(i).push(self.entries[i]),
                    hits: arith::clamp64(self.hits + 1),
                    ..self
                },
                Some(self.entries[i].events),
            ),
            None => (CacheView { misses: arith::clamp64(self.misses + 1), ..self }, None),
        }
    }

    /// Keeping what can be kept of an answer, in place of an earlier one.
    pub open spec fn inserted(self, key: Seq<char>, events: Seq<StreamView>) -> CacheView {
        match keepable(events) {
            None => self,
            Some(kept) => {
                let bytes = answer_bytes(key, kept);
                if bytes > MAX_CACHED_PROVIDER_ENTRY_BYTES {
                    self
                } else {
                    let others = without_key(self.entries, key);
                    let rest = with_room(others, self.capacity as int, bytes);
                    CacheView {
                        entries: rest.push(EntryView { key, events: kept, bytes }),
                        evictions: arith::clamp64(self.evictions + (others.len() - rest.len())),
                        ..self
                    }
                }
            },
        }
    }

    /// Forgetting the answer to a key.
    pub open spec fn invalidated(self, key: Seq<char>) -> CacheView {
        CacheView { entries: without_key(self.entries, key), ..self }
    }

    pub open spec fn numbers(self) -> ProviderCacheStats {
        ProviderCacheStats {
            hits: self.hits,
            misses: self.misses,
            evictions: self.evictions,
            entries: self.entries.len() as usize,
            retained_bytes: arith::clamp64(total(self.entries) as int),
        }
    }
}

proof fn lemma_entry_index(entries: Seq<EntryView>, key: Seq<char>, from: int)
    requires
        0 <= from,
    ensures
        match entry_index(entries, key, from) {
            Some(i) => from <= i < entries.len() && entries[i].key == key && (forall|j: int|
                from <= j < i ==> (#[trigger] entries[j]).key != key),
            None => forall|j: int| from <= j < entries.len() ==> (#[trigger] entries[j]).key != key,
        },
    decreases entries.len() - from,
{
    if from < entries.len() && entries[from].key != key {
        lemma_entry_index(entries, key, from + 1);
    }
}

proof fn lemma_total_first(entries: Seq<EntryView>)
    requires
        entries.len() > 0,
    ensures
        total(entries) == entries[0].bytes + total(entries.skip(1)),
    decreases entries.len(),
{
    if entries.len() == 1 {
        assert(entries.skip(1) =~= Seq::empty());
        assert(entries.drop_last() =~= Seq::empty());
    } else {
        lemma_total_first(entries.drop_last());
        assert(entries.drop_last().skip(1) =~= entries.skip(1).drop_last());
    }
}

proof fn lemma_total_remove(entries: Seq<EntryView>, i: int)
    requires
        0 <= i < entries.len(),
    ensures
        total(entries.remove(i)) + entries[i].bytes == total(entries),
    decreases entries.len(),
{
    if i == entries.len() - 1 {
        assert(entries.remove(i) =~= entries.drop_last());
    } else {
        lemma_total_remove(entries.drop_last(), i);
        assert(entries.remove(i).drop_last() =~= entries.drop_last().remove(i));
        assert(entries.remove(i).last() == entries.last());
    }
}

proof fn lemma_with_room(entries: Seq<EntryView>, capacity: int, bytes: nat)
    requires
        capacity >= 1,
        bytes <= MAX_CACHED_PROVIDER_ENTRY_BYTES,
    ensures
        ({
            let r = with_room(entries, capacity, bytes);
            &&& r.len() <= entries.len()
            &&& r == entries.skip(entries.len() - r.len())
            &&& r.len() < capacity
            &&& total(r) + bytes <= MAX_CACHED_PROVIDER_TOTAL_BYTES
        }),
    decreases entries.len(),
{
    if entries.len() > 0 && (entries.len() >= capacity || total(entries) + bytes
        > MAX_CACHED_PROVIDER_TOTAL_BYTES) {
        lemma_with_room(entries.skip(1), capacity, bytes);
        let r = with_room(entries, capacity, bytes);
        assert(entries.skip(1).skip(entries.len() - 1 - r.len()) =~= entries.skip(
            entries.len() - r.len(),
        ));
    } else {
        assert(entries.skip(0) =~= entries);
    }
}

proof fn lemma_without_key(entries: Seq<EntryView>, key: Seq<char>)
    requires
        forall|i: int, j: int|
            0 <= i < j < entries.len() ==> (#[trigger] entries[i]).key != (
            #[trigger] entries[j]).key,
    ensures
        ({
            let r = without_key(entries, key);
            &&& r.len() <= entries.len()
            &&& total(r) <= total(entries)
            &&& forall|i: int| 0 <= i < r.len() ==> (#[trigger] r[i]).key != key
            &&& forall|i: int, j: int|
                0 <= i < j < r.len() ==> (#[trigger] r[i]).key != (#[trigger] r[j]).key
        }),
{
    lemma_entry_index(entries, key, 0);
    if let Some(i) = entry_index(entries, key, 0) {
        lemma_total_remove(entries, i);
        let r = entries.remove(i);
        assert forall|k: int| 0 <= k < r.len() implies (#[trigger] r[k]).key != key by {
            assert(r[k] == entries[if k < i {
                k
            } else {
                k + 1
            }]);
        }
    }
}

/// Keeping an answer leaves the cache within its bounds.
pub proof fn law_insert_keeps_the_bounds(
    cache: CacheView,
    key: Seq<char>,
    events: Seq<StreamView>,
)
    requires
        cache.wf(),
    ensures
        cache.inserted(key, events).wf(),
{
    if let Some(kept) = keepable(events) {
        let bytes = answer_bytes(key, kept);
        if bytes <= MAX_CACHED_PROVIDER_ENTRY_BYTES {
            let others = without_key(cache.entries, key);
            lemma_without_key(cache.entries, key);
            lemma_with_room(others, cache.capacity as int, bytes);
            let rest = with_room(others, cache.capacity as int, bytes);
            let gone = others.len() - rest.len();
            let after = cache.inserted(key, events);
            let entry = EntryView { key, events: kept, bytes };
            assert(after.entries == rest.push(entry));
            assert(rest.push(entry).drop_last() =~= rest);
            assert forall|k: int| 0 <= k < rest.len() implies #[trigger] rest[k] == others[gone
                + k] by {}
            assert(after.wf());
        }
    }
}

/// Asking for an answer leaves the cache within its bounds.
pub proof fn law_asking_keeps_the_bounds(cache: CacheView, key: Seq<char>)
    requires
        cache.wf(),
    ensures
        cache.asked(key).0.wf(),
{
    lemma_entry_index(cache.entries, key, 0);
    if let Some(i) = entry_index(cache.entries, key, 0) {
        let entries = cache.entries;
        let rest = entries.remove(i);
        let moved = rest.push(entries[i]);
        lemma_total_remove(entries, i);
        assert(moved.drop_last() =~= rest);
        assert forall|k: int| 0 <= k < moved.len() implies ({
            let j = if k == moved.len() - 1 {
                i
            } else if k < i {
                k
            } else {
                k + 1
            };
            #[trigger] moved[k] == entries[j]
        }) by {}
        assert(cache.asked(key).0.wf());
    }
}

/// An answer that was kept is given again.
pub proof fn law_kept_answer_is_given_again(
    cache: CacheView,
    key: Seq<char>,
    events: Seq<StreamView>,
)
    requires
        cache.wf(),
        keepable(events) is Some,
        answer_bytes(key, keepable(events)->0) <= MAX_CACHED_PROVIDER_ENTRY_BYTES,
    ensures
        cache.inserted(key, events).asked(key).1 == keepable(events),
{
    let after = cache.inserted(key, events);
    law_insert_keeps_the_bounds(cache, key, events);
    lemma_entry_index(after.entries, key, 0);
    let last = after.entries.len() - 1;
    assert(after.entries[last].key == key);
}

/// An answer that was forgotten is not given.
pub proof fn law_forgotten_answer_is_gone(cache: CacheView, key: Seq<char>)
    requires
        cache.wf(),
    ensures
        cache.invalidated(key).asked(key).1 is None,
        cache.invalidated(key).wf(),
{
    lemma_without_key(cache.entries, key);
    lemma_entry_index(without_key(cache.entries, key), key, 0);
}

/// Keeping an answer takes no other away that is newer than one it leaves: what
/// is left of the others are the newest of them.
pub proof fn law_oldest_answers_go_first(
    cache: CacheView,
    key: Seq<char>,
    events: Seq<StreamView>,
)
    requires
        cache.wf(),
        keepable(events) is Some,
        answer_bytes(key, keepable(events)->0) <= MAX_CACHED_PROVIDER_ENTRY_BYTES,
    ensures
        ({
            let others = without_key(cache.entries, key);
            let after = cache.inserted(key, events).entries;
            after.drop_last() == others.skip(others.len() - (after.len() - 1))
        }),
{
    let kept = keepable(events)->0;
    let bytes = answer_bytes(key, kept);
    let others = without_key(cache.entries, key);
    lemma_with_room(others, cache.capacity as int, bytes);
    let rest = with_room(others, cache.capacity as int, bytes);
    assert(rest.push(EntryView { key, events: kept, bytes }).drop_last() =~= rest);
}

impl ProviderCache {
    /// A cache for the usual number of answers.
    pub fn new() -> (r: ProviderCache)
        ensures
            r@ == (CacheView {
                entries: Seq::empty(),
                capacity: DEFAULT_PROVIDER_CACHE_CAPACITY,
                hits: 0,
                misses: 0,
                evictions: 0,
            }),
            r@.wf(),
    {
        ProviderCache::with_capacity(DEFAULT_PROVIDER_CACHE_CAPACITY)
    }

    /// A cache for a number of answers, one at least.
    pub fn with_capacity(capacity: usize) -> (r: ProviderCache)
        ensures
            r@ == (CacheView {
                entries: Seq::empty(),
                capacity: if capacity == 0 {
                    1
                } else {
                    capacity
                },
                hits: 0,
                misses: 0,
                evictions: 0,
            }),
            r@.wf(),
    {
        let r = ProviderCache {
            entries: Vec::new(),
            capacity: if capacity == 0 {
                1
            } else {
                capacity
            },
            hits: 0,
            misses: 0,
            evictions: 0,
        };
        assert(r@.entries =~= Seq::empty());
        r
    }

    fn position(&self, key: &str) -> (r: Option<usize>)
        ensures
            (match r {
                Some(i) => entry_index(self@.entries, key@, 0) == Some(i as int) && i
                    < self.entries@.len(),
                None => entry_index(self@.entries, key@, 0) is None,
            }),
    {
        let mut i: usize = 0;
        while i < self.entries.len()
            invariant
                i <= self.entries.len(),
                entry_index(self@.entries, key@, 0) == entry_index(
                    self@.entries,
                    key@,
                    i as int,
                ),
            decreases self.entries.len() - i,
        {
            assert(self@.entries[i as int] == self.entries@[i as int]@);
            if text::same(self.entries[i].key.as_str(), key) {
                return Some(i);
            }
            i = i + 1;
        }
        None
    }

    /// The answer to a key, which becomes the one used last.
    pub fn get(&mut self, key: &str) -> (r: Option<Vec<ProviderEvent>>)
        ensures
            ({
                let (after, answer) = old(self)@.asked(key@);
                &&& final(self)@ == after
                &&& match (r, answer) {
                    (Some(events), Some(views)) => types::stream_views(events@) == views,
                    (None, None) => true,
                    _ => false,
                }
            }),
            old(self)@.wf() ==> final(self)@.wf(),
    {
        let ghost before = self@;
        proof {
            if before.wf() {
                law_asking_keeps_the_bounds(before, key@);
            }
        }
        match self.position(key) {
            Some(i) => {
                assert(before.entries[i as int] == self.entries@[i as int]@);
                let entry = self.entries.remove(i);
                assert(entry_views(self.entries@) =~= before.entries.remove(i as int));
                let events = types::copy_events(&entry.events);
                let ghost shown = entry@;
                self.entries.push(entry);
                assert(entry_views(self.entries@) =~= before.entries.remove(i as int).push(shown));
                self.hits = self.hits.saturating_add(1);
                Some(events)
            },
            None => {
                self.misses = self.misses.saturating_add(1);
                None
            },
        }
    }

    fn bytes_for(key: &String, events: &Vec<ProviderEvent>) -> (r: Option<usize>)
        ensures
            (match r {
                Some(n) => n == answer_bytes(key@, types::stream_views(events@)) && n
                    <= MAX_CACHED_PROVIDER_ENTRY_BYTES,
                None => answer_bytes(key@, types::stream_views(events@))
                    > MAX_CACHED_PROVIDER_ENTRY_BYTES,
            }),
    {
        let ghost all = types::stream_views(events@);
        let bound: u128 = MAX_CACHED_PROVIDER_ENTRY_BYTES as u128;
        let mut sum: u128 = count(key);
        let mut i: usize = 0;
        assert(all.take(0) =~= Seq::empty());
        while i < events.len()
            invariant
                i <= events.len(),
                all == types::stream_views(events@),
                bound == MAX_CACHED_PROVIDER_ENTRY_BYTES,
                sum == text::byte_len(key@) + events_bytes(all.take(i as int)),
                sum <= usize::MAX,
            decreases events.len() - i,
        {
            if sum > bound {
                proof {
                    lemma_events_bytes_prefix(all, i as int);
                }
                return None;
            }
            let more: u128 = provider_event_retained_bytes(&events[i]);
            assert(all.take(i + 1).drop_last() =~= all.take(i as int));
            assert(all.take(i + 1).last() == events@[i as int]@);
            if sum + more > bound {
                proof {
                    lemma_events_bytes_prefix(all, i + 1);
                }
                return None;
            }
            sum = sum + more;
            i = i + 1;
        }
        assert(all.take(all.len() as int) =~= all);
        if sum > bound {
            None
        } else {
            Some(sum as usize)
        }
    }

    fn sum_of(&self) -> (r: u128)
        ensures
            r == total(self@.entries),
            r <= u128::MAX - 0x1_0000_0000,
    {
        let ghost all = self@.entries;
        let mut sum: u128 = 0;
        let mut i: usize = 0;
        assert(all.take(0) =~= Seq::empty());
        while i < self.entries.len()
            invariant
                i <= self.entries.len(),
                all == entry_views(self.entries@),
                sum == total(all.take(i as int)),
                sum <= i * (usize::MAX as u128),
            decreases self.entries.len() - i,
        {
            let bytes: u128 = self.entries[i].retained_bytes as u128;
            assert(all.take(i + 1).drop_last() =~= all.take(i as int));
            assert(all.take(i + 1).last() == self.entries@[i as int]@);
            proof {
                let m = usize::MAX as int;
                assert(i * m + m == (i + 1) * m) by (nonlinear_arith);
                assert((i + 1) * m <= m * m) by (nonlinear_arith)
                    requires
                        0 <= i + 1 <= m,
                ;
                assert(m * m < u128::MAX) by (nonlinear_arith)
                    requires
                        0 <= m <= 0xffff_ffff_ffff_ffff,
                ;
            }
            sum = sum + bytes;
            i = i + 1;
        }
        assert(all.take(all.len() as int) =~= all);
        proof {
            let m = usize::MAX as int;
            assert(i * m <= 0xffff_ffff_ffff_ffff * 0xffff_ffff_ffff_ffff) by (nonlinear_arith)
                requires
                    0 <= i <= m,
                    m <= 0xffff_ffff_ffff_ffff,
            ;
        }
        sum
    }

    /// Keeps what can be kept of an answer, in place of an earlier one; the
    /// oldest answers go where there is no room.
    pub fn insert(&mut self, key: String, events: Vec<ProviderEvent>)
        ensures
            final(self)@ == old(self)@.inserted(key@, types::stream_views(events@)),
            old(self)@.wf() ==> final(self)@.wf(),
    {
        let ghost before = self@;
        let ghost answer = types::stream_views(events@);
        let ghost name = key@;
        proof {
            if before.wf() {
                law_insert_keeps_the_bounds(before, name, answer);
            }
        }
        let kept = match prepare_cached_events(events) {
            Some(kept) => kept,
            None => return,
        };
        let ghost shown = types::stream_views(kept@);
        let bytes: usize = match ProviderCache::bytes_for(&key, &kept) {
            Some(bytes) => bytes,
            None => return,
        };
        if let Some(i) = self.position(key.as_str()) {
            self.entries.remove(i);
            assert(entry_views(self.entries@) =~= before.entries.remove(i as int));
        }
        let ghost others = without_key(before.entries, name);
        let mut gone: u64 = 0;
        assert(others == entry_views(self.entries@));
        assert(others.len() == self.entries.len());
        let mut sum: u128 = self.sum_of();
        while self.entries.len() > 0 && (self.entries.len() >= self.capacity || sum + bytes as u128
            > MAX_CACHED_PROVIDER_TOTAL_BYTES as u128)
            invariant
                bytes <= MAX_CACHED_PROVIDER_ENTRY_BYTES,
                sum == total(entry_views(self.entries@)),
                sum <= u128::MAX - 0x1_0000_0000,
                self.capacity == before.capacity,
                self.hits == before.hits,
                self.misses == before.misses,
                self.evictions == before.evictions,
                self.entries.len() <= others.len() <= usize::MAX,
                gone == others.len() - self.entries.len(),
                with_room(others, before.capacity as int, bytes as nat) == with_room(
                    entry_views(self.entries@),
                    before.capacity as int,
                    bytes as nat,
                ),
            decreases self.entries.len(),
        {
            let ghost start = entry_views(self.entries@);
            proof {
                lemma_total_first(start);
            }
            let oldest = self.entries.remove(0);
            assert(entry_views(self.entries@) =~= start.skip(1));
            assert(start[0] == oldest@);
            sum = sum - oldest.retained_bytes as u128;
            gone = gone + 1;
        }
        let ghost rest = entry_views(self.entries@);
        let entry = ProviderCacheEntry { key, events: kept, retained_bytes: bytes };
        let ghost new = entry@;
        self.entries.push(entry);
        assert(entry_views(self.entries@) =~= rest.push(new));
        self.evictions = self.evictions.saturating_add(gone);
    }

    /// Forgets the answer to a key; whether there was one.
    pub fn invalidate_key(&mut self, key: &str) -> (r: bool)
        ensures
            r == (entry_index(old(self)@.entries, key@, 0) is Some),
            final(self)@ == old(self)@.invalidated(key@),
            old(self)@.wf() ==> final(self)@.wf(),
    {
        let ghost before = self@;
        proof {
            if before.wf() {
                law_forgotten_answer_is_gone(before, key@);
            }
        }
        match self.position(key) {
            Some(i) => {
                self.entries.remove(i);
                assert(entry_views(self.entries@) =~= before.entries.remove(i as int));
                true
            },
            None => false,
        }
    }

    /// Forgets all answers.
    pub fn clear(&mut self)
        ensures
            final(self)@ == (CacheView { entries: Seq::empty(), ..old(self)@ }),
            old(self)@.wf() ==> final(self)@.wf(),
    {
        self.entries.clear();
        assert(self@.entries =~= Seq::empty());
    }

    /// How many answers are kept.
    pub fn len(&self) -> (r: usize)
        ensures
            r == self@.entries.len(),
    {
        self.entries.len()
    }

    pub fn is_empty(&self) -> (r: bool)
        ensures
            r == (self@.entries.len() == 0),
    {
        self.entries.len() == 0
    }

    pub fn stats(&self) -> (r: ProviderCacheStats)
        ensures
            r == self@.numbers(),
    {
        let sum: u128 = self.sum_of();
        ProviderCacheStats {
            hits: self.hits,
            misses: self.misses,
            evictions: self.evictions,
            entries: self.entries.len(),
            retained_bytes: if sum > u64::MAX as u128 {
                u64::MAX
            } else {
                sum as u64
            },
        }
    }

    /// The answer to a request of an adapter.
    pub fn get_for_adapter<A: ProviderAdapter>(
        &mut self,
        adapter: &A,
        messages: &Vec<ProviderMessage>,
        tools: &Vec<Json>,
        credential_scope: u128,
    ) -> (r: Option<Vec<ProviderEvent>>)
        ensures
            ({
                let key = adapter::adapter_key(
                    adapter,
                    message::views(messages@),
                    json::trees(tools@),
                    credential_scope,
                );
                let (after, answer) = old(self)@.asked(key);
                &&& final(self)@ == after
                &&& match (r, answer) {
                    (Some(events), Some(views)) => types::stream_views(events@) == views,
                    (None, None) => true,
                    _ => false,
                }
            }),
    {
        let key = adapter::cache_key_for_adapter_request(
            adapter,
            messages,
            tools,
            credential_scope,
        );
        self.get(key.as_str())
    }

    /// Keeps the answer to a request of an adapter.
    pub fn insert_for_adapter<A: ProviderAdapter>(
        &mut self,
        adapter: &A,
        messages: &Vec<ProviderMessage>,
        tools: &Vec<Json>,
        credential_scope: u128,
        events: Vec<ProviderEvent>,
    )
        ensures
            final(self)@ == old(self)@.inserted(
                adapter::adapter_key(
                    adapter,
                    message::views(messages@),
                    json::trees(tools@),
                    credential_scope,
                ),
                types::stream_views(events@),
            ),
    {
        let key = adapter::cache_key_for_adapter_request(
            adapter,
            messages,
            tools,
            credential_scope,
        );
        self.insert(key, events);
    }

    /// Forgets the answer to a request of an adapter.
    pub fn invalidate_for_adapter<A: ProviderAdapter>(
        &mut self,
        adapter: &A,
        messages: &Vec<ProviderMessage>,
        tools: &Vec<Json>,
        credential_scope: u128,
    ) -> (r: bool)
        ensures
            ({
                let key = adapter::adapter_key(
                    adapter,
                    message::views(messages@),
                    json::trees(tools@),
                    credential_scope,
                );
                &&& r == (entry_index(old(self)@.entries, key, 0) is Some)
                &&& final(self)@ == old(self)@.invalidated(key)
            }),
    {
        let key = adapter::cache_key_for_adapter_request(
            adapter,
            messages,
            tools,
            credential_scope,
        );
        self.invalidate_key(key.as_str())
    }
}

proof fn lemma_events_bytes_prefix(events: Seq<StreamView>, n: int)
    requires
        0 <= n <= events.len(),
    ensures
        events_bytes(events.take(n)) <= events_bytes(events),
    decreases events.len(),
{
    if n < events.len() {
        lemma_events_bytes_prefix(events.drop_last(), n);
        assert(events.drop_last().take(n) =~= events.take(n));
    } else {
        assert(events.take(n) =~= events);
    }
}

} // verus!
