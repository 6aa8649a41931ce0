//! The ledger of a session's events and the bounded queue that shows them.
//!
//! The queue is a plain value: whoever shares it between threads locks it around
//! each call, and waits where a call says so.
use std::collections::VecDeque;
use vstd::prelude::*;
use vstd::string::*;

use crate::events;
use crate::events::{EventKind, EventView, KindView, SessionEvent};
use crate::text;

verus! {

/// Most bytes of text that merged deltas come to.
pub const MAX_COALESCED_DELTA_BYTES: usize = 65_536;

/// Longest time that is counted, in nanoseconds: `2^64` seconds less one.
pub const LONGEST_WAIT: u128 = 18_446_744_073_709_551_615_999_999_999;

/// The event that an event and the one after it merge into, where they do:
/// stream deltas of one kind, and progress of one tool call.
pub open spec fn merged(tail: EventView, pending: EventView) -> Option<EventView> {
    match (tail.kind, pending.kind) {
        (
            KindView::AssistantTextDelta { text: a },
            KindView::AssistantTextDelta { text: b },
        ) => if text::byte_len(a) + text::byte_len(b) <= MAX_COALESCED_DELTA_BYTES {
            Some(EventView { seq: pending.seq, kind: KindView::AssistantTextDelta { text: a + b } })
        } else {
            None
        },
        (KindView::ReasoningDelta { text: a }, KindView::ReasoningDelta { text: b }) =>
            if text::byte_len(a) + text::byte_len(b) <= MAX_COALESCED_DELTA_BYTES {
            Some(EventView { seq: pending.seq, kind: KindView::ReasoningDelta { text: a + b } })
        } else {
            None
        },
        (
            KindView::ToolProgress { batch_id: b1, call_id: c1, .. },
            KindView::ToolProgress { batch_id: b2, call_id: c2, .. },
        ) => if b1 == b2 && c1 == c2 {
            Some(pending)
        } else {
            None
        },
        _ => None,
    }
}

/// Whether an event only serves display, so that a cancelled session may lose it.
pub open spec fn droppable(event: EventView) -> bool {
    event.kind is AssistantTextDelta || event.kind is ReasoningDelta || event.kind is ToolOutput
        || event.kind is ToolProgress
}

/// A list of events after one more, merged into the last where they merge.
pub open spec fn recorded(events: Seq<EventView>, event: EventView) -> Seq<EventView> {
    if events.len() > 0 && merged(events.last(), event) is Some {
        events.drop_last().push(merged(events.last(), event)->0)
    } else {
        events.push(event)
    }
}

fn within_limit(current: &String, more: &String) -> (r: bool)
    ensures
        r == (text::byte_len(current@) + text::byte_len(more@) <= MAX_COALESCED_DELTA_BYTES),
{
    let a: usize = text::byte_count(current.as_str());
    let b: usize = text::byte_count(more.as_str());
    a <= MAX_COALESCED_DELTA_BYTES && b <= MAX_COALESCED_DELTA_BYTES - a
}

fn joined(current: String, more: &String) -> (r: String)
    ensures
        r@ == current@ + more@,
{
    let mut current = current;
    current.append(more.as_str());
    current
}

/// Merges an event into the one before it where they merge; tells whether.
fn try_coalesce_event(tail: SessionEvent, pending: &SessionEvent) -> (r: (SessionEvent, bool))
    ensures
        r.1 == merged(tail@, pending@) is Some,
        r.0@ == match merged(tail@, pending@) {
            Some(event) => event,
            None => tail@,
        },
{
    match (tail.kind, &pending.kind) {
        (
            EventKind::AssistantTextDelta { text: current },
            EventKind::AssistantTextDelta { text: more },
        ) => if within_limit(&current, more) {
            let kind = EventKind::AssistantTextDelta { text: joined(current, more) };
            (SessionEvent { seq: pending.seq, kind }, true)
        } else {
            let kind = EventKind::AssistantTextDelta { text: current };
            (SessionEvent { seq: tail.seq, kind }, false)
        },
        (
            EventKind::ReasoningDelta { text: current },
            EventKind::ReasoningDelta { text: more },
        ) => if within_limit(&current, more) {
            let kind = EventKind::ReasoningDelta { text: joined(current, more) };
            (SessionEvent { seq: pending.seq, kind }, true)
        } else {
            let kind = EventKind::ReasoningDelta { text: current };
            (SessionEvent { seq: tail.seq, kind }, false)
        },
        (
            EventKind::ToolProgress {
                batch_id: tail_batch,
                call_id: tail_call,
                name: tail_name,
                preview: tail_preview,
            },
            EventKind::ToolProgress { batch_id, call_id, name, preview },
        ) => if text::same(tail_batch.as_str(), batch_id.as_str()) && text::same(
            tail_call.as_str(),
            call_id.as_str(),
        ) {
            let kind = EventKind::ToolProgress {
                batch_id: tail_batch,
                call_id: tail_call,
                name: name.clone(),
                preview: preview.clone(),
            };
            (SessionEvent { seq: pending.seq, kind }, true)
        } else {
            let kind = EventKind::ToolProgress {
                batch_id: tail_batch,
                call_id: tail_call,
                name: tail_name,
                preview: tail_preview,
            };
            (SessionEvent { seq: tail.seq, kind }, false)
        },
        (kind, _) => (SessionEvent { seq: tail.seq, kind }, false),
    }
}

/// Merges an event into the last of a list where they merge; tells whether.
fn coalesce_tail(list: &mut Vec<SessionEvent>, pending: &SessionEvent) -> (r: bool)
    ensures
        r == (old(list)@.len() > 0 && merged(
            events::event_views(old(list)@).last(),
            pending@,
        ) is Some),
        events::event_views(final(list)@) == if r {
            recorded(events::event_views(old(list)@), pending@)
        } else {
            events::event_views(old(list)@)
        },
{
    let ghost before = events::event_views(list@);
    match list.pop() {
        None => false,
        Some(tail) => {
            let ghost rest = events::event_views(list@);
            assert(rest =~= before.drop_last());
            let (event, done) = try_coalesce_event(tail, pending);
            let ghost short = list@;
            list.push(event);
            assert(events::event_views(list@) =~= events::event_views(short).push(event@));
            assert(before =~= before.drop_last().push(before.last()));
            done
        },
    }
}

/// Merges an event into the last of a queue where they merge; tells whether.
fn try_coalesce_tail(list: &mut VecDeque<SessionEvent>, pending: &SessionEvent) -> (r: bool)
    ensures
        r == (old(list)@.len() > 0 && merged(
            events::event_views(old(list)@).last(),
            pending@,
        ) is Some),
        events::event_views(final(list)@) == if r {
            recorded(events::event_views(old(list)@), pending@)
        } else {
            events::event_views(old(list)@)
        },
{
    let ghost before = events::event_views(list@);
    match list.pop_back() {
        None => false,
        Some(tail) => {
            let ghost rest = events::event_views(list@);
            assert(rest =~= before.drop_last());
            let (event, done) = try_coalesce_event(tail, pending);
            let ghost short = list@;
            list.push_back(event);
            assert(events::event_views(list@) =~= events::event_views(short).push(event@));
            assert(before =~= before.drop_last().push(before.last()));
            done
        },
    }
}

/// How the queue stands.
#[verifier::ext_equal]
pub struct QueueView {
    pub events: Seq<EventView>,
    pub capacity: usize,
    pub senders: usize,
    pub receiver_alive: bool,
    pub high_watermark: usize,
    pub send_wait_count: u64,
    pub send_wait_duration: u128,
    pub coalesced_events: u64,
}

/// The queue between the session and what shows it.
pub struct EventQueue {
    events: VecDeque<SessionEvent>,
    capacity: usize,
    senders: usize,
    receiver_alive: bool,
    high_watermark: usize,
    send_wait_count: u64,
    send_wait_duration: u128,
    coalesced_events: u64,
}

impl View for EventQueue {
    type V = QueueView;

    closed spec fn view(&self) -> QueueView {
        QueueView {
            events: events::event_views(self.events@),
            capacity: self.capacity,
            senders: self.senders,
            receiver_alive: self.receiver_alive,
            high_watermark: self.high_watermark,
            send_wait_count: self.send_wait_count,
            send_wait_duration: self.send_wait_duration,
            coalesced_events: self.coalesced_events,
        }
    }
}

impl QueueView {
    /// What every queue keeps: room for one event at least, no more events than
    /// its capacity, and a high mark between the two.
    pub open spec fn wf(self) -> bool {
        &&& self.capacity >= 1
        &&& self.events.len() <= self.high_watermark <= self.capacity
    }

    /// The queue after it took an event in, where it can: merged into its last
    /// event, or behind it while there is room.
    pub open spec fn accepting(self, event: EventView) -> Option<QueueView> {
        if self.events.len() > 0 && merged(self.events.last(), event) is Some {
            Some(
                QueueView {
                    events: recorded(self.events, event),
                    coalesced_events: if self.coalesced_events == u64::MAX {
                        u64::MAX
                    } else {
                        (self.coalesced_events + 1) as u64
                    },
                    ..self
                },
            )
        } else if self.events.len() < self.capacity {
            Some(
                QueueView {
                    events: self.events.push(event),
                    high_watermark: if self.high_watermark < self.events.len() + 1 {
                        (self.events.len() + 1) as usize
                    } else {
                        self.high_watermark
                    },
                    ..self
                },
            )
        } else {
            None
        }
    }
}

/// The counters of a queue. The time spent waiting is in nanoseconds.
#[derive(Clone, Copy, Debug, PartialEq, Eq, Structural)]
pub struct EventQueueStats {
    pub capacity: usize,
    pub queued: usize,
    pub high_watermark: usize,
    pub send_wait_count: u64,
    pub send_wait_duration: u128,
    pub coalesced_events: u64,
}

pub open spec fn stats_of(queue: QueueView) -> EventQueueStats {
    EventQueueStats {
        capacity: queue.capacity,
        queued: queue.events.len() as usize,
        high_watermark: queue.high_watermark,
        send_wait_count: queue.send_wait_count,
        send_wait_duration: queue.send_wait_duration,
        coalesced_events: queue.coalesced_events,
    }
}

/// Why an event was not taken; it comes back with the reason.
#[derive(Debug)]
pub enum TrySendError {
    Full(SessionEvent),
    Disconnected(SessionEvent),
}

/// What one attempt to deliver came to.
#[derive(Debug)]
pub enum SendOutcome {
    Sent,
    DroppedAfterCancellation,
    Disconnected,
    /// There is no room yet: wait and offer the event again.
    Waiting(SessionEvent),
}

/// Why there is nothing to receive.
#[derive(Clone, Copy, Debug, PartialEq, Eq, Structural)]
pub enum TryRecvError {
    Empty,
    Disconnected,
}

/// What one look for an event came to.
#[derive(Debug)]
pub enum Received {
    Event(SessionEvent),
    Disconnected,
    Timeout,
    /// Nothing yet: wait and look again.
    Wait,
}

/// The right to send on a queue.
#[derive(Debug)]
pub struct SessionEventSender;

/// The right to receive from a queue.
#[derive(Debug)]
pub struct SessionEventReceiver;

/// The first event that a cancelled session may lose.
pub open spec fn first_droppable(events: Seq<EventView>, from: int) -> Option<int>
    decreases events.len() - from,
{
    if from < 0 || from >= events.len() {
        None
    } else if droppable(events[from]) {
        Some(from)
    } else {
        first_droppable(events, from + 1)
    }
}

fn is_cancel_droppable(event: &SessionEvent) -> (r: bool)
    ensures
        r == droppable(event@),
{
    match &event.kind {
        EventKind::AssistantTextDelta { .. } => true,
        EventKind::ReasoningDelta { .. } => true,
        EventKind::ToolOutput { .. } => true,
        EventKind::ToolProgress { .. } => true,
        _ => false,
    }
}

fn droppable_position(list: &VecDeque<SessionEvent>) -> (r: Option<usize>)
    ensures
        match r {
            Some(i) => i < list@.len() && first_droppable(events::event_views(list@), 0) == Some(
                i as int,
            ),
            None => first_droppable(events::event_views(list@), 0) is None,
        },
{
    let ghost all = events::event_views(list@);
    let mut i: usize = 0;
    while i < list.len()
        invariant
            i <= list@.len(),
            all == events::event_views(list@),
            first_droppable(all, 0) == first_droppable(all, i as int),
        decreases list@.len() - i,
    {
        if is_cancel_droppable(&list[i]) {
            return Some(i);
        }
        i = i + 1;
    }
    None
}

impl EventQueue {
    /// Takes an event in where the queue can; else it comes back.
    fn accept(&mut self, event: SessionEvent) -> (r: Option<SessionEvent>)
        ensures
            match old(self)@.accepting(event@) {
                Some(queue) => r is None && final(self)@ == queue,
                None => r == Some(event) && final(self)@ == old(self)@,
            },
    {
        if try_coalesce_tail(&mut self.events, &event) {
            self.coalesced_events = self.coalesced_events.saturating_add(1);
            return None;
        }
        if self.events.len() >= self.capacity {
            return Some(event);
        }
        let ghost before = self.events@;
        self.events.push_back(event);
        assert(events::event_views(self.events@) =~= events::event_views(before).push(event@));
        if self.high_watermark < self.events.len() {
            self.high_watermark = self.events.len();
        }
        None
    }

    /// Records that a sender waited for room, for so many nanoseconds.
    pub fn waited(&mut self, duration: u128)
        ensures
            final(self)@ == (QueueView {
                send_wait_count: if old(self)@.send_wait_count == u64::MAX {
                    u64::MAX
                } else {
                    (old(self)@.send_wait_count + 1) as u64
                },
                send_wait_duration: if old(self)@.send_wait_duration + duration > LONGEST_WAIT {
                    LONGEST_WAIT
                } else {
                    (old(self)@.send_wait_duration + duration) as u128
                },
                ..old(self)@
            }),
    {
        self.send_wait_count = self.send_wait_count.saturating_add(1);
        let total: u128 = self.send_wait_duration.saturating_add(duration);
        self.send_wait_duration = if total > LONGEST_WAIT {
            LONGEST_WAIT
        } else {
            total
        };
    }

    fn stats(&self) -> (r: EventQueueStats)
        ensures
            r == stats_of(self@),
    {
        EventQueueStats {
            capacity: self.capacity,
            queued: self.events.len(),
            high_watermark: self.high_watermark,
            send_wait_count: self.send_wait_count,
            send_wait_duration: self.send_wait_duration,
            coalesced_events: self.coalesced_events,
        }
    }

    fn pop(&mut self) -> (r: Option<SessionEvent>)
        ensures
            match r {
                Some(event) => old(self)@.events.len() > 0 && event@ == old(self)@.events[0]
                    && final(self)@ == (QueueView {
                    events: old(self)@.events.drop_first(),
                    ..old(self)@
                }),
                None => old(self)@.events.len() == 0 && final(self)@ == old(self)@,
            },
    {
        let ghost before = events::event_views(self.events@);
        let event = self.events.pop_front();
        assert(event is Some ==> events::event_views(self.events@) =~= before.drop_first());
        event
    }
}

/// The queue after an event was offered to it.
pub open spec fn offered(queue: QueueView, event: EventView, cancelled: bool) -> QueueView {
    if !queue.receiver_alive {
        queue
    } else {
        match queue.accepting(event) {
            Some(after) => after,
            None => if cancelled && !droppable(event) && first_droppable(queue.events, 0) is Some {
                QueueView {
                    events: queue.events.remove(first_droppable(queue.events, 0)->0).push(event),
                    ..queue
                }
            } else {
                queue
            },
        }
    }
}

/// What became of an event that was offered.
pub open spec fn outcome_of(
    queue: QueueView,
    event: SessionEvent,
    cancelled: bool,
    outcome: SendOutcome,
) -> bool {
    if !queue.receiver_alive {
        outcome is Disconnected
    } else if queue.accepting(event@) is Some {
        outcome is Sent
    } else if cancelled && droppable(event@) {
        outcome is DroppedAfterCancellation
    } else if cancelled && first_droppable(queue.events, 0) is Some {
        outcome is Sent
    } else {
        outcome == SendOutcome::Waiting(event)
    }
}

impl SessionEventSender {
    /// A queue for `capacity` events, one at least, with its two ends.
    pub fn bounded(capacity: usize) -> (r: (SessionEventSender, SessionEventReceiver, EventQueue))
        ensures
            r.2@ == (QueueView {
                events: Seq::empty(),
                capacity: if capacity == 0 {
                    1
                } else {
                    capacity
                },
                senders: 1,
                receiver_alive: true,
                high_watermark: 0,
                send_wait_count: 0,
                send_wait_duration: 0,
                coalesced_events: 0,
            }),
            r.2@.wf(),
    {
        let list: VecDeque<SessionEvent> = VecDeque::new();
        assert(events::event_views(list@) =~= Seq::empty());
        let queue = EventQueue {
            events: list,
            capacity: if capacity == 0 {
                1
            } else {
                capacity
            },
            senders: 1,
            receiver_alive: true,
            high_watermark: 0,
            send_wait_count: 0,
            send_wait_duration: 0,
            coalesced_events: 0,
        };
        (SessionEventSender, SessionEventReceiver, queue)
    }

    /// Sends an event without waiting. One that is not taken comes back.
    pub fn try_send(&self, queue: &mut EventQueue, event: SessionEvent) -> (r: Result<
        (),
        TrySendError,
    >)
        ensures
            old(queue)@.wf() ==> final(queue)@.wf(),
            if !old(queue)@.receiver_alive {
                r == Err::<(), TrySendError>(TrySendError::Disconnected(event)) && final(queue)@
                    == old(queue)@
            } else {
                match old(queue)@.accepting(event@) {
                    Some(after) => r is Ok && final(queue)@ == after,
                    None => r == Err::<(), TrySendError>(TrySendError::Full(event))
                        && final(queue)@ == old(queue)@,
                }
            },
    {
        if !queue.receiver_alive {
            return Err(TrySendError::Disconnected(event));
        }
        match queue.accept(event) {
            None => Ok(()),
            Some(event) => Err(TrySendError::Full(event)),
        }
    }

    /// One attempt to deliver an event. Where there is no room the event waits;
    /// once the session is cancelled, events that only serve display give way.
    pub fn offer(&self, queue: &mut EventQueue, event: SessionEvent, cancelled: bool) -> (r:
        SendOutcome)
        ensures
            old(queue)@.wf() ==> final(queue)@.wf(),
            final(queue)@ == offered(old(queue)@, event@, cancelled),
            outcome_of(old(queue)@, event, cancelled, r),
    {
        if !queue.receiver_alive {
            return SendOutcome::Disconnected;
        }
        match queue.accept(event) {
            None => SendOutcome::Sent,
            Some(event) => {
                if !cancelled {
                    return SendOutcome::Waiting(event);
                }
                if is_cancel_droppable(&event) {
                    return SendOutcome::DroppedAfterCancellation;
                }
                match droppable_position(&queue.events) {
                    None => SendOutcome::Waiting(event),
                    Some(i) => {
                        let ghost before = events::event_views(queue.events@);
                        let _ = queue.events.remove(i);
                        assert(events::event_views(queue.events@) =~= before.remove(i as int));
                        queue.events.push_back(event);
                        assert(events::event_views(queue.events@) =~= before.remove(
                            i as int,
                        ).push(event@));
                        SendOutcome::Sent
                    },
                }
            },
        }
    }

    pub fn stats(&self, queue: &EventQueue) -> (r: EventQueueStats)
        ensures
            r == stats_of(queue@),
    {
        queue.stats()
    }

    /// Another sender on the same queue.
    pub fn duplicate(&self, queue: &mut EventQueue) -> (r: SessionEventSender)
        requires
            old(queue)@.senders < usize::MAX,
        ensures
            final(queue)@ == (QueueView {
                senders: (old(queue)@.senders + 1) as usize,
                ..old(queue)@
            }),
    {
        queue.senders = queue.senders + 1;
        SessionEventSender
    }

    /// Gives a sender up.
    pub fn release(self, queue: &mut EventQueue)
        ensures
            final(queue)@ == (QueueView {
                senders: if old(queue)@.senders == 0 {
                    0
                } else {
                    (old(queue)@.senders - 1) as usize
                },
                ..old(queue)@
            }),
    {
        queue.senders = queue.senders.saturating_sub(1);
    }
}

impl SessionEventReceiver {
    pub fn stats(&self, queue: &EventQueue) -> (r: EventQueueStats)
        ensures
            r == stats_of(queue@),
    {
        queue.stats()
    }

    /// One look for an event, by a receiver that waits for as long as it takes.
    pub fn recv(&self, queue: &mut EventQueue) -> (r: Received)
        ensures
            old(queue)@.wf() ==> final(queue)@.wf(),
            if old(queue)@.events.len() > 0 {
                &&& r matches Received::Event(event) && event@ == old(queue)@.events[0]
                &&& final(queue)@ == (QueueView {
                    events: old(queue)@.events.drop_first(),
                    ..old(queue)@
                })
            } else {
                &&& final(queue)@ == old(queue)@
                &&& r == if old(queue)@.senders == 0 {
                    Received::Disconnected
                } else {
                    Received::Wait
                }
            },
    {
        match queue.pop() {
            Some(event) => Received::Event(event),
            None => if queue.senders == 0 {
                Received::Disconnected
            } else {
                Received::Wait
            },
        }
    }

    /// Receives without waiting.
    pub fn try_recv(&self, queue: &mut EventQueue) -> (r: Result<SessionEvent, TryRecvError>)
        ensures
            old(queue)@.wf() ==> final(queue)@.wf(),
            if old(queue)@.events.len() > 0 {
                &&& r matches Ok(event) && event@ == old(queue)@.events[0]
                &&& final(queue)@ == (QueueView {
                    events: old(queue)@.events.drop_first(),
                    ..old(queue)@
                })
            } else {
                &&& final(queue)@ == old(queue)@
                &&& r == Err::<SessionEvent, TryRecvError>(
                    if old(queue)@.senders == 0 {
                        TryRecvError::Disconnected
                    } else {
                        TryRecvError::Empty
                    },
                )
            },
    {
        match queue.pop() {
            Some(event) => Ok(event),
            None => if queue.senders == 0 {
                Err(TryRecvError::Disconnected)
            } else {
                Err(TryRecvError::Empty)
            },
        }
    }

    /// One look for an event, by a receiver that is told whether its time is up.
    pub fn recv_timeout(&self, queue: &mut EventQueue, time_is_up: bool) -> (r: Received)
        ensures
            old(queue)@.wf() ==> final(queue)@.wf(),
            if old(queue)@.events.len() > 0 {
                &&& r matches Received::Event(event) && event@ == old(queue)@.events[0]
                &&& final(queue)@ == (QueueView {
                    events: old(queue)@.events.drop_first(),
                    ..old(queue)@
                })
            } else {
                &&& final(queue)@ == old(queue)@
                &&& r == if old(queue)@.senders == 0 {
                    Received::Disconnected
                } else if time_is_up {
                    Received::Timeout
                } else {
                    Received::Wait
                }
            },
    {
        match queue.pop() {
            Some(event) => Received::Event(event),
            None => if queue.senders == 0 {
                Received::Disconnected
            } else if time_is_up {
                Received::Timeout
            } else {
                Received::Wait
            },
        }
    }

    /// All events that wait, in their order.
    pub fn try_iter(&self, queue: &mut EventQueue) -> (r: Vec<SessionEvent>)
        ensures
            events::event_views(r@) == old(queue)@.events,
            final(queue)@ == (QueueView { events: Seq::empty(), ..old(queue)@ }),
    {
        let ghost all = queue.events@;
        let mut taken: Vec<SessionEvent> = Vec::new();
        while queue.events.len() > 0
            invariant
                taken@ + queue.events@ =~= all,
                queue@ == (QueueView {
                    events: events::event_views(queue.events@),
                    ..old(queue)@
                }),
            decreases queue.events@.len(),
        {
            match queue.events.pop_front() {
                Some(event) => taken.push(event),
                None => {},
            }
        }
        assert(taken@ =~= all);
        assert(events::event_views(queue.events@) =~= Seq::empty());
        taken
    }

    /// Closes the receiving end.
    pub fn close(self, queue: &mut EventQueue)
        ensures
            final(queue)@ == (QueueView { receiver_alive: false, ..old(queue)@ }),
    {
        queue.receiver_alive = false;
    }
}

/// The events that a cancelled session must not lose, in their order.
pub open spec fn causal(events: Seq<EventView>) -> Seq<EventView>
    decreases events.len(),
{
    if events.len() == 0 {
        Seq::empty()
    } else if droppable(events.last()) {
        causal(events.drop_last())
    } else {
        causal(events.drop_last()).push(events.last())
    }
}

proof fn lemma_causal_push(events: Seq<EventView>, event: EventView)
    ensures
        causal(events.push(event)) == if droppable(event) {
            causal(events)
        } else {
            causal(events).push(event)
        },
{
    assert(events.push(event).drop_last() =~= events);
}

proof fn lemma_causal_remove(events: Seq<EventView>, i: int)
    requires
        0 <= i < events.len(),
        droppable(events[i]),
    ensures
        causal(events.remove(i)) == causal(events),
    decreases events.len(),
{
    if i == events.len() - 1 {
        assert(events.remove(i) =~= events.drop_last());
    } else {
        lemma_causal_remove(events.drop_last(), i);
        assert(events.remove(i) =~= events.drop_last().remove(i).push(events.last()));
        lemma_causal_push(events.drop_last().remove(i), events.last());
    }
}

proof fn lemma_first_droppable(events: Seq<EventView>, from: int)
    requires
        0 <= from,
    ensures
        first_droppable(events, from) matches Some(i) ==> from <= i < events.len() && droppable(
            events[i],
        ),
    decreases events.len() - from,
{
    if from < events.len() && !droppable(events[from]) {
        lemma_first_droppable(events, from + 1);
    }
}

/// Offering an event loses no other event that a session must not lose, and
/// not the event itself, unless it has to wait: also after a cancellation.
pub proof fn law_offers_keep_causal_events(queue: QueueView, event: EventView, cancelled: bool)
    requires
        queue.receiver_alive,
    ensures
        droppable(event) ==> causal(offered(queue, event, cancelled).events) == causal(
            queue.events,
        ),
        !droppable(event) ==> {
            ||| causal(offered(queue, event, cancelled).events) == causal(queue.events).push(event)
            ||| offered(queue, event, cancelled) == queue
        },
{
    match queue.accepting(event) {
        Some(after) => {
            if queue.events.len() > 0 && merged(queue.events.last(), event) is Some {
                lemma_causal_push(
                    queue.events.drop_last(),
                    merged(queue.events.last(), event)->0,
                );
                assert(queue.events =~= queue.events.drop_last().push(queue.events.last()));
                lemma_causal_push(queue.events.drop_last(), queue.events.last());
            } else {
                lemma_causal_push(queue.events, event);
            }
        },
        None => {
            lemma_first_droppable(queue.events, 0);
            if cancelled && !droppable(event) && first_droppable(queue.events, 0) is Some {
                let i = first_droppable(queue.events, 0)->0;
                lemma_causal_remove(queue.events, i);
                lemma_causal_push(queue.events.remove(i), event);
            }
        },
    }
}

/// All assistant text that a list of events holds.
pub open spec fn assistant_text(events: Seq<EventView>) -> Seq<char>
    decreases events.len(),
{
    if events.len() == 0 {
        Seq::empty()
    } else {
        assistant_text(events.drop_last()) + match events.last().kind {
            KindView::AssistantTextDelta { text } => text,
            _ => Seq::empty(),
        }
    }
}

/// All reasoning text that a list of events holds.
pub open spec fn reasoning_text(events: Seq<EventView>) -> Seq<char>
    decreases events.len(),
{
    if events.len() == 0 {
        Seq::empty()
    } else {
        reasoning_text(events.drop_last()) + match events.last().kind {
            KindView::ReasoningDelta { text } => text,
            _ => Seq::empty(),
        }
    }
}

/// Merging loses no streamed text: a list holds the same assistant text and the
/// same reasoning text as one that keeps every event apart.
pub proof fn law_merging_keeps_text(events: Seq<EventView>, event: EventView)
    ensures
        assistant_text(recorded(events, event)) == assistant_text(events.push(event)),
        reasoning_text(recorded(events, event)) == reasoning_text(events.push(event)),
{
    reveal_with_fuel(assistant_text, 3);
    reveal_with_fuel(reasoning_text, 3);
    assert(events.push(event).drop_last() =~= events);
    if events.len() > 0 && merged(events.last(), event) is Some {
        let m = merged(events.last(), event)->0;
        assert(events.drop_last().push(m).drop_last() =~= events.drop_last());
        assert(assistant_text(recorded(events, event)) =~= assistant_text(events.push(event)));
        assert(reasoning_text(recorded(events, event)) =~= reasoning_text(events.push(event)));
    }
}

/// How a ledger stands.
#[verifier::ext_equal]
pub struct LedgerView {
    pub events: Seq<EventView>,
    pub last_event_seq: Option<u64>,
    pub attached: bool,
}

impl LedgerView {
    /// Whether the events stand in strictly rising order, none past the last
    /// sequence number that was taken.
    pub open spec fn wf(self) -> bool {
        &&& forall|i: int, j: int|
            0 <= i < j < self.events.len() ==> (#[trigger] self.events[i]).seq < (
            #[trigger] self.events[j]).seq
        &&& forall|i: int|
            0 <= i < self.events.len() ==> (self.last_event_seq is Some && (
            #[trigger] self.events[i]).seq <= self.last_event_seq->0)
    }

    /// Whether an event comes too late for the ledger.
    pub open spec fn stale(self, event: EventView) -> bool {
        self.last_event_seq is Some && event.seq <= self.last_event_seq->0
    }

    /// The ledger after an event.
    pub open spec fn recording(self, event: EventView) -> LedgerView {
        LedgerView {
            events: recorded(self.events, event),
            last_event_seq: Some(event.seq),
            attached: self.attached,
        }
    }
}

/// What became of an event that the ledger took.
#[derive(Debug)]
pub enum Delivery {
    /// The event was delivered, or needs no delivery.
    Done,
    /// The event waits for room: wait and resume.
    Waiting(SessionEvent),
}

/// The append-only ledger of a session, with the sender that shows its events.
pub struct AppHandle {
    events: Vec<SessionEvent>,
    last_event_seq: Option<u64>,
    event_sender: Option<SessionEventSender>,
}

impl View for AppHandle {
    type V = LedgerView;

    closed spec fn view(&self) -> LedgerView {
        LedgerView {
            events: events::event_views(self.events@),
            last_event_seq: self.last_event_seq,
            attached: self.event_sender is Some,
        }
    }
}

/// An event without the payload that the queue has already shown.
pub open spec fn cleared(event: EventView) -> EventView {
    let empty = Seq::<char>::empty();
    EventView {
        seq: event.seq,
        kind: match event.kind {
            KindView::AssistantTextDelta { .. } => KindView::AssistantTextDelta { text: empty },
            KindView::ReasoningDelta { .. } => KindView::ReasoningDelta { text: empty },
            KindView::ToolStarted { batch_id, call_id, name, .. } => KindView::ToolStarted {
                batch_id,
                call_id,
                name,
                arguments: empty,
            },
            KindView::ToolCall { name, .. } => KindView::ToolCall { name, arguments: empty },
            KindView::ProviderToolCall { id, name, .. } => KindView::ProviderToolCall {
                id,
                name,
                arguments: empty,
            },
            KindView::ToolOutput { batch_id, call_id, name, .. } => KindView::ToolOutput {
                batch_id,
                call_id,
                name,
                output: empty,
            },
            KindView::ToolProgress { batch_id, call_id, name, .. } => KindView::ToolProgress {
                batch_id,
                call_id,
                name,
                preview: empty,
            },
            KindView::QuestionRequired { request_id, options, persisted, .. } =>
                KindView::QuestionRequired { request_id, question: empty, options, persisted },
            other => other,
        },
    }
}

pub open spec fn all_cleared(events: Seq<EventView>) -> Seq<EventView> {
    events.map_values(|e: EventView| cleared(e))
}

/// The event with its payload released.
fn clear_payload(event: SessionEvent) -> (r: SessionEvent)
    ensures
        r@ == cleared(event@),
{
    let kind = match event.kind {
        EventKind::AssistantTextDelta { .. } => EventKind::AssistantTextDelta {
            text: String::new(),
        },
        EventKind::ReasoningDelta { .. } => EventKind::ReasoningDelta { text: String::new() },
        EventKind::ToolStarted { batch_id, call_id, name, .. } => EventKind::ToolStarted {
            batch_id,
            call_id,
            name,
            arguments: String::new(),
        },
        EventKind::ToolCall { name, .. } => EventKind::ToolCall { name, arguments: String::new() },
        EventKind::ProviderToolCall { id, name, .. } => EventKind::ProviderToolCall {
            id,
            name,
            arguments: String::new(),
        },
        EventKind::ToolOutput { batch_id, call_id, name, .. } => EventKind::ToolOutput {
            batch_id,
            call_id,
            name,
            output: String::new(),
        },
        EventKind::ToolProgress { batch_id, call_id, name, .. } => EventKind::ToolProgress {
            batch_id,
            call_id,
            name,
            preview: String::new(),
        },
        EventKind::QuestionRequired { request_id, options, persisted, .. } =>
            EventKind::QuestionRequired {
            request_id,
            question: String::new(),
            options,
            persisted,
        },
        other => other,
    };
    SessionEvent { seq: event.seq, kind }
}

/// Recording keeps a ledger in order.
proof fn lemma_recording_keeps_order(ledger: LedgerView, event: EventView)
    requires
        ledger.wf(),
        !ledger.stale(event),
    ensures
        ledger.recording(event).wf(),
{
    let after = ledger.recording(event);
    assert forall|i: int, j: int| 0 <= i < j < after.events.len() implies (
    #[trigger] after.events[i]).seq < (#[trigger] after.events[j]).seq by {
        assert(after.events[i] == ledger.events[i]);
        if j < after.events.len() - 1 {
            assert(after.events[j] == ledger.events[j]);
        }
    }
    assert forall|i: int| 0 <= i < after.events.len() implies (after.last_event_seq is Some && (
    #[trigger] after.events[i]).seq <= after.last_event_seq->0) by {
        if i < after.events.len() - 1 {
            assert(after.events[i] == ledger.events[i]);
        }
    }
}

impl AppHandle {
    /// An empty ledger that nothing shows.
    pub fn fake() -> (r: AppHandle)
        ensures
            r@ == (LedgerView { events: Seq::empty(), last_event_seq: None, attached: false }),
            r@.wf(),
    {
        let list: Vec<SessionEvent> = Vec::new();
        assert(events::event_views(list@) =~= Seq::empty());
        AppHandle { events: list, last_event_seq: None, event_sender: None }
    }

    /// Sends the events from now on.
    pub fn set_event_sender(&mut self, sender: SessionEventSender)
        ensures
            final(self)@ == (LedgerView { attached: true, ..old(self)@ }),
    {
        self.event_sender = Some(sender);
    }

    /// Takes an event into the ledger; refuses one that does not come later
    /// than the last.
    fn record(&mut self, event: &SessionEvent) -> (r: bool)
        ensures
            r == !old(self)@.stale(event@),
            final(self)@ == if r {
                old(self)@.recording(event@)
            } else {
                old(self)@
            },
            old(self)@.wf() ==> final(self)@.wf(),
    {
        let stale = match self.last_event_seq {
            Some(last) => event.seq <= last,
            None => false,
        };
        if stale {
            return false;
        }
        proof {
            if self@.wf() {
                lemma_recording_keeps_order(self@, event@);
            }
        }
        self.last_event_seq = Some(event.seq);
        if !coalesce_tail(&mut self.events, event) {
            let ghost before = self.events@;
            let copy = event.copy();
            self.events.push(copy);
            assert(events::event_views(self.events@) =~= events::event_views(before).push(event@));
        }
        true
    }

    /// One attempt to deliver an event that the ledger holds. A sender whose
    /// receiver is gone is given up.
    fn deliver(&mut self, queue: &mut EventQueue, event: SessionEvent, cancelled: bool) -> (r:
        Delivery)
        ensures
            old(queue)@.wf() ==> final(queue)@.wf(),
            if old(self)@.attached {
                &&& final(queue)@ == offered(old(queue)@, event@, cancelled)
                &&& final(self)@ == (LedgerView {
                    attached: old(queue)@.receiver_alive,
                    ..old(self)@
                })
                &&& r == if outcome_of(
                    old(queue)@,
                    event,
                    cancelled,
                    SendOutcome::Waiting(event),
                ) {
                    Delivery::Waiting(event)
                } else {
                    Delivery::Done
                }
            } else {
                &&& final(queue)@ == old(queue)@
                &&& final(self)@ == old(self)@
                &&& r is Done
            },
    {
        let outcome = match &self.event_sender {
            None => {
                return Delivery::Done;
            },
            Some(sender) => sender.offer(queue, event, cancelled),
        };
        match outcome {
            SendOutcome::Disconnected => {
                self.event_sender = None;
                Delivery::Done
            },
            SendOutcome::Waiting(event) => Delivery::Waiting(event),
            _ => Delivery::Done,
        }
    }

    /// Records an event and makes a first attempt to deliver it. One that waits
    /// for room comes back, to be resumed after a wait.
    pub fn push_event(
        &mut self,
        queue: &mut EventQueue,
        event: SessionEvent,
        cancelled: bool,
    ) -> (r: Result<Delivery, &'static str>)
        ensures
            old(queue)@.wf() ==> final(queue)@.wf(),
            old(self)@.wf() ==> final(self)@.wf(),
            if old(self)@.stale(event@) {
                &&& r matches Err(m) && m@ == "event sequence must increase"@
                &&& final(self)@ == old(self)@
                &&& final(queue)@ == old(queue)@
            } else if old(self)@.attached {
                &&& final(self)@ == (LedgerView {
                    attached: old(queue)@.receiver_alive,
                    ..old(self)@.recording(event@)
                })
                &&& final(queue)@ == offered(old(queue)@, event@, cancelled)
                &&& r == Ok::<Delivery, &'static str>(
                    if outcome_of(old(queue)@, event, cancelled, SendOutcome::Waiting(event)) {
                        Delivery::Waiting(event)
                    } else {
                        Delivery::Done
                    },
                )
            } else {
                &&& final(self)@ == old(self)@.recording(event@)
                &&& final(queue)@ == old(queue)@
                &&& r == Ok::<Delivery, &'static str>(Delivery::Done)
            },
    {
        if !self.record(&event) {
            return Err("event sequence must increase");
        }
        Ok(self.deliver(queue, event, cancelled))
    }

    /// Another attempt to deliver an event that waits.
    pub fn resume(&mut self, queue: &mut EventQueue, event: SessionEvent, cancelled: bool) -> (r:
        Delivery)
        ensures
            old(queue)@.wf() ==> final(queue)@.wf(),
            old(self)@.wf() ==> final(self)@.wf(),
            if old(self)@.attached {
                &&& final(queue)@ == offered(old(queue)@, event@, cancelled)
                &&& final(self)@ == (LedgerView {
                    attached: old(queue)@.receiver_alive,
                    ..old(self)@
                })
                &&& r == if outcome_of(
                    old(queue)@,
                    event,
                    cancelled,
                    SendOutcome::Waiting(event),
                ) {
                    Delivery::Waiting(event)
                } else {
                    Delivery::Done
                }
            } else {
                &&& final(queue)@ == old(queue)@
                &&& final(self)@ == old(self)@
                &&& r is Done
            },
    {
        self.deliver(queue, event, cancelled)
    }

    /// Records an event and shows it if there is room at once.
    pub fn push_transient_event(&mut self, queue: &mut EventQueue, event: SessionEvent) -> (r:
        Result<(), &'static str>)
        ensures
            old(queue)@.wf() ==> final(queue)@.wf(),
            old(self)@.wf() ==> final(self)@.wf(),
            if old(self)@.stale(event@) {
                &&& r matches Err(m) && m@ == "event sequence must increase"@
                &&& final(self)@ == old(self)@
                &&& final(queue)@ == old(queue)@
            } else {
                &&& r is Ok
                &&& final(self)@ == (LedgerView {
                    attached: old(self)@.attached && old(queue)@.receiver_alive,
                    ..old(self)@.recording(event@)
                })
                &&& final(queue)@ == if old(self)@.attached && old(queue)@.receiver_alive
                    && old(queue)@.accepting(event@) is Some {
                    old(queue)@.accepting(event@)->0
                } else {
                    old(queue)@
                }
            },
    {
        if !self.record(&event) {
            return Err("event sequence must increase");
        }
        let outcome = match &self.event_sender {
            None => {
                return Ok(());
            },
            Some(sender) => sender.try_send(queue, event),
        };
        match outcome {
            Err(TrySendError::Disconnected(_)) => {
                self.event_sender = None;
            },
            _ => {},
        }
        Ok(())
    }

    /// Takes the events out of the ledger.
    pub fn drain_events(&mut self) -> (r: Vec<SessionEvent>)
        ensures
            events::event_views(r@) == old(self)@.events,
            final(self)@ == (LedgerView { events: Seq::empty(), ..old(self)@ }),
            old(self)@.wf() ==> final(self)@.wf(),
    {
        let mut taken: Vec<SessionEvent> = Vec::new();
        std::mem::swap(&mut taken, &mut self.events);
        assert(events::event_views(self.events@) =~= Seq::empty());
        taken
    }

    /// Releases what the queue has already shown, where a sender is attached.
    pub fn discard_projected_payloads(&mut self)
        ensures
            final(self)@ == if old(self)@.attached {
                LedgerView { events: all_cleared(old(self)@.events), ..old(self)@ }
            } else {
                old(self)@
            },
            old(self)@.wf() ==> final(self)@.wf(),
    {
        if self.event_sender.is_none() {
            return;
        }
        let mut all: Vec<SessionEvent> = Vec::new();
        std::mem::swap(&mut all, &mut self.events);
        let ghost before = events::event_views(all@);
        let mut out: Vec<SessionEvent> = Vec::new();
        assert(events::event_views(out@) =~= all_cleared(before).take(0));
        for event in it: all
            invariant
                before == events::event_views(it.seq()),
                events::event_views(out@) == all_cleared(before).take(it.index() as int),
        {
            let ghost done = out@;
            let ghost k = it.index() as int;
            assert(event@ == before[k]);
            let smaller = clear_payload(event);
            out.push(smaller);
            assert(events::event_views(out@) =~= events::event_views(done).push(smaller@));
            assert(all_cleared(before).take(k + 1) =~= all_cleared(before).take(k).push(
                all_cleared(before)[k],
            ));
        }
        assert(all_cleared(before).take(before.len() as int) =~= all_cleared(before));
        self.events = out;
        proof {
            let ledger = old(self)@;
            if ledger.wf() {
                let after = self@;
                assert forall|i: int, j: int| 0 <= i < j < after.events.len() implies (
                #[trigger] after.events[i]).seq < (#[trigger] after.events[j]).seq by {
                    assert(ledger.events[i].seq < ledger.events[j].seq);
                }
                assert forall|i: int| 0 <= i < after.events.len() implies (
                after.last_event_seq is Some && (#[trigger] after.events[i]).seq
                    <= after.last_event_seq->0) by {
                    assert(ledger.events[i].seq <= ledger.last_event_seq->0);
                }
            }
        }
    }

    pub fn events(&self) -> (r: &[SessionEvent])
        ensures
            events::event_views(r@) == self@.events,
    {
        self.events.as_slice()
    }
}

} // verus!
