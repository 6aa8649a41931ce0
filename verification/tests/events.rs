use slim_core::events::{EventKind, SessionEvent};
use slim_core::model::{
    AppHandle, Delivery, EventQueue, Received, SendOutcome, SessionEventSender, TryRecvError,
    TrySendError,
};
use slim_core::process::ProcessExecutionFacts;

fn usage(seq: u64, input_tokens: u64, output_tokens: u64) -> SessionEvent {
    SessionEvent::new(seq, EventKind::Usage { input_tokens, output_tokens })
}

fn text(seq: u64, text: &str) -> SessionEvent {
    SessionEvent::new(seq, EventKind::AssistantTextDelta { text: text.into() })
}

fn reasoning(seq: u64, text: &str) -> SessionEvent {
    SessionEvent::new(seq, EventKind::ReasoningDelta { text: text.into() })
}

fn output(seq: u64, output: &str) -> SessionEvent {
    SessionEvent::new(
        seq,
        EventKind::ToolOutput {
            batch_id: "batch".into(),
            call_id: "call".into(),
            name: "read".into(),
            output: output.into(),
        },
    )
}

fn finished(seq: u64, name: &str) -> SessionEvent {
    SessionEvent::new(
        seq,
        EventKind::ToolFinished {
            batch_id: "batch".into(),
            call_id: "call".into(),
            name: name.into(),
            success: false,
            duration_ms: 1,
        },
    )
}

fn push(app: &mut AppHandle, queue: &mut EventQueue, event: SessionEvent, cancelled: bool) {
    match app.push_event(queue, event, cancelled) {
        Ok(Delivery::Done) => {}
        Ok(Delivery::Waiting(_)) => panic!("the event waits"),
        Err(message) => panic!("{message}"),
    }
}

#[test]
fn bounded_sender_reports_full_at_exact_capacity() {
    let (sender, receiver, mut queue) = SessionEventSender::bounded(2);
    assert!(sender.try_send(&mut queue, usage(1, 1, 0)).is_ok());
    assert!(sender.try_send(&mut queue, usage(2, 2, 0)).is_ok());
    assert!(matches!(
        sender.try_send(&mut queue, usage(3, 3, 0)),
        Err(TrySendError::Full(_))
    ));
    assert_eq!(receiver.try_iter(&mut queue).len(), 2);
}

#[test]
fn adjacent_stream_deltas_coalesce_before_queue_backpressure() {
    let (sender, receiver, mut queue) = SessionEventSender::bounded(2);
    for seq in 1..=1_000 {
        assert!(sender.try_send(&mut queue, text(seq, "x")).is_ok());
    }
    let event = match receiver.try_recv(&mut queue) {
        Ok(event) => event,
        Err(_) => panic!("merged event"),
    };
    assert!(matches!(
        event.kind,
        EventKind::AssistantTextDelta { text } if text.len() == 1_000
    ));
    let stats = sender.stats(&queue);
    assert_eq!(stats.high_watermark, 1);
    assert_eq!(stats.coalesced_events, 999);
    assert_eq!(stats.send_wait_count, 0);
}

#[test]
fn cancellation_drops_only_visual_backlog_and_keeps_causal_sender() {
    let (sender, receiver, mut queue) = SessionEventSender::bounded(1);
    let mut app = AppHandle::fake();
    app.set_event_sender(sender);
    push(&mut app, &mut queue, text(1, "sent"), false);
    push(&mut app, &mut queue, reasoning(2, "dropped"), true);
    push(&mut app, &mut queue, output(3, "dropped preview"), true);
    assert_eq!(receiver.try_iter(&mut queue).len(), 1);

    push(&mut app, &mut queue, finished(4, "read"), true);
    match receiver.try_recv(&mut queue) {
        Ok(event) => assert!(matches!(event.kind, EventKind::ToolFinished { .. })),
        Err(_) => panic!("causal event"),
    }
    assert_eq!(app.events().len(), 4);
}

#[test]
fn cancellation_evicts_queued_visual_event_for_causal_suffix() {
    let (sender, receiver, mut queue) = SessionEventSender::bounded(1);
    let mut app = AppHandle::fake();
    app.set_event_sender(sender);
    push(&mut app, &mut queue, text(1, "discardable"), false);
    push(&mut app, &mut queue, usage(2, 3, 2), true);

    match receiver.try_recv(&mut queue) {
        Ok(event) => assert!(matches!(
            event.kind,
            EventKind::Usage { input_tokens: 3, output_tokens: 2 }
        )),
        Err(_) => panic!("causal suffix"),
    }
    assert_eq!(app.events().len(), 2, "ledger remains append-only");
}

#[test]
fn cancellation_keeps_process_facts_before_tool_terminal() {
    let (sender, receiver, mut queue) = SessionEventSender::bounded(1);
    let mut app = AppHandle::fake();
    app.set_event_sender(sender);
    let progress = SessionEvent::new(
        1,
        EventKind::ToolProgress {
            batch_id: "batch".into(),
            call_id: "call".into(),
            name: "shell".into(),
            preview: "running".into(),
        },
    );
    push(&mut app, &mut queue, progress, false);

    let facts = SessionEvent::new(
        2,
        EventKind::ToolProcessFinished {
            batch_id: "batch".into(),
            call_id: "call".into(),
            name: "shell".into(),
            process: ProcessExecutionFacts {
                exit_code: Some(1),
                timed_out: false,
                cancelled: true,
                stdout_bytes: 0,
                stderr_bytes: 0,
                stdout_discarded_bytes: 0,
                stderr_discarded_bytes: 0,
            },
        },
    );
    push(&mut app, &mut queue, facts, true);
    match receiver.try_recv(&mut queue) {
        Ok(event) => assert!(matches!(event.kind, EventKind::ToolProcessFinished { .. })),
        Err(_) => panic!("process fact survives cancellation"),
    }

    push(&mut app, &mut queue, finished(3, "shell"), true);
    match receiver.try_recv(&mut queue) {
        Ok(event) => assert!(matches!(event.kind, EventKind::ToolFinished { .. })),
        Err(_) => panic!("terminal event"),
    }
}

#[test]
fn tool_output_waits_for_space_instead_of_dropping() {
    let (sender, receiver, mut queue) = SessionEventSender::bounded(1);
    let mut app = AppHandle::fake();
    app.set_event_sender(sender);
    push(&mut app, &mut queue, usage(1, 1, 0), false);
    let waiting = match app.push_event(&mut queue, output(2, "complete result"), false) {
        Ok(Delivery::Waiting(event)) => event,
        _ => panic!("there is no room yet"),
    };
    match receiver.recv_timeout(&mut queue, false) {
        Received::Event(event) => assert!(matches!(event.kind, EventKind::Usage { .. })),
        _ => panic!("queued event"),
    }
    assert!(matches!(app.resume(&mut queue, waiting, false), Delivery::Done));
    match receiver.try_recv(&mut queue) {
        Ok(event) => assert!(matches!(
            event.kind,
            EventKind::ToolOutput { output, .. } if output == "complete result"
        )),
        Err(_) => panic!("tool output kept"),
    }
}

#[test]
fn discard_projected_payloads_releases_retained_buffers() {
    let (sender, _receiver, mut queue) = SessionEventSender::bounded(16);
    let mut app = AppHandle::fake();
    app.set_event_sender(sender);
    push(&mut app, &mut queue, output(1, &"x".repeat(16_384)), false);
    app.discard_projected_payloads();
    let output = app
        .events()
        .iter()
        .find_map(|event| match &event.kind {
            EventKind::ToolOutput { output, .. } => Some(output),
            _ => None,
        })
        .expect("tool output");
    assert!(output.is_empty());
    assert!(
        output.capacity() < 1024,
        "cleared payload must not retain a 16 KiB buffer"
    );
}

#[test]
fn ledger_coalesces_adjacent_stream_deltas() {
    let (_sender, _receiver, mut queue) = SessionEventSender::bounded(1);
    let mut app = AppHandle::fake();
    for seq in 1..=1_000 {
        push(&mut app, &mut queue, text(seq, "x"), false);
    }
    assert_eq!(app.events().len(), 1);
    let event = &app.events()[0];
    assert_eq!(event.seq, 1_000);
    assert!(matches!(
        &event.kind,
        EventKind::AssistantTextDelta { text } if text == &"x".repeat(1_000)
    ));
}

#[test]
fn ledger_coalescing_stops_at_any_boundary_event() {
    let (_sender, _receiver, mut queue) = SessionEventSender::bounded(1);
    let mut app = AppHandle::fake();
    push(&mut app, &mut queue, text(1, "a"), false);
    push(&mut app, &mut queue, usage(2, 1, 0), false);
    push(&mut app, &mut queue, text(3, "b"), false);
    push(&mut app, &mut queue, reasoning(4, "r"), false);
    push(&mut app, &mut queue, reasoning(5, "2"), false);
    assert_eq!(app.events().len(), 4);
    assert!(matches!(
        &app.events()[0].kind,
        EventKind::AssistantTextDelta { text } if text == "a"
    ));
    assert!(matches!(
        &app.events()[2].kind,
        EventKind::AssistantTextDelta { text } if text == "b"
    ));
    assert!(matches!(
        &app.events()[3].kind,
        EventKind::ReasoningDelta { text } if text == "r2"
    ));
    assert_eq!(app.events()[3].seq, 5);
}

#[test]
fn ledger_tool_progress_coalesces_only_matching_identity() {
    let (_sender, _receiver, mut queue) = SessionEventSender::bounded(1);
    let mut app = AppHandle::fake();
    let progress = |seq: u64, call_id: &str, name: &str, preview: &str| {
        SessionEvent::new(
            seq,
            EventKind::ToolProgress {
                batch_id: "batch".into(),
                call_id: call_id.into(),
                name: name.into(),
                preview: preview.into(),
            },
        )
    };
    push(&mut app, &mut queue, progress(1, "call", "read", "first"), false);
    push(&mut app, &mut queue, progress(2, "call", "write", "latest"), false);
    push(&mut app, &mut queue, progress(3, "other", "list", "other first"), false);
    push(&mut app, &mut queue, progress(4, "other", "list", "other latest"), false);
    assert_eq!(app.events().len(), 2);
    assert!(matches!(
        &app.events()[0].kind,
        EventKind::ToolProgress { preview, name, .. }
            if preview == "latest" && name == "write"
    ));
    assert_eq!(app.events()[0].seq, 2);
    assert!(matches!(
        &app.events()[1].kind,
        EventKind::ToolProgress { preview, .. } if preview == "other latest"
    ));
    assert_eq!(app.events()[1].seq, 4);
}

#[test]
fn events_out_of_order_are_refused() {
    let (_sender, _receiver, mut queue) = SessionEventSender::bounded(1);
    let mut app = AppHandle::fake();
    push(&mut app, &mut queue, usage(5, 1, 0), false);
    assert!(app.push_event(&mut queue, usage(5, 2, 0), false).is_err());
    assert_eq!(app.events().len(), 1);
    assert_eq!(app.drain_events().len(), 1);
    assert!(app.events().is_empty());
}

#[test]
fn a_closed_queue_takes_nothing_and_gives_what_it_has() {
    let (sender, receiver, mut queue) = SessionEventSender::bounded(2);
    assert!(matches!(sender.offer(&mut queue, usage(1, 1, 0), false), SendOutcome::Sent));
    let other = sender.duplicate(&mut queue);
    sender.release(&mut queue);
    assert!(matches!(receiver.recv(&mut queue), Received::Event(_)));
    assert!(matches!(receiver.recv(&mut queue), Received::Wait));
    assert!(matches!(receiver.recv_timeout(&mut queue, true), Received::Timeout));
    other.release(&mut queue);
    assert!(matches!(receiver.recv(&mut queue), Received::Disconnected));
    assert!(matches!(
        receiver.try_recv(&mut queue),
        Err(TryRecvError::Disconnected)
    ));

    let (sender, receiver, mut queue) = SessionEventSender::bounded(2);
    receiver.close(&mut queue);
    assert!(matches!(
        sender.try_send(&mut queue, usage(1, 1, 0)),
        Err(TrySendError::Disconnected(_))
    ));
    assert!(matches!(
        sender.offer(&mut queue, usage(1, 1, 0), false),
        SendOutcome::Disconnected
    ));
}

#[test]
fn waiting_is_counted() {
    let (sender, receiver, mut queue) = SessionEventSender::bounded(1);
    assert!(matches!(sender.offer(&mut queue, usage(1, 1, 0), false), SendOutcome::Sent));
    assert!(matches!(
        sender.offer(&mut queue, usage(2, 1, 0), false),
        SendOutcome::Waiting(_)
    ));
    queue.waited(7);
    let stats = receiver.stats(&queue);
    assert_eq!(stats.send_wait_count, 1);
    assert_eq!(stats.send_wait_duration, 7);
    assert_eq!(stats.capacity, 1);
    assert_eq!(stats.queued, 1);
}
