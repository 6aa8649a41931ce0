use slim_core::json;
use slim_core::json::Json;
use slim_core::provider::cache::{
    is_cacheable_stop_reason, list_outgrown, may_capture, prepare_cached_events, text_room,
    MAX_CACHED_PROVIDER_ENTRY_BYTES, MAX_CACHED_PROVIDER_EVENTS,
};
use slim_core::provider::forward::{
    coalesces_terminal_usage, merge_usage_breakdowns, replay_cached, StreamForwarder,
};
use slim_core::provider::reader::StreamReader;
use slim_core::provider::redactor::ProviderEventRedactor;
use slim_core::provider::sse::{
    checked_provider_stream_bytes, drain_sse, finish_sse, MAX_PROVIDER_STREAM_BYTES,
    MAX_SSE_LINE_BYTES,
};
use slim_core::provider::transport::{
    extend_error_body, read_refusal, timed_out, TransportSlots, MAX_ERROR_BODY_BYTES,
    MAX_TRANSPORTS,
};
use slim_core::provider::turn::{
    checked_provider_next_seq, close_request, learns_from, open_request, RequestUsage,
};
use slim_core::provider::{
    AnthropicAdapter, OpenAiCompatibleAdapter, ProviderCache, ProviderConfig,
    ProviderError, ProviderEvent, ProviderKind, ProviderMessage, ProviderPhase,
    ProviderTimeouts, UsageBreakdown,
};
use slim_core::runtime::tool_events_contain_sensitive_values;
use slim_core::EventKind;

fn parsed(text: &str) -> Json {
    json::parse(text).expect("json")
}

fn openai() -> OpenAiCompatibleAdapter {
    let config = ProviderConfig::openai(
        "https://host.example/v1/chat/completions".to_owned(),
        "fixture".to_owned(),
        "fixture-key".to_owned(),
        7,
    );
    match OpenAiCompatibleAdapter::new(config, false) {
        Ok(adapter) => adapter,
        Err(_) => panic!("adapter"),
    }
}

fn anthropic() -> AnthropicAdapter {
    let config = ProviderConfig::anthropic(
        "https://api.anthropic.com/v1/messages".to_owned(),
        "fixture".to_owned(),
        "fixture-key".to_owned(),
        7,
    );
    match AnthropicAdapter::new(config, "Vendor".to_owned()) {
        Ok(adapter) => adapter,
        Err(_) => panic!("adapter"),
    }
}

fn text(value: &str) -> ProviderEvent {
    ProviderEvent::TextDelta(value.to_owned())
}

fn stopped(reason: &str) -> ProviderEvent {
    ProviderEvent::Stopped { reason: reason.to_owned() }
}

const STREAM: &str = "data: {\"choices\":[{\"delta\":{\"content\":\"olá \"}}]}\r\n\r\n: ping\n\ndata: {\"choices\":[{\"delta\":{\"content\":\"mundo\"}}]}\n\ndata: {\"choices\":[{\"delta\":{},\"finish_reason\":\"stop\"}]}\n\ndata: [DONE]\n\n";

#[test]
fn a_stream_is_read_the_same_in_any_chunks() {
    let adapter = openai();
    let read = |size: usize| {
        let mut pending = Vec::new();
        let mut data = String::new();
        let mut events = Vec::new();
        let mut done = false;
        for chunk in STREAM.as_bytes().chunks(size) {
            pending.extend_from_slice(chunk);
            match drain_sse(&adapter, &mut pending, &mut data, &mut events) {
                Ok(ended) => done = done || ended,
                Err(_) => panic!("stream"),
            }
            if done {
                break;
            }
        }
        assert!(done);
        events
    };
    let whole = read(STREAM.len());
    assert!(whole[0] == text("olá "));
    assert!(whole.contains(&stopped("stop")));
    for size in [1, 2, 7, 64] {
        assert!(read(size) == whole, "{size}");
    }
}

#[test]
fn a_stream_may_end_without_a_last_line_feed() {
    let adapter = openai();
    let mut data = String::new();
    let mut events = Vec::new();
    let tail = b"data: {\"choices\":[{\"delta\":{\"content\":\"x\"}}]}".to_vec();
    assert!(finish_sse(&adapter, &tail, &mut data, &mut events, &Vec::new()).is_ok());
    assert!(events == vec![text("x")]);
    let broken = vec![0xff];
    assert!(
        finish_sse(&adapter, &broken, &mut String::new(), &mut Vec::new(), &Vec::new()).is_err()
    );
}

fn mark(phase: ProviderPhase, elapsed_ms: u64) -> ProviderEvent {
    ProviderEvent::Phase { phase, elapsed_ms }
}

#[test]
fn a_reader_marks_the_first_byte_and_the_first_piece_of_the_answer() {
    let adapter = openai();
    let mut reader = StreamReader::new(Vec::new());
    let first = reader.take_chunk(&adapter, b": ping\n\n", 3);
    assert!(first.events == vec![mark(ProviderPhase::FirstByte, 3)]);
    assert!(matches!(first.outcome, Ok(None)));
    assert!(!reader.saw_semantic());
    let line = "data: {\"choices\":[{\"delta\":{\"content\":\"hi\"}}]}\n\n";
    let second = reader.take_chunk(&adapter, line.as_bytes(), 5);
    assert!(second.events == vec![mark(ProviderPhase::FirstSemantic, 5), text("hi")]);
    assert!(matches!(second.outcome, Ok(None)));
    assert!(reader.saw_semantic());
    let third = reader.take_chunk(&adapter, line.as_bytes(), 6);
    assert!(third.events == vec![text("hi")]);
    let last = reader.take_chunk(&adapter, b"data: [DONE]\n\n", 7);
    assert!(matches!(last.outcome, Ok(Some(true))));
}

#[test]
fn a_reader_takes_the_end_of_an_answer() {
    let adapter = openai();
    let mut reader = StreamReader::new(vec!["s3cret".to_owned()]);
    let tail = "data: {\"choices\":[{\"delta\":{\"content\":\"hi s3cret\"}}]}";
    let step = reader.take_chunk(&adapter, tail.as_bytes(), 1);
    assert!(step.events == vec![mark(ProviderPhase::FirstByte, 1)]);
    let end = reader.take_end(&adapter, 2);
    assert!(matches!(end.outcome, Ok(Some(false))));
    assert!(end.events[0] == mark(ProviderPhase::FirstSemantic, 2));
    let shown: String = end
        .events
        .iter()
        .filter_map(|event| match event {
            ProviderEvent::TextDelta(piece) => Some(piece.as_str()),
            _ => None,
        })
        .collect();
    assert_eq!(shown, "hi [REDACTED]");
    let mut broken = StreamReader::new(Vec::new());
    let _ = broken.take_chunk(&adapter, &[0xff], 1);
    assert!(matches!(
        broken.take_end(&adapter, 2).outcome,
        Err(ProviderError::InvalidResponse { .. })
    ));
}

#[test]
fn the_faults_that_a_reader_tells_hold_no_secret() {
    let adapter = openai();
    let mut reader = StreamReader::new(vec!["s3cret".to_owned()]);
    let refused = "data: {\"error\":{\"message\":\"bad key s3cret\"}}\n\n";
    match reader.take_chunk(&adapter, refused.as_bytes(), 1).outcome {
        Err(error) => assert!(!format!("{error:?}").contains("s3cret")),
        Ok(_) => panic!("refused"),
    }
    let mut long = StreamReader::new(Vec::new());
    let chunk = vec![b'\n'; MAX_PROVIDER_STREAM_BYTES];
    assert!(matches!(long.take_chunk(&adapter, &chunk, 1).outcome, Ok(None)));
    assert!(long.take_chunk(&adapter, b"x", 1).outcome.is_err());
}

#[test]
fn a_key_and_its_bearer_form_are_redacted_across_chunks() {
    let values = vec!["Bearer k3y-0123".to_owned(), "k3y-0123".to_owned()];
    let answer = "say Bearer k3y-0123 and k3y-0123 twice";
    let whole: String = slim_core::provider::secrets::redact_values(answer, &values);
    for size in [1, 3, 8, 40] {
        let mut redactor = ProviderEventRedactor::new(values.clone());
        let mut shown = String::new();
        let mut told = |events: Vec<ProviderEvent>| {
            for event in events {
                if let ProviderEvent::TextDelta(piece) = event {
                    shown.push_str(&piece);
                }
            }
        };
        for piece in answer.as_bytes().chunks(size) {
            told(redactor.push(text(std::str::from_utf8(piece).expect("text"))));
        }
        told(redactor.push(stopped("stop")));
        assert_eq!(shown, whole, "{size}");
        assert!(!shown.contains("k3y"));
    }
}

#[test]
fn streams_are_bounded() {
    assert!(matches!(checked_provider_stream_bytes(1, 2), Ok(3)));
    assert!(checked_provider_stream_bytes(MAX_PROVIDER_STREAM_BYTES, 1).is_err());
    let mut pending = vec![b'x'; MAX_SSE_LINE_BYTES + 1];
    assert!(drain_sse(&openai(), &mut pending, &mut String::new(), &mut Vec::new()).is_err());
}

#[test]
fn the_events_of_messages_are_read() {
    let adapter = anthropic();
    let read = |value: &str| match adapter.parse_event(&parsed(value)) {
        Ok(events) => events,
        Err(_) => panic!("events"),
    };
    let delta = read(
        r#"{"type":"content_block_delta","index":0,"delta":{"type":"text_delta","text":"hi"}}"#,
    );
    assert!(delta == vec![text("hi")]);
    let tool = read(
        r#"{"type":"content_block_start","index":1,"content_block":{"type":"tool_use","id":"t","name":"read","input":{}}}"#,
    );
    assert!(tool.iter().any(|event| matches!(
        event,
        ProviderEvent::ToolCallStart { index: 1, id, name } if id == "t" && name == "read"
    )));
    assert!(adapter
        .parse_event(&parsed(r#"{"type":"error","error":{"type":"x","message":"m"}}"#))
        .is_err());
}

#[test]
fn secrets_are_held_back_until_they_are_whole() {
    let mut redactor = ProviderEventRedactor::new(vec!["secret-value".into()]);
    let mut shown = String::new();
    for piece in ["a sec", "ret-va", "lue b"] {
        for event in redactor.push(text(piece)) {
            if let ProviderEvent::TextDelta(piece) = event {
                shown.push_str(&piece);
            }
        }
    }
    for event in redactor.push(stopped("stop")) {
        if let ProviderEvent::TextDelta(piece) = event {
            shown.push_str(&piece);
        }
    }
    assert_eq!(shown, "a [REDACTED] b");
}

#[test]
fn a_stream_with_several_secrets_is_redacted_as_the_whole() {
    let whole = "x key-one key-onkey-two key-one-key-tw y";
    for size in 1..12 {
        let mut redactor = ProviderEventRedactor::new(vec!["key-one".into(), "key-two".into()]);
        let chars: Vec<char> = whole.chars().collect();
        let mut events = Vec::new();
        for piece in chars.chunks(size) {
            events.extend(redactor.push(text(&piece.iter().collect::<String>())));
        }
        events.extend(redactor.push(stopped("stop")));
        let shown: String = events
            .iter()
            .filter_map(|event| match event {
                ProviderEvent::TextDelta(piece) => Some(piece.as_str()),
                _ => None,
            })
            .collect();
        assert_eq!(shown, "x [REDACTED] key-on[REDACTED] [REDACTED]-key-tw y", "{size}");
    }
}

#[test]
fn tool_calls_wait_and_leave_only_when_clean() {
    let call = |arguments: &str| ProviderEvent::ToolCallDelta {
        index: Some(0),
        id: Some("c".into()),
        name: Some("read".into()),
        arguments: arguments.into(),
    };
    let mut clean = ProviderEventRedactor::new(vec!["secret-value".into()]);
    assert!(clean.push(call("{\"path\":\"a\"}")).is_empty());
    let events = clean.push(stopped("tool_calls"));
    assert!(events.contains(&call("{\"path\":\"a\"}")));
    assert!(clean.error.is_none());
}

#[test]
fn pieces_of_different_calls_are_not_joined() {
    let piece = |index: u32, partial_json: &str| ProviderEvent::ToolCallInputDelta {
        index,
        partial_json: partial_json.into(),
    };
    let values = vec!["secret".to_owned()];
    let apart = vec![piece(0, "sec"), piece(1, "ret")];
    assert!(!tool_events_contain_sensitive_values(&apart, &values));
    let mixed = vec![piece(0, "sec"), piece(1, "x"), piece(0, "ret")];
    assert!(tool_events_contain_sensitive_values(&mixed, &values));
    let named = vec![ProviderEvent::ToolCallStart { index: 0, id: "i".into(), name: "a-secret".into() }];
    assert!(tool_events_contain_sensitive_values(&named, &values));
    assert!(!tool_events_contain_sensitive_values(&named, &Vec::new()));
}

#[test]
fn an_answer_that_reasons_where_it_must_not_is_rejected() {
    let mut forwarder = StreamForwarder::new(true, Some(4), false);
    assert!(forwarder.push(text("before")).is_some());
    assert!(forwarder.push(ProviderEvent::ReasoningDelta("hm".into())).is_none());
    assert!(forwarder.violated());
    assert!(forwarder.push(text("after")).is_none());
    let usage = ProviderEvent::Usage { input_tokens: 1, output_tokens: 1 };
    assert!(forwarder.push(usage).is_some());
    assert!(forwarder.conclude(Ok(true)).is_err());
}

#[test]
fn an_answer_has_to_stop() {
    let mut forwarder = StreamForwarder::new(false, Some(4), false);
    assert!(forwarder.push(text("x")).is_some());
    assert!(matches!(
        forwarder.conclude(Ok(true)),
        Err(ProviderError::InvalidResponse { message })
            if message == "provider stream ended before completion"
    ));
    let mut whole = StreamForwarder::new(false, Some(4), false);
    assert!(whole.push(text("x")).is_some());
    assert!(whole.push(stopped("stop")).is_some());
    match whole.conclude(Ok(true)) {
        Ok(Some(events)) => assert_eq!(events.len(), 2),
        _ => panic!("kept"),
    }
}

#[test]
fn an_answer_is_captured_with_all_the_room_that_it_takes() {
    let place = std::mem::size_of::<ProviderEvent>();
    let bound = MAX_CACHED_PROVIDER_ENTRY_BYTES;
    assert!(may_capture(0, 0, (bound - place) as u128));
    assert!(!may_capture(0, 1, (bound - place) as u128));
    assert!(!may_capture(MAX_CACHED_PROVIDER_EVENTS, 0, 0));
    assert!(!list_outgrown(bound, 3, 3));
    assert!(list_outgrown(bound, 4, 3));
    assert!(!list_outgrown(bound - place, 4, 3));
    assert!(list_outgrown(0, usize::MAX, 0));

    let mut roomy = String::with_capacity(bound);
    roomy.push('x');
    assert_eq!(text_room(&ProviderEvent::ReasoningStarted), 0);
    assert!(text_room(&text("word")) >= 4);
    let event = ProviderEvent::TextDelta(roomy);
    assert!(text_room(&event) >= bound as u128);
    let mut forwarder = StreamForwarder::new(false, Some(4), false);
    assert!(forwarder.push(event).is_some_and(|event| event == text("x")));
    assert!(forwarder.push(stopped("stop")).is_some());
    assert!(matches!(forwarder.conclude(Ok(true)), Ok(None)));
}

#[test]
fn usage_that_is_told_twice_is_told_once() {
    assert!(coalesces_terminal_usage(ProviderKind::OpenCodeGo, ProviderKind::OpenAiCompatible));
    assert!(!coalesces_terminal_usage(ProviderKind::Anthropic, ProviderKind::Anthropic));
    let mut forwarder = StreamForwarder::new(false, None, true);
    for (input_tokens, output_tokens) in [(5, 1), (4, 3)] {
        assert!(forwarder.push(ProviderEvent::Usage { input_tokens, output_tokens }).is_none());
    }
    let flushed = forwarder.flush();
    assert!(flushed == vec![ProviderEvent::Usage { input_tokens: 5, output_tokens: 3 }]);
    let a = UsageBreakdown { output_tokens: 3, usage_unknown: true, ..UsageBreakdown::default() };
    let b = UsageBreakdown { cache_read_tokens: 4, ..UsageBreakdown::default() };
    let merged = merge_usage_breakdowns(a, b);
    assert_eq!(merged, merge_usage_breakdowns(b, a));
    assert_eq!((merged.output_tokens, merged.cache_read_tokens), (3, 4));
    assert!(merged.usage_unknown);
}

#[test]
fn kept_answers_are_given_again_until_the_oldest_go() {
    let answer = |word: &str| vec![text(word), stopped("stop")];
    let mut cache = ProviderCache::with_capacity(2);
    cache.insert("a".into(), answer("one"));
    cache.insert("b".into(), answer("two"));
    assert!(cache.get("a").is_some_and(|events| events.contains(&text("one"))));
    cache.insert("c".into(), answer("three"));
    assert_eq!(cache.len(), 2);
    assert!(cache.get("b").is_none());
    assert!(cache.get("a").is_some());
    assert!(cache.invalidate_key("a"));
    assert!(!cache.invalidate_key("a"));
    let stats = cache.stats();
    assert_eq!((stats.hits, stats.misses, stats.evictions, stats.entries), (2, 1, 1, 1));
    cache.clear();
    assert!(cache.is_empty());
}

#[test]
fn answers_with_tool_calls_or_without_an_end_are_not_kept() {
    assert!(is_cacheable_stop_reason("stop"));
    assert!(!is_cacheable_stop_reason("length"));
    assert!(prepare_cached_events(vec![text("x"), stopped("stop")]).is_some());
    assert!(prepare_cached_events(vec![text("x")]).is_none());
    assert!(prepare_cached_events(vec![text("x"), stopped("length")]).is_none());
    let call = ProviderEvent::ToolCall { name: "read".into(), arguments: "{}".into() };
    assert!(prepare_cached_events(vec![call, stopped("stop")]).is_none());
}

#[test]
fn replayed_answers_are_marked() {
    let (shown, result) = replay_cached(vec![text("x"), stopped("stop")], false);
    assert!(result.is_ok());
    assert!(shown[0] == ProviderEvent::ResponseCacheHit);
    assert_eq!(shown.len(), 3);
    let (shown, result) = replay_cached(vec![ProviderEvent::ReasoningStarted], true);
    assert!(shown.is_empty() && result.is_err());
}

#[test]
fn waiting_ends_with_the_first_of_its_limits() {
    let second: u128 = 1_000_000_000;
    let timeouts = ProviderTimeouts::production(30 * second);
    assert_eq!(timeouts.connect, 15 * second);
    assert_eq!(timeouts.wall, 600 * second);
    assert_eq!(timeouts.header_wait(), 30 * second);
    assert!(matches!(timeouts.chunk_wait(10 * second, false), Ok(wait) if wait == 20 * second));
    assert!(matches!(timeouts.chunk_wait(10 * second, true), Ok(wait) if wait == 30 * second));
    assert!(timeouts.chunk_wait(30 * second, false).is_err());
    assert!(matches!(
        timed_out(true),
        ProviderError::Transport { safe_to_retry: false, message }
            if message == "provider stream idle timeout"
    ));
}

#[test]
fn transports_are_shared_by_their_limit() {
    let mut slots = TransportSlots::new();
    for connect in 0..MAX_TRANSPORTS {
        let (next, dropped) = slots.keep(connect as u128, connect as u64);
        assert!(dropped.is_none());
        slots = next;
    }
    let (slots, known) = slots.claim(0);
    assert_eq!(known, Some(0));
    let (slots, dropped) = slots.keep(1_000, 99);
    assert_eq!(dropped, Some(1));
    let (_, known) = slots.claim(1);
    assert_eq!(known, None);
}

#[test]
fn refusals_are_read_and_redacted() {
    let mut body = Vec::new();
    extend_error_body(&mut body, &vec![b'x'; MAX_ERROR_BODY_BYTES + 5]);
    assert_eq!(body.len(), MAX_ERROR_BODY_BYTES);
    let secrets = vec!["k3y".to_owned()];
    let plain = read_refusal(500, Some(3), &b"no k3y".to_vec(), &secrets);
    assert!(matches!(
        plain,
        ProviderError::Http { status: 500, retry_after: Some(3), message }
            if message == "http 500: no [REDACTED]"
    ));
    let structured = read_refusal(
        429,
        None,
        &br#"{"error":{"type":"rate_limit_error","message":"slow k3y"}}"#.to_vec(),
        &secrets,
    );
    assert!(matches!(
        structured,
        ProviderError::Api { metadata, message }
            if metadata.status == Some(429) && message == "slow [REDACTED]"
    ));
}

#[test]
fn a_turn_is_opened_and_closed_in_the_ledger() {
    let messages = vec![ProviderMessage::user("hi".into())];
    let request = match openai().prepare_messages_request_with_tools_checked(&messages, &Vec::new())
    {
        Ok(request) => request,
        Err(_) => panic!("request"),
    };
    let (opened, next) =
        match open_request(5, ProviderKind::OpenAiCompatible, "fixture", &request) {
            Ok(opened) => opened,
            Err(_) => panic!("opened"),
        };
    assert_eq!((opened.seq, next), (5, 6));
    assert!(matches!(
        opened.kind,
        EventKind::ContextSnapshot { model, .. } if model == "fixture"
    ));
    assert!(open_request(u64::MAX - 1, ProviderKind::OpenAiCompatible, "m", &request).is_err());
    let closed = close_request(Some(9), 6, 12, false, true);
    assert_eq!(closed.seq, 10);
    assert!(matches!(
        closed.kind,
        EventKind::RequestCompleted { provider_latency_ms: 12, cancelled: false, failed: true }
    ));
    assert_eq!(close_request(None, 6, 0, false, false).seq, 6);
    assert!(checked_provider_next_seq(u64::MAX).is_err());
    let usage = |cancelled| {
        Some(RequestUsage {
            usage_unknown: false,
            response_cache_hit: false,
            cancelled,
            failed: false,
        })
    };
    assert!(learns_from(true, &messages, usage(false)));
    assert!(!learns_from(true, &messages, usage(true)));
    assert!(!learns_from(true, &messages, None));
}
