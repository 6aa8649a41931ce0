use slim_core::json;
use slim_core::json::Json;
use slim_core::mcp::framer::{JsonBody, SseStep, SseStream, StderrTail};
use slim_core::mcp::manager::{may_reconnect, ConnectStep, Handshake};
use slim_core::mcp::rpc::{
    check_url, classify_inbound, is_event_stream, notification_message, rejection_message,
    request_message, status_error, Dispatch, Inbound, PendingRequests, MAX_MESSAGE_BYTES,
};
use slim_core::mcp::settings::Settings;
use slim_core::mcp::spec::bounded_server_text;
use slim_core::mcp::tools::{describe, initialize_params, list_tools_text, ToolPages};
use slim_core::mcp::{
    canonical_name, FramedLine, JsonLineFramer, McpCatalog, McpError, McpManager, McpServerSpec,
    McpServerStatus, McpToolSummary, McpTransport,
};
use slim_core::OperatingMode;

fn parsed(text: &str) -> Json {
    json::parse(text).expect("json")
}

#[test]
fn json_body_without_content_length_is_bounded() {
    let mut body = match JsonBody::start(None) {
        Ok(body) => body,
        Err(_) => panic!("nothing was declared"),
    };
    let block = vec![b'x'; 64 * 1024];
    let mut sent = 0;
    let error = loop {
        assert!(sent < MAX_MESSAGE_BYTES + 1024 * 1024, "oversized body must error");
        if let Err(error) = body.push(&block) {
            break error;
        }
        sent += block.len();
    };
    match error {
        McpError::Protocol(message) => assert!(message.contains("16 MiB"), "{message}"),
        other => panic!("expected Protocol error, got {}", other.message()),
    }
}

#[test]
fn sse_data_lines_without_boundary_are_bounded() {
    let mut pattern = b"data: ".to_vec();
    pattern.extend(std::iter::repeat_n(b'x', 8000));
    pattern.push(b'\n');
    let mut block = Vec::new();
    while block.len() < 1024 * 1024 {
        block.extend_from_slice(&pattern);
    }
    let mut stream = SseStream::new();
    let mut sent = 0;
    let error = loop {
        assert!(sent < MAX_MESSAGE_BYTES * 2, "unterminated SSE flood must error");
        if let Err(error) = stream.push(&block) {
            break error;
        }
        sent += block.len();
        match stream.next(1) {
            SseStep::NeedMore => {}
            SseStep::Fail(error) => break error,
            _ => panic!("there is no message"),
        }
    };
    match error {
        McpError::Protocol(message) => assert!(message.contains("16 MiB"), "{message}"),
        other => panic!("expected Protocol error, got {}", other.message()),
    }
}

#[test]
fn a_declared_length_over_the_bound_is_refused_at_once() {
    assert!(JsonBody::start(Some(MAX_MESSAGE_BYTES as u64)).is_ok());
    assert!(JsonBody::start(Some(MAX_MESSAGE_BYTES as u64 + 1)).is_err());
}

#[test]
fn a_response_is_read_from_a_body() {
    let mut body = match JsonBody::start(None) {
        Ok(body) => body,
        Err(_) => panic!("body"),
    };
    assert!(body.push(br#"{"jsonrpc":"2.0","id":7,"#).is_ok());
    assert!(body.push(br#""result":{"ok":true}}"#).is_ok());
    match body.finish(7) {
        Ok(result) => assert!(json::same_json(&result, &parsed(r#"{"ok":true}"#))),
        Err(error) => panic!("{}", error.message()),
    }
}

#[test]
fn an_event_stream_hands_out_what_concerns_the_client() {
    let mut stream = SseStream::new();
    let text = concat_events(&[
        r#"{"jsonrpc":"2.0","method":"notifications/tools/list_changed"}"#,
        r#"{"jsonrpc":"2.0","id":"s1","method":"sampling/createMessage"}"#,
        r#"{"jsonrpc":"2.0","id":3,"result":{"done":1}}"#,
    ]);
    assert!(stream.push(text.as_bytes()).is_ok());
    assert!(matches!(stream.next(3), SseStep::ToolsChanged));
    match stream.next(3) {
        SseStep::Reject(id) => {
            assert_eq!(id.as_str(), Some("s1"));
            let message = rejection_message(id);
            assert_eq!(message.str_at("id"), Some("s1"));
            assert_eq!(message.under("error", "code").unwrap().as_i64(), Some(-32601));
        }
        _ => panic!("a request of the server is rejected"),
    }
    match stream.next(3) {
        SseStep::Response(Ok(result)) => assert_eq!(result.u64_at("done"), Some(1)),
        _ => panic!("response"),
    }
}

fn concat_events(messages: &[&str]) -> String {
    messages.iter().map(|message| format!("data: {message}\r\n\r\n")).collect()
}

#[test]
fn lines_are_framed_whatever_the_chunks() {
    let input = b"{\"id\":1}\nnot json\r\n{\"id\":2}\n{\"id\"";
    for size in [1, 3, input.len()] {
        let mut framer = JsonLineFramer::default();
        let mut lines = Vec::new();
        for chunk in input.chunks(size) {
            lines.extend(framer.push(chunk));
        }
        assert_eq!(lines.len(), 3);
        assert!(matches!(&lines[0], FramedLine::Message(m) if m.u64_at("id") == Some(1)));
        assert!(matches!(&lines[1], FramedLine::Noise(n) if n == "not json\r"));
        assert!(matches!(&lines[2], FramedLine::Message(m) if m.u64_at("id") == Some(2)));
        assert_eq!(framer.pending_bytes(), 5);
    }
}

#[test]
fn the_end_of_standard_error_explains_a_closed_connection() {
    let mut tail = StderrTail::new();
    tail.push(&vec![b'a'; 20_000]);
    tail.push(b"fatal: no config");
    let error = tail.closed_error("");
    assert!(error.message().contains("fatal: no config"), "{}", error.message());
}

#[test]
fn every_answer_settles_one_question() {
    let (pending, first) = PendingRequests::new().issue();
    let (pending, second) = pending.issue();
    assert_ne!(first, second);
    let answer = parsed(&format!(r#"{{"jsonrpc":"2.0","id":{first},"result":5}}"#));
    let (pending, step) = pending.dispatch_inbound(&answer);
    assert!(matches!(step, Dispatch::Answer { id, result: Ok(_) } if id == first));
    let (pending, step) = pending.dispatch_inbound(&answer);
    assert!(matches!(step, Dispatch::Nothing));
    let (pending, known) = pending.settle(second);
    assert!(known);
    let (_, known) = pending.settle(second);
    assert!(!known);
}

#[test]
fn requests_and_errors_have_their_shape() {
    let request = request_message(9, "tools/list", Json::object());
    assert!(json::same_json(
        &request,
        &parsed(r#"{"jsonrpc":"2.0","id":9,"method":"tools/list","params":{}}"#)
    ));
    assert!(notification_message("n", Json::object()).get("id").is_none());
    match classify_inbound(
        &parsed(r#"{"jsonrpc":"2.0","id":9,"error":{"code":-32601,"message":"no"}}"#),
        9,
    ) {
        Inbound::Response(Err(McpError::Server { code, message })) => {
            assert_eq!(code, -32601);
            assert_eq!(message, "no");
        }
        _ => panic!("a server error"),
    }
    assert!(status_error(200, None).is_none());
    assert!(status_error(500, Some("Internal")).is_some());
    assert!(check_url("https://host.example/mcp").is_ok());
    assert!(check_url("ftp://host.example").is_err());
    assert!(check_url("not a url").is_err());
    assert!(bounded_server_text(&"é".repeat(4_000)).len() <= 2_048 + 16);
    assert_eq!(
        initialize_params("1.2.3").under("clientInfo", "version").unwrap().as_str(),
        Some("1.2.3")
    );
}

fn tool(name: &str) -> McpToolSummary {
    McpToolSummary { name: name.into(), description: None, schema: parsed("{}") }
}

fn spec(name: &str, enabled: bool) -> McpServerSpec {
    let mut headers = Settings::new();
    headers.insert("Authorization".into(), "Bearer t0ken".into());
    McpServerSpec {
        name: name.into(),
        transport: McpTransport::Http {
            url: format!("https://{name}.example"),
            headers,
        },
        enabled,
        timeout: 1_000_000_000,
    }
}

#[test]
fn tool_pages_follow_the_cursor() {
    let pages = ToolPages::new();
    let pages = match pages.accept(&parsed(
        r#"{"tools":[{"name":"a","inputSchema":{"type":"object"}}],"nextCursor":"c1"}"#,
    )) {
        Ok(pages) => pages,
        Err(error) => panic!("{}", error.message()),
    };
    assert_eq!(pages.next_params().unwrap().str_at("cursor"), Some("c1"));
    let pages = match pages.accept(&parsed(r#"{"tools":[{"name":"b"}]}"#)) {
        Ok(pages) => pages,
        Err(error) => panic!("{}", error.message()),
    };
    assert!(pages.next_params().is_none());
    let tools = pages.into_tools();
    assert_eq!(tools.len(), 2);
    assert_eq!(tools[1].name, "b");
    let shown = list_tools_text(&tools, 0);
    assert!(shown.contains('a') && shown.contains('b'));
    match describe(&tools, "srv", "a") {
        Ok(text) => assert_eq!(text, "{\n  \"type\": \"object\"\n}"),
        Err(error) => panic!("{}", error.message()),
    }
    assert!(describe(&tools, "srv", "missing").is_err());
}

fn begin(manager: &mut McpManager, entry: u64) -> u64 {
    match manager.begin_connect(entry, false) {
        Ok(ConnectStep::Connect { generation, dead: None }) => generation,
        _ => panic!("a new connection"),
    }
}

fn connected(connection: u64) -> Handshake {
    Handshake::Connected { connection, tools: vec![tool("a")] }
}

fn held(manager: &mut McpManager, name: &str) -> u64 {
    match manager.hold(name) {
        Ok(entry) => entry,
        Err(_) => panic!("a server"),
    }
}

#[test]
fn a_connection_belongs_to_the_generation_that_asked() {
    let mut manager = McpManager::new(vec![spec("one", true), spec("two", false)]);
    assert!(manager.has_enabled_servers());
    assert!(matches!(manager.hold("none"), Err(McpError::UnknownServer(_))));
    let two = held(&mut manager, "two");
    assert!(matches!(manager.begin_connect(two, false), Err(McpError::Disabled(_))));
    let entry = held(&mut manager, "one");
    let generation = begin(&mut manager, entry);
    assert!(matches!(manager.finish_connect(entry, generation, connected(11)), Ok(11)));
    assert!(matches!(
        manager.begin_connect(entry, true),
        Ok(ConnectStep::Reuse { connection: 11 })
    ));
    assert_eq!(manager.connection_of(entry), Some(11));
    assert_eq!(manager.cached_tools(entry, false).unwrap().len(), 1);
    assert!(manager.cached_tools(entry, true).is_none());

    assert!(matches!(manager.disconnect("one"), Ok(Some(11))));
    let next = begin(&mut manager, entry);
    assert!(next != generation);
    assert!(manager.finish_connect(entry, generation, connected(12)).is_err());
    assert!(matches!(
        manager.finish_connect(entry, next, Handshake::Failed { error: McpError::Closed }),
        Err(McpError::Closed)
    ));
    let status = manager.statuses();
    assert!(matches!(status[0].status, McpServerStatus::Failed { .. }));
    assert!(manager.list_servers().contains("one"));
    assert!(manager.sensitive_values().iter().any(|value| value.contains("t0ken")));
}

#[test]
fn a_server_that_leaves_stays_known_to_those_who_work_with_it() {
    let mut manager = McpManager::new(vec![spec("one", true)]);
    let entry = held(&mut manager, "one");
    let generation = begin(&mut manager, entry);
    assert_eq!(manager.remove("one"), (true, None));
    assert!(manager.is_empty());
    let before = manager.revision();
    assert!(matches!(manager.finish_connect(entry, generation, connected(3)), Ok(3)));
    assert_eq!(manager.revision(), before + 1);
    assert_eq!(manager.cached_tools(entry, false).unwrap().len(), 1);
    assert!(manager.spec_of(entry).is_some());
    assert_eq!(manager.release(entry), Some(3));
    assert!(manager.spec_of(entry).is_none());
    assert!(matches!(manager.begin_connect(entry, false), Err(McpError::Closed)));
}

#[test]
fn a_handshake_does_not_outlive_a_disconnect_by_a_removal() {
    for replaced in [false, true] {
        let mut manager = McpManager::new(vec![spec("one", true)]);
        let entry = held(&mut manager, "one");
        let generation = begin(&mut manager, entry);
        assert!(matches!(manager.disconnect("one"), Ok(None)));
        if replaced {
            assert_eq!(manager.upsert(spec("one", false)), None);
        } else {
            assert_eq!(manager.remove("one"), (true, None));
        }
        let before = manager.revision();
        assert!(matches!(
            manager.finish_connect(entry, generation, connected(3)),
            Err(McpError::Closed)
        ));
        assert!(matches!(
            manager.finish_connect(
                entry,
                generation,
                Handshake::Failed { error: McpError::Protocol("p".into()) }
            ),
            Err(McpError::Protocol(_))
        ));
        assert_eq!(manager.revision(), before);
        assert_eq!(manager.release(entry), None);
    }
}

#[test]
fn time_limits_differ_by_nanoseconds() {
    let mut manager = McpManager::new(vec![]);
    assert_eq!(manager.insert_connection(spec("one", true), 5, vec![]), None);
    assert_eq!(manager.upsert(spec("one", true)), None);
    let mut longer = spec("one", true);
    longer.timeout += 1;
    assert_eq!(
        McpError::Timeout(longer.timeout).message(),
        "request timed out after 1000ms"
    );
    assert_eq!(manager.upsert(longer), Some(5));
    let entry = held(&mut manager, "one");
    assert_eq!(manager.connection_of(entry), None);
    assert_eq!(manager.insert_connection(spec("one", true), 6, vec![]), None);
    assert_eq!(manager.insert_connection(spec("one", true), 7, vec![]), Some(6));
}

#[test]
fn a_changed_configuration_drops_what_it_no_longer_names() {
    let mut manager = McpManager::new(vec![spec("one", true)]);
    manager.insert_connection(spec("two", true), 5, vec![]);
    manager.insert_connection(spec("three", true), 6, vec![]);
    let three = held(&mut manager, "three");
    let before = manager.revision();
    let dropped = manager.reconcile(vec![spec("one", true)]);
    assert_eq!(dropped, vec![5]);
    assert!(manager.revision() != before);
    assert!(matches!(
        manager.begin_connect(three, true),
        Ok(ConnectStep::Reuse { connection: 6 })
    ));
    assert_eq!(manager.release(three), Some(6));
    let (known, connection) = manager.remove("one");
    assert!(known && connection.is_none());
    assert!(manager.is_empty());
    assert!(may_reconnect(&McpError::Closed, true));
    assert!(!may_reconnect(&McpError::Server { code: 1, message: "m".into() }, false));
}

#[test]
fn responses_are_documents_or_streams() {
    assert!(is_event_stream("text/event-stream; charset=utf-8"));
    assert!(!is_event_stream("application/json"));
}

#[test]
fn a_catalog_offers_tools_by_mode() {
    assert_eq!(canonical_name("srv", "tool"), "mcp.srv.tool");
    let mut catalog = McpCatalog::new("srv".into());
    catalog.add_tool("write".into());
    catalog.add_resource("doc".into());
    assert_eq!(catalog.tools_for_mode(OperatingMode::Auto).len(), 1);
    assert!(catalog.tools_for_mode(OperatingMode::Plan).is_empty());
    assert!(catalog.select_resource("doc").is_ok());
    assert!(catalog.select_resource("other").is_err());
    assert_eq!(catalog.selected_resources(), ["doc".to_owned()]);
    assert!(catalog.call_tool(OperatingMode::Plan, "write", "{}").is_err());
}

#[test]
fn settings_stand_once_and_in_order() {
    let mut settings = Settings::new();
    for (key, value) in [("PATH", "/bin"), ("HOME", "/root"), ("TERM", "xterm"), ("PATH", "/usr")] {
        settings.insert(key.into(), value.into());
    }
    let shown: Vec<(&str, &str)> = settings
        .entries()
        .iter()
        .map(|setting| (setting.key.as_str(), setting.value.as_str()))
        .collect();
    assert_eq!(shown, vec![("HOME", "/root"), ("PATH", "/usr"), ("TERM", "xterm")]);
    assert!(settings.clone().same(&settings));
    assert!(!Settings::default().same(&settings));
}
