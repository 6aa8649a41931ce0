use serde_json::Value;
use sha2::{Digest, Sha256};
use slim_core::hash::fnv1a64;
use slim_core::json;
use slim_core::json::Json;
use slim_core::provider::accounting::{
    provider_request_components, provider_request_fingerprints, provider_serialized_value_bytes,
    provider_system_fingerprint,
};
use slim_core::provider::bodies::next_recovery_output_limit;
use slim_core::provider::canonical::{canonical_json, canonical_push, json_value_fingerprint};
use slim_core::provider::failures::{
    parse_retry_after, stream_provider_error, structured_provider_error,
};
use slim_core::provider::identity::{provider_kind_name, provider_native_prompt_cache_key};
use slim_core::provider::reasoning::{event_contains_reasoning, validate_reasoning_disabled_payload};
use slim_core::provider::redactor::ProviderEventRedactor;
use slim_core::provider::scope::{external_credential_scope_id, EXTERNAL_CREDENTIAL_SCOPE_TAG};
use slim_core::provider::{
    history_response_cache_scope, reasoning_off_support, AnthropicAdapter, ChatReasoning,
    OffPolicy, OpenAiCompatibleAdapter, PreparedProviderRequest, ProviderConfig,
    ProviderError, ProviderEvent, ProviderKind, ProviderMessage, ProviderRequestComponents,
    ReasoningOff, CODEX_BACKEND_ENDPOINT,
};

const SECOND: u128 = 1_000_000_000;

fn parsed(text: &str) -> Json {
    json::parse(text).expect("json")
}

fn openai(endpoint: &str, model: &str, key: &str) -> ProviderConfig {
    ProviderConfig::openai(endpoint.to_owned(), model.to_owned(), key.to_owned(), 1)
}

fn codex(endpoint: &str, model: &str) -> ProviderConfig {
    ProviderConfig::openai_codex(
        endpoint.to_owned(),
        model.to_owned(),
        "k".to_owned(),
        "account".to_owned(),
        1,
    )
}

fn anthropic(endpoint: &str, model: &str, key: &str) -> ProviderConfig {
    ProviderConfig::anthropic(endpoint.to_owned(), model.to_owned(), key.to_owned(), 1)
}

/// A stand-in for the brand of Anthropic's models.
fn brand() -> String {
    "Vendor".to_owned()
}

fn policy(allow: bool) -> OffPolicy {
    OffPolicy::new(allow, brand())
}

fn body_of(request: &slim_core::HttpRequest) -> Value {
    serde_json::from_str(&request.body).expect("json")
}

fn hi() -> Vec<ProviderMessage> {
    vec![ProviderMessage::user("hi".to_owned())]
}

fn value(text: &str) -> Value {
    serde_json::from_str(text).expect("json")
}

#[test]
fn native_affinity_preserves_the_full_fingerprint_reference() {
    for text in [
        r#"{"instructions": "ação 日本語\n\"\\", "input": [
            {"role": "user", "content": "variable history"}
        ], "tools": [{"name": "read", "description": "ler\t👩‍💻"}]}"#,
        r#"{"messages": [
            {"role": "system", "content": "system\n"},
            {"role": "developer", "content": "developer 日本語"},
            {"role": "user", "content": "different history"}
        ]}"#,
    ] {
        let body = parsed(text);
        let prefixes = provider_request_fingerprints(&body);
        let mut identity = String::new();
        for value in [
            provider_kind_name(ProviderKind::OpenAiCodex),
            "fixture-model",
            "1.8-channel-facts",
            "1",
        ] {
            canonical_push(&mut identity, value);
        }
        canonical_push(&mut identity, &format!("{:016x}", prefixes.system));
        canonical_push(&mut identity, &format!("{:016x}", prefixes.tools));
        let digest = Sha256::digest(identity.as_bytes());
        let prefix: [u8; 16] = digest[..16].try_into().unwrap();
        let expected = format!("slim-pc-v1-{:032x}", u128::from_be_bytes(prefix));
        assert_eq!(
            provider_native_prompt_cache_key(ProviderKind::OpenAiCodex, "fixture-model", &body),
            expected
        );
    }
}

#[test]
fn responses_and_messages_component_bytes_match_serialized_fields() {
    let bytes = |text: &str| serde_json::to_vec(&value(text)).unwrap().len() as u64;
    let system = r#""rules ação 日本語\n\t\"\\""#;
    let developer = r#"{"role": "developer", "content": "regra 👩‍💻"}"#;
    let user = r#"{"role": "user", "content": "pergunta\n日本語"}"#;
    let tools = r#"[{"name": "read", "description": "ler\t\"arquivo\""}]"#;
    let result = r#"{"type": "function_call_output", "call_id": "call-1", "output": "ação\n\\"}"#;
    let body = parsed(&format!(
        r#"{{"instructions": {system}, "tools": {tools}, "input": [{developer}, {user}, {result}]}}"#
    ));
    assert_eq!(
        provider_request_components(&body),
        ProviderRequestComponents {
            system_bytes: bytes(system) + bytes(developer),
            tool_schema_bytes: bytes(tools),
            history_bytes: bytes(user),
            tool_result_bytes: bytes(result),
        }
    );

    let system = r#"[{"type": "text", "text": "regra ação\n👩‍💻"}]"#;
    let result = r#"{"role": "user", "content": [{"type": "tool_result", "tool_use_id": "call-1", "content": "retorno\t日本語"}]}"#;
    let body = parsed(&format!(
        r#"{{"system": {system}, "tools": {tools}, "messages": [{user}, {result}]}}"#
    ));
    assert_eq!(
        provider_request_components(&body),
        ProviderRequestComponents {
            system_bytes: bytes(system),
            tool_schema_bytes: bytes(tools),
            history_bytes: bytes(user),
            tool_result_bytes: bytes(result),
        }
    );
}

#[test]
fn byte_accounting_matches_wire_encoding_including_escapes_and_unicode() {
    for text in [
        "null",
        r#""ação 日本語\n\t\u0000\"\\""#,
        "[true, false, -1, 18446744073709551615, 1.25, [], {}]",
        r#"{"content": [{"type": "text", "text": "á\n"}], "role": "tool"}"#,
    ] {
        assert_eq!(
            provider_serialized_value_bytes(&parsed(text)),
            serde_json::to_vec(&value(text)).unwrap().len() as u64
        );
    }
}

fn reference_system_fingerprint(value: &Json) -> u64 {
    if let Some(system) = value.get("system").or_else(|| value.get("instructions")) {
        let mut canonical = String::new();
        canonical_json(system, &mut canonical);
        return fnv1a64(canonical.as_bytes());
    }
    let Some(messages) = value.array_at("messages") else {
        return 0;
    };
    let mut canonical = String::new();
    for message in messages
        .iter()
        .filter(|message| matches!(message.str_at("role"), Some("system" | "developer")))
    {
        let mut encoded = String::new();
        canonical_json(message, &mut encoded);
        canonical_push(&mut canonical, &encoded);
    }
    if canonical.is_empty() {
        0
    } else {
        fnv1a64(canonical.as_bytes())
    }
}

#[test]
fn streaming_canonical_hash_matches_the_string_reference() {
    for text in [
        "null",
        "true",
        "false",
        "0",
        "-1",
        "18446744073709551615",
        "1.25",
        r#""""#,
        r#""ação 日本語\n\t\u0000\"\\""#,
        "[]",
        r#"[true, null, "x", -3, 1.25, [1], {"k": "v"}]"#,
        "{}",
        r#"{"b": 1, "a": {"z": [null], "y": "é"}, "nested": {"deep": [{}]}}"#,
    ] {
        let value = parsed(text);
        let mut canonical = String::new();
        canonical_json(&value, &mut canonical);
        assert_eq!(
            json_value_fingerprint(&value),
            fnv1a64(canonical.as_bytes()),
            "{text}"
        );
    }

    let reversed = Json::object()
        .with("z", parsed(r#"{"k": "v"}"#))
        .with("a", parsed("[1, 2]"));
    assert_eq!(
        json_value_fingerprint(&parsed(r#"{"a": [1, 2], "z": {"k": "v"}}"#)),
        json_value_fingerprint(&reversed)
    );
}

#[test]
fn streaming_system_fingerprint_matches_the_string_reference() {
    for text in [
        r#"{"system": "regras", "messages": [{"role": "user", "content": "oi"}]}"#,
        r#"{"instructions": "ação 日本語\n\"\\"}"#,
        r#"{"messages": [
            {"role": "system", "content": "regras"},
            {"role": "developer", "content": "notas"},
            {"role": "user", "content": "pergunta"},
            {"role": "system", "content": [{"type": "text", "text": "ação\n👩‍💻"}]}
        ]}"#,
        r#"{"messages": [{"role": "user", "content": "só usuário"}]}"#,
        r#"{"input": [{"role": "system", "content": "campo não varrido"}]}"#,
        "{}",
        r#"{"messages": "not-an-array"}"#,
    ] {
        let body = parsed(text);
        assert_eq!(
            provider_system_fingerprint(&body),
            reference_system_fingerprint(&body),
            "{text}"
        );
    }
}

#[test]
fn built_in_and_external_scope_domains_are_disjoint() {
    for built_in in [1_u128, u128::from(u64::MAX)] {
        let external = external_credential_scope_id(built_in);
        assert_ne!(built_in, external);
        assert_eq!(
            external & EXTERNAL_CREDENTIAL_SCOPE_TAG,
            EXTERNAL_CREDENTIAL_SCOPE_TAG
        );
    }
}

#[test]
fn responses_and_messages_errors_preserve_structured_identity() {
    for event in [
        r#"{"type":"error","code":"server_error","message":"Overloaded"}"#,
        r#"{"type":"response.failed","response":{"error":{"code":null,"type":"server_error","message":"Overloaded"}}}"#,
    ] {
        let ProviderError::Api { metadata, message } =
            stream_provider_error(&parsed(event), "http://localhost", "fixture-key")
        else {
            panic!("expected structured Responses failure");
        };
        assert_eq!(metadata.classification_code(), Some("server_error"));
        assert!(metadata.is_transient());
        assert_eq!(message, "Overloaded");
    }
    let anthropic = match AnthropicAdapter::new(
        anthropic("http://localhost", "fixture-model", "fixture-key"),
        brand(),
    ) {
        Ok(adapter) => adapter,
        Err(_) => panic!("adapter"),
    };
    let Err(ProviderError::Api { metadata, .. }) = anthropic.parse_event(&parsed(
        r#"{"type":"error","error":{"type":"overloaded_error","message":"Overloaded"}}"#,
    )) else {
        panic!("expected structured Messages failure");
    };
    assert_eq!(metadata.error_type.as_deref(), Some("overloaded_error"));
    assert!(metadata.is_transient());
}

fn failure(code: &str, error_type: &str, message: &str, status: u16) -> ProviderError {
    structured_provider_error(
        &parsed(&format!(
            r#"{{"error":{{"code":"{code}","type":"{error_type}","message":"{message}"}}}}"#
        )),
        Some(status),
        Some(7 * SECOND),
        &Vec::new(),
    )
    .unwrap()
}

#[test]
fn structured_errors_keep_retry_after_and_do_not_retry_unknown_or_budget_codes() {
    let ProviderError::Api { metadata, .. } =
        failure("rate_limit_exceeded", "rate_limit_error", "Failure", 429)
    else {
        panic!("expected structured error");
    };
    assert_eq!(metadata.status, Some(429));
    assert_eq!(metadata.retry_after, Some(7 * SECOND));
    assert!(metadata.is_transient());
    for (status, code, error_type) in [
        (429, "slow_down", "rate_limit_error"),
        (429, "too_many_requests", "rate_limit_error"),
        (503, "overloaded", "overloaded_error"),
        (503, "server_is_overloaded", "service_unavailable_error"),
    ] {
        let ProviderError::Api { mut metadata, .. } =
            failure(code, error_type, "Temporary failure", status)
        else {
            panic!("expected structured temporary failure");
        };
        assert!(metadata.is_transient(), "documented transient code: {code}");
        assert_eq!(metadata.retry_after, Some(7 * SECOND));
        metadata.status = Some(401);
        assert!(
            !metadata.is_transient(),
            "authentication status must not be retried"
        );
    }
    for code in [
        "insufficient_quota",
        "organization_spend_limit_exceeded",
        "project_spend_limit_exceeded",
        "credit_balance_exhausted",
        "future_unknown_code",
        "invalid_api_key",
    ] {
        let ProviderError::Api { metadata, .. } = failure(code, "rate_limit_error", "Failure", 429)
        else {
            panic!("expected structured error");
        };
        assert!(
            !metadata.is_transient(),
            "explicit code overrides generic type: {code}"
        );
    }
}

#[test]
fn stream_error_redacts_secret_before_public_excerpt_is_truncated() {
    let error = stream_provider_error(
        &parsed(&format!(
            r#"{{"error":{{"type":"server_error","message":"{}boundary-secret-42"}}}}"#,
            "x".repeat(500)
        )),
        "http://localhost",
        "boundary-secret-42",
    );
    let ProviderError::Api { message, .. } = error else {
        panic!("expected structured error");
    };
    assert!(!message.contains("boundary"));
    assert!(message.ends_with("[REDACTED]"));
    assert!(message.chars().count() <= 512);
}

#[test]
fn credential_fragments_never_reach_tool_callbacks() {
    let mut redactor = ProviderEventRedactor::new(vec!["secret-value".into()]);
    for (index, arguments) in ["{\"path\":\"secret-", "value\"}"].into_iter().enumerate() {
        let events = redactor.push(
            ProviderEvent::ToolCallDelta {
                index: Some(0),
                id: (index == 0).then_some("call".into()),
                name: (index == 0).then_some("read".into()),
                arguments: arguments.into(),
            },
        );
        assert!(!events
            .iter()
            .any(|event| matches!(event, ProviderEvent::ToolCallDelta { .. })));
    }
    let events = redactor.push(ProviderEvent::Stopped { reason: "tool_calls".into() });
    assert!(redactor.error.is_some());
    assert!(events.iter().all(|event| match event {
        ProviderEvent::ToolCallDelta { .. } => false,
        ProviderEvent::Stopped { reason } => !reason.contains("secret-"),
        _ => true,
    }));
}

#[test]
fn native_reasoning_off_is_resolved_per_documented_contract() {
    let strict = policy(false);
    let off = |config: ProviderConfig| match config.resolve_reasoning_off(&strict) {
        Ok(off) => Some(off),
        Err(_) => None,
    };
    for model in ["gpt-5.6-sol", "gpt-5.6-terra", "gpt-5.6-luna", "gpt-5.5"] {
        assert_eq!(
            off(openai("https://api.openai.com/v1/chat/completions", model, "k")),
            Some(ReasoningOff::EffortNone),
            "{model}"
        );
    }
    for model in [
        "deepseek-flash",
        "deepseek-v4-pro",
        "deepseek-v4-flash",
        "deepseek/deepseek-v4-flash",
        "deepseek/deepseek-v4.1-flash",
    ] {
        assert_eq!(
            off(openai("https://api.deepseek.com/chat/completions", model, "k")),
            Some(ReasoningOff::ThinkingDisabled),
            "{model}"
        );
    }
    for model in [
        "vendor-sonnet-5",
        "vendor-opus-5",
        "vendor-opus-4-8",
        "vendor-opus-4-7",
        "vendor-opus-4-6",
        "vendor-sonnet-4-6",
        "vendor-opus-4-5",
        "vendor-sonnet-4-5",
        "vendor-haiku-4-5-20251001",
    ] {
        assert_eq!(
            off(anthropic("https://api.anthropic.com/v1/messages", model, "k")),
            Some(ReasoningOff::ThinkingDisabled),
            "{model}"
        );
    }
    for model in ["glm-5", "glm-5.1", "glm-5.2", "zai-org/GLM-5.2-Fast"] {
        assert_eq!(
            off(openai("https://api.z.ai/api/paas/v4/chat/completions", model, "k")),
            Some(ReasoningOff::ThinkingDisabled),
            "{model}"
        );
    }
    for model in ["kimi-k2.5", "kimi-k2.6", "moonshotai/Kimi-K2.6"] {
        assert_eq!(
            off(openai("https://api.moonshot.ai/v1/chat/completions", model, "k")),
            Some(ReasoningOff::ThinkingDisabled),
            "{model}"
        );
    }
    for model in ["gpt-5.6-sol", "gpt-5.6-terra", "gpt-5.6-luna"] {
        assert_eq!(
            off(codex("https://chatgpt.com/backend-api", model)),
            Some(ReasoningOff::ResponsesEffortNone),
            "{model}"
        );
    }
    for config in [
        openai("https://api.openai.com/v1/chat/completions", "gpt-6-astra", "k"),
        codex("https://chatgpt.com/backend-api", "gpt-6-astra"),
        openai("https://gateway.example/v1/chat/completions", "gpt-5.6-sol", "k"),
        anthropic("https://api.anthropic.com/v1/messages", "vendor-fable-5-1", "k"),
        anthropic("https://proxy.example/v1/messages", "vendor-sonnet-5", "k"),
    ] {
        assert!(config.with_reasoning_disabled(&strict).is_err());
    }
    for (model, endpoint) in [
        ("glm-5.2", "https://opencode.ai/zen/go/v1/chat/completions"),
        (
            "deepseek-v4-flash",
            "https://api.commandcode.ai/provider/v1/chat/completions",
        ),
        ("kimi-k2.6", "https://api.cline.bot/api/v1/chat/completions"),
    ] {
        assert!(off(openai(endpoint, model, "k")).is_none(), "{model}");
    }
    for (model, endpoint) in [
        ("glm-5.3", "https://opencode.ai/zen/go/v1/chat/completions"),
        (
            "z-ai/glm-5.3-flash",
            "https://opencode.ai/zen/v1/chat/completions",
        ),
        ("kimi-k3", "https://opencode.ai/zen/go/v1/chat/completions"),
        (
            "kimi-k2.7-code",
            "https://api.commandcode.ai/provider/v1/chat/completions",
        ),
        (
            "minimax-m2.7",
            "https://opencode.ai/zen/go/v1/chat/completions",
        ),
    ] {
        let error = match openai(endpoint, model, "k").with_reasoning_disabled(&strict) {
            Ok(_) => panic!("{model}: expected rejection"),
            Err(error) => error,
        };
        assert!(
            matches!(&error, ProviderError::InvalidResponse { message } if message.contains("always thinks")),
            "{model}"
        );
    }
}

fn switched_off(endpoint: &str, model: &str) -> OpenAiCompatibleAdapter {
    let config = match openai(endpoint, model, "k").with_reasoning_disabled(&policy(false)) {
        Ok(config) => config,
        Err(_) => panic!("documented OFF"),
    };
    adapter(config)
}

fn adapter(config: ProviderConfig) -> OpenAiCompatibleAdapter {
    match OpenAiCompatibleAdapter::new(config, false) {
        Ok(adapter) => adapter,
        Err(_) => panic!("adapter"),
    }
}

#[test]
fn openai_off_body_sends_none_effort_without_a_thinking_field() {
    let adapter = switched_off("https://api.openai.com/v1/chat/completions", "gpt-5.6-sol");
    let body = body_of(&adapter.build_messages_request_with_tools(&hi(), &Vec::new()));
    assert_eq!(body["reasoning_effort"], "none");
    assert!(body.get("thinking").is_none(), "{body}");
}

#[test]
fn deepseek_off_body_sends_the_thinking_toggle() {
    let adapter = switched_off("https://api.deepseek.com/chat/completions", "deepseek-v4-flash");
    let body = body_of(&adapter.build_messages_request_with_tools(&hi(), &Vec::new()));
    assert_eq!(body["thinking"], value(r#"{"type": "disabled"}"#));
    assert!(body.get("reasoning_effort").is_none(), "{body}");
}

#[test]
fn deepseek_effort_none_sends_the_toggle_instead_of_a_bare_none() {
    let adapter = adapter(
        openai("https://api.deepseek.com/chat/completions", "deepseek-flash", "k")
            .with_reasoning_effort("none".to_owned()),
    );
    let body = body_of(&adapter.build_messages_request_with_tools(&hi(), &Vec::new()));
    assert_eq!(body["thinking"], value(r#"{"type": "disabled"}"#));
    assert!(body.get("reasoning_effort").is_none(), "{body}");
}

#[test]
fn deepseek_effort_level_keeps_thinking_enabled_across_gateway_ids() {
    for model in ["deepseek-v4-flash", "deepseek/deepseek-v4.1-flash"] {
        let adapter = adapter(
            openai(
                "https://api.commandcode.ai/provider/v1/chat/completions",
                model,
                "k",
            )
            .with_reasoning_effort("high".to_owned()),
        );
        let body = body_of(&adapter.build_messages_request_with_tools(&hi(), &Vec::new()));
        assert_eq!(body["thinking"], value(r#"{"type": "enabled"}"#), "{model}");
        assert_eq!(body["reasoning_effort"], "high", "{model}");
    }
}

#[test]
fn glm_and_kimi_off_bodies_send_the_thinking_toggle() {
    for (model, endpoint) in [
        ("glm-5.2", "https://api.z.ai/api/paas/v4/chat/completions"),
        (
            "moonshotai/Kimi-K2.6",
            "https://api.moonshot.ai/v1/chat/completions",
        ),
    ] {
        let adapter = switched_off(endpoint, model);
        let body = body_of(&adapter.build_messages_request_with_tools(&hi(), &Vec::new()));
        assert_eq!(body["thinking"], value(r#"{"type": "disabled"}"#), "{model}");
        assert!(body.get("reasoning_effort").is_none(), "{model}: {body}");
    }
}

#[test]
fn unverified_gateway_off_requires_an_explicit_opt_in() {
    let config = openai("https://opencode.ai/zen/go/v1/chat/completions", "glm-5.2", "k");
    assert!(config.resolve_reasoning_off(&policy(false)).is_err());
    assert!(matches!(
        config.resolve_reasoning_off(&policy(true)),
        Ok(ReasoningOff::ThinkingDisabled)
    ));
    let unknown = openai("https://opencode.ai/zen/go/v1/chat/completions", "gpt-5.6-sol", "k");
    assert!(unknown.resolve_reasoning_off(&policy(true)).is_err());
}

#[test]
fn public_off_policy_answers_for_ui_routes() {
    let strict = policy(false);
    assert!(matches!(
        reasoning_off_support(
            ProviderKind::OpenAiCodex,
            CODEX_BACKEND_ENDPOINT,
            "gpt-5.6-terra",
            &strict
        ),
        Ok(ReasoningOff::ResponsesEffortNone)
    ));
    assert!(reasoning_off_support(
        ProviderKind::OpenAiCodex,
        CODEX_BACKEND_ENDPOINT,
        "gpt-6-astra",
        &strict
    )
    .is_err());
    assert!(reasoning_off_support(
        ProviderKind::OpenCodeGo,
        "https://opencode.ai/zen/go/v1",
        "glm-5.2",
        &strict
    )
    .is_err());
    assert!(reasoning_off_support(
        ProviderKind::Anthropic,
        "https://api.anthropic.com/v1/messages",
        "vendor-fable-5-1",
        &strict
    )
    .is_err());
}

#[test]
fn unified_reasoning_details_reach_the_off_violation_detector() {
    let adapter = adapter(openai(
        "https://api.deepseek.com/chat/completions",
        "deepseek-flash",
        "k",
    ));
    for (payload, expected_text) in [
        (
            r#"{"choices":[{"delta":{"reasoning_details":[{"type":"reasoning.text","text":"hidden"}]}}]}"#,
            Some("hidden"),
        ),
        (
            r#"{"choices":[{"delta":{"reasoning_details":[{"type":"reasoning.encrypted","data":"opaque"}]}}]}"#,
            None,
        ),
    ] {
        let events = match adapter.parse_event(&parsed(payload)) {
            Ok(events) => events,
            Err(_) => panic!("events"),
        };
        assert!(
            events.iter().any(event_contains_reasoning),
            "reasoning must be visible to the OFF detector: {payload}"
        );
        if let Some(text) = expected_text {
            assert!(
                events
                    .iter()
                    .any(|event| matches!(event, ProviderEvent::ReasoningDelta(t) if t == text)),
                "{payload}"
            );
        }
    }
}

#[test]
fn reasoning_off_payload_is_verified_per_wire_protocol() {
    for (body, kind, off, accepted) in [
        (
            r#"{"reasoning_effort":"none"}"#,
            ProviderKind::OpenAiCompatible,
            ReasoningOff::EffortNone,
            true,
        ),
        (
            r#"{"reasoning_effort":"low"}"#,
            ProviderKind::OpenAiCompatible,
            ReasoningOff::EffortNone,
            false,
        ),
        (
            r#"{"thinking":{"type":"enabled"}}"#,
            ProviderKind::OpenAiCompatible,
            ReasoningOff::EffortNone,
            false,
        ),
        (
            r#"{"thinking":{"type":"disabled"}}"#,
            ProviderKind::OpenAiCompatible,
            ReasoningOff::ThinkingDisabled,
            true,
        ),
        (
            r#"{"thinking":{"type":"disabled"},"reasoning_effort":"high"}"#,
            ProviderKind::OpenAiCompatible,
            ReasoningOff::ThinkingDisabled,
            false,
        ),
        (
            r#"{"thinking":{"type":"disabled"}}"#,
            ProviderKind::Anthropic,
            ReasoningOff::ThinkingDisabled,
            true,
        ),
        (
            r#"{"thinking":{"type":"disabled"},"output_config":{"effort":"high"}}"#,
            ProviderKind::Anthropic,
            ReasoningOff::ThinkingDisabled,
            false,
        ),
        (
            r#"{"thinking":{"type":"enabled","budget_tokens":1024}}"#,
            ProviderKind::Anthropic,
            ReasoningOff::ThinkingDisabled,
            false,
        ),
        (
            r#"{"reasoning":{"effort":"none"}}"#,
            ProviderKind::OpenAiCodex,
            ReasoningOff::ResponsesEffortNone,
            true,
        ),
        (
            r#"{"reasoning":{"summary":"auto"}}"#,
            ProviderKind::OpenAiCodex,
            ReasoningOff::ResponsesEffortNone,
            false,
        ),
        (
            r#"{"reasoning":{"effort":"none","summary":"auto"}}"#,
            ProviderKind::OpenAiCodex,
            ReasoningOff::ResponsesEffortNone,
            false,
        ),
    ] {
        assert_eq!(
            validate_reasoning_disabled_payload(body.as_bytes(), kind, off).is_ok(),
            accepted,
            "{body}"
        );
    }
}

#[test]
fn recovery_output_limit_preserves_wire_fields_and_model_controls() {
    let adapter = adapter(
        openai("http://localhost", "fixture", "fixture-key")
            .with_reasoning_effort("high".to_owned()),
    );
    let route = adapter.route();
    for key in ["max_tokens", "max_output_tokens", "max_completion_tokens"] {
        let body = parsed(
            r#"{"model":"fixture", "reasoning_effort":"high", "messages":[], "tools":[]}"#,
        )
        .with(key, Json::number(4096));
        let request = PreparedProviderRequest::from_http_body(
            "http://localhost".into(),
            vec![],
            &body,
            &route,
        );
        let old_key = request.cache_key(route.kind, &route.model);
        let recovered = match request.with_recovery_output_limit(16_384, &route, false) {
            Ok(recovered) => recovered,
            Err(_) => panic!("recovery"),
        };
        let body = body.with(key, Json::number(16_384));
        let sent = json::parse_bytes(recovered.body()).expect("body");
        assert!(json::same_json(&sent, &body));
        assert_ne!(old_key, recovered.cache_key(route.kind, &route.model));
        assert_eq!(
            recovered.serialized_chars(),
            String::from_utf8_lossy(recovered.body()).chars().count() as u64
        );
    }
    let request = PreparedProviderRequest::from_http_body(
        "http://localhost".into(),
        vec![],
        &parsed(r#"{"model":"fixture", "messages":[]}"#),
        &route,
    );
    let recovered = match request.with_recovery_output_limit(16_384, &route, false) {
        Ok(recovered) => recovered,
        Err(_) => panic!("recovery"),
    };
    assert_eq!(recovered.output_token_limit(), None);
    assert_eq!(next_recovery_output_limit(4096, 128_000, None), Some(16_384));
    assert_eq!(next_recovery_output_limit(16_384, 128_000, None), Some(32_768));
    assert_eq!(next_recovery_output_limit(32_768, 128_000, None), None);
    assert_eq!(next_recovery_output_limit(4096, 8192, None), None);
}

#[test]
fn retry_after_parses_seconds_dates_and_does_not_shorten_overflow() {
    let now = httpdate::parse_http_date("Sun, 06 Nov 1994 08:49:37 GMT")
        .unwrap()
        .duration_since(std::time::UNIX_EPOCH)
        .unwrap()
        .as_nanos();
    assert_eq!(parse_retry_after("2", now), Some(2 * SECOND));
    assert_eq!(
        parse_retry_after("Sun, 06 Nov 1994 08:49:39 GMT", now),
        Some(2 * SECOND)
    );
    assert_eq!(
        parse_retry_after("Sun, 06 Nov 1994 08:49:36 GMT", now),
        Some(0)
    );
    assert_eq!(
        parse_retry_after("999999999999999999999999", now),
        Some(u64::MAX as u128 * SECOND)
    );
    for invalid in ["", "-1", "1.5", "tomorrow"] {
        assert_eq!(parse_retry_after(invalid, now), None);
    }
}

#[test]
fn history_scope_matches_the_producing_model_only() {
    let mut message = ProviderMessage::assistant("hi".to_owned(), vec![]);
    message.chat_reasoning = Some(ChatReasoning {
        scope_id: 42,
        model: "deepseek-v4-flash".into(),
        content: "thought".into(),
    });
    assert_eq!(
        history_response_cache_scope(&vec![message.clone()], "deepseek-v4-flash"),
        Some(42)
    );
    assert_eq!(history_response_cache_scope(&vec![message], "other"), None);
    assert_eq!(
        history_response_cache_scope(
            &vec![ProviderMessage::assistant("hi".to_owned(), vec![])],
            "deepseek-v4-flash"
        ),
        None
    );
}

#[test]
fn workspace_snapshot_suffix_is_not_visible_resume_text() {
    let live = format!(
        "prompt{} (partial):\nfile.txt\n",
        "\n\nWorkspace paths observed before this turn"
    );
    assert_eq!(slim_core::without_workspace_snapshot(&live), "prompt");
    assert_eq!(slim_core::without_workspace_snapshot("prompt"), "prompt");
    assert_eq!(
        slim_core::without_workspace_snapshot("prompt\n\nHarness channel: Auto, unattended."),
        "prompt"
    );
}
