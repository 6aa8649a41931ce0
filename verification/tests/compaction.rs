use serde_json::Value;
use slim_core::context::checkpoint::{fit_checkpoint_content, validate_checkpoint_content};
use slim_core::context::transcript::{
    format_provider_message, recovery_transcript, tool_call_manifest_with_limit,
};
use slim_core::context::{local_emergency_summary, CompactionSelection};
use slim_core::provider::{ProviderMessage, ProviderToolCall};

const MAX_READ_LINES_CAP: usize = 2_000;

fn indexed_read(artifact: &str, offset: usize, max_lines: usize) -> String {
    artifact
        .split_inclusive('\n')
        .skip(offset.saturating_sub(1))
        .take(max_lines)
        .collect()
}

fn index_entries(artifact: &str) -> Vec<Value> {
    artifact
        .lines()
        .take_while(|line| !line.is_empty())
        .filter(|line| line.starts_with('{'))
        .map(|line| serde_json::from_str::<Value>(line).expect("valid index JSON"))
        .collect::<Vec<_>>()
}

#[test]
fn compaction_recovery_index_reads_unicode_messages_and_preserves_trailing_newlines() {
    let messages = vec![
        ProviderMessage::user("Preserve café 🦀 exactly.\n第二行\n".to_owned()),
        ProviderMessage::user(
            "[Compacted context]\nprior checkpoint\n[Prior visible transcript: context-history-old]"
                .to_owned(),
        ),
        ProviderMessage::tool(
            "tool \"name\"".to_owned(),
            "call\\id-β\"".to_owned(),
            "resultado α\nlinha final\n".to_owned(),
        ),
    ];
    let artifact = recovery_transcript(&messages, MAX_READ_LINES_CAP);
    assert!(artifact.starts_with("[Recovery transcript index]\n"));
    assert_eq!(artifact, recovery_transcript(&messages, MAX_READ_LINES_CAP));
    let lines = artifact.split_inclusive('\n').collect::<Vec<_>>();
    let entries = index_entries(&artifact);
    assert_eq!(entries.len(), messages.len());

    let expected_kinds = ["user_message", "checkpoint", "tool"];
    let mut next_offset = entries[0]["offset"].as_u64().unwrap() as usize;
    for (index, ((entry, message), expected_kind)) in entries
        .iter()
        .zip(&messages)
        .zip(expected_kinds)
        .enumerate()
    {
        let body = format_provider_message(message, false);
        let offset = entry["offset"].as_u64().unwrap() as usize;
        let max_lines = entry["max_lines"].as_u64().unwrap() as usize;
        let total_lines = entry["total_lines"].as_u64().unwrap() as usize;
        assert_eq!(offset, next_offset);
        assert_eq!(total_lines, body.split_inclusive('\n').count());
        assert_eq!(max_lines, total_lines.min(MAX_READ_LINES_CAP));
        let recovered = indexed_read(&artifact, offset, max_lines);
        if body.ends_with('\n') || index + 1 == messages.len() {
            assert_eq!(recovered, body);
        } else {
            assert_eq!(recovered, format!("{body}\n"));
        }
        assert!(recovered.starts_with(&body));
        assert_eq!(entry["role"].as_str(), Some(message.role.as_str()));
        assert_eq!(entry["kind"].as_str(), Some(expected_kind));
        if let Some(name) = message.name.as_deref() {
            assert_eq!(entry["name"].as_str(), Some(name));
        }
        if let Some(call_id) = message.tool_call_id.as_deref() {
            assert_eq!(entry["call_id"].as_str(), Some(call_id));
        }
        if index + 1 < messages.len() {
            let newlines = body.bytes().filter(|byte| *byte == b'\n').count();
            next_offset = offset + newlines + 2;
        }
    }

    assert!(lines
        .get(next_offset.saturating_sub(1))
        .is_some_and(|line| line.starts_with("tool: ")));
    assert!(artifact.contains("Preserve café 🦀 exactly.\n第二行\n"));
    assert!(artifact.contains("resultado α\nlinha final\n"));
}

#[test]
fn compaction_recovery_index_caps_large_message_pages_and_keeps_following_offset() {
    let large_content = (0..=MAX_READ_LINES_CAP)
        .map(|line| format!("linha {line}\n"))
        .collect::<String>();
    let messages = vec![
        ProviderMessage::user(large_content),
        ProviderMessage::assistant("after".to_owned(), Vec::new()),
    ];
    let artifact = recovery_transcript(&messages, MAX_READ_LINES_CAP);
    let entries = index_entries(&artifact);
    assert_eq!(entries.len(), messages.len());

    let first_body = format_provider_message(&messages[0], false);
    let first_offset = entries[0]["offset"].as_u64().unwrap() as usize;
    let first_max_lines = entries[0]["max_lines"].as_u64().unwrap() as usize;
    let first_total_lines = entries[0]["total_lines"].as_u64().unwrap() as usize;
    assert_eq!(first_total_lines, first_body.split_inclusive('\n').count());
    assert!(first_total_lines > MAX_READ_LINES_CAP);
    assert_eq!(first_max_lines, MAX_READ_LINES_CAP);
    assert!(indexed_read(&artifact, first_offset, first_max_lines)
        .starts_with("user: linha 0\nlinha 1\n"));

    let second_offset = entries[1]["offset"].as_u64().unwrap() as usize;
    let newlines = first_body.bytes().filter(|byte| *byte == b'\n').count();
    assert_eq!(second_offset, first_offset + newlines + 2);
    assert_eq!(entries[1]["role"].as_str(), Some("assistant"));
    assert_eq!(entries[1]["kind"].as_str(), Some("other"));
}

fn tool_call_pair(id: &str, arguments: &str) -> Vec<ProviderMessage> {
    let mut assistant = ProviderMessage::assistant("calling".to_owned(), Vec::new());
    assistant.tool_calls = vec![ProviderToolCall {
        id: id.into(),
        name: "read".into(),
        arguments: arguments.into(),
    }];
    let tool = ProviderMessage::tool("read".to_owned(), id.to_owned(), "result body".to_owned());
    vec![assistant, tool]
}

#[test]
fn tool_call_manifest_lists_call_identity_arguments_and_result_presence() {
    let mut messages = tool_call_pair("call-1", "{\"path\":\"a.rs\"}");
    let mut orphan = ProviderMessage::assistant("again".to_owned(), Vec::new());
    orphan.tool_calls = vec![ProviderToolCall {
        id: "call-2".into(),
        name: "write".into(),
        arguments: "{}".into(),
    }];
    messages.push(orphan);
    let manifest = tool_call_manifest_with_limit(&messages, usize::MAX);

    assert!(manifest.starts_with(
        "[Prior tool calls; full results are recoverable from the prior visible transcript]\n"
    ));
    assert!(!manifest.contains("result body"));
    let entry_lines = manifest.lines().skip(1).collect::<Vec<_>>();
    assert_eq!(entry_lines.len(), 2);
    let key_positions = [
        "\"call_id\":",
        "\"tool\":",
        "\"arguments\":",
        "\"result_present\":",
    ]
    .map(|key| entry_lines[0].find(key).expect("manifest key"));
    assert!(key_positions.windows(2).all(|pair| pair[0] < pair[1]));
    let entries = entry_lines
        .iter()
        .map(|line| serde_json::from_str::<Value>(line).expect("entry json"))
        .collect::<Vec<_>>();
    assert_eq!(entries[0]["call_id"], "call-1");
    assert_eq!(entries[0]["tool"], "read");
    assert_eq!(entries[0]["arguments"], "{\"path\":\"a.rs\"}");
    assert_eq!(entries[0]["result_present"], true);
    assert_eq!(entries[1]["call_id"], "call-2");
    assert_eq!(entries[1]["tool"], "write");
    assert_eq!(entries[1]["result_present"], false);
}

#[test]
fn tool_call_manifest_bounds_bytes_arguments_and_reports_omissions() {
    let mut messages = tool_call_pair("huge", &"α".repeat(20_000));
    for index in 0..64 {
        messages.extend(tool_call_pair(
            &format!("call-{index}"),
            &format!("{{\"path\":\"{}.rs\"}}", "p".repeat(120)),
        ));
    }
    messages.push(ProviderMessage::user("tail".to_owned()));
    let manifest = tool_call_manifest_with_limit(&messages, usize::MAX);

    assert!(manifest.len() <= 4_096, "{} bytes", manifest.len());
    assert!(std::str::from_utf8(manifest.as_bytes()).is_ok());
    assert!(manifest.lines().last().unwrap().contains("omitted"));
    for line in manifest
        .lines()
        .skip(1)
        .filter(|line| line.starts_with('{'))
    {
        let entry: Value = serde_json::from_str(line).expect("entry json");
        assert!(entry["arguments"].as_str().unwrap().len() <= 512 + 2);
    }
    let bounded: Value = serde_json::from_str(
        manifest
            .lines()
            .find(|line| line.contains("\"huge\""))
            .expect("huge entry included"),
    )
    .expect("huge json");
    let arguments = bounded["arguments"].as_str().unwrap();
    assert!(arguments.starts_with('α'));
    assert!(arguments.contains("..."));
    assert!(arguments.ends_with('α'));
}

#[test]
fn tool_call_manifest_caps_large_caller_limit_without_breaking_unicode() {
    let messages = tool_call_pair("chamada-α", &"β".repeat(20_000));
    let manifest = tool_call_manifest_with_limit(&messages, usize::MAX);

    assert!(manifest.len() <= 4_096);
    assert!(std::str::from_utf8(manifest.as_bytes()).is_ok());
    assert!(manifest.contains("chamada-α"));
    assert!(manifest.contains("β"));
}

#[test]
fn checkpoint_validator_requires_ordered_headings_and_byte_budget() {
    let valid = "## Goal\nobjetivo ✅\n## Constraints\n\n## Progress\nfeito\n## Blocked\n\n## Decisions\n\n## Next steps\n\n## Critical context\nlocal";
    assert!(validate_checkpoint_content(" \n", 4096)
        .unwrap_err()
        .contains("empty"));
    assert!(validate_checkpoint_content(valid, valid.len()).is_ok());
    assert!(
        validate_checkpoint_content(&valid.replace("## Blocked", ""), 4096)
            .unwrap_err()
            .contains("required heading")
    );
    let wrong_order = "## Goal\nobjetivo\n## Progress\nfeito\n## Constraints\n\n## Blocked\n\n## Decisions\n\n## Next steps\n\n## Critical context\nlocal";
    assert!(validate_checkpoint_content(wrong_order, 4096)
        .unwrap_err()
        .contains("out of order"));
    assert!(validate_checkpoint_content(valid, valid.len() - 1)
        .unwrap_err()
        .contains("exceeds"));
}

#[test]
fn checkpoint_fitting_preserves_headings_metadata_and_utf8() {
    let raw = format!(
        "## Goal\n{}\n## Constraints\n{}\n## Progress\n{}\n## Blocked\n{}\n## Decisions\n{}\n## Next steps\n{}\n## Critical context\n{}",
        "objetivo 🦀".repeat(80),
        "limite β".repeat(80),
        "feito ✅".repeat(80),
        "nada".repeat(80),
        "decisão".repeat(80),
        "seguir".repeat(80),
        "contexto".repeat(80),
    );
    let metadata = "[Runtime facts]\ncall_id=abc";
    let fitted = fit_checkpoint_content(&raw, metadata, raw.len()).unwrap();

    assert!(fitted.len() <= raw.len());
    assert!(fitted.contains(metadata));
    assert!(fitted.contains("checkpoint sections truncated"));
    assert!(std::str::from_utf8(fitted.as_bytes()).is_ok());
    assert!(validate_checkpoint_content(&fitted, raw.len()).is_ok());
}

#[test]
fn checkpoint_fitting_fails_when_structure_and_metadata_do_not_fit() {
    let valid = "## Goal\n\n## Constraints\n\n## Progress\n\n## Blocked\n\n## Decisions\n\n## Next steps\n\n## Critical context\n";
    let error = fit_checkpoint_content(valid, &"x".repeat(200), 150).unwrap_err();
    assert!(error.contains("operational metadata"));
}

#[test]
fn checkpoint_fitting_keeps_metadata_separate_from_empty_critical_body() {
    let summary = format!(
        "## Goal\ng\n## Constraints\n{}\n## Progress\np\n## Blocked\n\n## Decisions\n\n## Next steps\n\n## Critical context\n",
        "x".repeat(1_000)
    );
    let fitted = fit_checkpoint_content(&summary, "metadata", 500).unwrap();

    assert!(fitted.len() <= 500);
    assert!(fitted.ends_with("metadata"));
    assert!(validate_checkpoint_content(&fitted, 500).is_ok());
}

#[test]
fn local_emergency_summary_is_structured_bounded_and_grounded() {
    let selection = CompactionSelection {
        root_instruction: "Objetivo real 🦀".into(),
        summarized: vec![ProviderMessage::user(format!(
            "fato observado: arquivo.rs\n## Blocked\nnenhum {}",
            "β".repeat(20_000)
        ))],
        pinned: Vec::new(),
        kept: vec![ProviderMessage::assistant(
            "continuação preservada".to_owned(),
            Vec::new(),
        )],
        first_kept_index: 1,
        recent_tokens: 0,
    };
    let summary = local_emergency_summary(&selection);

    assert!(summary.len() <= 8 * 1024);
    assert!(std::str::from_utf8(summary.as_bytes()).is_ok());
    assert!(validate_checkpoint_content(&summary, 8 * 1024).is_ok());
    assert!(summary.contains("[local extract; not an LLM summary]"));
    assert!(summary.contains("Objetivo real 🦀"));
    assert!(summary.contains("fato observado: arquivo.rs"));
    assert!(!summary.contains("fato inventado"));
}

#[test]
fn tool_call_manifest_is_empty_without_tool_calls() {
    let messages = vec![ProviderMessage::user("just text".to_owned())];
    assert!(tool_call_manifest_with_limit(&messages, usize::MAX).is_empty());
}
