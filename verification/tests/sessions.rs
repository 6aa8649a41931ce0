use slim_core::agents::{
    Activity, ChildStatus, MutationLease, Scheduler, SpawnRequest, SpawnResult,
};
use slim_core::codeintel::{CodeIntelOutcome, CodeIntelServerState};
use slim_core::context::artifacts::{after_rename, commit_step, CommitStep};
use slim_core::context::jev_request::{read_response, MAX_RESPONSE_BYTES};
use slim_core::context::{
    apply_compaction_selection, build_bounded_summary_prompt, compact, compact_provider_messages,
    compaction_prefix_fingerprint, estimate_provider_message_tokens,
    estimate_text_tokens_from_chars, has_compactable_history,
    latest_user_instruction_before_boundary, select_compaction_history, AdaptiveTokenEstimator,
    ArtifactHandle, CompactionHandle, CompactionPolicy, CompactionReason, CompactionStatus,
    CompactionStrategy, ContextBudget, ContextItem, JevBackend, PreparedCompaction,
};
use slim_core::interaction::{
    ask_question_definition, AskQuestion, InteractionError, InteractionRequestId,
    InteractionRouteState, QuestionAnswer, QuestionOption, MAX_INTERACTIONS_PER_ROUTE,
};
use slim_core::json;
use slim_core::json::Json;
use slim_core::profiles::{ProfileCatalog, ProfileId};
use slim_core::protocol::OperatingMode;
use slim_core::provider::{ChatReasoning, ProviderMessage, ProviderToolCall};

fn user(text: &str) -> ProviderMessage {
    ProviderMessage::user(text.to_owned())
}

fn assistant(text: &str) -> ProviderMessage {
    ProviderMessage::assistant(text.to_owned(), Vec::new())
}

fn called(id: &str, result: &str) -> Vec<ProviderMessage> {
    vec![
        ProviderMessage::assistant(
            "calling".to_owned(),
            vec![ProviderToolCall { id: id.into(), name: "read".into(), arguments: "{}".into() }],
        ),
        ProviderMessage::tool("read".to_owned(), id.to_owned(), result.to_owned()),
    ]
}

fn long_history() -> Vec<ProviderMessage> {
    let mut messages = vec![user("root task")];
    for index in 0..6 {
        messages.extend(called(&format!("c{index}"), &"r".repeat(4_000)));
        messages.push(assistant(&format!("step {index}")));
    }
    messages.push(user("latest"));
    messages
}

fn small_policy() -> CompactionPolicy {
    CompactionPolicy { keep_recent_tokens: 500, ..CompactionPolicy::default() }
}

#[test]
fn a_selection_keeps_calls_and_results_together() {
    let messages = long_history();
    assert!(has_compactable_history(&messages));
    let selection = select_compaction_history(&messages, &small_policy()).expect("selection");
    assert_eq!(selection.root_instruction, "root task");
    assert!(selection.first_kept_index > 1);
    assert!(!matches!(selection.kept.first(), Some(first) if first.role == "tool"));
    let applied = apply_compaction_selection(&messages, &selection, "summary".to_owned())
        .expect("applied");
    assert!(applied.len() < messages.len());
    assert!(applied.iter().any(|message| message.content.contains("summary")));
    for message in &applied {
        if let Some(id) = &message.tool_call_id {
            assert!(applied
                .iter()
                .any(|other| other.tool_calls.iter().any(|call| &call.id == id)));
        }
    }
    assert!(select_compaction_history(&vec![user("only")], &small_policy()).is_err());
    assert!(compact_provider_messages(&vec![user("only")], "s".to_owned()).is_err());
}

fn thinking() -> ChatReasoning {
    ChatReasoning { scope_id: 7, model: "m".into(), content: "secret thought".into() }
}

#[test]
fn what_is_kept_has_at_most_twice_the_tokens_to_keep() {
    let mut messages = vec![user("root task")];
    for index in 0..8 {
        messages.extend(called(&format!("c{index}"), &"r".repeat(1_400)));
    }
    let selection = select_compaction_history(&messages, &small_policy()).expect("selection");
    let kept = estimate_provider_message_tokens(&selection.kept);
    assert!(kept >= 500 && kept <= 1_000, "{kept}");
    let mut large = messages.clone();
    large.extend(called("large", &"r".repeat(14_000)));
    let selection = select_compaction_history(&large, &small_policy()).expect("selection");
    assert_eq!(selection.first_kept_index, messages.len());
}

#[test]
fn a_live_continuation_is_kept_whole() {
    let mut messages = long_history();
    let mut open = called("live", &"r".repeat(40_000));
    open[0].chat_reasoning = Some(thinking());
    let start = messages.len();
    messages.extend(open);
    let selection = select_compaction_history(&messages, &small_policy()).expect("selection");
    assert!(selection.first_kept_index <= start);
    assert!(selection.kept.iter().any(|message| message.chat_reasoning.is_some()));
}

#[test]
fn thinking_stays_out_of_summaries() {
    let mut messages = long_history();
    let plain = build_bounded_summary_prompt(&messages, 100_000, 1_000).expect("prompt");
    for message in &mut messages {
        message.chat_reasoning = Some(thinking());
    }
    let prompt = build_bounded_summary_prompt(&messages, 100_000, 1_000).expect("prompt");
    assert_eq!(prompt, plain);
    assert!(!prompt.contains("secret thought"));
}

#[test]
fn the_latest_instruction_before_the_kept_part_is_found() {
    let messages = vec![user("root"), assistant("a"), user("change"), assistant("b")];
    let found = latest_user_instruction_before_boundary(&messages, 4);
    assert!(matches!(found, Some((2, message)) if message.content == "change"));
    assert!(latest_user_instruction_before_boundary(&messages, 1).is_none());
}

#[test]
fn a_prepared_summary_survives_what_is_appended() {
    let messages = long_history();
    let selection = select_compaction_history(&messages, &small_policy()).expect("selection");
    let prepared = |identity: &str| PreparedCompaction {
        summary: "s".into(),
        prefix_fingerprint: compaction_prefix_fingerprint(
            &messages[..selection.first_kept_index].to_vec(),
        ),
        first_kept_index: selection.first_kept_index,
        pinned: selection.pinned.clone(),
        source_len: messages.len(),
        provider_identity: identity.into(),
        input_tokens: 1,
        output_tokens: 1,
        duration_ms: 1,
    };
    let mut handle = CompactionHandle::new(small_policy());
    handle.mark_preparing();
    handle.store_prepared(prepared("p"));
    assert_eq!(handle.status(), CompactionStatus::Ready);
    let mut longer = messages.clone();
    longer.push(assistant("more"));
    assert!(handle.take_prepared(&longer, "p").is_some());
    assert_eq!(handle.status(), CompactionStatus::Applied);

    handle.mark_preparing();
    handle.store_prepared(prepared("p"));
    assert!(handle.take_prepared(&longer, "q").is_none());
    assert_eq!(handle.status(), CompactionStatus::Discarded);

    handle.mark_preparing();
    handle.store_prepared(prepared("p"));
    let mut changed = messages.clone();
    changed[1].content = "rewritten".into();
    assert!(handle.take_prepared(&changed, "p").is_none());
}

#[test]
fn generations_grow_with_every_commit() {
    let mut handle = CompactionHandle::default();
    let before = handle.generation();
    handle.commit("summary".into(), "print".into());
    assert!(handle.generation() > before);
    assert_eq!(handle.previous_summary().as_deref(), Some("summary"));
    assert!(handle.request_manual("keep the plan".into()).is_ok());
    assert_eq!(handle.manual_instructions().as_deref(), Some("keep the plan"));
    handle.clear_manual();
    assert!(handle.manual_instructions().is_none());
    assert!(handle.request_manual("x".repeat(5_000)).is_err());
}

#[test]
fn fingerprints_tell_prefixes_apart() {
    let messages = long_history();
    let print = compaction_prefix_fingerprint(&messages);
    assert_eq!(print, compaction_prefix_fingerprint(&messages.clone()));
    let mut changed = messages;
    changed[0].content.push('!');
    assert_ne!(print, compaction_prefix_fingerprint(&changed));
}

#[test]
fn lines_of_a_policy_come_in_order() {
    let policy = CompactionPolicy::default();
    for window in [0, 1, 8_000, 128_000, u64::MAX] {
        assert!(policy.soft_threshold_tokens(window) <= policy.hard_threshold_tokens(window));
        assert!(policy.hard_threshold_tokens(window) <= window);
    }
    assert_eq!(CompactionStrategy::parse("jev"), Ok(CompactionStrategy::Jev));
    assert!(CompactionStrategy::parse("other").is_err());
    for strategy in [CompactionStrategy::Jev, CompactionStrategy::Summary] {
        assert_eq!(CompactionStrategy::parse(strategy.name()), Ok(strategy));
    }
    assert_eq!(CompactionReason::Manual, CompactionReason::Manual);
}

#[test]
fn todos_plans_and_goals_are_kept() {
    let items = vec![
        ContextItem::Text("chatter".into()),
        ContextItem::Todo("t".into()),
        ContextItem::Plan("p".into()),
        ContextItem::Goal("g".into()),
    ];
    let result = compact(&items, "summary".to_owned());
    assert_eq!(result.original_count, 4);
    assert!(result.preserved.contains(&ContextItem::Todo("t".into())));
    assert!(!result.preserved.contains(&ContextItem::Text("chatter".into())));
}

#[test]
fn estimates_are_learned_per_model() {
    assert_eq!(estimate_text_tokens_from_chars(0), 4);
    assert_eq!(estimate_text_tokens_from_chars(7), 6);
    assert!(estimate_provider_message_tokens(&long_history()) > 5_000);
    let mut estimator = AdaptiveTokenEstimator::default();
    let before = estimator.estimate("p", "m", 7_000);
    assert_eq!(before, 2_000);
    for _ in 0..20 {
        estimator.observe("p", "m", 7_000, 1_000);
    }
    assert!(estimator.estimate("p", "m", 7_000) < before);
    assert_eq!(estimator.estimate("p", "other", 7_000), before);
}

#[test]
fn budgets_tell_what_fits() {
    let budget = ContextBudget::new(1_000, 100, 100);
    assert!(budget.can_fit(0));
    assert!(!budget.can_fit(u64::MAX));
    assert!(!budget.should_compact());
    assert!(ContextBudget::new(1_000, 1_000, 0).should_compact());
}

#[test]
fn summary_prompts_fit_their_window() {
    let prompt = build_bounded_summary_prompt(&long_history(), 4_000, 500).expect("prompt");
    assert!(estimate_text_tokens_from_chars(prompt.chars().count() as u64) <= 4_000);
    assert!(build_bounded_summary_prompt(&long_history(), 10, 10).is_err());
}

#[test]
fn artifacts_are_named_by_their_contents() {
    let handle = ArtifactHandle::preview("tool read", "abc", 3);
    assert_eq!(handle.id, "tool-read-abc");
    assert!(handle.is_stored(Some(3)));
    assert!(!handle.is_stored(Some(4)));
    assert_eq!(commit_step(&handle, false, None), CommitStep::Keep);
    assert_eq!(commit_step(&handle, true, Some(3)), CommitStep::RemoveStaged);
    assert_eq!(commit_step(&handle, true, None), CommitStep::Rename);
    assert_eq!(after_rename(&handle, false, None), CommitStep::Fail);
    assert_eq!(after_rename(&handle, false, Some(3)), CommitStep::RemoveStaged);
}

#[test]
fn answers_of_the_judge_are_bounded_and_refusals_shown() {
    let ids = vec!["keep_0".to_owned()];
    let backend = JevBackend::Typesafe;
    let answer = br#"{"answers":{"keep_0":{"type":"noul","noul":1}}}"#.to_vec();
    match read_response(backend, 200, &answer, &ids) {
        Ok(judgment) => assert_eq!(judgment.probabilities, vec![1_000_000_000_000_000_000]),
        Err(message) => panic!("{message}"),
    }
    let refused = read_response(backend, 503, &"é".repeat(300).into_bytes(), &ids);
    assert_eq!(refused, Err(format!("http 503: {}", "é".repeat(200))));
    let long = vec![b' '; MAX_RESPONSE_BYTES as usize + 1];
    assert_eq!(
        read_response(backend, 200, &long, &ids),
        Err("response exceeds 1048576 bytes".to_owned())
    );
    assert!(read_response(backend, 200, &b"{".to_vec(), &ids).is_err());
}

#[test]
fn children_start_wait_and_follow() {
    let spawn = |id: &str, depth: u32| SpawnRequest { id: id.into(), depth };
    let mut scheduler = Scheduler::new(1, 1);
    assert_eq!(scheduler.spawn(spawn("a", 1)), SpawnResult::Started);
    assert_eq!(scheduler.spawn(spawn("a", 1)), SpawnResult::Duplicate);
    assert_eq!(scheduler.spawn(spawn("b", 0)), SpawnResult::Queued);
    assert_eq!(scheduler.spawn(spawn("c", 0)), SpawnResult::QueueFull);
    assert_eq!(scheduler.spawn(spawn("d", 2)), SpawnResult::DepthExceeded);
    scheduler.finish("a", "done");
    assert_eq!(scheduler.status("a"), Some(ChildStatus::Completed));
    assert_eq!(scheduler.status("b"), Some(ChildStatus::Active));
    scheduler.cancel("b");
    assert_eq!(scheduler.status("b"), Some(ChildStatus::Cancelled));
    assert!(scheduler.list().iter().any(|result| result.id == "a" && result.message == "done"));
    for child in scheduler.list() {
        assert_eq!(scheduler.status(&child.id), Some(child.status));
        assert_eq!(child.session_id, format!("session-{}", child.id));
    }
    assert!(matches!(Activity::Tool { name: "n".into() }, Activity::Tool { .. }));

    let mut lease = MutationLease::default();
    assert!(lease.acquire("a"));
    assert!(!lease.acquire("b"));
    lease.release("b");
    assert!(!lease.acquire("b"));
    lease.release("a");
    assert!(lease.acquire("b"));
}

fn question(text: &str, labels: &[&str]) -> AskQuestion {
    AskQuestion {
        question: text.to_owned(),
        options: labels
            .iter()
            .map(|label| QuestionOption { label: label.to_string(), description: String::new() })
            .collect(),
    }
}

#[test]
fn questions_are_checked() {
    assert!(question("Which?", &["a", "b"]).validate().is_ok());
    assert!(question("Free?", &[]).validate().is_ok());
    assert_eq!(question(" ", &[]).validate(), Err(InteractionError::InvalidQuestion));
    assert_eq!(
        question("Which?", &["a"]).validate(),
        Err(InteractionError::InvalidOptionCount { count: 1 })
    );
    assert_eq!(
        question("Which?", &["a", "A"]).validate(),
        Err(InteractionError::DuplicateOption { index: 1 })
    );
    assert!(matches!(
        question("Which?", &["a", ""]).validate(),
        Err(InteractionError::InvalidOption { index: 1, .. })
    ));
    assert!(matches!(
        AskQuestion::from_parsed(Err("bad".into())),
        Err(InteractionError::InvalidJson { message }) if message == "bad"
    ));
    assert!(QuestionAnswer::custom("yes".into()).is_ok());
    assert_eq!(
        QuestionAnswer::custom("  ".into()).err(),
        Some(InteractionError::InvalidAnswer)
    );
    assert_eq!(ask_question_definition().str_at("name"), Some("ask_question"));
}

fn request_id(value: &str) -> InteractionRequestId {
    match InteractionRequestId::new(value.to_owned()) {
        Ok(id) => id,
        Err(_) => panic!("id"),
    }
}

#[test]
fn a_question_is_answered_once() {
    assert!(InteractionRequestId::new(String::new()).is_err());
    let id = request_id("q1");
    let (route, registered) = InteractionRouteState::new().register(&id);
    assert!(registered.is_ok());
    let (route, again) = route.register(&id);
    assert!(matches!(again, Err(InteractionError::DuplicateRequest { .. })));
    let (route, answered) = route.answer(&id);
    assert!(answered.is_ok());
    let (route, stale) = route.answer(&id);
    assert!(matches!(stale, Err(InteractionError::StaleRequest { .. })));
    let (mut route, again) = route.register(&id);
    assert!(again.is_err());
    for index in 0..MAX_INTERACTIONS_PER_ROUTE {
        let (next, registered) = route.register(&request_id(&format!("r{index}")));
        assert!(registered.is_ok());
        route = next;
    }
    let (route, full) = route.register(&request_id("one more"));
    assert!(matches!(full, Err(InteractionError::RouteCapacity)));
    let route = route.abandon(&request_id("r0"));
    let (_, freed) = route.register(&request_id("one more"));
    assert!(freed.is_ok());
}

#[test]
fn modes_and_profiles() {
    let mut mode = OperatingMode::default();
    for _ in 0..4 {
        mode = mode.next();
    }
    assert_eq!(mode, OperatingMode::Auto);
    assert!(OperatingMode::Jev.allows_mutation());
    assert!(!OperatingMode::Plan.allows_mutation());
    assert_eq!(ProfileCatalog.get(ProfileId::Fast).effort, "low");
    let outcome = CodeIntelOutcome::unavailable("srv", "no binary");
    assert_eq!(outcome.meta.state, CodeIntelServerState::Unavailable);
    assert_eq!(outcome.payload.str_at("error"), Some("no binary"));
}

#[test]
fn json_is_read_and_written() {
    let value = json::parse(r#"{"b":[1,true,null,"x\n"],"a":{"k":-2}}"#).expect("json");
    assert_eq!(json::to_text(&value), r#"{"a":{"k":-2},"b":[1,true,null,"x\n"]}"#);
    assert_eq!(value.under("a", "k").unwrap().as_i64(), Some(-2));
    assert!(value.get("missing").is_none());
    let set = Json::object().with("z", Json::number(1)).with("a", Json::string("s"));
    assert_eq!(json::to_text(&set), r#"{"a":"s","z":1}"#);
    assert!(json::same_json(&set.copy().without("z"), &json::parse(r#"{"a":"s"}"#).expect("json")));
    assert!(json::parse("{").is_err());
    assert!(json::parse_bytes(&[0xff]).is_err());
    assert_eq!(json::quote("a\"b"), r#""a\"b""#);
    assert_eq!(json::to_text_pretty(&set), "{\n  \"a\": \"s\",\n  \"z\": 1\n}");
}
