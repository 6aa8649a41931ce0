//! The events that a session records and shows.
use vstd::prelude::*;
use vstd::string::*;

use crate::context::compact::CompactionReason;
use crate::context::handle::CompactionStatus;
use crate::interaction;
use crate::interaction::QuestionOption;
use crate::process::outcome::ProcessExecutionFacts;
use crate::protocol::OperatingMode;
use crate::provider::types::{ProviderPhase, UsageBreakdown};
use crate::text;

verus! {

#[derive(Clone, Copy, Debug, PartialEq, Eq, Structural)]
pub enum CausalProgressKind {
    WorkspaceChanged,
    ValidationGreen,
    NewEvidence,
    DiagnosticsChanged,
    DistinctFailure,
    ExternalInput,
    DependencyChanged,
}

#[derive(Clone, Copy, Debug, PartialEq, Eq, Structural)]
pub enum CausalBoundaryKind {
    PotentiallyVolatile,
    Unclassifiable,
}

#[derive(Clone, Copy, Debug, PartialEq, Eq, Structural)]
pub enum CausalAnomalyKind {
    ReusableEvidence,
    RepeatedFailure,
    RedundantValidation,
    StagnantTurn,
    NoProgressCandidate,
}

#[derive(Clone, Copy, Debug, PartialEq, Eq, Structural)]
pub enum CausalConfidence {
    Low,
    Medium,
    High,
}

#[derive(Clone, Copy, Debug, PartialEq, Eq, Structural)]
pub enum CausalShadowAction {
    Observe,
    WouldReuse,
    WouldReject,
    WouldWarn,
    WouldStop,
}

#[derive(Clone, Copy, Debug, PartialEq, Eq, Structural)]
pub enum RequestKind {
    ProviderTurn,
    Compaction,
}

impl Default for RequestKind {
    fn default() -> (r: RequestKind)
        ensures
            r == RequestKind::ProviderTurn,
    {
        RequestKind::ProviderTurn
    }
}

/// The meaning that a provider declares of its reasoning stream. Without such a
/// declaration the stream stays unclassified.
#[derive(Clone, Copy, Debug, PartialEq, Eq, Structural)]
pub enum ReasoningClassification {
    Summary,
    Text,
}

#[derive(Clone, Debug, PartialEq, Eq)]
pub struct TodoChangedItem {
    pub title: String,
    pub status: String,
}

#[verifier::ext_equal]
pub struct TodoView {
    pub title: Seq<char>,
    pub status: Seq<char>,
}

impl View for TodoChangedItem {
    type V = TodoView;

    open spec fn view(&self) -> TodoView {
        TodoView { title: self.title@, status: self.status@ }
    }
}

pub open spec fn todo_views(items: Seq<TodoChangedItem>) -> Seq<TodoView> {
    items.map_values(|i: TodoChangedItem| i@)
}

fn copy_items(items: &Vec<TodoChangedItem>) -> (out: Vec<TodoChangedItem>)
    ensures
        out@ == items@,
{
    let mut out: Vec<TodoChangedItem> = Vec::new();
    let mut i: usize = 0;
    while i < items.len()
        invariant
            i <= items@.len(),
            out@ == items@.take(i as int),
        decreases items@.len() - i,
    {
        let item = &items[i];
        out.push(TodoChangedItem { title: item.title.clone(), status: item.status.clone() });
        assert(items@.take(i + 1) =~= items@.take(i as int).push(items@[i as int]));
        i = i + 1;
    }
    assert(items@.take(items@.len() as int) =~= items@);
    out
}

fn copy_texts(texts: &Vec<String>) -> (out: Vec<String>)
    ensures
        out@ == texts@,
{
    let mut out: Vec<String> = Vec::new();
    let mut i: usize = 0;
    while i < texts.len()
        invariant
            i <= texts@.len(),
            out@ == texts@.take(i as int),
        decreases texts@.len() - i,
    {
        out.push(texts[i].clone());
        assert(texts@.take(i + 1) =~= texts@.take(i as int).push(texts@[i as int]));
        i = i + 1;
    }
    assert(texts@.take(texts@.len() as int) =~= texts@);
    out
}

fn copy_text(s: &Option<String>) -> (r: Option<String>)
    ensures
        r == *s,
{
    match s {
        Some(s) => Some(s.clone()),
        None => None,
    }
}

/// What happened in a session.
#[derive(Clone, Debug, PartialEq, Eq)]
pub enum EventKind {
    SessionStarted { session_id: String },
    ModeChanged { mode: OperatingMode },
    AssistantTextDelta { text: String },
    ReasoningDelta { text: String },
    /// Adapter-known classification for the following reasoning stream.
    ReasoningClassification { classification: ReasoningClassification },
    ThinkingStarted,
    ThinkingEnded,
    ProviderPhase {
        phase: ProviderPhase,
        elapsed_ms: u64,
        detail: Option<String>,
    },
    /// A retry has been scheduled; the wait is a delay, not work progress.
    RetryScheduled {
        attempt: u32,
        limit: u32,
        wait_ms: u64,
        reason: Option<String>,
    },
    AssistantEnded { reason: String },
    UsagePartial {
        input_tokens: u64,
        output_tokens: u64,
        input_known: bool,
        output_known: bool,
    },
    UsageBreakdown { usage: UsageBreakdown },
    Usage { input_tokens: u64, output_tokens: u64 },
    ResponseCacheHit,
    GoalAssurance { verified: bool },
    ToolStarted {
        batch_id: String,
        call_id: String,
        name: String,
        arguments: String,
    },
    /// Tool arguments and policy checks completed, before executor admission.
    ToolPrepared {
        batch_id: String,
        call_id: String,
        name: String,
    },
    /// The call was admitted to an execution segment/pool.
    ToolAdmitted {
        batch_id: String,
        call_id: String,
        name: String,
    },
    ToolCall { name: String, arguments: String },
    ProviderToolCall {
        id: String,
        name: String,
        arguments: String,
    },
    ToolOutput {
        batch_id: String,
        call_id: String,
        name: String,
        output: String,
    },
    ToolProgress {
        batch_id: String,
        call_id: String,
        name: String,
        preview: String,
    },
    /// Facts from the native process backing a tool call. These describe the
    /// process boundary only; they do not determine the surrounding task's
    /// semantic success.
    ToolProcessFinished {
        batch_id: String,
        call_id: String,
        name: String,
        process: ProcessExecutionFacts,
    },
    ToolFinished {
        batch_id: String,
        call_id: String,
        name: String,
        success: bool,
        duration_ms: u64,
    },
    ToolEvidenceReused {
        original_bytes: u64,
        emitted_bytes: u64,
        post_compaction: bool,
    },
    ToolEvidenceElided {
        count: u64,
        original_bytes: u64,
        emitted_bytes: u64,
    },
    ToolCallsSuppressed { count: u64 },
    CausalProgressObserved {
        batch_id: String,
        call_id: String,
        kind: CausalProgressKind,
        tool_name: String,
        call_fingerprint: String,
        evidence_id: String,
        workspace_revision: u64,
    },
    CausalBoundaryObserved {
        batch_id: String,
        call_id: String,
        kind: CausalBoundaryKind,
        tool_name: String,
        call_fingerprint: String,
        uncertainty_epoch: u64,
    },
    CausalAnomalyDetected {
        batch_id: String,
        call_id: String,
        kind: CausalAnomalyKind,
        tool_name: String,
        call_fingerprint: String,
        evidence_id: String,
        workspace_revision: u64,
        occurrence: u32,
        confidence: CausalConfidence,
        action: CausalShadowAction,
    },
    ArtifactStored { id: String, size: u64 },
    CompactionCompleted,
    CompactionAttemptStarted {
        provider: String,
        model: String,
        system_bytes: u64,
        history_bytes: u64,
        serialized_chars: u64,
        request_bytes: u64,
        estimated_input_tokens: u64,
    },
    CompactionAttemptCompleted {
        uncached_input_tokens: u64,
        cache_write_tokens: u64,
        cache_read_tokens: u64,
        output_tokens: u64,
        reasoning_tokens: u64,
        time_to_first_byte_ms: u64,
        time_to_first_semantic_ms: u64,
        duration_ms: u64,
        usage_known: bool,
        system_bytes: Option<u64>,
        history_bytes: Option<u64>,
        estimated_input_tokens: Option<u64>,
    },
    CompactionAttemptCancelled {
        request_bytes: u64,
        estimated_input_tokens: u64,
        time_to_first_byte_ms: u64,
        time_to_first_semantic_ms: u64,
        duration_ms: u64,
        send_started: bool,
        headers_received: bool,
        first_byte_received: bool,
        first_token_received: bool,
    },
    CompactionUsageUnknown { estimated_input_tokens: u64, reason: String },
    CompactionSkippedBelowBreakEven {
        projected_savings_tokens: u64,
        estimated_cost_tokens: u64,
        safety_margin_tokens: u64,
        future_turns: u8,
    },
    CompactionState {
        state: CompactionStatus,
        reason: CompactionReason,
        tokens_before: u64,
        tokens_after: u64,
        duration_ms: u64,
    },
    CompactionJevPruned {
        pairs_total: u64,
        pairs_dropped: u64,
        results_truncated: u64,
        batches: u64,
        /// Number of Jev requests that entered the bounded batch loop. Kept
        /// separate from the legacy `batches` field so partially completed
        /// or cancelled pruning remains observable.
        batches_started: u64,
        batches_completed: u64,
        /// True when at least one usage component was unavailable. Confirmed
        /// components are still retained by the usage ledger.
        usage_unknown: bool,
        estimated_saved_tokens: u64,
        input_tokens: Option<u64>,
        output_tokens: Option<u64>,
        model: Option<String>,
        /// Jev endpoint identity. `model` is the resolved model returned by
        /// the provider; this field records the requested model and backend
        /// for pricing/audit decisions.
        backend: Option<String>,
        requested_model: Option<String>,
        duration_ms: u64,
    },
    /// Jev pruning was selected but could not complete. The ordinary failure
    /// path uses the LLM summary; cancellation stops the compaction instead.
    /// `detail` carries a bounded, redacted reason.
    CompactionJevFallback {
        detail: String,
        batches: u64,
        batches_started: u64,
        batches_completed: u64,
        usage_unknown: bool,
        input_tokens: Option<u64>,
        output_tokens: Option<u64>,
        model: Option<String>,
        backend: Option<String>,
        requested_model: Option<String>,
        duration_ms: u64,
    },
    /// Per-turn wire-size snapshot emitted before each provider request so
    /// token-economy regressions are observable in the session log.
    ContextSnapshot {
        request_kind: RequestKind,
        provider: String,
        model: String,
        system_bytes: u64,
        tool_schema_bytes: u64,
        history_bytes: u64,
        tool_result_bytes: u64,
        serialized_chars: u64,
        estimated_tokens: u64,
        context_window_tokens: u64,
    },
    RequestCompleted {
        provider_latency_ms: u64,
        cancelled: bool,
        failed: bool,
    },
    ApprovalRequired {
        request_id: String,
        summary: String,
        persisted: bool,
    },
    InputRequired {
        request_id: String,
        prompt: String,
        options: Vec<String>,
        persisted: bool,
    },
    QuestionRequired {
        request_id: String,
        question: String,
        options: Vec<QuestionOption>,
        persisted: bool,
    },
    InteractionAcknowledged {
        request_id: String,
        accepted: bool,
        message: String,
    },
    SubagentActivity { message: String },
    TodoChanged { items: Vec<TodoChangedItem> },
    TerminalError { message: String },
}

/// What happened, over the contents of its texts and lists where the library
/// reads or changes them.
#[verifier::ext_equal]
pub enum KindView {
    AssistantTextDelta { text: Seq<char> },
    ReasoningDelta { text: Seq<char> },
    ToolStarted { batch_id: Seq<char>, call_id: Seq<char>, name: Seq<char>, arguments: Seq<char> },
    ToolCall { name: Seq<char>, arguments: Seq<char> },
    ProviderToolCall { id: Seq<char>, name: Seq<char>, arguments: Seq<char> },
    ToolOutput { batch_id: Seq<char>, call_id: Seq<char>, name: Seq<char>, output: Seq<char> },
    ToolProgress { batch_id: Seq<char>, call_id: Seq<char>, name: Seq<char>, preview: Seq<char> },
    InputRequired { request_id: Seq<char>, prompt: Seq<char>, options: Seq<Seq<char>>, persisted: bool },
    QuestionRequired { request_id: Seq<char>, question: Seq<char>, options: Seq<interaction::OptionView>, persisted: bool },
    TodoChanged { items: Seq<TodoView> },
    Other(EventKind),
}

impl View for EventKind {
    type V = KindView;

    open spec fn view(&self) -> KindView {
        match *self {
            EventKind::AssistantTextDelta { text } => KindView::AssistantTextDelta {
                text: text@,
            },
            EventKind::ReasoningDelta { text } => KindView::ReasoningDelta {
                text: text@,
            },
            EventKind::ToolStarted { batch_id, call_id, name, arguments } => KindView::ToolStarted {
                batch_id: batch_id@,
                call_id: call_id@,
                name: name@,
                arguments: arguments@,
            },
            EventKind::ToolCall { name, arguments } => KindView::ToolCall {
                name: name@,
                arguments: arguments@,
            },
            EventKind::ProviderToolCall { id, name, arguments } => KindView::ProviderToolCall {
                id: id@,
                name: name@,
                arguments: arguments@,
            },
            EventKind::ToolOutput { batch_id, call_id, name, output } => KindView::ToolOutput {
                batch_id: batch_id@,
                call_id: call_id@,
                name: name@,
                output: output@,
            },
            EventKind::ToolProgress { batch_id, call_id, name, preview } => KindView::ToolProgress {
                batch_id: batch_id@,
                call_id: call_id@,
                name: name@,
                preview: preview@,
            },
            EventKind::InputRequired { request_id, prompt, options, persisted } => KindView::InputRequired {
                request_id: request_id@,
                prompt: prompt@,
                options: text::texts(options@),
                persisted,
            },
            EventKind::QuestionRequired { request_id, question, options, persisted } => KindView::QuestionRequired {
                request_id: request_id@,
                question: question@,
                options: interaction::option_views(options@),
                persisted,
            },
            EventKind::TodoChanged { items } => KindView::TodoChanged {
                items: todo_views(items@),
            },
            other => KindView::Other(other),
        }
    }
}

impl EventKind {
    pub fn copy(&self) -> (r: EventKind)
        ensures
            r@ == self@,
    {
        match self {
            EventKind::SessionStarted { session_id } => EventKind::SessionStarted {
                session_id: session_id.clone(),
            },
            EventKind::ModeChanged { mode } => EventKind::ModeChanged {
                mode: *mode,
            },
            EventKind::AssistantTextDelta { text } => EventKind::AssistantTextDelta {
                text: text.clone(),
            },
            EventKind::ReasoningDelta { text } => EventKind::ReasoningDelta {
                text: text.clone(),
            },
            EventKind::ReasoningClassification { classification } => EventKind::ReasoningClassification {
                classification: *classification,
            },
            EventKind::ThinkingStarted => EventKind::ThinkingStarted,
            EventKind::ThinkingEnded => EventKind::ThinkingEnded,
            EventKind::ProviderPhase { phase, elapsed_ms, detail } => EventKind::ProviderPhase {
                phase: *phase,
                elapsed_ms: *elapsed_ms,
                detail: copy_text(detail),
            },
            EventKind::RetryScheduled { attempt, limit, wait_ms, reason } => EventKind::RetryScheduled {
                attempt: *attempt,
                limit: *limit,
                wait_ms: *wait_ms,
                reason: copy_text(reason),
            },
            EventKind::AssistantEnded { reason } => EventKind::AssistantEnded {
                reason: reason.clone(),
            },
            EventKind::UsagePartial { input_tokens, output_tokens, input_known, output_known } => EventKind::UsagePartial {
                input_tokens: *input_tokens,
                output_tokens: *output_tokens,
                input_known: *input_known,
                output_known: *output_known,
            },
            EventKind::UsageBreakdown { usage } => EventKind::UsageBreakdown {
                usage: *usage,
            },
            EventKind::Usage { input_tokens, output_tokens } => EventKind::Usage {
                input_tokens: *input_tokens,
                output_tokens: *output_tokens,
            },
            EventKind::ResponseCacheHit => EventKind::ResponseCacheHit,
            EventKind::GoalAssurance { verified } => EventKind::GoalAssurance {
                verified: *verified,
            },
            EventKind::ToolStarted { batch_id, call_id, name, arguments } => EventKind::ToolStarted {
                batch_id: batch_id.clone(),
                call_id: call_id.clone(),
                name: name.clone(),
                arguments: arguments.clone(),
            },
            EventKind::ToolPrepared { batch_id, call_id, name } => EventKind::ToolPrepared {
                batch_id: batch_id.clone(),
                call_id: call_id.clone(),
                name: name.clone(),
            },
            EventKind::ToolAdmitted { batch_id, call_id, name } => EventKind::ToolAdmitted {
                batch_id: batch_id.clone(),
                call_id: call_id.clone(),
                name: name.clone(),
            },
            EventKind::ToolCall { name, arguments } => EventKind::ToolCall {
                name: name.clone(),
                arguments: arguments.clone(),
            },
            EventKind::ProviderToolCall { id, name, arguments } => EventKind::ProviderToolCall {
                id: id.clone(),
                name: name.clone(),
                arguments: arguments.clone(),
            },
            EventKind::ToolOutput { batch_id, call_id, name, output } => EventKind::ToolOutput {
                batch_id: batch_id.clone(),
                call_id: call_id.clone(),
                name: name.clone(),
                output: output.clone(),
            },
            EventKind::ToolProgress { batch_id, call_id, name, preview } => EventKind::ToolProgress {
                batch_id: batch_id.clone(),
                call_id: call_id.clone(),
                name: name.clone(),
                preview: preview.clone(),
            },
            EventKind::ToolProcessFinished { batch_id, call_id, name, process } => EventKind::ToolProcessFinished {
                batch_id: batch_id.clone(),
                call_id: call_id.clone(),
                name: name.clone(),
                process: *process,
            },
            EventKind::ToolFinished { batch_id, call_id, name, success, duration_ms } => EventKind::ToolFinished {
                batch_id: batch_id.clone(),
                call_id: call_id.clone(),
                name: name.clone(),
                success: *success,
                duration_ms: *duration_ms,
            },
            EventKind::ToolEvidenceReused { original_bytes, emitted_bytes, post_compaction } => EventKind::ToolEvidenceReused {
                original_bytes: *original_bytes,
                emitted_bytes: *emitted_bytes,
                post_compaction: *post_compaction,
            },
            EventKind::ToolEvidenceElided { count, original_bytes, emitted_bytes } => EventKind::ToolEvidenceElided {
                count: *count,
                original_bytes: *original_bytes,
                emitted_bytes: *emitted_bytes,
            },
            EventKind::ToolCallsSuppressed { count } => EventKind::ToolCallsSuppressed {
                count: *count,
            },
            EventKind::CausalProgressObserved { batch_id, call_id, kind, tool_name, call_fingerprint, evidence_id, workspace_revision } => EventKind::CausalProgressObserved {
                batch_id: batch_id.clone(),
                call_id: call_id.clone(),
                kind: *kind,
                tool_name: tool_name.clone(),
                call_fingerprint: call_fingerprint.clone(),
                evidence_id: evidence_id.clone(),
                workspace_revision: *workspace_revision,
            },
            EventKind::CausalBoundaryObserved { batch_id, call_id, kind, tool_name, call_fingerprint, uncertainty_epoch } => EventKind::CausalBoundaryObserved {
                batch_id: batch_id.clone(),
                call_id: call_id.clone(),
                kind: *kind,
                tool_name: tool_name.clone(),
                call_fingerprint: call_fingerprint.clone(),
                uncertainty_epoch: *uncertainty_epoch,
            },
            EventKind::CausalAnomalyDetected { batch_id, call_id, kind, tool_name, call_fingerprint, evidence_id, workspace_revision, occurrence, confidence, action } => EventKind::CausalAnomalyDetected {
                batch_id: batch_id.clone(),
                call_id: call_id.clone(),
                kind: *kind,
                tool_name: tool_name.clone(),
                call_fingerprint: call_fingerprint.clone(),
                evidence_id: evidence_id.clone(),
                workspace_revision: *workspace_revision,
                occurrence: *occurrence,
                confidence: *confidence,
                action: *action,
            },
            EventKind::ArtifactStored { id, size } => EventKind::ArtifactStored {
                id: id.clone(),
                size: *size,
            },
            EventKind::CompactionCompleted => EventKind::CompactionCompleted,
            EventKind::CompactionAttemptStarted { provider, model, system_bytes, history_bytes, serialized_chars, request_bytes, estimated_input_tokens } => EventKind::CompactionAttemptStarted {
                provider: provider.clone(),
                model: model.clone(),
                system_bytes: *system_bytes,
                history_bytes: *history_bytes,
                serialized_chars: *serialized_chars,
                request_bytes: *request_bytes,
                estimated_input_tokens: *estimated_input_tokens,
            },
            EventKind::CompactionAttemptCompleted { uncached_input_tokens, cache_write_tokens, cache_read_tokens, output_tokens, reasoning_tokens, time_to_first_byte_ms, time_to_first_semantic_ms, duration_ms, usage_known, system_bytes, history_bytes, estimated_input_tokens } => EventKind::CompactionAttemptCompleted {
                uncached_input_tokens: *uncached_input_tokens,
                cache_write_tokens: *cache_write_tokens,
                cache_read_tokens: *cache_read_tokens,
                output_tokens: *output_tokens,
                reasoning_tokens: *reasoning_tokens,
                time_to_first_byte_ms: *time_to_first_byte_ms,
                time_to_first_semantic_ms: *time_to_first_semantic_ms,
                duration_ms: *duration_ms,
                usage_known: *usage_known,
                system_bytes: *system_bytes,
                history_bytes: *history_bytes,
                estimated_input_tokens: *estimated_input_tokens,
            },
            EventKind::CompactionAttemptCancelled { request_bytes, estimated_input_tokens, time_to_first_byte_ms, time_to_first_semantic_ms, duration_ms, send_started, headers_received, first_byte_received, first_token_received } => EventKind::CompactionAttemptCancelled {
                request_bytes: *request_bytes,
                estimated_input_tokens: *estimated_input_tokens,
                time_to_first_byte_ms: *time_to_first_byte_ms,
                time_to_first_semantic_ms: *time_to_first_semantic_ms,
                duration_ms: *duration_ms,
                send_started: *send_started,
                headers_received: *headers_received,
                first_byte_received: *first_byte_received,
                first_token_received: *first_token_received,
            },
            EventKind::CompactionUsageUnknown { estimated_input_tokens, reason } => EventKind::CompactionUsageUnknown {
                estimated_input_tokens: *estimated_input_tokens,
                reason: reason.clone(),
            },
            EventKind::CompactionSkippedBelowBreakEven { projected_savings_tokens, estimated_cost_tokens, safety_margin_tokens, future_turns } => EventKind::CompactionSkippedBelowBreakEven {
                projected_savings_tokens: *projected_savings_tokens,
                estimated_cost_tokens: *estimated_cost_tokens,
                safety_margin_tokens: *safety_margin_tokens,
                future_turns: *future_turns,
            },
            EventKind::CompactionState { state, reason, tokens_before, tokens_after, duration_ms } => EventKind::CompactionState {
                state: *state,
                reason: *reason,
                tokens_before: *tokens_before,
                tokens_after: *tokens_after,
                duration_ms: *duration_ms,
            },
            EventKind::CompactionJevPruned { pairs_total, pairs_dropped, results_truncated, batches, batches_started, batches_completed, usage_unknown, estimated_saved_tokens, input_tokens, output_tokens, model, backend, requested_model, duration_ms } => EventKind::CompactionJevPruned {
                pairs_total: *pairs_total,
                pairs_dropped: *pairs_dropped,
                results_truncated: *results_truncated,
                batches: *batches,
                batches_started: *batches_started,
                batches_completed: *batches_completed,
                usage_unknown: *usage_unknown,
                estimated_saved_tokens: *estimated_saved_tokens,
                input_tokens: *input_tokens,
                output_tokens: *output_tokens,
                model: copy_text(model),
                backend: copy_text(backend),
                requested_model: copy_text(requested_model),
                duration_ms: *duration_ms,
            },
            EventKind::CompactionJevFallback { detail, batches, batches_started, batches_completed, usage_unknown, input_tokens, output_tokens, model, backend, requested_model, duration_ms } => EventKind::CompactionJevFallback {
                detail: detail.clone(),
                batches: *batches,
                batches_started: *batches_started,
                batches_completed: *batches_completed,
                usage_unknown: *usage_unknown,
                input_tokens: *input_tokens,
                output_tokens: *output_tokens,
                model: copy_text(model),
                backend: copy_text(backend),
                requested_model: copy_text(requested_model),
                duration_ms: *duration_ms,
            },
            EventKind::ContextSnapshot { request_kind, provider, model, system_bytes, tool_schema_bytes, history_bytes, tool_result_bytes, serialized_chars, estimated_tokens, context_window_tokens } => EventKind::ContextSnapshot {
                request_kind: *request_kind,
                provider: provider.clone(),
                model: model.clone(),
                system_bytes: *system_bytes,
                tool_schema_bytes: *tool_schema_bytes,
                history_bytes: *history_bytes,
                tool_result_bytes: *tool_result_bytes,
                serialized_chars: *serialized_chars,
                estimated_tokens: *estimated_tokens,
                context_window_tokens: *context_window_tokens,
            },
            EventKind::RequestCompleted { provider_latency_ms, cancelled, failed } => EventKind::RequestCompleted {
                provider_latency_ms: *provider_latency_ms,
                cancelled: *cancelled,
                failed: *failed,
            },
            EventKind::ApprovalRequired { request_id, summary, persisted } => EventKind::ApprovalRequired {
                request_id: request_id.clone(),
                summary: summary.clone(),
                persisted: *persisted,
            },
            EventKind::InputRequired { request_id, prompt, options, persisted } => EventKind::InputRequired {
                request_id: request_id.clone(),
                prompt: prompt.clone(),
                options: copy_texts(options),
                persisted: *persisted,
            },
            EventKind::QuestionRequired { request_id, question, options, persisted } => EventKind::QuestionRequired {
                request_id: request_id.clone(),
                question: question.clone(),
                options: interaction::copy_options(options),
                persisted: *persisted,
            },
            EventKind::InteractionAcknowledged { request_id, accepted, message } => EventKind::InteractionAcknowledged {
                request_id: request_id.clone(),
                accepted: *accepted,
                message: message.clone(),
            },
            EventKind::SubagentActivity { message } => EventKind::SubagentActivity {
                message: message.clone(),
            },
            EventKind::TodoChanged { items } => EventKind::TodoChanged {
                items: copy_items(items),
            },
            EventKind::TerminalError { message } => EventKind::TerminalError {
                message: message.clone(),
            },
        }
    }
}

/// One event, at its place in the session's order.
#[derive(Clone, Debug, PartialEq, Eq)]
pub struct SessionEvent {
    pub seq: u64,
    pub kind: EventKind,
}

#[verifier::ext_equal]
pub struct EventView {
    pub seq: u64,
    pub kind: KindView,
}

impl View for SessionEvent {
    type V = EventView;

    open spec fn view(&self) -> EventView {
        EventView { seq: self.seq, kind: self.kind@ }
    }
}

pub open spec fn event_views(events: Seq<SessionEvent>) -> Seq<EventView> {
    events.map_values(|e: SessionEvent| e@)
}

impl SessionEvent {
    pub fn new(seq: u64, kind: EventKind) -> (r: SessionEvent)
        ensures
            r.seq == seq,
            r.kind == kind,
    {
        SessionEvent { seq, kind }
    }

    pub fn copy(&self) -> (r: SessionEvent)
        ensures
            r@ == self@,
    {
        SessionEvent { seq: self.seq, kind: self.kind.copy() }
    }
}

} // verus!
