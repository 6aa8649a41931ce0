//! The core of a coding agent: how providers are asked and their answers read,
//! how a session's context is kept within its window, and how tools, processes,
//! questions and child agents are kept within their bounds.
pub mod agents;
pub mod arith;
pub mod codeintel;
pub mod context;
pub mod events;
pub mod hash;
pub mod interaction;
pub mod interaction_laws;
pub mod json;
pub mod mcp;
pub mod model;
pub mod model_laws;
pub mod process;
pub mod profiles;
pub mod protocol;
pub mod provider;
pub mod runtime;
pub mod text;
pub mod text_laws;
pub mod url;

pub use codeintel::{
    CodeIntelCompleteness, CodeIntelMeta, CodeIntelOutcome, CodeIntelServerState,
};
pub use events::{
    CausalAnomalyKind, CausalBoundaryKind, CausalConfidence, CausalProgressKind,
    CausalShadowAction, EventKind, RequestKind, SessionEvent, TodoChangedItem,
};
pub use interaction::{
    ask_question_definition, AskQuestion, InteractionError, InteractionRequestId, QuestionAnswer,
    QuestionAnswerSource, QuestionOption, MAX_OPTION_DESCRIPTION_CHARS, MAX_OPTION_LABEL_CHARS,
    MAX_QUESTION_CHARS, MAX_QUESTION_OPTIONS,
};
pub use model::{AppHandle, EventQueueStats, SessionEventReceiver, SessionEventSender};
pub use profiles::{Profile, ProfileCatalog, ProfileId};
pub use protocol::OperatingMode;
pub use provider::{
    AnthropicAdapter, FakeProvider, HttpRequest, OpenAiCompatibleAdapter,
    PreparedProviderRequest, ProviderAdapter, ProviderConfig, ProviderError, ProviderEvent,
    ProviderKind, ProviderMessage, ProviderPhase, ProviderPricing, ProviderRequestComponents,
    ProviderRequestFingerprints, ProviderTimeouts, ProviderToolCall, UsageBreakdown,
};
pub use runtime::without_workspace_snapshot;
