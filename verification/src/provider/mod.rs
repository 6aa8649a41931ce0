pub mod accounting;
pub mod adapter;
pub mod anthropic;
pub mod anthropic_stream;
pub mod base64;
pub mod bodies;
pub mod body_laws;
pub mod cache;
pub mod cache_laws;
pub mod canonical;
pub mod chat_laws;
pub mod config;
pub mod content;
pub mod endpoint;
pub mod failures;
pub mod forward;
pub mod forward_laws;
pub mod identity;
pub mod identity_laws;
pub mod message;
pub mod openai;
pub mod openai_stream;
pub mod reader;
pub mod reader_laws;
pub mod reasoning;
pub mod redactor;
pub mod request;
pub mod request_laws;
pub mod scope;
pub mod secret_laws;
pub mod secrets;
pub mod sse;
pub mod sse_laws;
pub mod stream_laws;
pub mod transport;
pub mod turn;
pub mod types;

pub use accounting::{ProviderRequestComponents, ProviderRequestFingerprints};
pub use adapter::{FakeProvider, ProviderAdapter};
pub use anthropic::AnthropicAdapter;
pub use cache::{ProviderCache, ProviderCacheStats};
pub use config::{
    ProviderAuth, ProviderConfig, DEFAULT_MAX_OUTPUT_TOKENS, NATIVE_SYSTEM_PROMPT,
};
pub use endpoint::HttpRequest;
pub use message::{
    history_response_cache_scope, ChatReasoning, ProviderContentBlock, ProviderMessage,
    ProviderToolCall, ResponsesReasoning,
};
pub use openai::OpenAiCompatibleAdapter;
pub use reasoning::{reasoning_off_support, OffPolicy, ReasoningOff, CODEX_BACKEND_ENDPOINT};
pub use request::{PreparedProviderRequest, ProviderCapabilities};
pub use transport::ProviderTimeouts;
pub use types::{
    ProviderError, ProviderErrorMetadata, ProviderEvent, ProviderKind, ProviderPhase,
    ProviderPricing, UsageBreakdown,
};
