pub mod apply;
pub mod artifacts;
pub mod budget;
pub mod checkpoint;
pub mod checkpoint_laws;
pub mod compact;
pub mod compaction_laws;
pub mod estimate;
pub mod fingerprint;
pub mod handle;
pub mod handle_laws;
pub mod jev_prune;
pub mod jev_request;
pub mod judge_laws;
pub mod prompt;
pub mod prompt_laws;
pub mod prune_laws;
pub mod select;
pub mod transcript;

pub use apply::{apply_compaction_selection, compact_provider_messages, has_compactable_history};
pub use artifacts::ArtifactHandle;
pub use budget::ContextBudget;
pub use compact::{
    compact, CompactionPolicy, CompactionReason, CompactionResult, CompactionSelection,
    CompactionStrategy, ContextItem, COMPACTION_SYSTEM_PROMPT,
};
pub use estimate::{
    estimate_provider_message_tokens, estimate_text_tokens_from_chars, AdaptiveTokenEstimator,
};
pub use fingerprint::compaction_prefix_fingerprint;
pub use handle::{CompactionCommit, CompactionHandle, CompactionStatus, PreparedCompaction};
pub use jev_prune::{
    estimate_prune_input_tokens, JevPruneError, JevPruneFailure, JevPruneStats,
};
pub use jev_request::{
    JevBackend, JevJudgment, JevPruneConfig, DEFAULT_JEV_MODEL, DEFAULT_VERCEL_JEV_MODEL,
};
pub use prompt::{
    build_bounded_summary_prompt, build_bounded_summary_prompt_with_checkpoint,
    build_bounded_summary_prompt_with_checkpoint_and_instructions, build_summary_prompt,
    build_summary_prompt_with_checkpoint, local_emergency_summary,
};
pub use select::{latest_user_instruction_before_boundary, select_compaction_history};
