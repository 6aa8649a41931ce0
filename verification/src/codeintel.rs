//! What an answer of semantic code intelligence carries: its payload, and how
//! far it can be relied on.
use vstd::prelude::*;

use crate::json;
use crate::json::Json;

verus! {

/// Default result limit for references, symbols and diagnostics.
pub const DEFAULT_CODE_INTEL_LIMIT: usize = 20;

/// Hard cap for any single result batch.
pub const MAX_CODE_INTEL_RESULTS: usize = 100;

#[derive(Clone, Copy, Debug, PartialEq, Eq, Structural)]
pub enum CodeIntelServerState {
    /// No server configured or binary unavailable for this workspace.
    Unavailable,
    /// Process spawned, handshake in progress.
    Starting,
    /// Server is alive but still building its index.
    Indexing,
    /// Server warm; answers may still be partial while indexing.
    Ready,
    /// Server met an error and falls back to degraded answers.
    Degraded,
    /// Server shut down.
    Stopped,
}

#[derive(Clone, Copy, Debug, PartialEq, Eq, Structural)]
pub enum CodeIntelCompleteness {
    Complete,
    Partial,
    Unknown,
}

#[derive(Clone, Debug)]
pub struct CodeIntelMeta {
    pub server: String,
    pub state: CodeIntelServerState,
    pub completeness: CodeIntelCompleteness,
    pub document_version: Option<i64>,
    pub stale: bool,
    pub elapsed_ms: u64,
}

#[derive(Clone, Debug)]
pub struct CodeIntelOutcome {
    pub meta: CodeIntelMeta,
    /// Compact, bounded result payload; its shape depends on the action.
    pub payload: Json,
}

impl CodeIntelOutcome {
    /// The answer of a server that is not there.
    pub fn unavailable(server: &str, reason: &str) -> (r: CodeIntelOutcome)
        ensures
            r.meta.server@ == server@,
            r.meta.state is Unavailable,
            r.meta.completeness is Unknown,
            r.meta.document_version is None,
            !r.meta.stale,
            r.meta.elapsed_ms == 0,
            r.payload@ == json::empty_object().with("error"@, json::Tree::Text(reason@)),
    {
        CodeIntelOutcome {
            meta: CodeIntelMeta {
                server: server.to_owned(),
                state: CodeIntelServerState::Unavailable,
                completeness: CodeIntelCompleteness::Unknown,
                document_version: None,
                stale: false,
                elapsed_ms: 0,
            },
            payload: Json::object().with("error", Json::string(reason)),
        }
    }
}

} // verus!
