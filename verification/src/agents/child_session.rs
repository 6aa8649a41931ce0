//! What a session knows of its child sessions.
use vstd::prelude::*;

verus! {

/// What a session is busy with.
#[derive(Clone, Debug, PartialEq, Eq)]
pub enum Activity {
    Tool { name: String },
    Mcp { name: String },
    Child { id: String },
}

#[derive(Clone, Copy, Debug, PartialEq, Eq, Structural)]
pub enum ChildStatus {
    Queued,
    Active,
    Completed,
    Cancelled,
    Failed,
}

/// A wish for a child session, and how deep it would be nested.
#[derive(Clone, Debug, PartialEq, Eq)]
pub struct SpawnRequest {
    pub id: String,
    pub depth: u32,
}

/// What became of such a wish.
#[derive(Clone, Copy, Debug, PartialEq, Eq, Structural)]
pub enum SpawnResult {
    Started,
    Queued,
    QueueFull,
    Duplicate,
    DepthExceeded,
}

/// How a child session stands, or how it ended.
#[derive(Clone, Debug, PartialEq, Eq)]
pub struct ChildResult {
    pub id: String,
    pub status: ChildStatus,
    pub session_id: String,
    pub message: String,
}

#[verifier::ext_equal]
pub struct ResultView {
    pub id: Seq<char>,
    pub status: ChildStatus,
    pub session_id: Seq<char>,
    pub message: Seq<char>,
}

impl View for ChildResult {
    type V = ResultView;

    open spec fn view(&self) -> ResultView {
        ResultView {
            id: self.id@,
            status: self.status,
            session_id: self.session_id@,
            message: self.message@,
        }
    }
}

pub open spec fn result_views(results: Seq<ChildResult>) -> Seq<ResultView> {
    results.map_values(|r: ChildResult| r@)
}

/// The result of a child with its session's name.
pub open spec fn result_of(id: Seq<char>, status: ChildStatus, message: Seq<char>) -> ResultView {
    ResultView { id, status, session_id: "session-"@ + id, message }
}

} // verus!
