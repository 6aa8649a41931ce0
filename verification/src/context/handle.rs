//! The state of compaction in one session.
use vstd::prelude::*;
use crate::context::compact;
use crate::context::compact::{CompactionPolicy, CompactionReason};
use crate::context::fingerprint;
use crate::provider::message;
use crate::provider::message::ProviderMessage;
use crate::text;

verus! {

#[derive(Clone, Copy, Debug, PartialEq, Eq, Structural)]
pub enum CompactionStatus {
    Idle,
    Preparing,
    Ready,
    Applied,
    Discarded,
}

impl Default for CompactionStatus {
    fn default() -> (r: CompactionStatus)
        ensures
            r == CompactionStatus::Idle,
    {
        CompactionStatus::Idle
    }
}

#[derive(Clone, PartialEq, Eq)]
pub struct PreparedCompaction {
    pub summary: String,
    pub prefix_fingerprint: String,
    pub first_kept_index: usize,
    /// Snapshot of pinned instructions used to build the background summary.
    /// It remains attached when append-only history arrives so an instruction
    /// omitted from the summary prompt cannot be lost before application.
    pub pinned: Vec<ProviderMessage>,
    pub source_len: usize,
    pub provider_identity: String,
    pub input_tokens: u64,
    pub output_tokens: u64,
    pub duration_ms: u64,
}

#[derive(Clone, Debug, PartialEq, Eq)]
pub struct CompactionCommit {
    pub summary: String,
    pub prefix_fingerprint: String,
    pub first_kept_index: usize,
    pub tokens_before: u64,
    pub tokens_after: u64,
    pub input_tokens: u64,
    pub output_tokens: u64,
    pub duration_ms: u64,
    pub reason: CompactionReason,
    pub generation: u64,
}

#[verifier::ext_equal]
pub struct CommitView {
    pub summary: Seq<char>,
    pub prefix_fingerprint: Seq<char>,
    pub first_kept_index: usize,
    pub tokens_before: u64,
    pub tokens_after: u64,
    pub input_tokens: u64,
    pub output_tokens: u64,
    pub duration_ms: u64,
    pub reason: CompactionReason,
    pub generation: u64,
}

impl View for CompactionCommit {
    type V = CommitView;

    open spec fn view(&self) -> CommitView {
        CommitView {
            summary: self.summary@,
            prefix_fingerprint: self.prefix_fingerprint@,
            first_kept_index: self.first_kept_index,
            tokens_before: self.tokens_before,
            tokens_after: self.tokens_after,
            input_tokens: self.input_tokens,
            output_tokens: self.output_tokens,
            duration_ms: self.duration_ms,
            reason: self.reason,
            generation: self.generation,
        }
    }
}

pub open spec fn commit_views(commits: Seq<CompactionCommit>) -> Seq<CommitView> {
    commits.map_values(|c: CompactionCommit| c@)
}

impl CompactionCommit {
    pub fn copy(&self) -> (r: CompactionCommit)
        ensures
            r@ == self@,
    {
        CompactionCommit {
            summary: self.summary.clone(),
            prefix_fingerprint: self.prefix_fingerprint.clone(),
            first_kept_index: self.first_kept_index,
            tokens_before: self.tokens_before,
            tokens_after: self.tokens_after,
            input_tokens: self.input_tokens,
            output_tokens: self.output_tokens,
            duration_ms: self.duration_ms,
            reason: self.reason,
            generation: self.generation,
        }
    }
}

/// What compaction has done and prepared so far. Callers that share it across
/// threads put it behind their own lock.
#[derive(Clone)]
pub struct CompactionHandle {
    policy: CompactionPolicy,
    status: CompactionStatus,
    previous_summary: Option<String>,
    prefix_fingerprint: Option<String>,
    generation: u64,
    manual_instructions: Option<String>,
    prepared: Option<PreparedCompaction>,
    retry_after_turns: u8,
    last_commit: Option<CompactionCommit>,
    commits: Vec<CompactionCommit>,
}

#[verifier::ext_equal]
pub struct HandleView {
    pub policy: CompactionPolicy,
    pub status: CompactionStatus,
    pub previous_summary: Option<Seq<char>>,
    pub prefix_fingerprint: Option<Seq<char>>,
    pub generation: u64,
    pub manual_instructions: Option<Seq<char>>,
    pub prepared: Option<PreparedCompaction>,
    pub retry_after_turns: u8,
    pub last_commit: Option<CommitView>,
    pub commits: Seq<CommitView>,
}

pub open spec fn opt_commit(c: Option<CompactionCommit>) -> Option<CommitView> {
    match c {
        Some(commit) => Some(commit@),
        None => None,
    }
}

impl View for CompactionHandle {
    type V = HandleView;

    closed spec fn view(&self) -> HandleView {
        HandleView {
            policy: self.policy,
            status: self.status,
            previous_summary: message::opt_text(self.previous_summary),
            prefix_fingerprint: message::opt_text(self.prefix_fingerprint),
            generation: self.generation,
            manual_instructions: message::opt_text(self.manual_instructions),
            prepared: self.prepared,
            retry_after_turns: self.retry_after_turns,
            last_commit: opt_commit(self.last_commit),
            commits: commit_views(self.commits@),
        }
    }
}

/// The state of compaction in a new session.
pub open spec fn fresh(policy: CompactionPolicy) -> HandleView {
    HandleView {
        policy,
        status: CompactionStatus::Idle,
        previous_summary: None,
        prefix_fingerprint: None,
        generation: 0,
        manual_instructions: None,
        prepared: None,
        retry_after_turns: 0,
        last_commit: None,
        commits: Seq::empty(),
    }
}

/// Whether a prepared checkpoint still sums up the start of a conversation.
pub open spec fn still_valid(
    prepared: PreparedCompaction,
    manual: Option<Seq<char>>,
    messages: Seq<message::MessageView>,
    provider_identity: Seq<char>,
) -> bool {
    &&& manual is None
    &&& prepared.provider_identity@ == provider_identity
    &&& prepared.source_len <= messages.len()
    &&& prepared.first_kept_index <= messages.len()
    &&& fingerprint::fingerprint(messages.take(prepared.first_kept_index as int))
        == prepared.prefix_fingerprint@
}

/// The state after a commit.
pub open spec fn committed(before: HandleView, commit: CommitView) -> HandleView {
    let generation = if before.generation == u64::MAX {
        u64::MAX
    } else {
        (before.generation + 1) as u64
    };
    let own = CommitView { generation, ..commit };
    HandleView {
        previous_summary: Some(commit.summary),
        prefix_fingerprint: Some(commit.prefix_fingerprint),
        status: CompactionStatus::Applied,
        generation,
        commits: before.commits.push(own),
        last_commit: Some(own),
        ..before
    }
}

impl CompactionHandle {
    pub fn new(policy: CompactionPolicy) -> (r: CompactionHandle)
        ensures
            r@ == fresh(policy),
    {
        let r = CompactionHandle {
            policy,
            status: CompactionStatus::Idle,
            previous_summary: None,
            prefix_fingerprint: None,
            generation: 0,
            manual_instructions: None,
            prepared: None,
            retry_after_turns: 0,
            last_commit: None,
            commits: Vec::new(),
        };
        assert(r@ =~= fresh(policy));
        r
    }

    pub fn policy(&self) -> (r: CompactionPolicy)
        ensures
            r == self@.policy,
    {
        self.policy
    }

    pub fn status(&self) -> (r: CompactionStatus)
        ensures
            r == self@.status,
    {
        self.status
    }

    pub fn previous_summary(&self) -> (r: Option<String>)
        ensures
            message::opt_text(r) == self@.previous_summary,
    {
        message::copy_opt(&self.previous_summary)
    }

    pub fn mark_preparing(&mut self)
        ensures
            final(self)@ == (HandleView { status: CompactionStatus::Preparing, ..old(self)@ }),
    {
        self.status = CompactionStatus::Preparing;
    }

    pub fn store_prepared(&mut self, prepared: PreparedCompaction)
        ensures
            final(self)@ == (HandleView {
                prepared: Some(prepared),
                status: CompactionStatus::Ready,
                retry_after_turns: 0,
                ..old(self)@
            }),
    {
        self.prepared = Some(prepared);
        self.status = CompactionStatus::Ready;
        self.retry_after_turns = 0;
    }

    pub fn take_prepared(&mut self, messages: &Vec<ProviderMessage>, provider_identity: &str) -> (r:
        Option<PreparedCompaction>)
        ensures
            (match old(self)@.prepared {
                None => r is None && final(self)@ == old(self)@,
                Some(prepared) => if still_valid(
                    prepared,
                    old(self)@.manual_instructions,
                    message::views(messages@),
                    provider_identity@,
                ) {
                    r == Some(prepared) && final(self)@ == (HandleView {
                        prepared: None,
                        status: CompactionStatus::Applied,
                        ..old(self)@
                    })
                } else {
                    r is None && final(self)@ == (HandleView {
                        prepared: None,
                        status: CompactionStatus::Discarded,
                        ..old(self)@
                    })
                },
            }),
    {
        let prepared = match self.prepared.take() {
            Some(prepared) => prepared,
            None => {
                return None;
            },
        };
        assert(message::views(messages@).len() == messages@.len());
        let valid = self.manual_instructions.is_none() && text::same(
            prepared.provider_identity.as_str(),
            provider_identity,
        ) && prepared.source_len <= messages.len() && prepared.first_kept_index <= messages.len()
            && text::same(
            fingerprint::prefix_fingerprint(messages, prepared.first_kept_index).as_str(),
            prepared.prefix_fingerprint.as_str(),
        );
        if valid {
            self.status = CompactionStatus::Applied;
            Some(prepared)
        } else {
            self.status = CompactionStatus::Discarded;
            None
        }
    }

    pub fn can_prepare_background(&self) -> (r: bool)
        ensures
            r == (self@.retry_after_turns == 0 && self@.prepared is None),
    {
        self.retry_after_turns == 0 && self.prepared.is_none()
    }

    pub fn background_failed(&mut self)
        ensures
            final(self)@ == (HandleView {
                status: CompactionStatus::Discarded,
                retry_after_turns: 3,
                ..old(self)@
            }),
    {
        self.status = CompactionStatus::Discarded;
        self.retry_after_turns = 3;
    }

    pub fn completed_turn(&mut self)
        ensures
            final(self)@ == (HandleView {
                retry_after_turns: if old(self)@.retry_after_turns == 0 {
                    0
                } else {
                    (old(self)@.retry_after_turns - 1) as u8
                },
                ..old(self)@
            }),
    {
        self.retry_after_turns = self.retry_after_turns.saturating_sub(1);
    }

    pub fn commit(&mut self, summary: String, prefix_fingerprint: String)
        ensures
            final(self)@ == committed(
                old(self)@,
                CommitView {
                    summary: summary@,
                    prefix_fingerprint: prefix_fingerprint@,
                    first_kept_index: 0,
                    tokens_before: 0,
                    tokens_after: 0,
                    input_tokens: 0,
                    output_tokens: 0,
                    duration_ms: 0,
                    reason: CompactionReason::HardThreshold,
                    generation: 0,
                },
            ),
    {
        self.commit_detailed(
            CompactionCommit {
                summary,
                prefix_fingerprint,
                first_kept_index: 0,
                tokens_before: 0,
                tokens_after: 0,
                input_tokens: 0,
                output_tokens: 0,
                duration_ms: 0,
                reason: CompactionReason::HardThreshold,
                generation: 0,
            },
        );
    }

    pub fn commit_detailed(&mut self, commit: CompactionCommit)
        ensures
            final(self)@ == committed(old(self)@, commit@),
    {
        let mut own = commit;
        self.previous_summary = Some(own.summary.clone());
        self.prefix_fingerprint = Some(own.prefix_fingerprint.clone());
        self.status = CompactionStatus::Applied;
        self.generation = self.generation.saturating_add(1);
        own.generation = self.generation;
        let listed = own.copy();
        let ghost done = self.commits@;
        self.commits.push(listed);
        assert(commit_views(self.commits@) =~= commit_views(done).push(listed@));
        self.last_commit = Some(own);
    }

    pub fn take_commits(&mut self) -> (r: Vec<CompactionCommit>)
        ensures
            commit_views(r@) == old(self)@.commits,
            final(self)@ == (HandleView { commits: Seq::empty(), ..old(self)@ }),
    {
        let mut taken: Vec<CompactionCommit> = Vec::new();
        std::mem::swap(&mut taken, &mut self.commits);
        assert(commit_views(self.commits@) =~= Seq::empty());
        taken
    }

    pub fn last_commit(&self) -> (r: Option<CompactionCommit>)
        ensures
            opt_commit(r) == self@.last_commit,
    {
        match &self.last_commit {
            Some(commit) => Some(commit.copy()),
            None => None,
        }
    }

    pub fn invalidate(&mut self)
        ensures
            final(self)@ == (HandleView {
                status: CompactionStatus::Discarded,
                prefix_fingerprint: None,
                prepared: None,
                ..old(self)@
            }),
    {
        self.status = CompactionStatus::Discarded;
        self.prefix_fingerprint = None;
        self.prepared = None;
    }

    pub fn generation(&self) -> (r: u64)
        ensures
            r == self@.generation,
    {
        self.generation
    }

    pub fn request_manual(&mut self, instructions: String) -> (r: Result<(), &'static str>)
        ensures
            (match r {
                Ok(_) => text::byte_len(instructions@)
                    <= old(self)@.policy.manual_instructions_max_bytes && final(self)@ == (
                HandleView {
                    manual_instructions: Some(instructions@),
                    prepared: None,
                    ..old(self)@
                }),
                Err(reason) => text::byte_len(instructions@)
                    > old(self)@.policy.manual_instructions_max_bytes && final(self)@ == old(self)@
                    && reason@ == "manual compaction instructions exceed 4 KiB"@,
            }),
    {
        if text::byte_count(instructions.as_str()) > self.policy.manual_instructions_max_bytes {
            return Err("manual compaction instructions exceed 4 KiB");
        }
        self.manual_instructions = Some(instructions);
        self.prepared = None;
        Ok(())
    }

    pub fn manual_instructions(&self) -> (r: Option<String>)
        ensures
            message::opt_text(r) == self@.manual_instructions,
    {
        message::copy_opt(&self.manual_instructions)
    }

    pub fn clear_manual(&mut self)
        ensures
            final(self)@ == (HandleView { manual_instructions: None, ..old(self)@ }),
    {
        self.manual_instructions = None;
    }
}

impl Default for CompactionHandle {
    fn default() -> (r: CompactionHandle)
        ensures
            r@ == fresh(compact::default_policy()),
    {
        CompactionHandle::new(CompactionPolicy::default())
    }
}

/// A checkpoint prepared from a history stays valid when messages are appended.
pub proof fn law_prepared_survives_appending(
    prepared: PreparedCompaction,
    messages: Seq<message::MessageView>,
    more: Seq<message::MessageView>,
    provider_identity: Seq<char>,
)
    requires
        still_valid(prepared, None, messages, provider_identity),
    ensures
        still_valid(prepared, None, messages + more, provider_identity),
{
    let n = prepared.first_kept_index as int;
    assert((messages + more).take(n) =~= messages.take(n));
}

/// No prepared checkpoint is applied while manual instructions wait.
pub proof fn law_manual_request_discards_prepared(
    prepared: PreparedCompaction,
    instructions: Seq<char>,
    messages: Seq<message::MessageView>,
    provider_identity: Seq<char>,
)
    ensures
        !still_valid(prepared, Some(instructions), messages, provider_identity),
{
}

/// Every commit gets the next generation, as long as 64 bits hold it.
pub proof fn law_generation_grows(before: HandleView, commit: CommitView)
    ensures
        committed(before, commit).generation >= before.generation,
        before.generation < u64::MAX ==> committed(before, commit).generation == before.generation
            + 1,
        committed(before, commit).last_commit == Some(committed(before, commit).commits.last()),
        committed(before, commit).commits.drop_last() == before.commits,
{
    assert(committed(before, commit).commits.drop_last() =~= before.commits);
}

} // verus!
