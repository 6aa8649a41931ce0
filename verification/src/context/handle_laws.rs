//! What a session remembers of its compactions, what a pruning reports of itself, and
//! what an artifact is called.
use vstd::prelude::*;

use crate::context::artifacts;
use crate::context::handle;
use crate::context::handle::{CommitView, HandleView};
use crate::context::jev_prune;
use crate::context::jev_prune::{Candidate, StatsView};
use crate::context::jev_request::JevJudgment;
use crate::provider::message::MessageView;

verus! {

/// A commit is added at the end, under the handle's new generation and otherwise as it
/// was handed in; nothing committed before is touched, and its summary is the next one
/// to build on.
pub proof fn law_commits_are_remembered(before: HandleView, commit: CommitView)
    ensures
        ({
            let after = handle::committed(before, commit);
            let kept = after.commits.last();
            &&& after.commits.len() == before.commits.len() + 1
            &&& after.commits.drop_last() == before.commits
            &&& after.last_commit == Some(kept)
            &&& kept.generation == after.generation
            &&& before.generation < u64::MAX ==> after.generation == before.generation + 1
            &&& kept.summary == commit.summary
            &&& kept.prefix_fingerprint == commit.prefix_fingerprint
            &&& kept.first_kept_index == commit.first_kept_index
            &&& kept.tokens_before == commit.tokens_before
            &&& kept.tokens_after == commit.tokens_after
            &&& kept.input_tokens == commit.input_tokens
            &&& kept.output_tokens == commit.output_tokens
            &&& kept.duration_ms == commit.duration_ms
            &&& kept.reason == commit.reason
            &&& after.previous_summary == Some(commit.summary)
            &&& after.prefix_fingerprint == Some(commit.prefix_fingerprint)
            &&& after.policy == before.policy
            &&& after.manual_instructions == before.manual_instructions
            &&& after.prepared == before.prepared
            &&& after.retry_after_turns == before.retry_after_turns
        }),
{
    assert(before.commits.push(handle::committed(before, commit).commits.last()).drop_last()
        =~= before.commits);
}

/// A judgement is counted once. As long as every judgement reported what it used, the
/// totals are the sums; from the first that did not, the usage is known to be unknown.
pub proof fn law_judgements_are_counted(before: StatsView, judgment: JevJudgment)
    ensures
        ({
            let after = jev_prune::answered_stats(before, judgment);
            &&& after.batches == before.batches + 1
            &&& after.batches_completed == before.batches_completed + 1
            &&& before.usage_unknown ==> after.usage_unknown
            &&& judgment.input_tokens is None || judgment.output_tokens is None
                ==> after.usage_unknown
            &&& !after.usage_unknown ==> {
                &&& before.input_tokens is Some && judgment.input_tokens is Some
                &&& before.output_tokens is Some && judgment.output_tokens is Some
                &&& before.input_tokens->0 + judgment.input_tokens->0 <= u64::MAX
                    ==> after.input_tokens == Some(
                    (before.input_tokens->0 + judgment.input_tokens->0) as u64,
                )
                &&& before.output_tokens->0 + judgment.output_tokens->0 <= u64::MAX
                    ==> after.output_tokens == Some(
                    (before.output_tokens->0 + judgment.output_tokens->0) as u64,
                )
            }
            &&& before.model is Some ==> after.model == before.model
            &&& before.model is None ==> (judgment.model matches Some(name) ==> after.model
                == Some(name@))
            &&& after.pairs_total == before.pairs_total
            &&& after.backend == before.backend
            &&& after.requested_model == before.requested_model
        }),
{
}

/// The number of dropped calls that a pruning reports is the number of candidates that
/// it dropped, and no more results are reported as cut than calls as dropped.
pub proof fn law_dropped_calls_are_counted(
    messages: Seq<MessageView>,
    found: Seq<Candidate>,
    keeps: Seq<Option<u64>>,
    n: int,
)
    requires
        0 <= n,
    ensures
        jev_prune::dropped_count(messages, found, keeps, n) == Seq::new(n as nat, |i: int| i).filter(
            |i: int| jev_prune::is_dropped(messages, found[i], i, keeps[i]),
        ).len(),
        jev_prune::truncated_count(messages, found, keeps, n) <= jev_prune::dropped_count(
            messages,
            found,
            keeps,
            n,
        ) <= n,
    decreases n,
{
    reveal(Seq::filter);
    let test = |i: int| jev_prune::is_dropped(messages, found[i], i, keeps[i]);
    let all = Seq::new(n as nat, |i: int| i);
    if n > 0 {
        law_dropped_calls_are_counted(messages, found, keeps, n - 1);
        assert(all.drop_last() =~= Seq::new((n - 1) as nat, |i: int| i));
        assert(all.last() == n - 1);
        assert(all.filter(test).len() == all.drop_last().filter(test).len() + if test(n - 1) {
            1int
        } else {
            0int
        });
    }
}

/// An artifact's name is its label with everything but letters and digits replaced, a
/// dash, and the digest: it names no path of its own.
pub proof fn law_artifact_names_are_plain(label: Seq<char>, digest: Seq<char>, i: int)
    requires
        0 <= i < label.len(),
    ensures
        ({
            let name = artifacts::artifact_id(label, digest);
            &&& name.len() == label.len() + 1 + digest.len()
            &&& name.skip((label.len() + 1) as int) == digest
            &&& name[label.len() as int] == '-'
            &&& name[i] == label[i] || name[i] == '-'
            &&& name[i] != '/' && name[i] != '\\' && name[i] != '.' && name[i] != '\0'
            &&& ('a' <= label[i] <= 'z' || 'A' <= label[i] <= 'Z' || '0' <= label[i] <= '9')
                ==> name[i] == label[i]
        }),
{
    reveal_strlit("-");
    assert(artifacts::artifact_id(label, digest).skip((label.len() + 1) as int) =~= digest);
}

} // verus!
