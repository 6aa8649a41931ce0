//! What a step of the scheduler does to one child, and that it leaves the others.
use vstd::prelude::*;
use vstd::string::*;

use crate::agents::child_session::{ChildStatus, SpawnResult};
use crate::agents::scheduler;
use crate::agents::scheduler::{ChildView, SchedulerView};

verus! {

proof fn lemma_found(children: Seq<ChildView>, id: Seq<char>, from: int)
    requires
        0 <= from,
    ensures
        match scheduler::find(children, id, from) {
            Some(i) => from <= i < children.len() && children[i].id == id,
            None => forall|i: int| from <= i < children.len() ==> (#[trigger] children[i]).id != id,
        },
    decreases children.len() - from,
{
    if from < children.len() && children[from].id != id {
        lemma_found(children, id, from + 1);
    }
}

proof fn lemma_waiting(children: Seq<ChildView>, from: int)
    requires
        0 <= from,
    ensures
        match scheduler::first_queued(children, from) {
            Some(i) => from <= i < children.len() && children[i].status is Queued && forall|j: int|
                from <= j < i ==> !((#[trigger] children[j]).status is Queued),
            None => forall|j: int|
                from <= j < children.len() ==> !((#[trigger] children[j]).status is Queued),
        },
    decreases children.len() - from,
{
    if from < children.len() && !(children[from].status is Queued) {
        lemma_waiting(children, from + 1);
    }
}

/// A child that is taken on is added behind the others with its id and its depth,
/// active where there is room and else waiting; one that is refused changes nothing.
pub proof fn law_spawning_adds_one_child(state: SchedulerView, id: Seq<char>, depth: u32)
    ensures
        ({
            let after = state.spawned(id, depth).children;
            match state.spawn_result(id, depth) {
                SpawnResult::Started => after.drop_last() == state.children && after.len()
                    == state.children.len() + 1 && after.last().id == id && after.last().depth
                    == depth && after.last().status is Active && after.last().result is None,
                SpawnResult::Queued => after.drop_last() == state.children && after.len()
                    == state.children.len() + 1 && after.last().id == id && after.last().depth
                    == depth && after.last().status is Queued && after.last().result is None,
                _ => after == state.children,
            }
        }),
        state.spawn_result(id, depth) is Duplicate ==> exists|i: int|
            0 <= i < state.children.len() && (#[trigger] state.children[i]).id == id,
        state.spawn_result(id, depth) is Started || state.spawn_result(id, depth) is Queued
            ==> forall|i: int|
            0 <= i < state.children.len() ==> (#[trigger] state.children[i]).id != id,
{
    lemma_found(state.children, id, 0);
    let after = state.spawned(id, depth).children;
    if after != state.children {
        assert(after.drop_last() =~= state.children);
    }
    if let Some(i) = scheduler::find(state.children, id, 0) {
        assert(state.children[i].id == id);
    }
}

/// The end of a child is told of that very child, with its status and its words; no
/// other child ends, and the child that takes its place is the one that has waited
/// longest.
pub proof fn law_ending_tells_of_one_child(
    state: SchedulerView,
    i: int,
    status: ChildStatus,
    words: Seq<char>,
    j: int,
)
    requires
        state.wf(),
        0 <= i < state.children.len(),
        0 <= j < state.children.len(),
        status is Completed || status is Cancelled || status is Failed,
    ensures
        ({
            let id = state.children[i].id;
            let after = state.ended(id, status, words).promoted().children;
            &&& after.len() == state.children.len()
            &&& after[i].id == id
            &&& after[i].depth == state.children[i].depth
            &&& after[i].status == status
            &&& after[i].result matches Some(told) && told.id == id && told.status == status
                && told.message == words
            &&& j != i ==> after[j] == state.children[j] || (state.children[j].status is Queued
                && after[j] == (ChildView { status: ChildStatus::Active, ..state.children[j] })
                && forall|k: int|
                0 <= k < j && k != i ==> !((#[trigger] state.children[k]).status is Queued))
            &&& scheduler::listed(after)[i].message == words
        }),
{
    let id = state.children[i].id;
    lemma_found(state.children, id, 0);
    let ended = state.ended(id, status, words);
    assert(scheduler::find(state.children, id, 0) == Some(i)) by {
        let k = scheduler::find(state.children, id, 0);
        if k is Some && k->0 != i {
            let a = if k->0 < i {
                k->0
            } else {
                i
            };
            let b = if k->0 < i {
                i
            } else {
                k->0
            };
            assert(state.children[a].id != state.children[b].id);
        }
    }
    lemma_waiting(ended.children, 0);
    let after = ended.promoted().children;
    if let Some(q) = scheduler::first_queued(ended.children, 0) {
        assert(q != i);
        if j == q && j != i {
            assert forall|k: int| 0 <= k < j && k != i implies !((
            #[trigger] state.children[k]).status is Queued) by {
                assert(ended.children[k] == state.children[k]);
            }
        }
    }
}

} // verus!
