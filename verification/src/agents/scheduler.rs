//! Which child sessions run and which wait, and who may change the workspace.
use vstd::prelude::*;
use vstd::string::*;

use crate::agents::child_session;
use crate::agents::child_session::{
    ChildResult, ChildStatus, ResultView, SpawnRequest, SpawnResult,
};
use crate::text;

verus! {

/// How deep child sessions may be nested.
pub const MAX_DEPTH: u32 = 1;

struct ChildRecord {
    request: SpawnRequest,
    status: ChildStatus,
    result: Option<ChildResult>,
}

/// One child session: its id, how it stands, and how it ended if it did.
#[verifier::ext_equal]
pub struct ChildView {
    pub id: Seq<char>,
    pub depth: u32,
    pub status: ChildStatus,
    pub result: Option<ResultView>,
}

impl View for ChildRecord {
    type V = ChildView;

    closed spec fn view(&self) -> ChildView {
        ChildView {
            id: self.request.id@,
            depth: self.request.depth,
            status: self.status,
            result: match self.result {
                Some(r) => Some(r@),
                None => None,
            },
        }
    }
}

spec fn child_views(children: Seq<ChildRecord>) -> Seq<ChildView> {
    children.map_values(|c: ChildRecord| c@)
}

/// Number of children that stand so.
pub open spec fn count(children: Seq<ChildView>, status: ChildStatus) -> nat
    decreases children.len(),
{
    if children.len() == 0 {
        0
    } else {
        count(children.drop_last(), status) + if children.last().status == status {
            1nat
        } else {
            0
        }
    }
}

/// The first child with an id, from `from` on.
pub open spec fn find(children: Seq<ChildView>, id: Seq<char>, from: int) -> Option<int>
    decreases children.len() - from,
{
    if from < 0 || from >= children.len() {
        None
    } else if children[from].id == id {
        Some(from)
    } else {
        find(children, id, from + 1)
    }
}

/// The first child that waits, from `from` on.
pub open spec fn first_queued(children: Seq<ChildView>, from: int) -> Option<int>
    decreases children.len() - from,
{
    if from < 0 || from >= children.len() {
        None
    } else if children[from].status is Queued {
        Some(from)
    } else {
        first_queued(children, from + 1)
    }
}

/// How a scheduler stands.
#[verifier::ext_equal]
pub struct SchedulerView {
    pub max_active: usize,
    pub max_queue: usize,
    pub children: Seq<ChildView>,
}

/// A child has a result once it ended, and then one under its own id and with
/// the status that it stands at.
pub open spec fn agrees(child: ChildView) -> bool {
    match child.result {
        Some(result) => {
            &&& !(child.status is Queued || child.status is Active)
            &&& result == child_session::result_of(child.id, child.status, result.message)
        },
        None => child.status is Queued || child.status is Active,
    }
}

impl SchedulerView {
    pub open spec fn active(self) -> nat {
        count(self.children, ChildStatus::Active)
    }

    pub open spec fn queued(self) -> nat {
        count(self.children, ChildStatus::Queued)
    }

    /// What every scheduler keeps: no id twice, no more children running or
    /// waiting than allowed, none waiting while another could run, and each
    /// result in step with its child.
    pub open spec fn wf(self) -> bool {
        &&& forall|i: int, j: int|
            0 <= i < j < self.children.len() ==> (#[trigger] self.children[i]).id != (
            #[trigger] self.children[j]).id
        &&& self.active() <= self.max_active
        &&& self.queued() <= self.max_queue
        &&& self.queued() > 0 ==> self.active() == self.max_active
        &&& forall|i: int| 0 <= i < self.children.len() ==> agrees(#[trigger] self.children[i])
    }

    /// What becomes of a wish for a child.
    pub open spec fn spawn_result(self, id: Seq<char>, depth: u32) -> SpawnResult {
        if depth > MAX_DEPTH {
            SpawnResult::DepthExceeded
        } else if find(self.children, id, 0) is Some {
            SpawnResult::Duplicate
        } else if self.active() < self.max_active {
            SpawnResult::Started
        } else if self.queued() < self.max_queue {
            SpawnResult::Queued
        } else {
            SpawnResult::QueueFull
        }
    }

    /// The scheduler after such a wish.
    pub open spec fn spawned(self, id: Seq<char>, depth: u32) -> SchedulerView {
        match self.spawn_result(id, depth) {
            SpawnResult::Started => SchedulerView {
                children: self.children.push(
                    ChildView { id, depth, status: ChildStatus::Active, result: None },
                ),
                ..self
            },
            SpawnResult::Queued => SchedulerView {
                children: self.children.push(
                    ChildView { id, depth, status: ChildStatus::Queued, result: None },
                ),
                ..self
            },
            _ => self,
        }
    }

    /// The scheduler after the child that waits longest started, where there
    /// is room for it.
    pub open spec fn promoted(self) -> SchedulerView {
        if self.active() >= self.max_active {
            self
        } else {
            match first_queued(self.children, 0) {
                None => self,
                Some(i) => SchedulerView {
                    children: self.children.update(
                        i,
                        ChildView { status: ChildStatus::Active, ..self.children[i] },
                    ),
                    ..self
                },
            }
        }
    }

    /// The scheduler after a child ended so.
    pub open spec fn ended(
        self,
        id: Seq<char>,
        status: ChildStatus,
        message: Seq<char>,
    ) -> SchedulerView {
        match find(self.children, id, 0) {
            None => self,
            Some(i) => SchedulerView {
                children: self.children.update(
                    i,
                    ChildView {
                        status,
                        result: Some(child_session::result_of(id, status, message)),
                        ..self.children[i]
                    },
                ),
                ..self
            },
        }
    }
}

proof fn lemma_count_push(children: Seq<ChildView>, child: ChildView, status: ChildStatus)
    ensures
        count(children.push(child), status) == count(children, status) + if child.status
            == status {
            1nat
        } else {
            0
        },
{
    assert(children.push(child).drop_last() =~= children);
}

proof fn lemma_count_update(
    children: Seq<ChildView>,
    i: int,
    child: ChildView,
    status: ChildStatus,
)
    requires
        0 <= i < children.len(),
    ensures
        count(children.update(i, child), status) + (if children[i].status == status {
            1nat
        } else {
            0
        }) == count(children, status) + (if child.status == status {
            1nat
        } else {
            0
        }),
    decreases children.len(),
{
    let after = children.update(i, child);
    if i == children.len() - 1 {
        assert(after.drop_last() =~= children.drop_last());
    } else {
        lemma_count_update(children.drop_last(), i, child, status);
        assert(after.drop_last() =~= children.drop_last().update(i, child));
    }
}

proof fn lemma_find(children: Seq<ChildView>, id: Seq<char>, from: int)
    requires
        0 <= from,
    ensures
        match find(children, id, from) {
            Some(i) => from <= i < children.len() && children[i].id == id,
            None => forall|i: int| from <= i < children.len() ==> (#[trigger] children[i]).id != id,
        },
    decreases children.len() - from,
{
    if from < children.len() && children[from].id != id {
        lemma_find(children, id, from + 1);
    }
}

proof fn lemma_first_queued(children: Seq<ChildView>, from: int)
    requires
        0 <= from,
    ensures
        match first_queued(children, from) {
            Some(i) => from <= i < children.len() && children[i].status is Queued,
            None => forall|i: int|
                from <= i < children.len() ==> !((#[trigger] children[i]).status is Queued),
        },
    decreases children.len() - from,
{
    if from < children.len() && !(children[from].status is Queued) {
        lemma_first_queued(children, from + 1);
    }
}

proof fn lemma_none_counts_zero(children: Seq<ChildView>, status: ChildStatus)
    requires
        forall|i: int| 0 <= i < children.len() ==> (#[trigger] children[i]).status != status,
    ensures
        count(children, status) == 0,
    decreases children.len(),
{
    if children.len() > 0 {
        assert forall|i: int| 0 <= i < children.drop_last().len() implies (
        #[trigger] children.drop_last()[i]).status != status by {
            assert(children[i].status != status);
        }
        lemma_none_counts_zero(children.drop_last(), status);
    }
}

/// A wish for a child keeps the scheduler's bounds.
pub proof fn law_spawn_keeps_bounds(scheduler: SchedulerView, id: Seq<char>, depth: u32)
    requires
        scheduler.wf(),
    ensures
        scheduler.spawned(id, depth).wf(),
{
    lemma_find(scheduler.children, id, 0);
    let child = scheduler.spawned(id, depth).children.last();
    lemma_count_push(scheduler.children, child, ChildStatus::Active);
    lemma_count_push(scheduler.children, child, ChildStatus::Queued);
    let after = scheduler.spawned(id, depth).children;
    assert forall|i: int, j: int| 0 <= i < j < after.len() implies (#[trigger] after[i]).id != (
    #[trigger] after[j]).id by {
        assert(after[i] == scheduler.children[i]);
        if j < scheduler.children.len() {
            assert(after[j] == scheduler.children[j]);
        }
    }
}

/// The end of a child keeps the scheduler's bounds, and hands its place on to
/// one that waits.
pub proof fn law_end_keeps_bounds(
    scheduler: SchedulerView,
    id: Seq<char>,
    status: ChildStatus,
    message: Seq<char>,
)
    requires
        scheduler.wf(),
        status is Completed || status is Cancelled || status is Failed,
    ensures
        scheduler.ended(id, status, message).promoted().wf(),
{
    let ended = scheduler.ended(id, status, message);
    lemma_find(scheduler.children, id, 0);
    match find(scheduler.children, id, 0) {
        Some(i) => {
            let child = ended.children[i];
            lemma_count_update(scheduler.children, i, child, ChildStatus::Active);
            lemma_count_update(scheduler.children, i, child, ChildStatus::Queued);
        },
        None => {},
    }
    lemma_first_queued(ended.children, 0);
    let after = ended.promoted();
    match first_queued(ended.children, 0) {
        Some(i) => {
            let child = ChildView { status: ChildStatus::Active, ..ended.children[i] };
            lemma_count_update(ended.children, i, child, ChildStatus::Active);
            lemma_count_update(ended.children, i, child, ChildStatus::Queued);
        },
        None => {
            lemma_none_counts_zero(ended.children, ChildStatus::Queued);
        },
    }
    assert forall|i: int, j: int| 0 <= i < j < after.children.len() implies (
    #[trigger] after.children[i]).id != (#[trigger] after.children[j]).id by {
        assert(scheduler.children[i].id != scheduler.children[j].id);
    }
}

/// The list shows every child under its id and with the status it stands at.
pub proof fn law_list_shows_status(scheduler: SchedulerView, i: int)
    requires
        scheduler.wf(),
        0 <= i < scheduler.children.len(),
    ensures
        listed(scheduler.children).len() == scheduler.children.len(),
        listed(scheduler.children)[i] == child_session::result_of(
            scheduler.children[i].id,
            scheduler.children[i].status,
            listed(scheduler.children)[i].message,
        ),
{
    assert(agrees(scheduler.children[i]));
}

/// The child sessions of a session.
pub struct Scheduler {
    max_active: usize,
    max_queue: usize,
    children: Vec<ChildRecord>,
}

impl View for Scheduler {
    type V = SchedulerView;

    closed spec fn view(&self) -> SchedulerView {
        SchedulerView {
            max_active: self.max_active,
            max_queue: self.max_queue,
            children: child_views(self.children@),
        }
    }
}

fn session_name(id: &str) -> (r: String)
    ensures
        r@ == "session-"@ + id@,
{
    let mut out = "session-".to_owned();
    out.append(id);
    out
}

fn copy_result(result: &ChildResult) -> (r: ChildResult)
    ensures
        r@ == result@,
{
    ChildResult {
        id: result.id.clone(),
        status: result.status,
        session_id: result.session_id.clone(),
        message: result.message.clone(),
    }
}

impl Scheduler {
    pub fn new(max_active: usize, max_queue: usize) -> (r: Scheduler)
        ensures
            r@ == (SchedulerView { max_active, max_queue, children: Seq::empty() }),
            r@.wf(),
    {
        let children: Vec<ChildRecord> = Vec::new();
        assert(child_views(children@) =~= Seq::empty());
        Scheduler { max_active, max_queue, children }
    }

    fn count_of(&self, status: ChildStatus) -> (n: usize)
        ensures
            n == count(self@.children, status),
    {
        let ghost all = child_views(self.children@);
        let mut n: usize = 0;
        let mut i: usize = 0;
        assert(all.take(0) =~= Seq::empty());
        while i < self.children.len()
            invariant
                i <= self.children.len(),
                n <= i,
                all == child_views(self.children@),
                n == count(all.take(i as int), status),
            decreases self.children.len() - i,
        {
            assert(all.take(i + 1).drop_last() =~= all.take(i as int));
            assert(all.take(i + 1).last() == all[i as int]);
            if self.children[i].status == status {
                n = n + 1;
            }
            i = i + 1;
        }
        assert(all.take(all.len() as int) =~= all);
        n
    }

    fn place_of(&self, id: &str) -> (r: Option<usize>)
        ensures
            match r {
                Some(i) => i < self@.children.len() && find(self@.children, id@, 0) == Some(
                    i as int,
                ),
                None => find(self@.children, id@, 0) is None,
            },
    {
        let ghost all = child_views(self.children@);
        let mut i: usize = 0;
        while i < self.children.len()
            invariant
                i <= self.children.len(),
                all == child_views(self.children@),
                find(all, id@, 0) == find(all, id@, i as int),
            decreases self.children.len() - i,
        {
            if text::same(self.children[i].request.id.as_str(), id) {
                return Some(i);
            }
            i = i + 1;
        }
        None
    }

    /// Starts a child, or puts it in the queue, or refuses it.
    pub fn spawn(&mut self, request: SpawnRequest) -> (r: SpawnResult)
        ensures
            r == old(self)@.spawn_result(request.id@, request.depth),
            final(self)@ == old(self)@.spawned(request.id@, request.depth),
            old(self)@.wf() ==> final(self)@.wf(),
    {
        proof {
            if self@.wf() {
                law_spawn_keeps_bounds(self@, request.id@, request.depth);
            }
        }
        if request.depth > MAX_DEPTH {
            return SpawnResult::DepthExceeded;
        }
        if self.place_of(request.id.as_str()).is_some() {
            return SpawnResult::Duplicate;
        }
        let active: usize = self.count_of(ChildStatus::Active);
        let queued: usize = self.count_of(ChildStatus::Queued);
        let ghost before = self.children@;
        if active < self.max_active {
            let child = ChildRecord { request, status: ChildStatus::Active, result: None };
            self.children.push(child);
            assert(child_views(self.children@) =~= child_views(before).push(child@));
            SpawnResult::Started
        } else if queued < self.max_queue {
            let child = ChildRecord { request, status: ChildStatus::Queued, result: None };
            self.children.push(child);
            assert(child_views(self.children@) =~= child_views(before).push(child@));
            SpawnResult::Queued
        } else {
            SpawnResult::QueueFull
        }
    }

    fn end(&mut self, id: &str, status: ChildStatus, message: &str)
        ensures
            final(self)@ == old(self)@.ended(id@, status, message@),
    {
        match self.place_of(id) {
            None => {},
            Some(i) => {
                let ghost before = child_views(self.children@);
                let result = ChildResult {
                    id: id.to_owned(),
                    status,
                    session_id: session_name(id),
                    message: message.to_owned(),
                };
                let request = SpawnRequest {
                    id: self.children[i].request.id.clone(),
                    depth: self.children[i].request.depth,
                };
                let child = ChildRecord { request, status, result: Some(result) };
                self.children.set(i, child);
                assert(child_views(self.children@) =~= before.update(i as int, child@));
            },
        }
    }

    fn promote_next(&mut self)
        ensures
            final(self)@ == old(self)@.promoted(),
    {
        let active: usize = self.count_of(ChildStatus::Active);
        if active >= self.max_active {
            return;
        }
        let ghost all = child_views(self.children@);
        let ghost start = self@;
        let mut i: usize = 0;
        while i < self.children.len()
            invariant
                i <= self.children.len(),
                *self == *old(self),
                self@ == start,
                start.active() < start.max_active,
                all == child_views(self.children@),
                first_queued(all, 0) == first_queued(all, i as int),
            decreases self.children.len() - i,
        {
            let waits = match self.children[i].status {
                ChildStatus::Queued => true,
                _ => false,
            };
            if waits {
                let request = SpawnRequest {
                    id: self.children[i].request.id.clone(),
                    depth: self.children[i].request.depth,
                };
                let result = match &self.children[i].result {
                    Some(result) => Some(copy_result(result)),
                    None => None,
                };
                let child = ChildRecord { request, status: ChildStatus::Active, result };
                self.children.set(i, child);
                assert(child_views(self.children@) =~= all.update(i as int, child@));
                return;
            }
            i = i + 1;
        }
    }

    /// Marks a child as completed and lets the next one in the queue start.
    pub fn finish(&mut self, id: &str, message: &str)
        ensures
            final(self)@ == old(self)@.ended(id@, ChildStatus::Completed, message@).promoted(),
            old(self)@.wf() ==> final(self)@.wf(),
    {
        proof {
            if self@.wf() {
                law_end_keeps_bounds(self@, id@, ChildStatus::Completed, message@);
            }
        }
        self.end(id, ChildStatus::Completed, message);
        self.promote_next();
    }

    /// Marks a child as cancelled and lets the next one in the queue start.
    pub fn cancel(&mut self, id: &str)
        ensures
            final(self)@ == old(self)@.ended(
                id@,
                ChildStatus::Cancelled,
                "cancelled"@,
            ).promoted(),
            old(self)@.wf() ==> final(self)@.wf(),
    {
        proof {
            if self@.wf() {
                law_end_keeps_bounds(self@, id@, ChildStatus::Cancelled, "cancelled"@);
            }
        }
        self.end(id, ChildStatus::Cancelled, "cancelled");
        self.promote_next();
    }

    /// How a child stands.
    pub fn status(&self, id: &str) -> (r: Option<ChildStatus>)
        ensures
            r == match find(self@.children, id@, 0) {
                Some(i) => Some(self@.children[i].status),
                None => None,
            },
    {
        match self.place_of(id) {
            Some(i) => Some(self.children[i].status),
            None => None,
        }
    }

    /// All children, in the order of their wishes.
    pub fn list(&self) -> (r: Vec<ChildResult>)
        ensures
            child_session::result_views(r@) == listed(self@.children),
    {
        let ghost all = child_views(self.children@);
        let mut out: Vec<ChildResult> = Vec::new();
        let mut i: usize = 0;
        assert(child_session::result_views(out@) =~= listed(all).take(0));
        while i < self.children.len()
            invariant
                i <= self.children.len(),
                all == child_views(self.children@),
                child_session::result_views(out@) == listed(all).take(i as int),
            decreases self.children.len() - i,
        {
            let child = &self.children[i];
            let result = match &child.result {
                Some(result) => copy_result(result),
                None => ChildResult {
                    id: child.request.id.clone(),
                    status: child.status,
                    session_id: session_name(child.request.id.as_str()),
                    message: String::new(),
                },
            };
            let ghost done = out@;
            out.push(result);
            assert(all[i as int] == child@);
            assert(result@ =~= shown(child@));
            assert(child_session::result_views(out@) =~= child_session::result_views(done).push(
                result@,
            ));
            assert(listed(all).take(i + 1) =~= listed(all).take(i as int).push(
                listed(all)[i as int],
            ));
            i = i + 1;
        }
        assert(listed(all).take(all.len() as int) =~= listed(all));
        out
    }
}

/// A child as it is listed: how it ended, or how it stands.
pub open spec fn shown(child: ChildView) -> ResultView {
    match child.result {
        Some(result) => result,
        None => child_session::result_of(child.id, child.status, Seq::empty()),
    }
}

pub open spec fn listed(children: Seq<ChildView>) -> Seq<ResultView> {
    children.map_values(|c: ChildView| shown(c))
}

/// The right to change the workspace, which one holder has at a time.
#[derive(Debug)]
pub struct MutationLease {
    owner: Option<String>,
}

impl View for MutationLease {
    type V = Option<Seq<char>>;

    closed spec fn view(&self) -> Option<Seq<char>> {
        match self.owner {
            Some(owner) => Some(owner@),
            None => None,
        }
    }
}

impl Default for MutationLease {
    fn default() -> (r: MutationLease)
        ensures
            r@ == None::<Seq<char>>,
    {
        MutationLease { owner: None }
    }
}

impl MutationLease {
    /// Takes the lease where nobody holds it.
    pub fn acquire(&mut self, owner: &str) -> (r: bool)
        ensures
            r == old(self)@ is None,
            final(self)@ == if r {
                Some(owner@)
            } else {
                old(self)@
            },
    {
        if self.owner.is_some() {
            return false;
        }
        self.owner = Some(owner.to_owned());
        true
    }

    /// Gives the lease back; only its holder can.
    pub fn release(&mut self, owner: &str)
        ensures
            final(self)@ == if old(self)@ == Some(owner@) {
                None
            } else {
                old(self)@
            },
    {
        let held = match &self.owner {
            Some(holder) => text::same(holder.as_str(), owner),
            None => false,
        };
        if held {
            self.owner = None;
        }
    }
}

} // verus!
