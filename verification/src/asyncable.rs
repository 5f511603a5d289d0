//! The deferred-callback scheduler.
//!
//! The scheduler keeps a list of live timer jobs (one-shot timeouts and
//! repeating intervals), a buffer of pending add/remove commands, and the set
//! of taken job ids. Commands may be enqueued at any time — also while the
//! caller is reacting to a tick — and are merged into the live list exactly
//! once, at the start of the next tick, never mid-iteration. Each tick then
//! accumulates the elapsed time into every live job's timer: a timeout whose
//! timer reaches its period fires once and leaves the list, an interval fires
//! and stays with its timer reset to zero.
//!
//! The scheduler decides *which* job ids fire; running the callbacks bound to
//! those ids is its caller's business. Times are in fixed-point milliseconds.
use vstd::prelude::*;

verus! {

/// Identifier of a scheduler job (its own id space, distinct from entities).
pub type AsyncableId = u16;

/// Largest period or tick delta the scheduler accepts, in fixed-point
/// milliseconds; keeps timer arithmetic far from overflow.
pub const TIME_LIMIT: i64 = 0x1_0000_0000;

/// Whether a job fires once and leaves, or repeats.
#[derive(Clone, Copy, PartialEq, Eq, Structural, Debug)]
pub enum AsyncableType {
    Timeout,
    Interval,
}

/// What a buffered scheduler command does.
#[derive(Clone, Copy, PartialEq, Eq, Structural, Debug)]
pub enum AsyncableActionType {
    Add,
    Remove,
}

/// A live scheduler job: its id, kind, period and elapsed timer.
#[derive(Clone, Copy, PartialEq, Eq, Structural, Debug)]
pub struct AsyncableInProgress {
    pub id: AsyncableId,
    pub async_type: AsyncableType,
    pub ms: i64,
    pub timer: i64,
}

/// A buffered command: an add carrying the new job, or a remove by id.
#[derive(Clone, Copy, PartialEq, Eq, Structural, Debug)]
pub struct EnqueuedAsyncableJob {
    pub id_to_affect: AsyncableId,
    pub action_type: AsyncableActionType,
    pub asyncable: Option<AsyncableInProgress>,
}

/// A job's period and timer are within the scheduler's time bounds.
pub open spec fn job_in_range(j: AsyncableInProgress) -> bool {
    0 <= j.ms <= TIME_LIMIT && 0 <= j.timer <= TIME_LIMIT
}

/// The live list without the jobs carrying the given id.
pub open spec fn remove_id(jobs: Seq<AsyncableInProgress>, id: AsyncableId) -> Seq<
    AsyncableInProgress,
>
    decreases jobs.len(),
{
    if jobs.len() == 0 {
        Seq::empty()
    } else {
        let rest = remove_id(jobs.drop_last(), id);
        if jobs.last().id != id {
            rest.push(jobs.last())
        } else {
            rest
        }
    }
}

/// One buffered command applied to the live list: an add appends its job,
/// a remove drops every job with its id.
pub open spec fn apply_one(
    jobs: Seq<AsyncableInProgress>,
    e: EnqueuedAsyncableJob,
) -> Seq<AsyncableInProgress> {
    match e.action_type {
        AsyncableActionType::Add => {
            if e.asyncable is Some {
                jobs.push(e.asyncable->0)
            } else {
                jobs
            }
        },
        AsyncableActionType::Remove => remove_id(jobs, e.id_to_affect),
    }
}

/// The whole command buffer applied to the live list, in order.
pub open spec fn apply_queue(
    jobs: Seq<AsyncableInProgress>,
    queue: Seq<EnqueuedAsyncableJob>,
) -> Seq<AsyncableInProgress>
    decreases queue.len(),
{
    if queue.len() == 0 {
        jobs
    } else {
        apply_queue(apply_one(jobs, queue[0]), queue.subrange(1, queue.len() as int))
    }
}

/// Whether a job's timer reaches its period this tick.
pub open spec fn fires(j: AsyncableInProgress, delta: int) -> bool {
    j.timer + delta >= j.ms
}

/// A job after the tick: fired jobs restart their timer, the rest keep
/// accumulating.
pub open spec fn job_after(j: AsyncableInProgress, delta: int) -> AsyncableInProgress {
    if fires(j, delta) {
        AsyncableInProgress { timer: 0, ..j }
    } else {
        AsyncableInProgress { timer: (j.timer + delta) as i64, ..j }
    }
}

/// The ids that fire this tick, in list order.
pub open spec fn tick_fired(jobs: Seq<AsyncableInProgress>, delta: int) -> Seq<AsyncableId>
    decreases jobs.len(),
{
    if jobs.len() == 0 {
        Seq::empty()
    } else {
        let rest = tick_fired(jobs.subrange(1, jobs.len() as int), delta);
        if fires(jobs[0], delta) {
            seq![jobs[0].id] + rest
        } else {
            rest
        }
    }
}

/// The live list after the tick: a fired timeout leaves, everything else
/// stays with its timer updated.
pub open spec fn tick_survivors(jobs: Seq<AsyncableInProgress>, delta: int) -> Seq<
    AsyncableInProgress,
>
    decreases jobs.len(),
{
    if jobs.len() == 0 {
        Seq::empty()
    } else {
        let rest = tick_survivors(jobs.subrange(1, jobs.len() as int), delta);
        if fires(jobs[0], delta) && jobs[0].async_type is Timeout {
            rest
        } else {
            seq![job_after(jobs[0], delta)] + rest
        }
    }
}

/// The ids of the timeouts that fire this tick and leave the list.
pub open spec fn tick_dropped(jobs: Seq<AsyncableInProgress>, delta: int) -> Seq<AsyncableId>
    decreases jobs.len(),
{
    if jobs.len() == 0 {
        Seq::empty()
    } else {
        let rest = tick_dropped(jobs.subrange(1, jobs.len() as int), delta);
        if fires(jobs[0], delta) && jobs[0].async_type is Timeout {
            seq![jobs[0].id] + rest
        } else {
            rest
        }
    }
}

/// Dropping jobs by id keeps every remaining job within the time bounds.
proof fn lemma_remove_id_range(s: Seq<AsyncableInProgress>, id: AsyncableId)
    requires
        forall|i: int| 0 <= i < s.len() ==> job_in_range(#[trigger] s[i]),
    ensures
        forall|i: int|
            0 <= i < remove_id(s, id).len() ==> job_in_range(#[trigger] remove_id(s, id)[i]),
    decreases s.len(),
{
    if s.len() > 0 {
        assert forall|i: int| 0 <= i < s.drop_last().len() implies job_in_range(
            #[trigger] s.drop_last()[i],
        ) by {
            assert(s.drop_last()[i] == s[i]);
        }
        lemma_remove_id_range(s.drop_last(), id);
        let rest = remove_id(s.drop_last(), id);
        assert forall|i: int| 0 <= i < remove_id(s, id).len() implies job_in_range(
            #[trigger] remove_id(s, id)[i],
        ) by {
            if s.last().id != id {
                if i < rest.len() {
                    assert(remove_id(s, id)[i] == rest[i]);
                } else {
                    assert(remove_id(s, id)[i] == s.last());
                    assert(job_in_range(s[s.len() - 1]));
                }
            }
        }
    }
}

/// Pushing an id onto a ghost id list extends membership by exactly it.
proof fn lemma_push_has(s: Seq<AsyncableId>, e: AsyncableId, y: AsyncableId)
    ensures
        s.push(e).contains(y) <==> (s.contains(y) || y == e),
{
    if s.push(e).contains(y) {
        let m = choose|m: int| 0 <= m < s.push(e).len() && s.push(e)[m] == y;
        if m < s.len() {
            assert(s[m] == y);
        }
    }
    if s.contains(y) {
        let m = choose|m: int| 0 <= m < s.len() && s[m] == y;
        assert(s.push(e)[m] == y);
    }
    if y == e {
        assert(s.push(e)[s.len() as int] == y);
    }
}

/// Whether a buffered command is a remove of the given id.
pub open spec fn is_remove_of(e: EnqueuedAsyncableJob, id: AsyncableId) -> bool {
    e.action_type is Remove && e.id_to_affect == id
}

/// Whether a buffered command adds a job carrying the given id.
pub open spec fn is_add_of(e: EnqueuedAsyncableJob, id: AsyncableId) -> bool {
    e.action_type is Add && e.asyncable is Some && e.asyncable->0.id == id
}

/// Scheduler ordering, firing side: a job whose accumulated timer reaches
/// its period this tick is among the fired ids.
pub proof fn lemma_job_fires(jobs: Seq<AsyncableInProgress>, delta: int, i: int)
    requires
        0 <= i < jobs.len(),
        fires(jobs[i], delta),
    ensures
        tick_fired(jobs, delta).contains(jobs[i].id),
    decreases jobs.len(),
{
    let rest = tick_fired(jobs.subrange(1, jobs.len() as int), delta);
    if i == 0 {
        assert(tick_fired(jobs, delta)[0] == jobs[0].id);
    } else {
        let tail = jobs.subrange(1, jobs.len() as int);
        assert(tail[i - 1] == jobs[i]);
        lemma_job_fires(tail, delta, i - 1);
        let m = choose|m: int| 0 <= m < rest.len() && rest[m] == jobs[i].id;
        if fires(jobs[0], delta) {
            assert(tick_fired(jobs, delta)[m + 1] == jobs[i].id);
        } else {
            assert(tick_fired(jobs, delta)[m] == jobs[i].id);
        }
    }
}

/// A list without any job carrying `id` keeps it out of the surviving list.
proof fn lemma_survivors_no_id(jobs: Seq<AsyncableInProgress>, delta: int, id: AsyncableId)
    requires
        forall|k: int| 0 <= k < jobs.len() ==> (#[trigger] jobs[k]).id != id,
    ensures
        forall|m: int|
            0 <= m < tick_survivors(jobs, delta).len() ==> (#[trigger] tick_survivors(
                jobs,
                delta,
            )[m]).id != id,
    decreases jobs.len(),
{
    if jobs.len() > 0 {
        let tail = jobs.subrange(1, jobs.len() as int);
        assert forall|k: int| 0 <= k < tail.len() implies (#[trigger] tail[k]).id != id by {
            assert(tail[k] == jobs[k + 1]);
        }
        lemma_survivors_no_id(tail, delta, id);
        let rest = tick_survivors(tail, delta);
        assert forall|m: int| 0 <= m < tick_survivors(jobs, delta).len() implies (
        #[trigger] tick_survivors(jobs, delta)[m]).id != id by {
            if fires(jobs[0], delta) && jobs[0].async_type is Timeout {
                assert(tick_survivors(jobs, delta)[m] == rest[m]);
            } else {
                if m == 0 {
                    assert(tick_survivors(jobs, delta)[0] == job_after(jobs[0], delta));
                } else {
                    assert(tick_survivors(jobs, delta)[m] == rest[m - 1]);
                }
            }
        }
    }
}

/// Scheduler ordering, timeout side: a timeout whose timer reaches its
/// period fires and is thereafter absent from the live job list (so, its id
/// being unique, it can never fire again).
pub proof fn lemma_timeout_leaves(jobs: Seq<AsyncableInProgress>, delta: int, i: int)
    requires
        0 <= i < jobs.len(),
        jobs[i].async_type is Timeout,
        fires(jobs[i], delta),
        forall|k: int| 0 <= k < jobs.len() && k != i ==> (#[trigger] jobs[k]).id != jobs[i].id,
    ensures
        tick_fired(jobs, delta).contains(jobs[i].id),
        forall|m: int|
            0 <= m < tick_survivors(jobs, delta).len() ==> (#[trigger] tick_survivors(
                jobs,
                delta,
            )[m]).id != jobs[i].id,
    decreases jobs.len(),
{
    lemma_job_fires(jobs, delta, i);
    let tail = jobs.subrange(1, jobs.len() as int);
    let rest = tick_survivors(tail, delta);
    if i == 0 {
        assert forall|k: int| 0 <= k < tail.len() implies (#[trigger] tail[k]).id != jobs[0].id by {
            assert(tail[k] == jobs[k + 1]);
        }
        lemma_survivors_no_id(tail, delta, jobs[0].id);
    } else {
        assert(tail[i - 1] == jobs[i]);
        assert forall|k: int| 0 <= k < tail.len() && k != i - 1 implies (#[trigger] tail[k]).id
            != tail[i - 1].id by {
            assert(tail[k] == jobs[k + 1]);
        }
        lemma_timeout_leaves(tail, delta, i - 1);
        assert forall|m: int| 0 <= m < tick_survivors(jobs, delta).len() implies (
        #[trigger] tick_survivors(jobs, delta)[m]).id != jobs[i].id by {
            if fires(jobs[0], delta) && jobs[0].async_type is Timeout {
                assert(tick_survivors(jobs, delta)[m] == rest[m]);
            } else {
                if m == 0 {
                    assert(tick_survivors(jobs, delta)[0] == job_after(jobs[0], delta));
                    assert(jobs[0].id != jobs[i].id);
                } else {
                    assert(tick_survivors(jobs, delta)[m] == rest[m - 1]);
                }
            }
        }
    }
}

/// Scheduler ordering, interval side: an interval whose timer reaches its
/// period fires and remains in the live list with its timer reset to zero.
pub proof fn lemma_interval_stays(jobs: Seq<AsyncableInProgress>, delta: int, i: int)
    requires
        0 <= i < jobs.len(),
        jobs[i].async_type is Interval,
        fires(jobs[i], delta),
    ensures
        tick_fired(jobs, delta).contains(jobs[i].id),
        tick_survivors(jobs, delta).contains(
            AsyncableInProgress { timer: 0, ..jobs[i] },
        ),
    decreases jobs.len(),
{
    lemma_job_fires(jobs, delta, i);
    let tail = jobs.subrange(1, jobs.len() as int);
    let rest = tick_survivors(tail, delta);
    let target = AsyncableInProgress { timer: 0, ..jobs[i] };
    if i == 0 {
        assert(job_after(jobs[0], delta) == target);
        assert(tick_survivors(jobs, delta)[0] == target);
    } else {
        assert(tail[i - 1] == jobs[i]);
        lemma_interval_stays(tail, delta, i - 1);
        let m = choose|m: int| 0 <= m < rest.len() && rest[m] == target;
        if fires(jobs[0], delta) && jobs[0].async_type is Timeout {
            assert(tick_survivors(jobs, delta)[m] == target);
        } else {
            assert(tick_survivors(jobs, delta)[m + 1] == target);
        }
    }
}

/// A job whose timer falls short of its period does not fire and stays,
/// its timer grown by the elapsed time.
pub proof fn lemma_job_accumulates(jobs: Seq<AsyncableInProgress>, delta: int, i: int)
    requires
        0 <= i < jobs.len(),
        !fires(jobs[i], delta),
        i64::MIN <= jobs[i].timer + delta <= i64::MAX,
    ensures
        tick_survivors(jobs, delta).contains(
            AsyncableInProgress { timer: (jobs[i].timer + delta) as i64, ..jobs[i] },
        ),
    decreases jobs.len(),
{
    let tail = jobs.subrange(1, jobs.len() as int);
    let rest = tick_survivors(tail, delta);
    let target = AsyncableInProgress { timer: (jobs[i].timer + delta) as i64, ..jobs[i] };
    if i == 0 {
        assert(job_after(jobs[0], delta) == target);
        assert(tick_survivors(jobs, delta)[0] == target);
    } else {
        assert(tail[i - 1] == jobs[i]);
        lemma_job_accumulates(tail, delta, i - 1);
        let m = choose|m: int| 0 <= m < rest.len() && rest[m] == target;
        if fires(jobs[0], delta) && jobs[0].async_type is Timeout {
            assert(tick_survivors(jobs, delta)[m] == target);
        } else {
            assert(tick_survivors(jobs, delta)[m + 1] == target);
        }
    }
}

/// Dropping jobs by id leaves no job carrying that id.
proof fn lemma_remove_id_absent(s: Seq<AsyncableInProgress>, id: AsyncableId)
    ensures
        forall|m: int| 0 <= m < remove_id(s, id).len() ==> (#[trigger] remove_id(s, id)[m]).id != id,
    decreases s.len(),
{
    if s.len() > 0 {
        lemma_remove_id_absent(s.drop_last(), id);
        let rest = remove_id(s.drop_last(), id);
        assert forall|m: int| 0 <= m < remove_id(s, id).len() implies (#[trigger] remove_id(
            s,
            id,
        )[m]).id != id by {
            if s.last().id != id {
                if m < rest.len() {
                    assert(remove_id(s, id)[m] == rest[m]);
                }
            }
        }
    }
}

/// Dropping one id cannot introduce a job carrying another.
proof fn lemma_remove_id_keeps_absent(s: Seq<AsyncableInProgress>, rid: AsyncableId, id: AsyncableId)
    requires
        forall|m: int| 0 <= m < s.len() ==> (#[trigger] s[m]).id != id,
    ensures
        forall|m: int|
            0 <= m < remove_id(s, rid).len() ==> (#[trigger] remove_id(s, rid)[m]).id != id,
    decreases s.len(),
{
    if s.len() > 0 {
        assert forall|m: int| 0 <= m < s.drop_last().len() implies (#[trigger] s.drop_last()[m]).id
            != id by {
            assert(s.drop_last()[m] == s[m]);
        }
        lemma_remove_id_keeps_absent(s.drop_last(), rid, id);
        let rest = remove_id(s.drop_last(), rid);
        assert forall|m: int| 0 <= m < remove_id(s, rid).len() implies (#[trigger] remove_id(
            s,
            rid,
        )[m]).id != id by {
            if s.last().id != rid {
                if m < rest.len() {
                    assert(remove_id(s, rid)[m] == rest[m]);
                } else {
                    assert(remove_id(s, rid)[m] == s[s.len() - 1]);
                }
            }
        }
    }
}

/// A command buffer with no add of `id` cannot introduce a job carrying it.
proof fn lemma_apply_queue_keeps_absent(
    jobs: Seq<AsyncableInProgress>,
    queue: Seq<EnqueuedAsyncableJob>,
    id: AsyncableId,
)
    requires
        forall|m: int| 0 <= m < jobs.len() ==> (#[trigger] jobs[m]).id != id,
        forall|j: int| 0 <= j < queue.len() ==> !is_add_of(#[trigger] queue[j], id),
    ensures
        forall|m: int|
            0 <= m < apply_queue(jobs, queue).len() ==> (#[trigger] apply_queue(jobs, queue)[m]).id
                != id,
    decreases queue.len(),
{
    if queue.len() > 0 {
        let next = apply_one(jobs, queue[0]);
        assert forall|m: int| 0 <= m < next.len() implies (#[trigger] next[m]).id != id by {
            match queue[0].action_type {
                AsyncableActionType::Add => {
                    if queue[0].asyncable is Some {
                        if m < jobs.len() {
                            assert(next[m] == jobs[m]);
                        } else {
                            assert(next[m] == queue[0].asyncable->0);
                            assert(!is_add_of(queue[0], id));
                        }
                    }
                },
                AsyncableActionType::Remove => {
                    lemma_remove_id_keeps_absent(jobs, queue[0].id_to_affect, id);
                },
            }
        }
        let tail = queue.subrange(1, queue.len() as int);
        assert forall|j: int| 0 <= j < tail.len() implies !is_add_of(#[trigger] tail[j], id) by {
            assert(tail[j] == queue[j + 1]);
        }
        lemma_apply_queue_keeps_absent(next, tail, id);
    }
}

/// A list without any job carrying `id` never fires it.
proof fn lemma_no_id_no_fire(jobs: Seq<AsyncableInProgress>, delta: int, id: AsyncableId)
    requires
        forall|m: int| 0 <= m < jobs.len() ==> (#[trigger] jobs[m]).id != id,
    ensures
        !tick_fired(jobs, delta).contains(id),
    decreases jobs.len(),
{
    let tail = jobs.subrange(1, jobs.len() as int);
    if jobs.len() > 0 {
        assert forall|m: int| 0 <= m < tail.len() implies (#[trigger] tail[m]).id != id by {
            assert(tail[m] == jobs[m + 1]);
        }
        lemma_no_id_no_fire(tail, delta, id);
        if tick_fired(jobs, delta).contains(id) {
            let m = choose|m: int|
                0 <= m < tick_fired(jobs, delta).len() && tick_fired(jobs, delta)[m] == id;
            let rest = tick_fired(tail, delta);
            if fires(jobs[0], delta) {
                if m == 0 {
                    assert(jobs[0].id != id);
                } else {
                    assert(rest[m - 1] == id);
                    assert(rest.contains(id));
                }
            } else {
                assert(rest[m] == id);
                assert(rest.contains(id));
            }
        }
    }
}

/// Scheduler reentrancy: a cancel issued while a tick's fired jobs are being
/// handled — also by a job cancelling itself — does not touch the current
/// live list (see [`AsyncableStorage::remove_asyncable`]); it sits in the
/// command buffer, so once the next tick merges the buffer (and nothing
/// re-adds the id afterwards) no job with that id remains and the id cannot
/// fire again.
pub proof fn lemma_remove_takes_effect_next_tick(
    jobs: Seq<AsyncableInProgress>,
    queue: Seq<EnqueuedAsyncableJob>,
    delta: int,
    id: AsyncableId,
    k: int,
)
    requires
        0 <= k < queue.len(),
        is_remove_of(queue[k], id),
        forall|j: int| k < j < queue.len() ==> !is_add_of(#[trigger] queue[j], id),
    ensures
        forall|m: int|
            0 <= m < apply_queue(jobs, queue).len() ==> (#[trigger] apply_queue(jobs, queue)[m]).id
                != id,
        !tick_fired(apply_queue(jobs, queue), delta).contains(id),
    decreases queue.len(),
{
    let next = apply_one(jobs, queue[0]);
    let tail = queue.subrange(1, queue.len() as int);
    if k == 0 {
        lemma_remove_id_absent(jobs, id);
        assert forall|j: int| 0 <= j < tail.len() implies !is_add_of(#[trigger] tail[j], id) by {
            assert(tail[j] == queue[j + 1]);
        }
        lemma_apply_queue_keeps_absent(next, tail, id);
    } else {
        assert(tail[k - 1] == queue[k]);
        assert forall|j: int| k - 1 < j < tail.len() implies !is_add_of(#[trigger] tail[j], id) by {
            assert(tail[j] == queue[j + 1]);
        }
        lemma_remove_takes_effect_next_tick(next, tail, delta, id, k - 1);
    }
    lemma_no_id_no_fire(apply_queue(jobs, queue), delta, id);
}

/// The scheduler: live jobs, the command buffer, and the taken-id set.
pub struct AsyncableStorage {
    asyncables_in_progress: Vec<AsyncableInProgress>,
    queue: Vec<EnqueuedAsyncableJob>,
    taken_ids: Vec<AsyncableId>,
}

impl AsyncableStorage {
    /// The live jobs, in firing order.
    pub closed spec fn jobs(&self) -> Seq<AsyncableInProgress> {
        self.asyncables_in_progress@
    }

    /// The buffered commands, oldest first.
    pub closed spec fn queued(&self) -> Seq<EnqueuedAsyncableJob> {
        self.queue@
    }

    /// The taken job ids, in ascending order.
    pub closed spec fn taken(&self) -> Seq<AsyncableId> {
        self.taken_ids@
    }

    /// Whether a job id is currently taken.
    pub open spec fn is_taken(&self, id: AsyncableId) -> bool {
        self.taken().contains(id)
    }

    /// Internal invariant: the taken-id list is strictly ascending, and
    /// every live or buffered job is within the time bounds.
    pub closed spec fn wf(&self) -> bool {
        &&& forall|i: int, j: int|
            0 <= i < j < self.taken_ids@.len() ==> self.taken_ids@[i] < self.taken_ids@[j]
        &&& forall|i: int| 0 <= i < self.jobs().len() ==> job_in_range(#[trigger] self.jobs()[i])
        &&& forall|i: int|
            0 <= i < self.queued().len() && (#[trigger] self.queued()[i]).asyncable is Some
                ==> job_in_range(self.queued()[i].asyncable->0)
    }

    /// An empty scheduler.
    pub fn new() -> (r: AsyncableStorage)
        ensures
            r.wf(),
            r.jobs().len() == 0,
            r.queued().len() == 0,
            r.taken().len() == 0,
    {
        AsyncableStorage { asyncables_in_progress: Vec::new(), queue: Vec::new(), taken_ids: Vec::new() }
    }

    /// The taken job ids, in ascending order.
    pub fn get_taken_ids(&self) -> (r: &Vec<AsyncableId>)
        ensures
            r@ == self.taken(),
    {
        &self.taken_ids
    }

    /// The live jobs, in firing order.
    pub fn get_jobs(&self) -> (r: &Vec<AsyncableInProgress>)
        ensures
            r@ == self.jobs(),
    {
        &self.asyncables_in_progress
    }

    /// A strictly ascending id list sits at or above its index.
    proof fn lemma_taken_at_least_index(&self, i: int)
        requires
            self.wf(),
            0 <= i < self.taken().len(),
        ensures
            self.taken()[i] >= i,
        decreases i,
    {
        if i > 0 {
            self.lemma_taken_at_least_index(i - 1);
        }
    }

    /// In a strictly ascending dense prefix, an id above its slot is free.
    proof fn lemma_taken_gap_is_free(&self, i: int)
        requires
            self.wf(),
            0 <= i <= self.taken().len(),
            forall|j: int| 0 <= j < i ==> self.taken()[j] == j,
            i < self.taken().len() ==> self.taken()[i] > i,
            i <= u16::MAX as int,
        ensures
            !self.is_taken(i as AsyncableId),
            forall|k: AsyncableId| k < i ==> self.is_taken(k),
    {
        let s = self.taken();
        assert forall|k: AsyncableId| k < i implies self.is_taken(k) by {
            assert(s[k as int] == k as int);
        }
        if self.is_taken(i as AsyncableId) {
            let m = choose|m: int| 0 <= m < s.len() && s[m] == i;
            if m < i {
                assert(s[m] == m);
            } else if m > i {
                assert(s[i] < s[m]);
            }
        }
    }

    /// Registers a new job: the smallest untaken id is reserved at once and
    /// an add command carrying the job (timer at zero) is buffered; the job
    /// itself joins the live list only on the next tick. Returns `None`,
    /// changing nothing, only when every representable id is taken.
    pub fn add_asyncable(&mut self, ms: i64, asyncable_type: AsyncableType) -> (r: Option<
        AsyncableId,
    >)
        requires
            old(self).wf(),
            0 <= ms <= TIME_LIMIT,
        ensures
            final(self).wf(),
            r is None ==> *final(self) == *old(self) && forall|k: AsyncableId| old(self).is_taken(k),
            r is Some ==> !old(self).is_taken(r->0),
            r is Some ==> forall|k: AsyncableId| k < r->0 ==> old(self).is_taken(k),
            r is Some ==> forall|k: AsyncableId|
                #[trigger] final(self).is_taken(k) <==> (old(self).is_taken(k) || k == r->0),
            r is Some ==> final(self).queued() == old(self).queued().push(
                EnqueuedAsyncableJob {
                    id_to_affect: r->0,
                    action_type: AsyncableActionType::Add,
                    asyncable: Some(
                        AsyncableInProgress { id: r->0, async_type: asyncable_type, ms, timer: 0 },
                    ),
                },
            ),
            final(self).jobs() == old(self).jobs(),
    {
        let n: usize = self.taken_ids.len();
        let mut i: usize = 0;
        let mut free: Option<AsyncableId> = None;
        while i < n
            invariant
                self.wf(),
                0 <= i <= n == self.taken().len(),
                free is None ==> forall|j: int| 0 <= j < i ==> self.taken()[j] == j,
                free is Some ==> !self.is_taken(free->0) && (free->0 as int) <= n
                    && (forall|k: AsyncableId| k < free->0 ==> self.is_taken(k)) && (forall|j: int|
                    0 <= j < free->0 as int ==> self.taken()[j] == j),
            decreases n - i,
        {
            if free.is_none() {
                proof {
                    self.lemma_taken_at_least_index(i as int);
                }
                if self.taken_ids[i] != i as u16 {
                    proof {
                        self.lemma_taken_gap_is_free(i as int);
                    }
                    free = Some(i as u16);
                }
            }
            i = i + 1;
        }
        let free_id: AsyncableId = match free {
            Some(id) => id,
            None => {
                if n <= u16::MAX as usize {
                    proof {
                        self.lemma_taken_gap_is_free(n as int);
                    }
                    n as u16
                } else {
                    proof {
                        assert forall|k: AsyncableId| self.is_taken(k) by {
                            assert(self.taken()[k as int] == k);
                        }
                    }
                    return None;
                }
            },
        };
        let ghost pre = *self;
        let idp: usize = free_id as usize;
        self.taken_ids.insert(idp, free_id);
        self.queue.push(
            EnqueuedAsyncableJob {
                id_to_affect: free_id,
                action_type: AsyncableActionType::Add,
                asyncable: Some(
                    AsyncableInProgress { id: free_id, async_type: asyncable_type, ms, timer: 0 },
                ),
            },
        );
        proof {
            let s0 = pre.taken();
            let s1 = self.taken();
            let p = free_id as int;
            assert(s1 == s0.insert(p, free_id));
            assert forall|i2: int, j2: int| 0 <= i2 < j2 < s1.len() implies s1[i2] < s1[j2] by {
                if j2 < p {
                } else if i2 < p && j2 == p {
                    assert(s1[i2] == s0[i2] == i2);
                } else if i2 < p && j2 > p {
                    assert(s1[i2] == s0[i2] == i2);
                    assert(s1[j2] == s0[j2 - 1]);
                    pre.lemma_taken_at_least_index(j2 - 1);
                } else if i2 == p {
                    assert(s1[j2] == s0[j2 - 1]);
                    pre.lemma_taken_at_least_index(j2 - 1);
                    if j2 - 1 == p {
                        if s0[p] == free_id {
                            assert(s0.contains(free_id));
                        }
                    }
                } else {
                    assert(s1[i2] == s0[i2 - 1] && s1[j2] == s0[j2 - 1]);
                }
            }
            assert forall|k: AsyncableId| #[trigger] s1.contains(k) <==> (s0.contains(k) || k
                == free_id) by {
                if s1.contains(k) {
                    let m = choose|m: int| 0 <= m < s1.len() && s1[m] == k;
                    if m < p {
                        assert(s0[m] == k);
                        assert(s0.contains(k));
                    } else if m > p {
                        assert(s1[m] == s0[m - 1]);
                        assert(s0.contains(k));
                    }
                }
                if s0.contains(k) {
                    let m = choose|m: int| 0 <= m < s0.len() && s0[m] == k;
                    if m < p {
                        assert(s1[m] == k);
                    } else {
                        assert(s1[m + 1] == k);
                    }
                    assert(s1.contains(k));
                }
                if k == free_id {
                    assert(s1[p] == k);
                    assert(s1.contains(k));
                }
            }
            assert forall|qi: int|
                0 <= qi < self.queued().len() && (#[trigger] self.queued()[qi]).asyncable
                    is Some implies job_in_range(self.queued()[qi].asyncable->0) by {
                if qi < pre.queued().len() {
                    assert(self.queued()[qi] == pre.queued()[qi]);
                    assert(job_in_range(pre.queued()[qi].asyncable->0));
                }
            }
            assert forall|ji: int| 0 <= ji < self.jobs().len() implies job_in_range(
                #[trigger] self.jobs()[ji],
            ) by {
                assert(self.jobs()[ji] == old(self).jobs()[ji]);
                assert(job_in_range(old(self).jobs()[ji]));
            }
        }
        Some(free_id)
    }

    /// Cancels a job: the id is released at once and a remove command is
    /// buffered; the live list — including a job firing this very tick —
    /// is only filtered on the next tick, never mid-iteration.
    pub fn remove_asyncable(&mut self, id: AsyncableId)
        requires
            old(self).wf(),
        ensures
            final(self).wf(),
            !final(self).is_taken(id),
            forall|k: AsyncableId|
                k != id ==> #[trigger] final(self).is_taken(k) == old(self).is_taken(k),
            final(self).queued() == old(self).queued().push(
                EnqueuedAsyncableJob {
                    id_to_affect: id,
                    action_type: AsyncableActionType::Remove,
                    asyncable: None::<AsyncableInProgress>,
                },
            ),
            final(self).jobs() == old(self).jobs(),
    {
        self.release_id(id);
        let ghost mid = *self;
        self.queue.push(
            EnqueuedAsyncableJob {
                id_to_affect: id,
                action_type: AsyncableActionType::Remove,
                asyncable: None,
            },
        );
        proof {
            assert forall|qi: int|
                0 <= qi < self.queued().len() && (#[trigger] self.queued()[qi]).asyncable
                    is Some implies job_in_range(self.queued()[qi].asyncable->0) by {
                if qi < mid.queued().len() {
                    assert(self.queued()[qi] == mid.queued()[qi]);
                    assert(job_in_range(old(self).queued()[qi].asyncable->0));
                }
            }
            assert forall|ji: int| 0 <= ji < self.jobs().len() implies job_in_range(
                #[trigger] self.jobs()[ji],
            ) by {
                assert(self.jobs()[ji] == old(self).jobs()[ji]);
                assert(job_in_range(old(self).jobs()[ji]));
            }
            assert forall|k: AsyncableId| k != id implies #[trigger] self.is_taken(k) == old(
                self,
            ).is_taken(k) by {
                assert(self.taken() == mid.taken());
                assert(mid.is_taken(k) == old(self).is_taken(k));
            }
        }
    }

    /// One scheduler tick. The buffered commands are first merged into the
    /// live list, in arrival order: adds append their job, removes filter by
    /// id. Then `delta` is accumulated into every live job's timer, and the
    /// ids whose timers reached their period are returned, in list order: a
    /// fired timeout leaves the list and releases its id, a fired interval
    /// stays with its timer reset to zero, and every other job keeps its
    /// grown timer. Commands buffered while the caller reacts to the
    /// returned ids only take effect on the next tick.
    #[verifier::loop_isolation(false)]
    pub fn update(&mut self, delta: i64) -> (fired: Vec<AsyncableId>)
        requires
            old(self).wf(),
            0 <= delta <= TIME_LIMIT,
        ensures
            final(self).wf(),
            final(self).jobs() == tick_survivors(
                apply_queue(old(self).jobs(), old(self).queued()),
                delta as int,
            ),
            fired@ == tick_fired(apply_queue(old(self).jobs(), old(self).queued()), delta as int),
            final(self).queued().len() == 0,
            forall|k: AsyncableId|
                #[trigger] final(self).is_taken(k) <==> (old(self).is_taken(k) && !tick_dropped(
                    apply_queue(old(self).jobs(), old(self).queued()),
                    delta as int,
                ).contains(k)),
    {
        let ghost jobs0 = self.jobs();
        let ghost queue0 = self.queued();
        let qn: usize = self.queue.len();
        let mut qi: usize = 0;
        proof {
            assert(queue0.skip(0) =~= queue0);
        }
        while qi < qn
            invariant
                0 <= qi <= qn,
                self.queued() == queue0,
                self.taken() == old(self).taken(),
                apply_queue(jobs0, queue0) == apply_queue(self.jobs(), queue0.skip(qi as int)),
                forall|i: int| 0 <= i < self.jobs().len() ==> job_in_range(#[trigger] self.jobs()[i]),
            decreases qn - qi,
        {
            let e: EnqueuedAsyncableJob = self.queue[qi];
            let ghost cur = self.jobs();
            proof {
                assert(queue0.skip(qi as int)[0] == queue0[qi as int]);
                assert(queue0.skip(qi as int).subrange(
                    1,
                    queue0.skip(qi as int).len() as int,
                ) =~= queue0.skip(qi as int + 1));
            }
            match e.action_type {
                AsyncableActionType::Add => {
                    match e.asyncable {
                        Some(j) => {
                            proof {
                                assert(old(self).queued()[qi as int] == queue0[qi as int]);
                                assert(job_in_range(old(self).queued()[qi as int].asyncable->0));
                            }
                            self.asyncables_in_progress.push(j);
                        },
                        None => {},
                    }
                },
                AsyncableActionType::Remove => {
                    let target: AsyncableId = e.id_to_affect;
                    let cnt: usize = self.asyncables_in_progress.len();
                    let mut newv: Vec<AsyncableInProgress> = Vec::new();
                    let mut k: usize = 0;
                    proof {
                        assert(cur.take(0) =~= Seq::<AsyncableInProgress>::empty());
                    }
                    while k < cnt
                        invariant
                            0 <= k <= cnt,
                            newv@ == remove_id(cur.take(k as int), target),
                        decreases cnt - k,
                    {
                        let j: AsyncableInProgress = self.asyncables_in_progress[k];
                        proof {
                            assert(cur.take(k as int + 1).drop_last() =~= cur.take(k as int));
                            assert(cur.take(k as int + 1).last() == cur[k as int]);
                        }
                        if j.id != target {
                            newv.push(j);
                        }
                        k = k + 1;
                    }
                    proof {
                        assert(cur.take(cnt as int) =~= cur);
                        lemma_remove_id_range(cur, target);
                    }
                    self.asyncables_in_progress = newv;
                },
            }
            qi = qi + 1;
        }
        proof {
            assert(queue0.skip(qn as int) =~= Seq::<EnqueuedAsyncableJob>::empty());
        }
        self.queue.clear();
        let ghost m0 = self.jobs();
        proof {
            assert(m0 == apply_queue(jobs0, queue0));
        }
        let jn: usize = self.asyncables_in_progress.len();
        let mut new_jobs: Vec<AsyncableInProgress> = Vec::new();
        let mut fired: Vec<AsyncableId> = Vec::new();
        let ghost mut dropped: Seq<AsyncableId> = Seq::empty();
        let mut ji: usize = 0;
        proof {
            assert(m0.skip(0) =~= m0);
            assert(fired@ + tick_fired(m0, delta as int) =~= tick_fired(m0, delta as int));
            assert(new_jobs@ + tick_survivors(m0, delta as int) =~= tick_survivors(
                m0,
                delta as int,
            ));
            assert(dropped + tick_dropped(m0, delta as int) =~= tick_dropped(m0, delta as int));
        }
        while ji < jn
            invariant
                0 <= ji <= jn == m0.len(),
                self.wf(),
                self.jobs() == m0,
                self.queued().len() == 0,
                tick_fired(m0, delta as int) == fired@ + tick_fired(
                    m0.skip(ji as int),
                    delta as int,
                ),
                tick_survivors(m0, delta as int) == new_jobs@ + tick_survivors(
                    m0.skip(ji as int),
                    delta as int,
                ),
                tick_dropped(m0, delta as int) == dropped + tick_dropped(
                    m0.skip(ji as int),
                    delta as int,
                ),
                forall|k: AsyncableId|
                    #[trigger] self.is_taken(k) <==> (old(self).is_taken(k) && !dropped.contains(
                        k,
                    )),
                forall|i: int| 0 <= i < new_jobs@.len() ==> job_in_range(#[trigger] new_jobs@[i]),
            decreases jn - ji,
        {
            let j: AsyncableInProgress = self.asyncables_in_progress[ji];
            proof {
                assert(m0.skip(ji as int)[0] == m0[ji as int]);
                assert(m0.skip(ji as int).subrange(
                    1,
                    m0.skip(ji as int).len() as int,
                ) =~= m0.skip(ji as int + 1));
                assert(job_in_range(m0[ji as int]));
            }
            let ghost fired_pre = fired@;
            let ghost jobs_pre = new_jobs@;
            let ghost dropped_pre = dropped;
            let ghost rest_fired = tick_fired(m0.skip(ji as int + 1), delta as int);
            let ghost rest_surv = tick_survivors(m0.skip(ji as int + 1), delta as int);
            let ghost rest_drop = tick_dropped(m0.skip(ji as int + 1), delta as int);
            let t: i64 = j.timer + delta;
            if t >= j.ms {
                fired.push(j.id);
                proof {
                    assert((fired_pre + seq![j.id]) + rest_fired =~= fired_pre + (seq![j.id]
                        + rest_fired));
                    assert(fired@ == fired_pre + seq![j.id]);
                }
                match j.async_type {
                    AsyncableType::Timeout => {
                        let ghost taken_pre = *self;
                        self.release_id(j.id);
                        proof {
                            dropped = dropped_pre.push(j.id);
                            assert(seq![j.id] + rest_drop =~= dropped_pre.push(j.id).skip(
                                dropped_pre.len() as int,
                            ) + rest_drop);
                            assert((dropped_pre + seq![j.id]) + rest_drop =~= dropped_pre + (
                            seq![j.id] + rest_drop));
                            assert(dropped_pre.push(j.id) =~= dropped_pre + seq![j.id]);
                            assert forall|k: AsyncableId|
                                #[trigger] self.is_taken(k) <==> (old(self).is_taken(k)
                                    && !dropped.contains(k)) by {
                                lemma_push_has(dropped_pre, j.id, k);
                                if k != j.id {
                                    assert(self.is_taken(k) == taken_pre.is_taken(k));
                                }
                            }
                        }
                    },
                    AsyncableType::Interval => {
                        new_jobs.push(
                            AsyncableInProgress {
                                id: j.id,
                                async_type: j.async_type,
                                ms: j.ms,
                                timer: 0,
                            },
                        );
                        proof {
                            assert(job_after(m0[ji as int], delta as int)
                                == AsyncableInProgress { id: j.id, async_type: j.async_type, ms: j.ms, timer: 0i64 });
                            assert((jobs_pre + seq![job_after(m0[ji as int], delta as int)])
                                + rest_surv =~= jobs_pre + (seq![
                                job_after(m0[ji as int], delta as int),
                            ] + rest_surv));
                        }
                    },
                }
            } else {
                new_jobs.push(
                    AsyncableInProgress { id: j.id, async_type: j.async_type, ms: j.ms, timer: t },
                );
                proof {
                    assert(job_after(m0[ji as int], delta as int)
                        == AsyncableInProgress { id: j.id, async_type: j.async_type, ms: j.ms, timer: t });
                    assert((jobs_pre + seq![job_after(m0[ji as int], delta as int)]) + rest_surv
                        =~= jobs_pre + (seq![job_after(m0[ji as int], delta as int)] + rest_surv));
                }
            }
            ji = ji + 1;
        }
        proof {
            assert(m0.skip(jn as int) =~= Seq::<AsyncableInProgress>::empty());
            assert(fired@ + tick_fired(m0.skip(jn as int), delta as int) =~= fired@);
            assert(new_jobs@ + tick_survivors(m0.skip(jn as int), delta as int) =~= new_jobs@);
            assert(dropped + tick_dropped(m0.skip(jn as int), delta as int) =~= dropped);
        }
        let ghost s1 = *self;
        self.asyncables_in_progress = new_jobs;
        proof {
            assert(tick_dropped(m0, delta as int) == dropped);
            assert forall|k: AsyncableId|
                #[trigger] self.is_taken(k) <==> (old(self).is_taken(k) && !tick_dropped(
                    m0,
                    delta as int,
                ).contains(k)) by {
                assert(self.taken() == s1.taken());
                assert(s1.is_taken(k) <==> (old(self).is_taken(k) && !dropped.contains(k)));
            }
        }
        fired
    }

    /// Releases a taken id, leaving the live list and the command buffer
    /// alone.
    fn release_id(&mut self, id: AsyncableId)
        requires
            old(self).wf(),
        ensures
            final(self).wf(),
            !final(self).is_taken(id),
            forall|k: AsyncableId|
                k != id ==> #[trigger] final(self).is_taken(k) == old(self).is_taken(k),
            final(self).queued() == old(self).queued(),
            final(self).jobs() == old(self).jobs(),
    {
        let n: usize = self.taken_ids.len();
        let mut i: usize = 0;
        let mut found: bool = false;
        let mut pos: usize = 0;
        while i < n
            invariant
                0 <= i <= n == self.taken().len(),
                found ==> pos < n && self.taken()[pos as int] == id,
                !found ==> forall|j: int| 0 <= j < i ==> self.taken()[j] != id,
            decreases n - i,
        {
            if self.taken_ids[i] == id {
                found = true;
                pos = i;
                i = n;
            } else {
                i = i + 1;
            }
        }
        let ghost pre = *self;
        if found {
            self.taken_ids.remove(pos);
            proof {
                let s0 = pre.taken();
                let s1 = self.taken();
                let p = pos as int;
                assert forall|i2: int, j2: int| 0 <= i2 < j2 < s1.len() implies s1[i2] < s1[j2] by {
                    if j2 < p {
                    } else if i2 < p {
                        assert(s1[i2] == s0[i2] && s1[j2] == s0[j2 + 1]);
                    } else {
                        assert(s1[i2] == s0[i2 + 1] && s1[j2] == s0[j2 + 1]);
                    }
                }
                assert forall|k: AsyncableId| k != id implies #[trigger] s1.contains(k) == s0
                    .contains(k) by {
                    if s1.contains(k) {
                        let m = choose|m: int| 0 <= m < s1.len() && s1[m] == k;
                        if m < p {
                            assert(s0[m] == k);
                        } else {
                            assert(s0[m + 1] == k);
                        }
                        assert(s0.contains(k));
                    }
                    if s0.contains(k) {
                        let m = choose|m: int| 0 <= m < s0.len() && s0[m] == k;
                        if m < p {
                            assert(s1[m] == k);
                        } else if m == p {
                        } else {
                            assert(s1[m - 1] == k);
                        }
                        assert(s1.contains(k));
                    }
                }
                if s1.contains(id) {
                    let m = choose|m: int| 0 <= m < s1.len() && s1[m] == id;
                    if m < p {
                        assert(s0[m] == id && s0[p] == id);
                    } else {
                        assert(s0[m + 1] == id && s0[p] == id);
                    }
                }
            }
        } else {
            proof {
                if self.is_taken(id) {
                    let m = choose|m: int| 0 <= m < self.taken().len() && self.taken()[m] == id;
                    assert(self.taken()[m] != id);
                }
            }
        }
        proof {
            assert forall|qi: int|
                0 <= qi < self.queued().len() && (#[trigger] self.queued()[qi]).asyncable
                    is Some implies job_in_range(self.queued()[qi].asyncable->0) by {
                assert(self.queued()[qi] == old(self).queued()[qi]);
                assert(job_in_range(old(self).queued()[qi].asyncable->0));
            }
            assert forall|ji: int| 0 <= ji < self.jobs().len() implies job_in_range(
                #[trigger] self.jobs()[ji],
            ) by {
                assert(self.jobs()[ji] == old(self).jobs()[ji]);
                assert(job_in_range(old(self).jobs()[ji]));
            }
        }
    }
}

} // verus!
