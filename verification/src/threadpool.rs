//! The scheduling and balancing decisions of the load balanced threadpool.
//!
//! A job is dispatched to the least loaded worker of the pool, whose load is
//! then raised by one; when a worker reports a finished job, its load is
//! lowered by one. Both keep the pool a heap by load.

use vstd::prelude::*;

use crate::job::Job;
use crate::message::Message;
use crate::pool::{least_loaded, load_set, only_changed, WorkerPool};
use crate::worker::{notice_delivered, Worker};

verus! {

/// What can go wrong in the threadpool.
#[derive(Debug, Clone, Copy, PartialEq, Eq, Structural)]
pub enum ThreadPoolError {
    LockError,
    LookupError,
    WorkerUnavailable,
    JobSchedulingFailed,
    TermNoticeFailed,
    JoinFailed,
    WorkerTermFailed,
}

/// The text that describes each threadpool error.
pub open spec fn thread_pool_error_text(e: ThreadPoolError) -> &'static str {
    match e {
        ThreadPoolError::LockError => "unable to acquire lock on thread pool",
        ThreadPoolError::LookupError => "unable to look up worker",
        ThreadPoolError::WorkerUnavailable => "worker unavailable",
        ThreadPoolError::JobSchedulingFailed => "unable to schedule job",
        ThreadPoolError::TermNoticeFailed => "failed to send term notice to balancer thread",
        ThreadPoolError::JoinFailed => "join() on balancer thread failed",
        ThreadPoolError::WorkerTermFailed => "failed to terminate worker",
    }
}

impl ThreadPoolError {
    /// The human readable description of the error.
    pub fn describe(&self) -> (s: &'static str)
        ensures
            s@ == thread_pool_error_text(*self)@,
    {
        match self {
            ThreadPoolError::LockError => "unable to acquire lock on thread pool",
            ThreadPoolError::LookupError => "unable to look up worker",
            ThreadPoolError::WorkerUnavailable => "worker unavailable",
            ThreadPoolError::JobSchedulingFailed => "unable to schedule job",
            ThreadPoolError::TermNoticeFailed => "failed to send term notice to balancer thread",
            ThreadPoolError::JoinFailed => "join() on balancer thread failed",
            ThreadPoolError::WorkerTermFailed => "failed to terminate worker",
        }
    }
}

/// Restores the order of the workers in the worker pool after the worker with
/// the given uid finished a job: its load goes down by one.
///
/// An empty pool is left as it is and the result is `Ok`; a pool without a
/// worker of that uid is left as it is and the result is `LookupError`.
pub fn restore_worker_pool_order<Req, Res>(
    worker_pool: &mut WorkerPool<Req, Res>,
    worker_uid: u64,
) -> (r: Result<(), ThreadPoolError>)
    requires
        old(worker_pool).wf(),
        old(worker_pool)@.contains_key(worker_uid) ==> old(worker_pool)@[worker_uid].load() > 0,
    ensures
        final(worker_pool).wf(),
        final(worker_pool).tries() == old(worker_pool).tries(),
        old(worker_pool)@.len() == 0 ==> r is Ok && final(worker_pool)@ == old(worker_pool)@,
        old(worker_pool)@.len() > 0 && !old(worker_pool)@.contains_key(worker_uid) ==> r
            == Err::<(), ThreadPoolError>(ThreadPoolError::LookupError) && final(worker_pool)@
            == old(worker_pool)@,
        old(worker_pool)@.contains_key(worker_uid) ==> r is Ok && load_set(
            old(worker_pool)@,
            final(worker_pool)@,
            worker_uid,
            (old(worker_pool)@[worker_uid].load() - 1) as nat,
        ),
{
    proof {
        worker_pool.lemma_size();
    }
    if worker_pool.is_empty() {
        return Ok(());
    }
    let mut pool_restored = false;
    match worker_pool.index_in_heap_from_uid(worker_uid) {
        Some(i) => {
            proof {
                worker_pool.lemma_keys_are_uids();
            }
            worker_pool.dec_load_at(i);
            pool_restored = true;
        },
        None => {},
    }
    if pool_restored {
        Ok(())
    } else {
        Err(ThreadPoolError::LookupError)
    }
}

/// `after` is `before` once the job has been scheduled to worker `u`: the
/// job was delivered to it as a request, its load went up by one, and nothing
/// else changed.
pub open spec fn job_scheduled<Req, Res>(
    before: Map<u64, Worker<Req, Res>>,
    after: Map<u64, Worker<Req, Res>>,
    u: u64,
    job: Job<Req, Res>,
) -> bool {
    &&& only_changed(before, after, u)
    &&& after[u].load() == before[u].load() + 1
    &&& after[u].sent() == before[u].sent().push(Message::Request(job))
    &&& after[u].notified() == before[u].notified()
}

/// Schedules a new job to the given worker pool by picking up the least
/// loaded worker and dispatching the job to it; that worker's load then goes
/// up by one.
///
/// An empty pool gives `WorkerUnavailable` and no worker is handed the job.
/// Otherwise the job is handed, as a request, to the least loaded worker and
/// to no other: delivered, the result is `Ok`; when that worker no longer
/// receives, the result is `JobSchedulingFailed` and the pool is left as it
/// is, the job delivered to no worker.
pub fn worker_pool_schedule_job<Req, Res>(
    worker_pool: &mut WorkerPool<Req, Res>,
    job: Job<Req, Res>,
) -> (r: Result<(), ThreadPoolError>)
    requires
        old(worker_pool).wf(),
        old(worker_pool)@.len() > 0 ==> exists|u: u64| #[trigger]
            old(worker_pool)@.contains_key(u) && old(worker_pool)@[u].load() < usize::MAX,
    ensures
        final(worker_pool).wf(),
        old(worker_pool)@.len() == 0 ==> r == Err::<(), ThreadPoolError>(
            ThreadPoolError::WorkerUnavailable,
        ) && final(worker_pool)@ == old(worker_pool)@,
        old(worker_pool)@.len() > 0 ==> least_loaded(old(worker_pool)@, old(worker_pool).heap()[0].id())
            && (r is Ok || r == Err::<(), ThreadPoolError>(ThreadPoolError::JobSchedulingFailed)),
        r is Ok ==> job_scheduled(
            old(worker_pool)@,
            final(worker_pool)@,
            old(worker_pool).heap()[0].id(),
            job,
        ),
        r == Err::<(), ThreadPoolError>(ThreadPoolError::JobSchedulingFailed)
            ==> final(worker_pool)@ == old(worker_pool)@,
        old(worker_pool)@.len() == 0 ==> final(worker_pool).tries() == old(worker_pool).tries(),
        old(worker_pool)@.len() > 0 ==> final(worker_pool).tries() == old(worker_pool).tries().push(
            (old(worker_pool).heap()[0].id(), Message::Request(job)),
        ),
{
    if worker_pool.is_empty() {
        return Err(ThreadPoolError::WorkerUnavailable);
    }
    proof {
        worker_pool.lemma_size();
        worker_pool.lemma_keys_are_uids();
    }
    let ghost before = *worker_pool;
    let ghost u = before.heap()[0].id();
    proof {
        let m = before@;
        let v = choose|v: u64| #[trigger] m.contains_key(v) && m[v].load() < usize::MAX;
        before.lemma_root_least_loaded();
        assert(m[u].load() <= m[v].load());
    }
    match worker_pool.dispatch_at(0, job) {
        Ok(()) => {},
        Err(_) => {
            return Err(ThreadPoolError::JobSchedulingFailed);
        },
    }
    let ghost delivered = *worker_pool;
    worker_pool.inc_load_at(0);
    proof {
        delivered.lemma_size();
        delivered.lemma_root_least_loaded();
        assert(worker_pool@.dom() =~= before@.dom());
    }
    Ok(())
}

/// Every worker taken out of the pool (`before` less `after`) but `failed`
/// got its terminate notice: `done` holds each of them as it was after the
/// notice. The `failed` one, if any, was taken out without one.
pub open spec fn notices_delivered<Req, Res>(
    before: Map<u64, Worker<Req, Res>>,
    after: Map<u64, Worker<Req, Res>>,
    done: Map<u64, Worker<Req, Res>>,
    failed: Option<u64>,
) -> bool {
    &&& forall|v: u64| #[trigger]
        done.contains_key(v) ==> before.contains_key(v) && !after.contains_key(v)
            && notice_delivered(before[v], done[v])
    &&& forall|v: u64| #[trigger]
        before.contains_key(v) ==> after.contains_key(v) || done.contains_key(v) || failed == Some(v)
    &&& failed matches Some(f) ==> before.contains_key(f) && !after.contains_key(f)
        && !done.contains_key(f)
}

/// The messages the pool handed out between `before_tries` and `after_tries`
/// are terminate notices, one for each worker taken out of the pool (from
/// `before` to `after`), and none for a worker that stayed.
pub open spec fn notices_handed<Req, Res>(
    before: Map<u64, Worker<Req, Res>>,
    after: Map<u64, Worker<Req, Res>>,
    before_tries: Seq<(u64, Message<Req, Res>)>,
    after_tries: Seq<(u64, Message<Req, Res>)>,
) -> bool {
    &&& before_tries.len() <= after_tries.len()
    &&& after_tries.subrange(0, before_tries.len() as int) == before_tries
    &&& forall|k: int|
        before_tries.len() <= k < after_tries.len() ==> #[trigger] after_tries[k].1
            == Message::<Req, Res>::Terminate && before.contains_key(after_tries[k].0)
            && !after.contains_key(after_tries[k].0)
    &&& forall|v: u64| #[trigger]
        before.contains_key(v) && !after.contains_key(v) ==> exists|k: int|
            before_tries.len() <= k < after_tries.len() && #[trigger] after_tries[k].0 == v
}

/// Terminates all workers in the given pool of workers by popping them out,
/// least loaded first, and sending each the terminate notice.
///
/// An empty pool gives `Ok` at once. Each worker taken out is handed its
/// notice, and no worker that stays is handed anything. On success the pool
/// is empty and every worker that was in it got its notice. When a worker no longer receives,
/// the result is `WorkerTermFailed`: that worker is gone without a notice,
/// those popped before it are gone with theirs, and the workers that stay are
/// the heaviest ones, untouched, each at least as loaded as every worker
/// taken out.
pub fn worker_pool_terminate<Req, Res>(worker_pool: &mut WorkerPool<Req, Res>) -> (r: Result<
    (),
    ThreadPoolError,
>)
    requires
        old(worker_pool).wf(),
    ensures
        final(worker_pool).wf(),
        final(worker_pool)@.submap_of(old(worker_pool)@),
        old(worker_pool)@.len() == 0 ==> r is Ok,
        r is Ok ==> final(worker_pool)@.len() == 0,
        r is Err ==> r == Err::<(), ThreadPoolError>(ThreadPoolError::WorkerTermFailed)
            && final(worker_pool)@.len() < old(worker_pool)@.len(),
        forall|u: u64, v: u64|
            #[trigger] final(worker_pool)@.contains_key(u) && #[trigger] old(worker_pool)@.contains_key(v)
                && !final(worker_pool)@.contains_key(v) ==> old(worker_pool)@[v].load()
                <= final(worker_pool)@[u].load(),
        exists|done: Map<u64, Worker<Req, Res>>, failed: Option<u64>|
            #[trigger] notices_delivered(old(worker_pool)@, final(worker_pool)@, done, failed)
                && (r is Ok <==> failed is None),
        notices_handed(
            old(worker_pool)@,
            final(worker_pool)@,
            old(worker_pool).tries(),
            final(worker_pool).tries(),
        ),
{
    let ghost mut done: Map<u64, Worker<Req, Res>> = Map::empty();
    proof {
        worker_pool.lemma_size();
        let t = worker_pool.tries();
        assert(t.subrange(0, t.len() as int) =~= t);
    }
    loop
        invariant
            worker_pool.wf(),
            worker_pool@.submap_of(old(worker_pool)@),
            worker_pool@.len() <= old(worker_pool)@.len(),
            worker_pool@.dom().finite(),
            forall|u: u64, v: u64|
                #[trigger] worker_pool@.contains_key(u) && #[trigger] old(worker_pool)@.contains_key(v)
                    && !worker_pool@.contains_key(v) ==> old(worker_pool)@[v].load()
                    <= worker_pool@[u].load(),
            notices_delivered(old(worker_pool)@, worker_pool@, done, None),
            notices_handed(
                old(worker_pool)@,
                worker_pool@,
                old(worker_pool).tries(),
                worker_pool.tries(),
            ),
        decreases worker_pool@.len(),
    {
        let ghost before = worker_pool@;
        let ghost before_tries = worker_pool.tries();
        match worker_pool.retire_least_loaded() {
            Some((worker, outcome)) => {
                proof {
                    let ot = old(worker_pool).tries();
                    let nt = worker_pool.tries();
                    assert(nt.subrange(0, ot.len() as int) =~= ot) by {
                        assert(before_tries.subrange(0, ot.len() as int) == ot);
                    }
                    assert forall|k: int|
                        ot.len() <= k < nt.len() implies #[trigger] nt[k].1
                        == Message::<Req, Res>::Terminate && old(worker_pool)@.contains_key(nt[k].0)
                        && !worker_pool@.contains_key(nt[k].0) by {
                        if k < before_tries.len() {
                            assert(before_tries[k] == nt[k]);
                        }
                    }
                    assert forall|v: u64| #[trigger]
                        old(worker_pool)@.contains_key(v) && !worker_pool@.contains_key(v) implies exists|k: int|
                        ot.len() <= k < nt.len() && #[trigger] nt[k].0 == v by {
                        if v == worker.id() {
                            assert(nt[nt.len() - 1].0 == v);
                        } else {
                            assert(!before.contains_key(v));
                            let k = choose|k: int| ot.len() <= k < before_tries.len() && #[trigger] before_tries[k].0 == v;
                            assert(nt[k] == before_tries[k]);
                        }
                    }
                    worker_pool.lemma_size();
                    assert(before.remove(worker.id()).len() == before.len() - 1);
                    assert forall|u: u64, v: u64|
                        #[trigger] worker_pool@.contains_key(u) && #[trigger] old(
                            worker_pool,
                        )@.contains_key(v) && !worker_pool@.contains_key(v) implies old(
                        worker_pool,
                    )@[v].load() <= worker_pool@[u].load() by {
                        assert(before.contains_key(u));
                        if v == worker.id() {
                            assert(before[u].load() >= before[v].load());
                        } else {
                            assert(!before.contains_key(v));
                        }
                    }
                }
                match outcome {
                    Ok(()) => {
                        proof {
                            assert(notices_delivered(
                                old(worker_pool)@,
                                worker_pool@,
                                done.insert(worker.id(), worker),
                                None,
                            ));
                            done = done.insert(worker.id(), worker);
                        }
                    },
                    Err(_) => {
                        proof {
                            assert(notices_delivered(
                                old(worker_pool)@,
                                worker_pool@,
                                done,
                                Some(worker.id()),
                            ));
                        }
                        return Err(ThreadPoolError::WorkerTermFailed);
                    },
                }
            },
            None => {
                proof {
                    assert(notices_delivered(old(worker_pool)@, worker_pool@, done, None));
                }
                return Ok(());
            },
        }
    }
}

/// No two workers of the map differ in load by more than `spread`.
pub open spec fn loads_within<Req, Res>(m: Map<u64, Worker<Req, Res>>, spread: nat) -> bool {
    forall|u: u64, v: u64|
        #[trigger] m.contains_key(u) && #[trigger] m.contains_key(v) ==> m[u].load() <= m[v].load()
            + spread
}

/// A worker reporting a finished job undoes the scheduling of that job on
/// the loads: the pool is back to the workers it had before, each with its
/// former load, and the one difference left is the request delivered.
pub proof fn lemma_done_undoes_schedule<Req, Res>(
    before: Map<u64, Worker<Req, Res>>,
    scheduled: Map<u64, Worker<Req, Res>>,
    after: Map<u64, Worker<Req, Res>>,
    u: u64,
    job: Job<Req, Res>,
)
    requires
        job_scheduled(before, scheduled, u, job),
        load_set(scheduled, after, u, (scheduled[u].load() - 1) as nat),
    ensures
        after.dom() == before.dom(),
        forall|v: u64| #[trigger] after.contains_key(v) && v != u ==> after[v] == before[v],
        after[u].load() == before[u].load(),
        after[u].id() == before[u].id(),
        after[u].channel() == before[u].channel(),
        after[u].notified() == before[u].notified(),
        after[u].sent() == before[u].sent().push(Message::Request(job)),
{
}

/// Dispatching to a least loaded worker never widens the gap between the
/// loads of the workers, once it is at least one: a pool whose loads differ by
/// at most `spread` still does after a job is scheduled.
pub proof fn lemma_schedule_keeps_balance<Req, Res>(
    before: Map<u64, Worker<Req, Res>>,
    after: Map<u64, Worker<Req, Res>>,
    u: u64,
    spread: nat,
)
    requires
        spread >= 1,
        loads_within(before, spread),
        least_loaded(before, u),
        only_changed(before, after, u),
        after[u].load() == before[u].load() + 1,
    ensures
        loads_within(after, spread),
{
    assert forall|a: u64, b: u64|
        #[trigger] after.contains_key(a) && #[trigger] after.contains_key(b) implies after[a].load()
        <= after[b].load() + spread by {
        assert(before.contains_key(a) && before.contains_key(b));
        if a == u && b != u {
            assert(before[u].load() <= before[b].load());
        }
    }
}

/// What happens to the pool between two looks at it.
pub enum PoolEvent {
    /// A job was dispatched to the worker with this uid.
    Scheduled(u64),
    /// The done notice of the worker with this uid was processed.
    Finished(u64),
    /// A scheduling or a done notice was refused and the pool left as it was.
    Refused,
}

/// How the loads of the pool change on one event, as `job_scheduled` (the
/// contract of `worker_pool_schedule_job`) and `load_set` (that of
/// `restore_worker_pool_order`) state it.
pub open spec fn pool_step<Req, Res>(
    before: Map<u64, Worker<Req, Res>>,
    after: Map<u64, Worker<Req, Res>>,
    e: PoolEvent,
) -> bool {
    match e {
        PoolEvent::Scheduled(u) => only_changed(before, after, u) && after[u].load()
            == before[u].load() + 1,
        PoolEvent::Finished(u) => only_changed(before, after, u) && before[u].load() > 0
            && after[u].load() == before[u].load() - 1,
        PoolEvent::Refused => after == before,
    }
}

/// How many of the events dispatched a job to worker `u`.
pub open spec fn scheduled_to(events: Seq<PoolEvent>, u: u64) -> int
    decreases events.len(),
{
    if events.len() == 0 {
        0
    } else {
        scheduled_to(events.drop_last(), u) + match events.last() {
            PoolEvent::Scheduled(v) => if v == u { 1int } else { 0int },
            _ => 0int,
        }
    }
}

/// How many of the events processed a done notice of worker `u`.
pub open spec fn finished_by(events: Seq<PoolEvent>, u: u64) -> int
    decreases events.len(),
{
    if events.len() == 0 {
        0
    } else {
        finished_by(events.drop_last(), u) + match events.last() {
            PoolEvent::Finished(v) => if v == u { 1int } else { 0int },
            _ => 0int,
        }
    }
}

/// The pending count of each worker is what it started with, plus the jobs
/// dispatched to it, minus its done notices processed; and the pool keeps the
/// same workers, each with its uid and queue, through any sequence of
/// schedulings and done notices. Every count stays at least zero on the way,
/// since a done notice is only processed for a worker with a pending job.
pub proof fn lemma_pending_accounting<Req, Res>(
    states: Seq<Map<u64, Worker<Req, Res>>>,
    events: Seq<PoolEvent>,
)
    requires
        states.len() == events.len() + 1,
        forall|i: int| 0 <= i < events.len() ==> #[trigger] pool_step(states[i], states[i + 1], events[i]),
    ensures
        states.last().dom() == states[0].dom(),
        forall|u: u64| #[trigger]
            states[0].contains_key(u) ==> states.last()[u].load() == states[0][u].load()
                + scheduled_to(events, u) - finished_by(events, u)
                && states.last()[u].id() == states[0][u].id()
                && states.last()[u].channel() == states[0][u].channel(),
    decreases events.len(),
{
    if events.len() > 0 {
        let n = events.len() - 1;
        let prev_states = states.drop_last();
        let prev_events = events.drop_last();
        assert forall|i: int| 0 <= i < prev_events.len() implies #[trigger] pool_step(
            prev_states[i],
            prev_states[i + 1],
            prev_events[i],
        ) by {
            assert(pool_step(states[i], states[i + 1], events[i]));
        }
        lemma_pending_accounting(prev_states, prev_events);
        assert(pool_step(states[n], states[n + 1], events[n]));
        assert(prev_states.last() == states[n]);
        assert(states.last() == states[n + 1]);
        assert(events.last() == events[n]);
    }
}

} // verus!
