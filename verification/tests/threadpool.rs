use std::collections::HashMap;
use std::sync::mpsc::{channel, Receiver};
use std::sync::{Arc, RwLock};

use sangfroid::channel::Outbox;
use sangfroid::job::Job;
use sangfroid::message::Message;
use sangfroid::pool::WorkerPool;
use sangfroid::threadpool::{
    restore_worker_pool_order, worker_pool_schedule_job, worker_pool_terminate, ThreadPoolError,
};
use sangfroid::worker::serve_message;

/// A pool of workers whose threads are played, one message at a time, by the
/// test itself: each worker's queue is drained and the done notices are fed
/// back to the pool as the balancer does.
struct Harness<Req, Res> {
    pool: WorkerPool<Req, Res>,
    queues: Vec<Receiver<Message<Req, Res>>>,
    done_tx: Outbox<Option<u64>>,
    done_rx: Receiver<Option<u64>>,
}

impl<Req, Res> Harness<Req, Res> {
    fn new(workers: usize) -> Self {
        let (done_tx, done_rx) = channel::<Option<u64>>();
        let mut senders = Vec::new();
        let mut queues = Vec::new();
        for _ in 0..workers {
            let (wtx, wrx) = channel::<Message<Req, Res>>();
            senders.push(wtx);
            queues.push(wrx);
        }
        Harness {
            pool: WorkerPool::for_queues(senders),
            queues,
            done_tx: Outbox::new(done_tx),
            done_rx,
        }
    }

    /// Runs every queued message on the worker it was sent to, then lowers
    /// the loads for each finished job. Returns how many jobs ran per worker.
    fn run_workers(&mut self) -> Vec<usize> {
        let mut ran = vec![0; self.queues.len()];
        for (uid, queue) in self.queues.iter().enumerate() {
            while let Ok(msg) = queue.try_recv() {
                if serve_message(msg, &mut self.done_tx, uid as u64).expect("worker failed") {
                    ran[uid] += 1;
                }
            }
        }
        while let Ok(Some(uid)) = self.done_rx.try_recv() {
            restore_worker_pool_order(&mut self.pool, uid).expect("balancing failed");
        }
        ran
    }

    fn loads(&self) -> Vec<usize> {
        let mut loads = vec![0; self.queues.len()];
        for i in 0..self.pool.len() {
            let w = self.pool.get(i).unwrap();
            loads[w.uid() as usize] = w.pending();
        }
        loads
    }
}

#[test]
fn thread_pool_new_and_terminate() {
    let mut h = Harness::<(), ()>::new(0);
    assert_eq!(worker_pool_terminate(&mut h.pool), Ok(()));

    let mut h = Harness::<(), ()>::new(10);
    assert_eq!(h.pool.len(), 10);
    assert_eq!(worker_pool_terminate(&mut h.pool), Ok(()));
    assert!(h.pool.is_empty());
    for queue in &h.queues {
        assert!(matches!(queue.try_recv(), Ok(Message::Terminate)));
    }
}

#[test]
fn empty_thread_pool_schedule_job() {
    let mut h = Harness::<(), ()>::new(0);
    let job = Job::new(|()| (), ());
    match worker_pool_schedule_job(&mut h.pool, job) {
        Err(ThreadPoolError::WorkerUnavailable) => {}
        _ => assert!(false),
    }
}

#[test]
fn thread_pool_schedule_jobs() {
    let mut h = Harness::<u8, u8>::new(1);

    let (job, result_src) = Job::with_result_sink(|x| x * 2, 2);
    worker_pool_schedule_job(&mut h.pool, job).expect("job not scheduled");
    h.run_workers();
    assert_eq!(result_src.recv().unwrap(), 4);

    let (job, result_src) = Job::with_result_sink(|x| x * 3, 2);
    worker_pool_schedule_job(&mut h.pool, job).expect("job not scheduled");
    h.run_workers();
    assert_eq!(result_src.recv().unwrap(), 6);

    let (job, result_src) = Job::with_result_sink(|x| x * 4, 2);
    worker_pool_schedule_job(&mut h.pool, job).expect("job not scheduled");
    h.run_workers();
    assert_eq!(result_src.recv().unwrap(), 8);

    let (job, result_src) = Job::with_result_sink(|x| x * 5, 2);
    worker_pool_schedule_job(&mut h.pool, job).expect("job not scheduled");
    h.run_workers();
    assert_eq!(result_src.recv().unwrap(), 10);

    // --

    let mut h = Harness::<u8, u8>::new(2);

    let (job, result_src) = Job::with_result_sink(|x| x * 2, 2);
    worker_pool_schedule_job(&mut h.pool, job).expect("job not scheduled");
    h.run_workers();
    assert_eq!(result_src.recv().unwrap(), 4);

    let (job, result_src) = Job::with_result_sink(|x| x * 2, 2);
    worker_pool_schedule_job(&mut h.pool, job).expect("job not scheduled");
    h.run_workers();
    assert_eq!(result_src.recv().unwrap(), 4);

    let (job, result_src) = Job::with_result_sink(|x| x * 3, 2);
    worker_pool_schedule_job(&mut h.pool, job).expect("job not scheduled");
    h.run_workers();
    assert_eq!(result_src.recv().unwrap(), 6);

    let (job, result_src) = Job::with_result_sink(|x| x * 4, 2);
    worker_pool_schedule_job(&mut h.pool, job).expect("job not scheduled");
    h.run_workers();
    assert_eq!(result_src.recv().unwrap(), 8);

    let (job, result_src) = Job::with_result_sink(|x| x * 4, 2);
    worker_pool_schedule_job(&mut h.pool, job).expect("job not scheduled");
    h.run_workers();
    assert_eq!(result_src.recv().unwrap(), 8);

    let (job, result_src) = Job::with_result_sink(|x| x * 5, 2);
    worker_pool_schedule_job(&mut h.pool, job).expect("job not scheduled");
    h.run_workers();
    assert_eq!(result_src.recv().unwrap(), 10);
}

#[test]
fn threadpool_schedule_jobs_with_shared_resource() {
    let shared_hashmap = Arc::new(RwLock::new(HashMap::<u8, u8>::new()));
    const PLACE_HOLDER: u8 = 5;

    assert_eq!(shared_hashmap.read().unwrap().get(&1), None);
    assert_eq!(shared_hashmap.read().unwrap().get(&7), None);

    let mut h = Harness::<((u8, u8), Arc<RwLock<HashMap<u8, u8>>>), ()>::new(2);

    let job = Job::new(
        |((key, value), shared_map): ((u8, u8), Arc<RwLock<HashMap<u8, u8>>>)| {
            shared_map.write().unwrap().insert(key, value);
        },
        ((1, 2), Arc::clone(&shared_hashmap)),
    );
    worker_pool_schedule_job(&mut h.pool, job).expect("job not scheduled");

    let job = Job::new(
        |((key, _), shared_map): ((u8, u8), Arc<RwLock<HashMap<u8, u8>>>)| {
            shared_map.read().unwrap().get(&key);
        },
        ((1, PLACE_HOLDER), Arc::clone(&shared_hashmap)),
    );
    worker_pool_schedule_job(&mut h.pool, job).expect("job not scheduled");

    let job = Job::new(
        |((key, value), shared_map): ((u8, u8), Arc<RwLock<HashMap<u8, u8>>>)| {
            shared_map.write().unwrap().insert(key, value);
        },
        ((7, 8), Arc::clone(&shared_hashmap)),
    );
    worker_pool_schedule_job(&mut h.pool, job).expect("job not scheduled");

    let job = Job::new(
        |((key, _), shared_map): ((u8, u8), Arc<RwLock<HashMap<u8, u8>>>)| {
            shared_map.read().unwrap().get(&key);
        },
        ((5, PLACE_HOLDER), Arc::clone(&shared_hashmap)),
    );
    worker_pool_schedule_job(&mut h.pool, job).expect("job not scheduled");

    h.run_workers();

    assert_eq!(shared_hashmap.read().unwrap().get(&1), Some(&2));
    assert_eq!(shared_hashmap.read().unwrap().get(&7), Some(&8));
}

#[test]
fn schedule_goes_to_least_loaded_worker() {
    let mut h = Harness::<u8, u8>::new(3);
    for _ in 0..7 {
        worker_pool_schedule_job(&mut h.pool, Job::new(|x| x, 0)).expect("job not scheduled");
    }
    // Seven jobs over three idle workers: loads 3, 2, 2 in some order.
    let mut loads = h.loads();
    loads.sort();
    assert_eq!(loads, vec![2, 2, 3]);
    let ran = h.run_workers();
    assert_eq!(ran.iter().sum::<usize>(), 7);
    assert_eq!(h.loads(), vec![0, 0, 0]);
}

#[test]
fn schedule_prefers_worker_with_fewer_pending_jobs() {
    let mut h = Harness::<u8, u8>::new(2);
    worker_pool_schedule_job(&mut h.pool, Job::new(|x| x, 0)).unwrap();
    worker_pool_schedule_job(&mut h.pool, Job::new(|x| x, 0)).unwrap();
    assert_eq!(h.loads(), vec![1, 1]);
    // Worker 1 finishes its job: the next job must go to it.
    while let Ok(msg) = h.queues[1].try_recv() {
        serve_message(msg, &mut h.done_tx, 1).unwrap();
    }
    let uid = h.done_rx.recv().unwrap().unwrap();
    assert_eq!(uid, 1);
    restore_worker_pool_order(&mut h.pool, uid).unwrap();
    assert_eq!(h.loads(), vec![1, 0]);
    worker_pool_schedule_job(&mut h.pool, Job::new(|x| x, 0)).unwrap();
    assert_eq!(h.loads(), vec![1, 1]);
    assert!(h.queues[1].try_recv().is_ok());
    assert!(h.queues[0].try_recv().is_ok());
    assert!(h.queues[0].try_recv().is_err());
}

#[test]
fn done_undoes_schedule() {
    let mut h = Harness::<u8, u8>::new(4);
    worker_pool_schedule_job(&mut h.pool, Job::new(|x| x, 0)).unwrap();
    let before = h.loads();
    worker_pool_schedule_job(&mut h.pool, Job::new(|x| x, 0)).unwrap();
    let uid = (0..4).find(|&u| h.loads()[u] != before[u]).unwrap();
    restore_worker_pool_order(&mut h.pool, uid as u64).unwrap();
    assert_eq!(h.loads(), before);
}

#[test]
fn restore_on_empty_pool_is_ok() {
    let mut h = Harness::<u8, u8>::new(0);
    assert_eq!(restore_worker_pool_order(&mut h.pool, 3), Ok(()));
}

#[test]
fn restore_unknown_uid_is_lookup_error() {
    let mut h = Harness::<u8, u8>::new(2);
    worker_pool_schedule_job(&mut h.pool, Job::new(|x| x, 0)).unwrap();
    let before = h.loads();
    assert_eq!(restore_worker_pool_order(&mut h.pool, 9), Err(ThreadPoolError::LookupError));
    assert_eq!(h.loads(), before);
}

#[test]
fn schedule_to_dead_worker_fails_and_keeps_loads() {
    let mut h = Harness::<u8, u8>::new(1);
    h.queues.clear();
    assert_eq!(
        worker_pool_schedule_job(&mut h.pool, Job::new(|x| x, 0)),
        Err(ThreadPoolError::JobSchedulingFailed)
    );
    assert_eq!(h.pool.get(0).unwrap().pending(), 0);
}

#[test]
fn terminate_dead_worker_fails() {
    let mut h = Harness::<u8, u8>::new(1);
    h.queues.clear();
    assert_eq!(worker_pool_terminate(&mut h.pool), Err(ThreadPoolError::WorkerTermFailed));
}

#[test]
fn accounting_over_a_run_of_schedules_and_done_notices() {
    let mut h = Harness::<u8, u8>::new(3);
    let mut dispatched = vec![0usize; 3];
    let mut finished = vec![0usize; 3];
    for round in 0..5 {
        for _ in 0..(round + 2) {
            let before = h.loads();
            worker_pool_schedule_job(&mut h.pool, Job::new(|x| x, 0)).unwrap();
            let after = h.loads();
            let u = (0..3).find(|&u| after[u] != before[u]).unwrap();
            dispatched[u] += 1;
        }
        // Only the worker with uid `round % 3` runs its jobs this round.
        let w = round % 3;
        while let Ok(msg) = h.queues[w].try_recv() {
            serve_message(msg, &mut h.done_tx, w as u64).unwrap();
        }
        while let Ok(Some(uid)) = h.done_rx.try_recv() {
            restore_worker_pool_order(&mut h.pool, uid).unwrap();
            finished[uid as usize] += 1;
        }
        let loads = h.loads();
        for u in 0..3 {
            assert_eq!(loads[u], dispatched[u] - finished[u]);
        }
    }
}

#[test]
fn thread_pool_error_descriptions() {
    assert_eq!(ThreadPoolError::LockError.describe(), "unable to acquire lock on thread pool");
    assert_eq!(ThreadPoolError::LookupError.describe(), "unable to look up worker");
    assert_eq!(ThreadPoolError::WorkerUnavailable.describe(), "worker unavailable");
    assert_eq!(ThreadPoolError::JobSchedulingFailed.describe(), "unable to schedule job");
    assert_eq!(
        ThreadPoolError::TermNoticeFailed.describe(),
        "failed to send term notice to balancer thread"
    );
    assert_eq!(ThreadPoolError::JoinFailed.describe(), "join() on balancer thread failed");
    assert_eq!(ThreadPoolError::WorkerTermFailed.describe(), "failed to terminate worker");
}

#[test]
fn terminate_failure_keeps_the_heavier_workers() {
    let mut h = Harness::<u8, u8>::new(3);
    // Loads 1, 1, 0 after two jobs; the idle worker is popped first.
    worker_pool_schedule_job(&mut h.pool, Job::new(|x| x, 0)).unwrap();
    worker_pool_schedule_job(&mut h.pool, Job::new(|x| x, 0)).unwrap();
    let idle = h.loads().iter().position(|&l| l == 0).unwrap();
    // The idle worker's thread is gone: its queue's receiving end is dropped.
    h.queues[idle] = channel::<Message<u8, u8>>().1;
    assert_eq!(worker_pool_terminate(&mut h.pool), Err(ThreadPoolError::WorkerTermFailed));
    assert_eq!(h.pool.len(), 2);
    assert_eq!(h.pool.index_in_heap_from_uid(idle as u64), None);
    assert_eq!(h.pool.peek().unwrap().pending(), 1);
}
