use std::sync::mpsc::{channel, Receiver};

use sangfroid::message::Message;
use sangfroid::pool::WorkerPool;
use sangfroid::worker::Worker;

fn worker(uid: u64, load: usize) -> (Worker<u8, u8>, Receiver<Message<u8, u8>>) {
    let (tx, rx) = channel();
    let mut w = Worker::new(tx, uid);
    for _ in 0..load {
        w.inc_load();
    }
    (w, rx)
}

#[test]
fn pop_gives_workers_least_loaded_first() {
    let mut pool = WorkerPool::new();
    let mut queues = Vec::new();
    for (uid, load) in [(0u64, 5usize), (1, 2), (2, 9), (3, 0), (4, 2), (5, 7)] {
        let (w, rx) = worker(uid, load);
        pool.push(w);
        queues.push(rx);
    }
    assert_eq!(pool.len(), 6);
    assert_eq!(pool.peek().unwrap().pending(), 0);
    let mut loads = Vec::new();
    while let Some(w) = pool.pop() {
        loads.push(w.pending());
    }
    assert_eq!(loads, vec![0, 2, 2, 5, 7, 9]);
    assert!(pool.is_empty());
    assert!(pool.pop().is_none());
}

#[test]
fn lookup_by_uid() {
    let mut pool = WorkerPool::new();
    let mut queues = Vec::new();
    for uid in 0..5u64 {
        let (w, rx) = worker(uid, (uid * 3 % 4) as usize);
        pool.push(w);
        queues.push(rx);
    }
    for uid in 0..5u64 {
        let i = pool.index_in_heap_from_uid(uid).unwrap();
        assert_eq!(pool.get(i).unwrap().uid(), uid);
    }
    assert_eq!(pool.index_in_heap_from_uid(5), None);
    assert!(pool.get(5).is_none());
}

#[test]
fn load_changes_keep_the_least_loaded_on_top() {
    let (a, _qa) = worker(10, 1);
    let (b, _qb) = worker(11, 3);
    let (c, _qc) = worker(12, 4);
    let mut pool = WorkerPool::from_vec(vec![a, b, c]);
    assert_eq!(pool.peek().unwrap().uid(), 10);
    pool.inc_load_at(0);
    pool.inc_load_at(pool.index_in_heap_from_uid(10).unwrap());
    pool.inc_load_at(pool.index_in_heap_from_uid(10).unwrap());
    // Worker 10 now has 4 pending, worker 11 has 3.
    assert_eq!(pool.peek().unwrap().uid(), 11);
    let i = pool.index_in_heap_from_uid(12).unwrap();
    pool.dec_load_at(i);
    pool.dec_load_at(pool.index_in_heap_from_uid(12).unwrap());
    assert_eq!(pool.peek().unwrap().uid(), 12);
    assert_eq!(pool.peek().unwrap().pending(), 2);
}

#[test]
fn from_vec_keeps_every_worker() {
    let mut ws = Vec::new();
    let mut queues = Vec::new();
    for uid in 0..20u64 {
        let (w, rx) = worker(uid, ((uid * 7) % 5) as usize);
        ws.push(w);
        queues.push(rx);
    }
    let mut pool = WorkerPool::from_vec(ws);
    assert_eq!(pool.len(), 20);
    let mut last = 0;
    let mut seen = vec![false; 20];
    while let Some(w) = pool.pop() {
        assert!(w.pending() >= last);
        last = w.pending();
        assert_eq!(w.pending(), ((w.uid() * 7) % 5) as usize);
        seen[w.uid() as usize] = true;
    }
    assert!(seen.iter().all(|&s| s));
}

#[test]
fn for_queues_numbers_workers_by_queue() {
    let mut senders = Vec::new();
    let mut receivers = Vec::new();
    for _ in 0..6 {
        let (tx, rx) = channel::<Message<u8, u8>>();
        senders.push(tx);
        receivers.push(rx);
    }
    let mut pool = WorkerPool::for_queues(senders);
    assert_eq!(pool.len(), 6);
    for uid in 0..6u64 {
        let i = pool.index_in_heap_from_uid(uid).unwrap();
        let w = pool.get(i).unwrap();
        assert_eq!(w.uid(), uid);
        assert_eq!(w.pending(), 0);
    }
    // The worker with uid 4 receives on the fifth queue.
    let i = pool.index_in_heap_from_uid(4).unwrap();
    pool.dispatch_at(i, sangfroid::job::Job::new(|x: u8| x, 9)).unwrap();
    assert!(receivers[4].try_recv().is_ok());
    for (j, rx) in receivers.iter().enumerate() {
        if j != 4 {
            assert!(rx.try_recv().is_err());
        }
    }
}
