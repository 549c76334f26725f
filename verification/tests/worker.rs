use std::sync::mpsc::{channel, Receiver};

use sangfroid::channel::Outbox;
use sangfroid::job::Job;
use sangfroid::message::Message;
use sangfroid::worker::{serve_message, Worker, WorkerError};

/// Serves every message waiting on `jobs` the way a worker thread with the
/// given uid does, and returns how many requests it served.
fn serve_waiting<Req, Res>(jobs: &Receiver<Message<Req, Res>>, done: &mut Outbox<Option<u64>>, uid: u64) -> usize {
    let mut served = 0;
    while let Ok(msg) = jobs.try_recv() {
        match serve_message(msg, done, uid) {
            Ok(true) => served += 1,
            Ok(false) => break,
            Err(e) => panic!("worker failed: {:?}", e),
        }
    }
    served
}

#[test]
fn worker_new() {
    let (disp_q, _jobs) = channel::<Message<(), ()>>();
    let worker = Worker::new(disp_q, 0);
    assert_eq!(worker.uid(), 0);
    assert_eq!(worker.pending(), 0);
}

#[test]
fn worker_task() {
    let (disp_q, jobs) = channel::<Message<u8, u8>>();
    let (done_tx, receiver) = channel::<Option<u64>>();
    let mut done = Outbox::new(done_tx);

    let mut worker = Worker::new(disp_q.clone(), 1);

    let (job, result_src) = Job::with_result_sink(|x: u8| x, 1);
    worker.dispatch(job).expect("message not sent!");
    assert_eq!(serve_waiting(&jobs, &mut done, worker.uid()), 1);

    assert_eq!(result_src.recv().unwrap(), 1);
    assert_eq!(receiver.recv().unwrap(), Some(1));
}

#[test]
fn worker_multiple_tasks() {
    let (disp_q, jobs) = channel::<Message<(u8, u8), u8>>();
    let (done_tx, _receiver) = channel::<Option<u64>>();
    let mut done = Outbox::new(done_tx);

    let mut worker = Worker::new(disp_q.clone(), 1);

    let (job, result_src) =
        Job::with_result_sink(|(operand1, operand2): (u8, u8)| operand1 + operand2, (2, 2));
    disp_q.send(Message::Request(job)).expect("message not sent!");
    serve_waiting(&jobs, &mut done, worker.uid());
    assert_eq!(result_src.recv().unwrap(), 4);

    let (job, result_src) =
        Job::with_result_sink(|(operand1, operand2): (u8, u8)| operand1 - operand2, (2, 2));
    disp_q.send(Message::Request(job)).expect("message not sent!");
    serve_waiting(&jobs, &mut done, worker.uid());
    assert_eq!(result_src.recv().unwrap(), 0);

    let (job, result_src) =
        Job::with_result_sink(|(operand1, operand2): (u8, u8)| operand1 * operand2, (2, 2));
    disp_q.send(Message::Request(job)).expect("message not sent!");
    serve_waiting(&jobs, &mut done, worker.uid());
    assert_eq!(result_src.recv().unwrap(), 4);

    let (job, result_src) =
        Job::with_result_sink(|(operand1, operand2): (u8, u8)| operand1 / operand2, (2, 2));
    disp_q.send(Message::Request(job)).expect("message not sent!");
    serve_waiting(&jobs, &mut done, worker.uid());
    assert_eq!(result_src.recv().unwrap(), 1);
}

#[test]
fn worker_load_counts() {
    let (disp_q, _jobs) = channel::<Message<(), ()>>();
    let mut worker = Worker::new(disp_q, 7);
    worker.inc_load();
    worker.inc_load();
    assert_eq!(worker.pending(), 2);
    worker.dec_load();
    assert_eq!(worker.pending(), 1);
    assert_eq!(worker.uid(), 7);
}

#[test]
fn serve_terminate_stops() {
    let (done_tx, receiver) = channel::<Option<u64>>();
    let mut done = Outbox::new(done_tx);
    let msg: Message<u8, u8> = Message::Terminate;
    assert_eq!(serve_message(msg, &mut done, 3), Ok(false));
    assert!(receiver.try_recv().is_err());
}

#[test]
fn serve_request_without_sink_notifies_done() {
    let (done_tx, receiver) = channel::<Option<u64>>();
    let mut done = Outbox::new(done_tx);
    let job = Job::new(|x: u8| x + 1, 1);
    assert_eq!(serve_message(Message::Request(job), &mut done, 5), Ok(true));
    assert_eq!(receiver.recv().unwrap(), Some(5));
}

#[test]
fn serve_result_response_failed() {
    let (done_tx, receiver) = channel::<Option<u64>>();
    let mut done = Outbox::new(done_tx);
    let (job, result_src) = Job::with_result_sink(|x: u8| x, 1);
    drop(result_src);
    assert_eq!(
        serve_message(Message::Request(job), &mut done, 5),
        Err(WorkerError::ResultResponseFailed)
    );
    assert!(receiver.try_recv().is_err());
}

#[test]
fn serve_done_notification_failed() {
    let (done_tx, receiver) = channel::<Option<u64>>();
    let mut done = Outbox::new(done_tx);
    drop(receiver);
    let job = Job::new(|x: u8| x, 1);
    assert_eq!(
        serve_message(Message::Request(job), &mut done, 5),
        Err(WorkerError::DoneNotificationFailed)
    );
}

#[test]
fn dispatch_and_terminate_fail_without_receiver() {
    let (disp_q, jobs) = channel::<Message<u8, u8>>();
    drop(jobs);
    let mut worker = Worker::new(disp_q, 2);
    assert_eq!(worker.dispatch(Job::new(|x: u8| x, 1)), Err(WorkerError::DispatchFailed));
    assert_eq!(worker.terminate(), Err(WorkerError::TermNoticeFailed));
}

#[test]
fn worker_terminate_sends_notice() {
    let (disp_q, jobs) = channel::<Message<u8, u8>>();
    let mut worker = Worker::new(disp_q, 2);
    assert_eq!(worker.terminate(), Ok(()));
    assert!(matches!(jobs.recv().unwrap(), Message::Terminate));
}

#[test]
fn worker_terminate_twice_sends_one_notice() {
    let (disp_q, jobs) = channel::<Message<u8, u8>>();
    let mut worker = Worker::new(disp_q, 2);
    assert_eq!(worker.terminate(), Ok(()));
    assert_eq!(worker.terminate(), Ok(()));
    assert!(matches!(jobs.try_recv(), Ok(Message::Terminate)));
    assert!(jobs.try_recv().is_err());
    drop(jobs);
    // The thread is gone now; terminating again still succeeds.
    assert_eq!(worker.terminate(), Ok(()));
    assert_eq!(worker.uid(), 2);
}

#[test]
fn worker_error_descriptions() {
    assert_eq!(WorkerError::DoneNotificationFailed.describe(), "unable to signal completion");
    assert_eq!(WorkerError::ResultResponseFailed.describe(), "unable to respond with result");
    assert_eq!(WorkerError::DispatchFailed.describe(), "unable to dispatch job");
    assert_eq!(WorkerError::TermNoticeFailed.describe(), "unable to send term signal");
    assert_eq!(WorkerError::JoinFailed.describe(), "unable to join() on worker thread");
}
