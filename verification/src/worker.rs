//! Workers in a threadpool.
//!
//! A worker is the dispatching end of a worker thread: its uid, the channel
//! on which it receives messages, and the number of jobs dispatched to it
//! that it has not yet reported done. The thread itself is spawned and joined
//! by the owner of the pool; [`serve_message`] is what that thread does with
//! each message it receives.

use vstd::prelude::*;

use std::sync::mpsc::Sender;

use crate::channel::Outbox;
use crate::job::Job;
use crate::message::Message;

verus! {

/// What can go wrong in a worker or while talking to one.
#[derive(Debug, Clone, Copy, PartialEq, Eq, Structural)]
pub enum WorkerError {
    DoneNotificationFailed,
    ResultResponseFailed,
    DispatchFailed,
    TermNoticeFailed,
    JoinFailed,
}

impl WorkerError {
    /// The human readable description of the error.
    pub fn describe(&self) -> (s: &'static str)
        ensures
            s@ == worker_error_text(*self)@,
    {
        match self {
            WorkerError::DoneNotificationFailed => "unable to signal completion",
            WorkerError::ResultResponseFailed => "unable to respond with result",
            WorkerError::DispatchFailed => "unable to dispatch job",
            WorkerError::TermNoticeFailed => "unable to send term signal",
            WorkerError::JoinFailed => "unable to join() on worker thread",
        }
    }
}

/// The text that describes each worker error.
pub open spec fn worker_error_text(e: WorkerError) -> &'static str {
    match e {
        WorkerError::DoneNotificationFailed => "unable to signal completion",
        WorkerError::ResultResponseFailed => "unable to respond with result",
        WorkerError::DispatchFailed => "unable to dispatch job",
        WorkerError::TermNoticeFailed => "unable to send term signal",
        WorkerError::JoinFailed => "unable to join() on worker thread",
    }
}

/// Worker represents a worker thread capable of receiving
/// and servicing jobs.
#[verifier::reject_recursive_types(Req)]
#[verifier::reject_recursive_types(Res)]
pub struct Worker<Req, Res> {
    uid: u64,
    disp_q: Outbox<Message<Req, Res>>,
    pending: usize,
    /// Whether the terminate notice has been sent.
    notice_sent: bool,
}

impl<Req, Res> Worker<Req, Res> {
    /// The worker's uid.
    pub closed spec fn id(&self) -> u64 {
        self.uid
    }

    /// The number of pending tasks of the worker.
    pub closed spec fn load(&self) -> nat {
        self.pending as nat
    }

    /// The channel end on which the worker thread receives its messages.
    pub closed spec fn channel(&self) -> Sender<Message<Req, Res>> {
        self.disp_q.endpoint()
    }

    /// The messages delivered to the worker thread so far, oldest first.
    pub closed spec fn sent(&self) -> Seq<Message<Req, Res>> {
        self.disp_q.sent()
    }

    /// Whether the worker has been sent its terminate notice.
    pub closed spec fn notified(&self) -> bool {
        self.notice_sent
    }

    /// A worker is determined by its uid, its channel, the messages sent to
    /// it, its load and whether it has been sent its terminate notice.
    pub proof fn lemma_same_worker(a: Self, b: Self)
        requires
            a.id() == b.id(),
            a.channel() == b.channel(),
            a.sent() == b.sent(),
            a.load() == b.load(),
            a.notified() == b.notified(),
        ensures
            a == b,
    {
        Outbox::lemma_same_outbox(a.disp_q, b.disp_q);
    }

    /// Creates a worker with the given uid that receives its messages on
    /// `disp_q`, with no pending tasks and nothing sent yet.
    pub fn new(disp_q: Sender<Message<Req, Res>>, uid: u64) -> (w: Self)
        ensures
            w.id() == uid,
            w.load() == 0,
            w.channel() == disp_q,
            w.sent() == Seq::<Message<Req, Res>>::empty(),
            !w.notified(),
    {
        Worker { uid, disp_q: Outbox::new(disp_q), pending: 0, notice_sent: false }
    }

    /// The worker's uid.
    pub fn uid(&self) -> (u: u64)
        ensures
            u == self.id(),
    {
        self.uid
    }

    /// The number of pending tasks of the worker.
    pub fn pending(&self) -> (n: usize)
        ensures
            n == self.load(),
    {
        self.pending
    }

    /// Increments pending tasks by 1.
    pub fn inc_load(&mut self)
        requires
            old(self).load() < usize::MAX,
        ensures
            final(self).load() == old(self).load() + 1,
            final(self).id() == old(self).id(),
            final(self).channel() == old(self).channel(),
            final(self).sent() == old(self).sent(),
            final(self).notified() == old(self).notified(),
    {
        self.pending = self.pending + 1;
    }

    /// Decrements pending tasks by 1.
    pub fn dec_load(&mut self)
        requires
            old(self).load() > 0,
        ensures
            final(self).load() == old(self).load() - 1,
            final(self).id() == old(self).id(),
            final(self).channel() == old(self).channel(),
            final(self).sent() == old(self).sent(),
            final(self).notified() == old(self).notified(),
    {
        self.pending = self.pending - 1;
    }

    /// Sends the job to the worker thread as a request. The load is not
    /// changed here.
    ///
    /// When the request is delivered, it is the one message added to what the
    /// worker was sent. When the worker thread no longer receives, the result
    /// is `DispatchFailed` and the worker is left as it is.
    pub fn dispatch(&mut self, job: Job<Req, Res>) -> (r: Result<(), WorkerError>)
        ensures
            r is Ok ==> final(self).sent() == old(self).sent().push(Message::Request(job)),
            r is Err ==> r == Err::<(), WorkerError>(WorkerError::DispatchFailed) && *final(self)
                == *old(self),
            final(self).id() == old(self).id(),
            final(self).channel() == old(self).channel(),
            final(self).load() == old(self).load(),
            final(self).notified() == old(self).notified(),
    {
        match self.disp_q.send(Message::Request(job)) {
            Ok(()) => Ok(()),
            Err(_) => Err(WorkerError::DispatchFailed),
        }
    }

    /// Sends the terminate notice to the worker thread, which then stops
    /// after the jobs already queued. Joining the thread is left to its owner.
    ///
    /// A worker that was already sent the notice is left as it is and the
    /// result is `Ok`: terminating twice is terminating once. Otherwise the
    /// notice is sent; on success it is the one message added to what the
    /// worker was sent and the worker is marked as notified, and when the
    /// worker thread no longer receives the result is `TermNoticeFailed` and
    /// the worker is left as it is.
    pub fn terminate(&mut self) -> (r: Result<(), WorkerError>)
        ensures
            old(self).notified() ==> r is Ok && *final(self) == *old(self),
            r is Ok ==> notice_delivered(*old(self), *final(self)),
            r is Err ==> r == Err::<(), WorkerError>(WorkerError::TermNoticeFailed) && *final(self)
                == *old(self),
            final(self).id() == old(self).id(),
            final(self).channel() == old(self).channel(),
            final(self).load() == old(self).load(),
    {
        if self.notice_sent {
            return Ok(());
        }
        match self.disp_q.send(Message::Terminate) {
            Ok(()) => {
                self.notice_sent = true;
                Ok(())
            },
            Err(_) => Err(WorkerError::TermNoticeFailed),
        }
    }
}

/// `after` is `before` once it has its terminate notice: the same uid,
/// channel and load, notified, and with the notice added to what it was sent
/// unless it had been sent one before.
pub open spec fn notice_delivered<Req, Res>(before: Worker<Req, Res>, after: Worker<Req, Res>) -> bool {
    &&& after.id() == before.id()
    &&& after.channel() == before.channel()
    &&& after.load() == before.load()
    &&& after.notified()
    &&& after.sent() == if before.notified() {
        before.sent()
    } else {
        before.sent().push(Message::Terminate)
    }
}

/// `after` is what `before` can become by `inc_load`, `dec_load`,
/// `dispatch` or `terminate`: each keeps the uid and the channel.
pub open spec fn same_identity<Req, Res>(before: Worker<Req, Res>, after: Worker<Req, Res>) -> bool {
    after.id() == before.id() && after.channel() == before.channel()
}

/// A worker keeps the uid it was created with through any sequence of
/// `inc_load`, `dec_load`, `dispatch` and `terminate` calls: in a sequence of workers where
/// each is what the one before became by one of them, the last has the uid of
/// the first.
pub proof fn lemma_uid_kept<Req, Res>(history: Seq<Worker<Req, Res>>)
    requires
        history.len() > 0,
        forall|i: int|
            0 <= i < history.len() - 1 ==> #[trigger] same_identity(history[i], history[i + 1]),
    ensures
        history.last().id() == history[0].id(),
        history.last().channel() == history[0].channel(),
    decreases history.len(),
{
    if history.len() > 1 {
        let rest = history.drop_last();
        assert forall|i: int| 0 <= i < rest.len() - 1 implies #[trigger] same_identity(
            rest[i],
            rest[i + 1],
        ) by {
            assert(same_identity(history[i], history[i + 1]));
        }
        lemma_uid_kept(rest);
        let j = history.len() - 2;
        assert(same_identity(history[j], history[j + 1]));
        assert(history.last() == history[j + 1]);
        assert(rest.last() == history[j]);
    }
}

/// Whether a worker thread goes on receiving after a message.
pub open spec fn keeps_serving<Req, Res>(msg: Message<Req, Res>) -> bool {
    msg is Request
}

/// What a worker thread with the given uid does with one received message.
///
/// A request is executed (its task must admit its request) and its result
/// sent to the job's result sink, after which `Some(uid)` is sent on `done`
/// so that the balancer lowers the worker's load; the result is then
/// `Ok(true)`: keep receiving. A terminate notice gives `Ok(false)`: stop.
/// Failing to answer on the result sink gives `ResultResponseFailed` and no
/// done notice; failing to send the done notice gives
/// `DoneNotificationFailed`.
pub fn serve_message<Req, Res>(
    msg: Message<Req, Res>,
    done: &mut Outbox<Option<u64>>,
    uid: u64,
) -> (r: Result<bool, WorkerError>)
    requires
        msg matches Message::Request(job) ==> job.runnable(),
    ensures
        final(done).endpoint() == old(done).endpoint(),
        r is Ok ==> r == Ok::<bool, WorkerError>(keeps_serving(msg)),
        r == Ok::<bool, WorkerError>(true) ==> final(done).sent() == old(done).sent().push(
            Some(uid),
        ),
        r != Ok::<bool, WorkerError>(true) ==> *final(done) == *old(done),
        msg is Terminate ==> r == Ok::<bool, WorkerError>(false),
        r is Err ==> msg is Request && (r == Err::<bool, WorkerError>(
            WorkerError::ResultResponseFailed,
        ) || r == Err::<bool, WorkerError>(WorkerError::DoneNotificationFailed)),
        (msg matches Message::Request(job) && !job.has_result_sink()) ==> r != Err::<bool, WorkerError>(
            WorkerError::ResultResponseFailed,
        ),
{
    match msg {
        Message::Request(job) => {
            match job.resp_with_result() {
                Ok(()) => {},
                Err(_) => {
                    return Err(WorkerError::ResultResponseFailed);
                },
            }
            match done.send(Some(uid)) {
                Ok(()) => Ok(true),
                Err(_) => Err(WorkerError::DoneNotificationFailed),
            }
        },
        Message::Terminate => Ok(false),
    }
}

} // verus!
