//! Jobs to be dispatched and executed.

use vstd::prelude::*;

use std::sync::mpsc::{Receiver, SendError, Sender};

use crate::channel::{new_channel, send_value};

verus! {

/// The work that a job carries: a closure from a request to a result.
///
/// Every `FnMut(Req) -> Res + Send` closure is a task.
pub trait Task<Req, Res>: Send {
    /// Whether the task may be run on `req`.
    spec fn admits(&self, req: Req) -> bool;

    /// Whether `res` is a result the task may give on `req`.
    spec fn produces(&self, req: Req, res: Res) -> bool;

    /// Runs the task on the request.
    fn run(&mut self, req: Req) -> (res: Res)
        requires
            old(self).admits(req),
        ensures
            old(self).produces(req, res);
}

/// Calls a closure supplied by the user of the pool, once, with `req`, which
/// the closure must admit by its own `requires`. What is claimed is that the
/// value returned meets the closure's `ensures` on `req` (as the closure was
/// before the call). The state the closure keeps between calls is left
/// unsaid.
#[verifier::external_body]
fn call_closure<Req, Res, F>(f: &mut F, req: Req) -> (res: Res) where F: FnMut(Req) -> Res
    requires
        call_requires(*old(f), (req,)),
    ensures
        call_ensures(*old(f), (req,), res),
{
    f(req)
}

impl<Req, Res, F> Task<Req, Res> for F where F: FnMut(Req) -> Res + Send {
    open spec fn admits(&self, req: Req) -> bool {
        call_requires(*self, (req,))
    }

    open spec fn produces(&self, req: Req, res: Res) -> bool {
        call_ensures(*self, (req,), res)
    }

    /// Calls the closure with the request; the result is what the closure
    /// returns on it.
    fn run(&mut self, req: Req) -> (res: Res) {
        call_closure(self, req)
    }
}

/// Represents a job to be submitted to the threadpool.
#[verifier::reject_recursive_types(Req)]
#[verifier::reject_recursive_types(Res)]
pub struct Job<Req, Res> {
    /// Task to be executed
    task: Box<dyn Task<Req, Res>>,
    /// request to service i.e args for task
    req: Req,
    /// Optional result channel to send the result of the execution
    result_sink: Option<Sender<Res>>,
}

impl<Req, Res> Job<Req, Res> {
    /// The request that the task will be called with.
    pub closed spec fn request(&self) -> Req {
        self.req
    }

    /// Whether the job answers with its result on a channel.
    pub closed spec fn has_result_sink(&self) -> bool {
        self.result_sink is Some
    }

    /// Whether the job's task may be run on `req`.
    pub closed spec fn admits(&self, req: Req) -> bool {
        self.task.admits(req)
    }

    /// Whether `res` is a result the job's task may give on `req`.
    pub closed spec fn produces(&self, req: Req, res: Res) -> bool {
        self.task.produces(req, res)
    }

    /// Whether the job's task may be run on the job's own request.
    pub open spec fn runnable(&self) -> bool {
        self.admits(self.request())
    }

    /// Creates a new job from a closure and Req arguments to be processed.
    pub fn new<F>(f: F, req: Req) -> (job: Self)
        where F: FnMut(Req) -> Res + Send + 'static,
        ensures
            job.request() == req,
            !job.has_result_sink(),
            forall|r: Req| #[trigger] job.admits(r) == call_requires(f, (r,)),
            forall|r: Req, res: Res| #[trigger] job.produces(r, res) == call_ensures(f, (r,), res),
    {
        Job { task: Box::new(f), req, result_sink: None }
    }

    /// Creates a new job like `::new()` with a result sink for responding
    /// the result computed.
    pub fn with_result_sink<F>(f: F, req: Req) -> (out: (Self, Receiver<Res>))
        where F: FnMut(Req) -> Res + Send + 'static,
        ensures
            out.0.request() == req,
            out.0.has_result_sink(),
            forall|r: Req| #[trigger] out.0.admits(r) == call_requires(f, (r,)),
            forall|r: Req, res: Res| #[trigger] out.0.produces(r, res) == call_ensures(f, (r,), res),
    {
        let (tx, rx) = new_channel::<Res>();
        (Job { task: Box::new(f), req, result_sink: Some(tx) }, rx)
    }

    /// Consumes this job and responds with the result computed.
    ///
    /// The task must admit the request. A job without a result sink always
    /// succeeds; a job with one fails exactly when the result cannot be
    /// delivered on its channel.
    pub fn resp_with_result(self) -> (r: Result<(), SendError<Res>>)
        requires
            self.runnable(),
        ensures
            !self.has_result_sink() ==> r is Ok,
    {
        let Job { task, req, result_sink } = self;
        let mut task = task;
        let result = task.run(req);
        match result_sink {
            Some(sender) => send_value(&sender, result),
            None => Ok(()),
        }
    }
}

} // verus!
