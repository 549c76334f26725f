//! Message entity for communicating with workers.

use vstd::prelude::*;

use crate::job::Job;

verus! {

/// Message represents a message to be sent to workers
/// in a threadpool.
#[verifier::reject_recursive_types(Req)]
#[verifier::reject_recursive_types(Res)]
pub enum Message<Req, Res> {
    /// Request for job execution
    Request(Job<Req, Res>),
    /// Message the thread to terminate itself.
    Terminate,
}

} // verus!
