//! Fault injection for Commit traffic: which requests and responses a
//! simulated network drops.
use vstd::prelude::*;

use crate::msg::{CommitError, CommitRequest};

verus! {

/// The faults to inject into Commit calls.
#[derive(Debug, Default, Clone, Copy)]
pub struct CommitHooks {
    /// Drop Commit requests of secondary keys (of every key with `fail_primary`).
    pub drop_req: bool,
    /// Drop every Commit response.
    pub drop_resp: bool,
    /// Extend `drop_req` to the primary key.
    pub fail_primary: bool,
}

impl CommitHooks {
    /// Whether a Commit request is delivered.
    pub fn hook_req(&self, req: &CommitRequest) -> (deliver: bool)
        ensures
            deliver == !(self.drop_req && (!req.is_primary || self.fail_primary)),
    {
        if self.drop_req {
            if !req.is_primary || self.fail_primary {
                return false;
            }
        }
        true
    }

    /// Whether a Commit response is delivered.
    pub fn hook_rsp(&self, _rsp: &Result<(), CommitError>) -> (deliver: bool)
        ensures
            deliver == !self.drop_resp,
    {
        !self.drop_resp
    }
}

} // verus!
