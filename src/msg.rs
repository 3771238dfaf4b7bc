//! Requests and responses exchanged with the timestamp oracle and the
//! transaction server.
use vstd::prelude::*;

verus! {

#[derive(Debug, Clone, PartialEq, Eq)]
pub struct TimestampRequest {}

#[derive(Debug, Clone, PartialEq, Eq)]
pub struct TimestampResponse {
    pub ts: u64,
}

#[derive(Debug, Clone, PartialEq, Eq)]
pub struct GetRequest {
    pub start_ts: u64,
    pub key: Vec<u8>,
}

#[derive(Debug, Clone, PartialEq, Eq)]
pub enum GetError {
    /// The key is locked by the transaction that started at `ts`, whose
    /// primary key is `primary`.
    IsLocked { ts: u64, primary: Vec<u8> },
}

#[derive(Debug, Clone, PartialEq, Eq)]
pub struct PrewriteRequest {
    pub start_ts: u64,
    pub key: Vec<u8>,
    pub value: Vec<u8>,
    pub primary_key: Vec<u8>,
}

#[derive(Debug, Clone, Copy, PartialEq, Eq)]
pub enum PrewriteError {
    /// A version of the key was committed at `ts`, at or after our start.
    WriteConflict { ts: u64 },
    /// The key is locked by the transaction that started at `ts`.
    IsLocked { ts: u64 },
}

#[derive(Debug, Clone, PartialEq, Eq)]
pub struct CommitRequest {
    pub is_primary: bool,
    pub key: Vec<u8>,
    pub start_ts: u64,
    pub commit_ts: u64,
}

/// The error of a Commit request. The server never returns it: a Commit
/// always succeeds.
#[derive(Debug, Clone, Copy, PartialEq, Eq)]
pub struct CommitError {}

/// Asks whether the transaction that started at `lock_ts` committed `key`,
/// and if so at which timestamp.
#[derive(Debug, Clone, PartialEq, Eq)]
pub struct CheckRequest {
    pub key: Vec<u8>,
    pub lock_ts: u64,
}

#[derive(Debug, Clone, PartialEq, Eq)]
pub struct RollbackRequest {
    pub key: Vec<u8>,
    pub start_ts: u64,
}

/// The error of a Rollback request. The server never returns it: a Rollback
/// always succeeds.
#[derive(Debug, Clone, Copy, PartialEq, Eq)]
pub struct RollbackError {}

} // verus!
