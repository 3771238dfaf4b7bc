//! The client's decisions, as state machines: the retry envelope around each
//! call, the two-phase commit of a transaction, and a snapshot read with lock
//! recovery. Whoever drives them performs each step (a call, a wait) and hands
//! the outcome back as an event.
use vstd::prelude::*;
use vstd::slice::slice_to_vec;

use crate::bytes::compare_bytes;
use crate::client::{keys_sorted, Transaction};
use crate::msg::{
    CheckRequest, CommitError, CommitRequest, GetError, GetRequest, PrewriteError,
    PrewriteRequest, RollbackRequest,
};

verus! {

/// The wait before a reader consults the primary of a lock it met, and the
/// timeout of the first attempt of a call, in milliseconds.
pub const BACKOFF_MS: u64 = 100;

/// The number of attempts of a call before its error surfaces.
pub const RETRY_TIMES: usize = 3;

/// The timeout of attempt `n` (counted from zero): the first timeout, doubled
/// `n` times.
pub open spec fn attempt_timeout(n: nat) -> nat
    decreases n,
{
    if n == 0 {
        BACKOFF_MS as nat
    } else {
        2 * attempt_timeout((n - 1) as nat)
    }
}

/// The retry envelope of one call.
pub struct Retry {
    attempt: usize,
    timeout_ms: u64,
}

impl Retry {
    /// The number of the attempt under way, counted from zero.
    pub closed spec fn attempt(&self) -> nat {
        self.attempt as nat
    }

    pub closed spec fn wf(&self) -> bool {
        self.attempt < RETRY_TIMES && self.timeout_ms == attempt_timeout(self.attempt as nat)
    }

    pub fn new() -> (r: Self)
        ensures
            r.wf(),
            r.attempt() == 0,
    {
        Retry { attempt: 0, timeout_ms: BACKOFF_MS }
    }

    /// The timeout of the attempt under way.
    pub fn timeout_ms(&self) -> (r: u64)
        requires
            self.wf(),
        ensures
            r == attempt_timeout(self.attempt()),
    {
        self.timeout_ms
    }

    /// Records a failed attempt; returns whether another attempt follows.
    pub fn on_failure(&mut self) -> (again: bool)
        requires
            old(self).wf(),
        ensures
            final(self).wf(),
            again == (old(self).attempt() + 1 < RETRY_TIMES),
            again ==> final(self).attempt() == old(self).attempt() + 1,
            !again ==> final(self).attempt() == old(self).attempt(),
    {
        proof {
            reveal_with_fuel(attempt_timeout, 3);
        }
        if self.attempt + 1 < RETRY_TIMES {
            self.attempt = self.attempt + 1;
            self.timeout_ms = self.timeout_ms * 2;
            true
        } else {
            false
        }
    }
}

/// `req` prewrites the `i`-th buffered write of the transaction started at
/// `start_ts`, naming the first buffered key as primary.
pub open spec fn is_prewrite_of(req: PrewriteRequest, start_ts: u64, w: Seq<(Seq<u8>, Seq<u8>)>, i: int) -> bool {
    &&& req.start_ts == start_ts
    &&& req.key@ == w[i].0
    &&& req.value@ == w[i].1
    &&& req.primary_key@ == w[0].0
}

/// `req` commits the `i`-th buffered key at `commit_ts`.
pub open spec fn is_commit_of(req: CommitRequest, start_ts: u64, commit_ts: u64, w: Seq<(Seq<u8>, Seq<u8>)>, i: int) -> bool {
    &&& req.start_ts == start_ts
    &&& req.commit_ts == commit_ts
    &&& req.key@ == w[i].0
    &&& req.is_primary == (i == 0)
}

/// Where a commit stands.
pub enum CommitPhase {
    /// Waiting for the commit timestamp.
    AwaitTimestamp,
    /// Waiting for the answer to the Prewrite of the write at this position.
    Prewriting(usize),
    /// Waiting for the answer to the Commit of the key at this position.
    Committing(usize),
    /// The primary's Commit went unanswered; waiting for the Check on it.
    CheckingPrimary,
    Finished,
}

/// What the driver of a commit learned.
pub enum CommitEvent {
    Timestamp(u64),
    Prewritten(Result<(), PrewriteError>),
    Committed(Result<(), CommitError>),
    Checked(Option<u64>),
    /// The call failed on every attempt.
    TransportError,
}

/// What the driver of a commit does next.
pub enum CommitStep {
    GetTimestamp,
    Prewrite(PrewriteRequest),
    Commit(CommitRequest),
    Check(CheckRequest),
    /// The commit is over: whether the transaction committed.
    Done(bool),
    /// The commit is over and its outcome is unknown: the last transport error surfaces.
    Failed,
}

/// The state of one commit.
pub struct Committer {
    pub phase: CommitPhase,
    pub commit_ts: u64,
}

/// The phase fits a transaction with `n` buffered writes.
pub open spec fn phase_fits(p: CommitPhase, n: int) -> bool {
    match p {
        CommitPhase::Prewriting(i) => i < n,
        CommitPhase::Committing(i) => i < n,
        _ => true,
    }
}

/// One step of a commit of the transaction started at `start_ts` with the
/// buffered writes `w`: from `old` on `ev` to `new`, doing `s`.
pub open spec fn commit_transition(
    old: Committer,
    start_ts: u64,
    w: Seq<(Seq<u8>, Seq<u8>)>,
    ev: CommitEvent,
    new: Committer,
    s: CommitStep,
) -> bool {
    match (old.phase, ev) {
        (CommitPhase::AwaitTimestamp, CommitEvent::Timestamp(ts)) => {
            &&& new.phase == CommitPhase::Prewriting(0)
            &&& new.commit_ts == ts
            &&& s matches CommitStep::Prewrite(r) && is_prewrite_of(r, start_ts, w, 0)
        },
        (CommitPhase::Prewriting(i), CommitEvent::Prewritten(Ok(()))) => {
            &&& new.commit_ts == old.commit_ts
            &&& if i + 1 < w.len() {
                &&& new.phase == CommitPhase::Prewriting((i + 1) as usize)
                &&& s matches CommitStep::Prewrite(r) && is_prewrite_of(r, start_ts, w, i + 1)
            } else {
                &&& new.phase == CommitPhase::Committing(0)
                &&& s matches CommitStep::Commit(r) && is_commit_of(r, start_ts, old.commit_ts, w, 0)
            }
        },
        (CommitPhase::Prewriting(_), CommitEvent::Prewritten(Err(_))) => {
            new.phase == CommitPhase::Finished && s == CommitStep::Done(false)
        },
        (CommitPhase::Committing(i), CommitEvent::Committed(Ok(()))) => {
            &&& new.commit_ts == old.commit_ts
            &&& if i + 1 < w.len() {
                &&& new.phase == CommitPhase::Committing((i + 1) as usize)
                &&& s matches CommitStep::Commit(r) && is_commit_of(r, start_ts, old.commit_ts, w, i + 1)
            } else {
                new.phase == CommitPhase::Finished && s == CommitStep::Done(true)
            }
        },
        (CommitPhase::Committing(_), CommitEvent::Committed(Err(_))) => {
            new.phase == CommitPhase::Finished && s == CommitStep::Done(true)
        },
        (CommitPhase::Committing(i), CommitEvent::TransportError) => {
            if i == 0 {
                &&& new.phase == CommitPhase::CheckingPrimary
                &&& s matches CommitStep::Check(r) && r.key@ == w[0].0 && r.lock_ts == start_ts
            } else {
                new.phase == CommitPhase::Finished && s == CommitStep::Done(true)
            }
        },
        (CommitPhase::CheckingPrimary, CommitEvent::Checked(None)) => {
            new.phase == CommitPhase::Finished && s == CommitStep::Done(false)
        },
        _ => new.phase == CommitPhase::Finished && s == CommitStep::Failed,
    }
}

fn prewrite_of(txn: &Transaction, start_ts: u64, i: usize) -> (r: PrewriteRequest)
    requires
        i < txn.writes().len(),
    ensures
        is_prewrite_of(r, start_ts, txn.writes(), i as int),
{
    let w = txn.write_at(i);
    let p = txn.write_at(0);
    PrewriteRequest {
        start_ts,
        key: slice_to_vec(w.key.as_slice()),
        value: slice_to_vec(w.value.as_slice()),
        primary_key: slice_to_vec(p.key.as_slice()),
    }
}

fn commit_of(txn: &Transaction, start_ts: u64, commit_ts: u64, i: usize) -> (r: CommitRequest)
    requires
        i < txn.writes().len(),
    ensures
        is_commit_of(r, start_ts, commit_ts, txn.writes(), i as int),
{
    let w = txn.write_at(i);
    CommitRequest { is_primary: i == 0, key: slice_to_vec(w.key.as_slice()), start_ts, commit_ts }
}

impl Committer {
    /// Starts the commit of `txn`. A transaction that wrote nothing is done
    /// at once and has committed.
    pub fn start(txn: &Transaction) -> (r: (Committer, CommitStep))
        ensures
            txn.writes().len() == 0 ==> r.0.phase == CommitPhase::Finished && r.1 == CommitStep::Done(true),
            txn.writes().len() > 0 ==> r.0.phase == CommitPhase::AwaitTimestamp && r.1 == CommitStep::GetTimestamp,
    {
        if txn.len() == 0 {
            (Committer { phase: CommitPhase::Finished, commit_ts: 0 }, CommitStep::Done(true))
        } else {
            (Committer { phase: CommitPhase::AwaitTimestamp, commit_ts: 0 }, CommitStep::GetTimestamp)
        }
    }

    /// Takes the outcome of the last step and decides the next one.
    pub fn step(&mut self, txn: &Transaction, ev: CommitEvent) -> (s: CommitStep)
        requires
            txn.wf(),
            txn.writes().len() > 0,
            txn.start() is Some,
            phase_fits(old(self).phase, txn.writes().len() as int),
        ensures
            phase_fits(final(self).phase, txn.writes().len() as int),
            commit_transition(*old(self), txn.start()->Some_0, txn.writes(), ev, *final(self), s),
    {
        let start_ts = match txn.start_ts() {
            Some(t) => t,
            None => 0,
        };
        let n = txn.len();
        match (&self.phase, ev) {
            (CommitPhase::AwaitTimestamp, CommitEvent::Timestamp(ts)) => {
                self.phase = CommitPhase::Prewriting(0);
                self.commit_ts = ts;
                CommitStep::Prewrite(prewrite_of(txn, start_ts, 0))
            },
            (CommitPhase::Prewriting(i), CommitEvent::Prewritten(Ok(()))) => {
                let i = *i;
                if i + 1 < n {
                    self.phase = CommitPhase::Prewriting(i + 1);
                    CommitStep::Prewrite(prewrite_of(txn, start_ts, i + 1))
                } else {
                    self.phase = CommitPhase::Committing(0);
                    CommitStep::Commit(commit_of(txn, start_ts, self.commit_ts, 0))
                }
            },
            (CommitPhase::Prewriting(_), CommitEvent::Prewritten(Err(_))) => {
                self.phase = CommitPhase::Finished;
                CommitStep::Done(false)
            },
            (CommitPhase::Committing(i), CommitEvent::Committed(Ok(()))) => {
                let i = *i;
                if i + 1 < n {
                    self.phase = CommitPhase::Committing(i + 1);
                    CommitStep::Commit(commit_of(txn, start_ts, self.commit_ts, i + 1))
                } else {
                    self.phase = CommitPhase::Finished;
                    CommitStep::Done(true)
                }
            },
            (CommitPhase::Committing(_), CommitEvent::Committed(Err(_))) => {
                self.phase = CommitPhase::Finished;
                CommitStep::Done(true)
            },
            (CommitPhase::Committing(i), CommitEvent::TransportError) => {
                if *i == 0 {
                    self.phase = CommitPhase::CheckingPrimary;
                    let p = txn.write_at(0);
                    CommitStep::Check(CheckRequest { key: slice_to_vec(p.key.as_slice()), lock_ts: start_ts })
                } else {
                    self.phase = CommitPhase::Finished;
                    CommitStep::Done(true)
                }
            },
            (CommitPhase::CheckingPrimary, CommitEvent::Checked(None)) => {
                self.phase = CommitPhase::Finished;
                CommitStep::Done(false)
            },
            _ => {
                self.phase = CommitPhase::Finished;
                CommitStep::Failed
            },
        }
    }
}

/// Where a read stands.
pub enum ReadPhase {
    /// Waiting for the answer to a Get.
    Reading,
    /// Backing off after meeting a lock.
    Waiting,
    /// Waiting for the answer to the Check on the lock's primary.
    Checking,
    /// Waiting for the answer to the Commit or Rollback that resolves the lock.
    Resolving,
    Finished,
}

/// What the driver of a read learned.
pub enum ReadEvent {
    Got(Result<Option<Vec<u8>>, GetError>),
    /// The back-off is over.
    Woke,
    Checked(Option<u64>),
    /// The Commit or Rollback that resolves the lock succeeded.
    Resolved,
    /// The call failed on every attempt.
    TransportError,
}

/// What the driver of a read does next.
pub enum ReadStep {
    Get(GetRequest),
    /// Wait this many milliseconds.
    Wait(u64),
    Check(CheckRequest),
    Commit(CommitRequest),
    Rollback(RollbackRequest),
    /// The read is over with this value (empty where no version was committed).
    Done(Vec<u8>),
    /// The read is over; the last transport error surfaces.
    Failed,
}

/// The state of one read of `key` at snapshot `start_ts`, with the lock last met.
pub struct Reader {
    pub key: Vec<u8>,
    pub start_ts: u64,
    pub phase: ReadPhase,
    pub lock_ts: u64,
    pub primary: Vec<u8>,
}

/// `req` reads the reader's key at its snapshot.
pub open spec fn is_get_of(req: GetRequest, r: Reader) -> bool {
    req.start_ts == r.start_ts && req.key@ == r.key@
}

/// One step of a read: from `old` on `ev` to `new`, doing `s`.
pub open spec fn read_transition(old: Reader, ev: ReadEvent, new: Reader, s: ReadStep) -> bool {
    &&& new.key@ == old.key@
    &&& new.start_ts == old.start_ts
    &&& match (old.phase, ev) {
        (ReadPhase::Reading, ReadEvent::Got(Ok(Some(v)))) => new.phase == ReadPhase::Finished && (s matches ReadStep::Done(d) && d@ == v@),
        (ReadPhase::Reading, ReadEvent::Got(Ok(None))) => new.phase == ReadPhase::Finished && (s matches ReadStep::Done(d) && d@.len() == 0),
        (ReadPhase::Reading, ReadEvent::Got(Err(GetError::IsLocked { ts, primary }))) => {
            &&& new.phase == ReadPhase::Waiting
            &&& new.lock_ts == ts
            &&& new.primary@ == primary@
            &&& s == ReadStep::Wait(BACKOFF_MS)
        },
        (ReadPhase::Waiting, ReadEvent::Woke) => {
            &&& new.phase == ReadPhase::Checking
            &&& new.lock_ts == old.lock_ts
            &&& new.primary@ == old.primary@
            &&& s matches ReadStep::Check(r) && r.key@ == old.primary@ && r.lock_ts == old.lock_ts
        },
        (ReadPhase::Checking, ReadEvent::Checked(Some(c))) => {
            &&& new.phase == ReadPhase::Resolving
            &&& new.lock_ts == old.lock_ts
            &&& s matches ReadStep::Commit(r) && r.key@ == old.key@ && r.start_ts == old.lock_ts
                && r.commit_ts == c && r.is_primary == (old.key@ == old.primary@)
        },
        (ReadPhase::Checking, ReadEvent::Checked(None)) => {
            &&& new.phase == ReadPhase::Resolving
            &&& new.lock_ts == old.lock_ts
            &&& s matches ReadStep::Rollback(r) && r.key@ == old.key@ && r.start_ts == old.lock_ts
        },
        (ReadPhase::Resolving, ReadEvent::Resolved) => {
            &&& new.phase == ReadPhase::Reading
            &&& s matches ReadStep::Get(r) && is_get_of(r, old)
        },
        _ => new.phase == ReadPhase::Finished && s == ReadStep::Failed,
    }
}

impl Reader {
    /// Starts a read of `key` at snapshot `start_ts`.
    pub fn start(start_ts: u64, key: &[u8]) -> (r: (Reader, ReadStep))
        ensures
            r.0.key@ == key@,
            r.0.start_ts == start_ts,
            r.0.phase == ReadPhase::Reading,
            r.1 matches ReadStep::Get(g) && is_get_of(g, r.0),
    {
        let reader = Reader {
            key: slice_to_vec(key),
            start_ts,
            phase: ReadPhase::Reading,
            lock_ts: 0,
            primary: Vec::new(),
        };
        let req = GetRequest { start_ts, key: slice_to_vec(key) };
        (reader, ReadStep::Get(req))
    }

    /// Takes the outcome of the last step and decides the next one.
    pub fn step(&mut self, ev: ReadEvent) -> (s: ReadStep)
        ensures
            read_transition(*old(self), ev, *final(self), s),
    {
        match (&self.phase, ev) {
            (ReadPhase::Reading, ReadEvent::Got(Ok(v))) => {
                self.phase = ReadPhase::Finished;
                match v {
                    Some(v) => ReadStep::Done(v),
                    None => ReadStep::Done(Vec::new()),
                }
            },
            (ReadPhase::Reading, ReadEvent::Got(Err(GetError::IsLocked { ts, primary }))) => {
                self.phase = ReadPhase::Waiting;
                self.lock_ts = ts;
                self.primary = primary;
                ReadStep::Wait(BACKOFF_MS)
            },
            (ReadPhase::Waiting, ReadEvent::Woke) => {
                self.phase = ReadPhase::Checking;
                ReadStep::Check(CheckRequest { key: slice_to_vec(self.primary.as_slice()), lock_ts: self.lock_ts })
            },
            (ReadPhase::Checking, ReadEvent::Checked(Some(commit_ts))) => {
                self.phase = ReadPhase::Resolving;
                let is_primary = matches!(
                    compare_bytes(self.key.as_slice(), self.primary.as_slice()),
                    core::cmp::Ordering::Equal
                );
                ReadStep::Commit(CommitRequest {
                    is_primary,
                    key: slice_to_vec(self.key.as_slice()),
                    start_ts: self.lock_ts,
                    commit_ts,
                })
            },
            (ReadPhase::Checking, ReadEvent::Checked(None)) => {
                self.phase = ReadPhase::Resolving;
                ReadStep::Rollback(RollbackRequest { key: slice_to_vec(self.key.as_slice()), start_ts: self.lock_ts })
            },
            (ReadPhase::Resolving, ReadEvent::Resolved) => {
                self.phase = ReadPhase::Reading;
                ReadStep::Get(GetRequest { start_ts: self.start_ts, key: slice_to_vec(self.key.as_slice()) })
            },
            _ => {
                self.phase = ReadPhase::Finished;
                ReadStep::Failed
            },
        }
    }
}

} // verus!
