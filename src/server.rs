//! The timestamp oracle and the transaction server's request handlers.
use vstd::prelude::*;
use vstd::slice::slice_to_vec;

use crate::msg::{
    CheckRequest, CommitError, CommitRequest, GetError, GetRequest, PrewriteError,
    PrewriteRequest, RollbackError, RollbackRequest, TimestampRequest, TimestampResponse,
};
use crate::table::{Column, KvTable, TableModel};
use crate::version_map::{in_range, latest_version, points_to, CellValue, Value, VersionKey};

verus! {

/// Hands out strictly increasing timestamps.
pub struct TimestampOracle {
    next_ts: u64,
}

impl TimestampOracle {
    /// The timestamp that the next request receives.
    pub closed spec fn next(&self) -> u64 {
        self.next_ts
    }

    pub fn new() -> (r: Self)
        ensures
            r.next() == 0,
    {
        TimestampOracle { next_ts: 0 }
    }

    /// Whether another timestamp can be handed out.
    pub fn can_issue(&self) -> (r: bool)
        ensures
            r == (self.next() < u64::MAX),
    {
        self.next_ts < u64::MAX
    }

    /// Returns the current counter and advances it by one.
    pub fn get_timestamp(&mut self, _req: TimestampRequest) -> (r: TimestampResponse)
        requires
            old(self).next() < u64::MAX,
        ensures
            r.ts == old(self).next(),
            final(self).next() == old(self).next() + 1,
    {
        let ts = self.next_ts;
        self.next_ts = self.next_ts + 1;
        TimestampResponse { ts }
    }
}

/// The payload of a byte cell.
pub open spec fn bytes_of(v: CellValue) -> Seq<u8> {
    match v {
        CellValue::Vector(b) => b,
        CellValue::Timestamp(_) => Seq::empty(),
    }
}

/// The pointer of a timestamp cell.
pub open spec fn pointer_of(v: CellValue) -> u64 {
    match v {
        CellValue::Timestamp(t) => t,
        CellValue::Vector(_) => 0,
    }
}

/// The store's invariants: Data and Lock cells hold bytes, Write cells hold
/// pointers; every Lock and every Write record has its Data record.
pub open spec fn consistent(m: TableModel) -> bool {
    &&& forall|k: VersionKey| #[trigger] m.data.contains_key(k) ==> m.data[k] is Vector
    &&& forall|k: VersionKey| #[trigger] m.lock.contains_key(k) ==> m.lock[k] is Vector && m.data.contains_key(k)
    &&& forall|k: VersionKey| #[trigger] m.write.contains_key(k) ==> m.write[k] is Timestamp
        && m.data.contains_key((k.0, pointer_of(m.write[k])))
}

/// What a snapshot read observes.
pub enum ReadOutcome {
    /// A lock of the transaction started at the timestamp, with its primary key.
    Locked(u64, Seq<u8>),
    /// No version committed at or before the snapshot.
    Missing,
    /// The payload of the latest version committed at or before the snapshot.
    Found(Seq<u8>),
}

/// A read of `key` at snapshot `start_ts`: blocked by any lock that started at
/// or before it, else the payload that the latest Write record at or before it
/// points to.
pub open spec fn snapshot_read(m: TableModel, key: Seq<u8>, start_ts: u64) -> ReadOutcome {
    match latest_version(m.lock, key, 0, start_ts) {
        Some(l) => ReadOutcome::Locked(l, bytes_of(m.lock[(key, l)])),
        None => match latest_version(m.write, key, 0, start_ts) {
            None => ReadOutcome::Missing,
            Some(c) => ReadOutcome::Found(bytes_of(m.data[(key, pointer_of(m.write[(key, c)]))])),
        },
    }
}

pub open spec fn outcome_of(r: Result<Option<Vec<u8>>, GetError>) -> ReadOutcome {
    match r {
        Ok(None) => ReadOutcome::Missing,
        Ok(Some(v)) => ReadOutcome::Found(v@),
        Err(GetError::IsLocked { ts, primary }) => ReadOutcome::Locked(ts, primary@),
    }
}

/// The answer to a Prewrite: a conflict with a version committed at or after
/// `start_ts`, else a conflict with any lock on `key`, else success.
pub open spec fn prewrite_result(m: TableModel, start_ts: u64, key: Seq<u8>) -> Result<(), PrewriteError> {
    match latest_version(m.write, key, start_ts, u64::MAX) {
        Some(c) => Err(PrewriteError::WriteConflict { ts: c }),
        None => match latest_version(m.lock, key, 0, u64::MAX) {
            Some(l) => Err(PrewriteError::IsLocked { ts: l }),
            None => Ok(()),
        },
    }
}

/// The store after a successful Prewrite: the Data and the Lock record.
pub open spec fn after_prewrite(m: TableModel, start_ts: u64, key: Seq<u8>, value: Seq<u8>, primary: Seq<u8>) -> TableModel {
    TableModel {
        data: m.data.insert((key, start_ts), CellValue::Vector(value)),
        lock: m.lock.insert((key, start_ts), CellValue::Vector(primary)),
        write: m.write,
    }
}

/// The store after a Commit: the Write record in, the Lock record out.
pub open spec fn after_commit(m: TableModel, key: Seq<u8>, start_ts: u64, commit_ts: u64) -> TableModel {
    TableModel {
        write: m.write.insert((key, commit_ts), CellValue::Timestamp(start_ts)),
        lock: m.lock.remove((key, start_ts)),
        data: m.data,
    }
}

/// The store after a Rollback: the Lock record out.
pub open spec fn after_rollback(m: TableModel, key: Seq<u8>, start_ts: u64) -> TableModel {
    TableModel { lock: m.lock.remove((key, start_ts)), ..m }
}

/// `c` is the smallest commit timestamp whose Write record of `key` points to `start_ts`.
pub open spec fn is_first_commit(m: TableModel, key: Seq<u8>, start_ts: u64, c: u64) -> bool {
    &&& points_to(m.write, key, c, start_ts)
    &&& forall|c2: u64| c2 < c ==> !#[trigger] points_to(m.write, key, c2, start_ts)
}

/// The commit timestamp of the transaction started at `start_ts` on `key`, if
/// it committed there.
pub open spec fn commit_ts_of(m: TableModel, key: Seq<u8>, start_ts: u64) -> Option<u64> {
    if exists|c: u64| is_first_commit(m, key, start_ts, c) {
        Some(choose|c: u64| is_first_commit(m, key, start_ts, c))
    } else {
        None
    }
}

/// The transaction server's store, handling one request at a time.
pub struct MemoryStorage {
    table: KvTable,
}

impl View for MemoryStorage {
    type V = TableModel;

    closed spec fn view(&self) -> TableModel {
        self.table@
    }
}

impl MemoryStorage {
    pub closed spec fn wf(&self) -> bool {
        self.table.wf() && consistent(self.table@)
    }

    pub proof fn lemma_wf_consistent(&self)
        requires
            self.wf(),
        ensures
            consistent(self@),
    {
    }

    pub fn new() -> (r: Self)
        ensures
            r.wf(),
            r@.write == Map::<VersionKey, CellValue>::empty(),
            r@.data == Map::<VersionKey, CellValue>::empty(),
            r@.lock == Map::<VersionKey, CellValue>::empty(),
    {
        MemoryStorage { table: KvTable::new() }
    }

    /// The store's table.
    pub fn table(&self) -> (r: &KvTable)
        requires
            self.wf(),
        ensures
            r.wf(),
            r@ == self@,
    {
        &self.table
    }

    /// Whether a Data record of `key` exists at `ts`.
    pub fn has_data(&self, key: &[u8], ts: u64) -> (r: bool)
        requires
            self.wf(),
        ensures
            r == self@.data.contains_key((key@, ts)),
    {
        let found = self.table.read(key, Column::Data, ts, ts);
        proof {
            if found is None {
                assert(!in_range(self@.data, key@, ts, ts, ts));
            }
        }
        found.is_some()
    }

    /// Reads `key` at snapshot `req.start_ts`.
    pub fn get(&self, req: GetRequest) -> (r: Result<Option<Vec<u8>>, GetError>)
        requires
            self.wf(),
        ensures
            outcome_of(r) == snapshot_read(self@, req.key@, req.start_ts),
    {
        let key = req.key.as_slice();
        if let Some((ts, primary)) = self.table.read(key, Column::Lock, 0, req.start_ts) {
            let primary = slice_to_vec(primary.as_bytes());
            return Err(GetError::IsLocked { ts, primary });
        }
        let ds = match self.table.read(key, Column::Write, 0, req.start_ts) {
            Some((_, v)) => v.as_ts(),
            None => return Ok(None),
        };
        match self.table.read(key, Column::Data, ds, ds) {
            Some((_, v)) => Ok(Some(slice_to_vec(v.as_bytes()))),
            None => {
                proof {
                    assert(!in_range(self@.data, key@, ds, ds, ds));
                    assert(false);
                }
                Ok(None)
            },
        }
    }

    /// Installs the Data and the Lock record of `req.key` for the transaction
    /// started at `req.start_ts`, unless a later commit or any lock is in the way.
    pub fn prewrite(&mut self, req: PrewriteRequest) -> (r: Result<(), PrewriteError>)
        requires
            old(self).wf(),
        ensures
            final(self).wf(),
            r == prewrite_result(old(self)@, req.start_ts, req.key@),
            final(self)@ == if r is Ok {
                after_prewrite(old(self)@, req.start_ts, req.key@, req.value@, req.primary_key@)
            } else {
                old(self)@
            },
    {
        let ghost m = self@;
        if let Some((ts, _)) = self.table.read(req.key.as_slice(), Column::Write, req.start_ts, u64::MAX) {
            return Err(PrewriteError::WriteConflict { ts });
        }
        if let Some((ts, _)) = self.table.read(req.key.as_slice(), Column::Lock, 0, u64::MAX) {
            return Err(PrewriteError::IsLocked { ts });
        }
        let lock_key = slice_to_vec(req.key.as_slice());
        self.table.write(req.key, Column::Data, req.start_ts, Value::Vector(req.value));
        self.table.write(lock_key, Column::Lock, req.start_ts, Value::Vector(req.primary_key));
        proof {
            assert(self@ == after_prewrite(m, req.start_ts, req.key@, req.value@, req.primary_key@));
        }
        Ok(())
    }

    /// Commits `req.key` for the transaction started at `req.start_ts`: the
    /// Write record at `req.commit_ts` points to the data, and the lock goes.
    pub fn commit(&mut self, req: CommitRequest) -> (r: Result<(), CommitError>)
        requires
            old(self).wf(),
            old(self)@.data.contains_key((req.key@, req.start_ts)),
        ensures
            final(self).wf(),
            r is Ok,
            final(self)@ == after_commit(old(self)@, req.key@, req.start_ts, req.commit_ts),
    {
        let ghost m = self@;
        let lock_key = slice_to_vec(req.key.as_slice());
        self.table.write(req.key, Column::Write, req.commit_ts, Value::Timestamp(req.start_ts));
        self.table.erase(lock_key.as_slice(), Column::Lock, req.start_ts);
        proof {
            assert(self@ == after_commit(m, req.key@, req.start_ts, req.commit_ts));
        }
        Ok(())
    }

    /// The commit timestamp of the transaction started at `req.lock_ts` on
    /// `req.key`, if it committed there.
    pub fn check(&self, req: CheckRequest) -> (r: Option<u64>)
        requires
            self.wf(),
        ensures
            r == commit_ts_of(self@, req.key@, req.lock_ts),
    {
        let r = self.table.find_write(req.key.as_slice(), req.lock_ts);
        proof {
            if let Some(c) = r {
                assert(is_first_commit(self@, req.key@, req.lock_ts, c));
                let d = choose|d: u64| is_first_commit(self@, req.key@, req.lock_ts, d);
                assert(!(d < c) && !(c < d));
            }
        }
        r
    }

    /// Removes the lock of the transaction started at `req.start_ts` on `req.key`.
    pub fn rollback(&mut self, req: RollbackRequest) -> (r: Result<(), RollbackError>)
        requires
            old(self).wf(),
        ensures
            final(self).wf(),
            r is Ok,
            final(self)@ == after_rollback(old(self)@, req.key@, req.start_ts),
    {
        let ghost m = self@;
        self.table.erase(req.key.as_slice(), Column::Lock, req.start_ts);
        proof {
            assert(self@ == after_rollback(m, req.key@, req.start_ts));
        }
        Ok(())
    }
}

} // verus!
