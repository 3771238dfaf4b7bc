//! Properties of the protocol, stated over the store's model and proved.
use vstd::prelude::*;

use crate::msg::{GetError, PrewriteError};
use crate::protocol::{
    commit_transition, read_transition, CommitEvent, CommitStep, Committer, ReadEvent, ReadPhase,
    ReadStep, Reader,
};
use crate::server::{
    after_commit, after_prewrite, after_rollback, bytes_of, commit_ts_of, consistent,
    is_first_commit, pointer_of, prewrite_result, snapshot_read, ReadOutcome, TimestampOracle,
};
use crate::table::TableModel;
use crate::version_map::{
    in_range, is_latest, latest_version, lemma_latest_version_exists, lemma_latest_version_unique,
    points_to, CellValue, VersionKey,
};

verus! {

/// Two maps that hold the same versions of `k` within `[lo, hi]` have the same
/// latest one there.
pub proof fn lemma_latest_version_local(
    m1: Map<VersionKey, CellValue>,
    m2: Map<VersionKey, CellValue>,
    k: Seq<u8>,
    lo: u64,
    hi: u64,
)
    requires
        forall|t: u64| #[trigger] in_range(m1, k, lo, hi, t) == in_range(m2, k, lo, hi, t),
    ensures
        latest_version(m1, k, lo, hi) == latest_version(m2, k, lo, hi),
{
    if exists|t: u64| is_latest(m1, k, lo, hi, t) {
        let t = choose|t: u64| is_latest(m1, k, lo, hi, t);
        assert(in_range(m1, k, lo, hi, t));
        assert forall|t2: u64| #[trigger] in_range(m2, k, lo, hi, t2) implies t2 <= t by {
            assert(in_range(m1, k, lo, hi, t2));
        }
        assert(is_latest(m2, k, lo, hi, t));
        lemma_latest_version_unique(m1, k, lo, hi, t);
        lemma_latest_version_unique(m2, k, lo, hi, t);
    } else if exists|t: u64| is_latest(m2, k, lo, hi, t) {
        let t = choose|t: u64| is_latest(m2, k, lo, hi, t);
        assert(in_range(m2, k, lo, hi, t));
        assert forall|t2: u64| #[trigger] in_range(m1, k, lo, hi, t2) implies t2 <= t by {
            assert(in_range(m2, k, lo, hi, t2));
        }
        assert(is_latest(m1, k, lo, hi, t));
    }
}

/// Snapshot reads: where no lock on `k` started at or before `start_ts`, a
/// read at `start_ts` finds the payload of the Write record with the greatest
/// commit timestamp at or before `start_ts`, and nothing where there is none.
pub proof fn lemma_snapshot_read(m: TableModel, k: Seq<u8>, start_ts: u64)
    requires
        forall|t: u64| !#[trigger] in_range(m.lock, k, 0, start_ts, t),
    ensures
        (forall|c: u64| !#[trigger] in_range(m.write, k, 0, start_ts, c)) ==> snapshot_read(m, k, start_ts)
            == ReadOutcome::Missing,
        forall|c: u64| #[trigger]
            is_latest(m.write, k, 0, start_ts, c) ==> snapshot_read(m, k, start_ts) == ReadOutcome::Found(
                bytes_of(m.data[(k, pointer_of(m.write[(k, c)]))]),
            ),
{
    assert(latest_version(m.lock, k, 0, start_ts) is None);
    assert forall|c: u64| #[trigger] is_latest(m.write, k, 0, start_ts, c) implies snapshot_read(m, k, start_ts)
        == ReadOutcome::Found(bytes_of(m.data[(k, pointer_of(m.write[(k, c)]))])) by {
        lemma_latest_version_unique(m.write, k, 0, start_ts, c);
    }
}

/// No torn visibility: whatever a read at `start_ts` finds is the Data record
/// that a Write record committed at or before `start_ts` points to.
pub proof fn lemma_no_read_from_the_future(m: TableModel, k: Seq<u8>, start_ts: u64)
    requires
        consistent(m),
    ensures
        snapshot_read(m, k, start_ts) matches ReadOutcome::Found(v) ==> exists|c: u64|
            #![trigger m.write[(k, c)]]
            {
                &&& c <= start_ts
                &&& m.write.contains_key((k, c))
                &&& m.data.contains_key((k, pointer_of(m.write[(k, c)])))
                &&& m.data[(k, pointer_of(m.write[(k, c)]))] == CellValue::Vector(v)
            },
{
    if let ReadOutcome::Found(v) = snapshot_read(m, k, start_ts) {
        let c = latest_version(m.write, k, 0, start_ts)->Some_0;
        assert(is_latest(m.write, k, 0, start_ts, c));
        let d = (k, pointer_of(m.write[(k, c)]));
        assert(m.data.contains_key(d));
        assert(m.data[d] is Vector);
    }
}

/// Snapshots are stable: a transaction that started and committed after
/// `start_ts` changes nothing that a read at `start_ts` observes.
pub proof fn lemma_later_commit_invisible(
    m: TableModel,
    k: Seq<u8>,
    start_ts: u64,
    key: Seq<u8>,
    txn_start: u64,
    commit_ts: u64,
)
    requires
        start_ts < txn_start,
        start_ts < commit_ts,
    ensures
        snapshot_read(after_commit(m, key, txn_start, commit_ts), k, start_ts) == snapshot_read(m, k, start_ts),
{
    let m2 = after_commit(m, key, txn_start, commit_ts);
    assert forall|t: u64| #[trigger] in_range(m2.lock, k, 0, start_ts, t) == in_range(m.lock, k, 0, start_ts, t) by {}
    assert forall|t: u64| #[trigger] in_range(m2.write, k, 0, start_ts, t) == in_range(m.write, k, 0, start_ts, t) by {}
    lemma_latest_version_local(m2.lock, m.lock, k, 0, start_ts);
    lemma_latest_version_local(m2.write, m.write, k, 0, start_ts);
    if let Some(c) = latest_version(m.write, k, 0, start_ts) {
        assert(is_latest(m.write, k, 0, start_ts, c));
    }
    if let Some(l) = latest_version(m.lock, k, 0, start_ts) {
        assert(is_latest(m.lock, k, 0, start_ts, l));
    }
}

/// A Write record pointing to `start_ts` means that a Check reports a commit
/// timestamp.
pub proof fn lemma_check_finds_commit(m: TableModel, key: Seq<u8>, start_ts: u64, c: u64)
    requires
        points_to(m.write, key, c, start_ts),
    ensures
        (commit_ts_of(m, key, start_ts) matches Some(f) && is_first_commit(m, key, start_ts, f) && f <= c),
    decreases c,
{
    if exists|c2: u64| c2 < c && #[trigger] points_to(m.write, key, c2, start_ts) {
        let c2 = choose|c2: u64| c2 < c && #[trigger] points_to(m.write, key, c2, start_ts);
        lemma_check_finds_commit(m, key, start_ts, c2);
    } else {
        assert(is_first_commit(m, key, start_ts, c));
        let f = choose|f: u64| is_first_commit(m, key, start_ts, f);
        assert(!(f < c) && !(c < f));
    }
}

/// Atomicity through the primary: once the primary's Commit has landed, a
/// Check on the primary reports the transaction as committed, and keeps doing
/// so through any Prewrite, Rollback, or Commit that does not overwrite that
/// very Write record with a pointer to another transaction.
pub proof fn lemma_primary_commit_decides(m: TableModel, primary: Seq<u8>, start_ts: u64, commit_ts: u64)
    ensures
        commit_ts_of(after_commit(m, primary, start_ts, commit_ts), primary, start_ts) is Some,
        forall|k: Seq<u8>, s: u64, v: Seq<u8>, p: Seq<u8>|
            commit_ts_of(#[trigger] after_prewrite(m, s, k, v, p), primary, start_ts) == commit_ts_of(m, primary, start_ts),
        forall|k: Seq<u8>, s: u64|
            commit_ts_of(#[trigger] after_rollback(m, k, s), primary, start_ts) == commit_ts_of(m, primary, start_ts),
        forall|k: Seq<u8>, s: u64, c: u64|
            points_to(m.write, primary, commit_ts, start_ts) && ((k, c) != (primary, commit_ts) || s == start_ts)
                ==> points_to(#[trigger] after_commit(m, k, s, c).write, primary, commit_ts, start_ts),
{
    let m2 = after_commit(m, primary, start_ts, commit_ts);
    assert(points_to(m2.write, primary, commit_ts, start_ts));
    lemma_check_finds_commit(m2, primary, start_ts, commit_ts);
    assert forall|k: Seq<u8>, s: u64, v: Seq<u8>, p: Seq<u8>|
        commit_ts_of(#[trigger] after_prewrite(m, s, k, v, p), primary, start_ts) == commit_ts_of(m, primary, start_ts) by {
        let m3 = after_prewrite(m, s, k, v, p);
        assert(m3.write == m.write);
        assert(forall|c: u64| is_first_commit(m3, primary, start_ts, c) == is_first_commit(m, primary, start_ts, c));
    }
    assert forall|k: Seq<u8>, s: u64|
        commit_ts_of(#[trigger] after_rollback(m, k, s), primary, start_ts) == commit_ts_of(m, primary, start_ts) by {
        let m3 = after_rollback(m, k, s);
        assert(m3.write == m.write);
        assert(forall|c: u64| is_first_commit(m3, primary, start_ts, c) == is_first_commit(m, primary, start_ts, c));
    }
}

/// First committer wins: a Prewrite of `k` by a transaction that started at
/// `start_ts` fails while another transaction holds a lock on `k`, and fails
/// with a write conflict where another transaction committed `k` at or after
/// `start_ts`.
pub proof fn lemma_first_committer_wins(m: TableModel, k: Seq<u8>, start_ts: u64, other_start: u64, other_commit: u64)
    ensures
        m.lock.contains_key((k, other_start)) ==> prewrite_result(m, start_ts, k) is Err,
        points_to(m.write, k, other_commit, other_start) && start_ts <= other_commit ==> (prewrite_result(m, start_ts, k)
            matches Err(PrewriteError::WriteConflict { ts }) && other_commit <= ts),
{
    if m.lock.contains_key((k, other_start)) {
        if latest_version(m.write, k, start_ts, u64::MAX) is None {
            lemma_latest_version_exists(m.lock, k, 0, u64::MAX, other_start);
        }
    }
    if points_to(m.write, k, other_commit, other_start) && start_ts <= other_commit {
        lemma_latest_version_exists(m.write, k, start_ts, u64::MAX, other_commit);
    }
}

/// Retrying a Commit is safe: applying it twice leaves the store as applying
/// it once.
pub proof fn lemma_commit_retry_idempotent(m: TableModel, key: Seq<u8>, start_ts: u64, commit_ts: u64)
    ensures
        after_commit(after_commit(m, key, start_ts, commit_ts), key, start_ts, commit_ts) == after_commit(
            m,
            key,
            start_ts,
            commit_ts,
        ),
{
    let once = after_commit(m, key, start_ts, commit_ts);
    let twice = after_commit(once, key, start_ts, commit_ts);
    assert(twice.write =~= once.write);
    assert(twice.lock =~= once.lock);
}

/// Monotone timestamps: along a run of requests to the oracle, every response
/// is greater than every earlier one.
pub proof fn lemma_timestamps_increase(states: Seq<TimestampOracle>, responses: Seq<u64>)
    requires
        states.len() == responses.len() + 1,
        forall|i: int|
            0 <= i < responses.len() ==> #[trigger] responses[i] == states[i].next() && states[i + 1].next()
                == states[i].next() + 1,
    ensures
        forall|i: int, j: int| 0 <= i < j < responses.len() ==> responses[i] < responses[j],
{
    assert forall|i: int| 0 <= i < responses.len() implies #[trigger] responses[i] == states[0].next() + i by {
        lemma_oracle_run(states, responses, i);
    }
    assert forall|i: int, j: int| 0 <= i < j < responses.len() implies responses[i] < responses[j] by {
        assert(responses[i] == states[0].next() + i);
        assert(responses[j] == states[0].next() + j);
    }
}

proof fn lemma_oracle_run(states: Seq<TimestampOracle>, responses: Seq<u64>, i: int)
    requires
        states.len() == responses.len() + 1,
        forall|i: int|
            0 <= i < responses.len() ==> #[trigger] responses[i] == states[i].next() && states[i + 1].next()
                == states[i].next() + 1,
        0 <= i < responses.len(),
    ensures
        states[i].next() == states[0].next() + i,
        responses[i] == states[0].next() + i,
    decreases i,
{
    assert(responses[i] == states[i].next());
    if i > 0 {
        lemma_oracle_run(states, responses, i - 1);
        assert(responses[i - 1] == states[i - 1].next());
    }
}

/// A lock that a read reports started at or before the read's snapshot.
pub proof fn lemma_reported_lock_precedes_snapshot(m: TableModel, k: Seq<u8>, start_ts: u64)
    ensures
        snapshot_read(m, k, start_ts) matches ReadOutcome::Locked(l, _) ==> l <= start_ts,
{
    if let Some(l) = latest_version(m.lock, k, 0, start_ts) {
        assert(is_latest(m.lock, k, 0, start_ts, l));
    }
}

/// The client rolls back only what others left: a commit prewrites only at
/// its own transaction's start timestamp and never issues a Rollback, and a
/// read issues a Rollback only for the key it reads, at the start timestamp of
/// the lock that the server reported to it, once the lock's primary was found
/// uncommitted.
pub proof fn lemma_rollbacks_only_for_reported_locks(
    c0: Committer,
    start_ts: u64,
    w: Seq<(Seq<u8>, Seq<u8>)>,
    cev: CommitEvent,
    c1: Committer,
    cs: CommitStep,
    r0: Reader,
    lock_ts: u64,
    primary: Vec<u8>,
    r1: Reader,
    s1: ReadStep,
    r2: Reader,
    s2: ReadStep,
    r3: Reader,
    s3: ReadStep,
)
    requires
        commit_transition(c0, start_ts, w, cev, c1, cs),
        r0.phase == ReadPhase::Reading,
        read_transition(r0, ReadEvent::Got(Err(GetError::IsLocked { ts: lock_ts, primary })), r1, s1),
        read_transition(r1, ReadEvent::Woke, r2, s2),
        read_transition(r2, ReadEvent::Checked(None), r3, s3),
    ensures
        cs matches CommitStep::Prewrite(req) ==> req.start_ts == start_ts,
        s2 matches ReadStep::Check(req) && req.key@ == primary@ && req.lock_ts == lock_ts,
        s3 matches ReadStep::Rollback(req) && req.key@ == r0.key@ && req.start_ts == lock_ts,
{
}

/// The client brings secondaries to the primary's outcome: a commit issues a
/// secondary's Commit only right after a successful Commit, starting from the
/// primary, at the commit timestamp it drew; and a read rolls a lock forward
/// only at the commit timestamp that the Check on the lock's primary reported.
pub proof fn lemma_secondaries_follow_primary(
    c0: Committer,
    start_ts: u64,
    w: Seq<(Seq<u8>, Seq<u8>)>,
    cev: CommitEvent,
    c1: Committer,
    cs: CommitStep,
    r0: Reader,
    commit_ts: u64,
    r1: Reader,
    s1: ReadStep,
)
    requires
        commit_transition(c0, start_ts, w, cev, c1, cs),
        r0.phase == ReadPhase::Checking,
        read_transition(r0, ReadEvent::Checked(Some(commit_ts)), r1, s1),
    ensures
        cs matches CommitStep::Commit(req) ==> req.commit_ts == c0.commit_ts && (req.is_primary || cev
            matches CommitEvent::Committed(Ok(_))) && (req.is_primary ==> req.key@ == w[0].0),
        s1 matches ReadStep::Commit(req) && req.commit_ts == commit_ts && req.start_ts == r0.lock_ts
            && req.key@ == r0.key@,
{
}

} // verus!
