use percolator::client::Transaction;
use percolator::hooks::CommitHooks;
use percolator::msg::{
    CheckRequest, CommitError, CommitRequest, GetRequest, PrewriteRequest, RollbackRequest,
    TimestampRequest,
};
use percolator::protocol::{
    CommitEvent, CommitStep, Committer, ReadEvent, ReadStep, Reader, Retry, BACKOFF_MS,
};
use percolator::server::{MemoryStorage, TimestampOracle};

struct Cluster {
    tso: TimestampOracle,
    store: MemoryStorage,
}

#[derive(Debug, PartialEq)]
struct TimedOut;

impl Cluster {
    fn new() -> Self {
        Cluster { tso: TimestampOracle::new(), store: MemoryStorage::new() }
    }

    fn timestamp(&mut self) -> u64 {
        assert!(self.tso.can_issue());
        self.tso.get_timestamp(TimestampRequest {}).ts
    }

    fn apply_commit(&mut self, req: &CommitRequest) -> Result<(), CommitError> {
        assert!(self.store.has_data(&req.key, req.start_ts));
        self.store.commit(req.clone())
    }

    /// A Commit call inside the retry envelope, with faults.
    fn commit_call(&mut self, req: &CommitRequest, hooks: CommitHooks) -> Result<Result<(), CommitError>, TimedOut> {
        let mut retry = Retry::new();
        loop {
            if hooks.hook_req(req) {
                let rsp = self.apply_commit(req);
                if hooks.hook_rsp(&rsp) {
                    return Ok(rsp);
                }
            }
            if !retry.on_failure() {
                return Err(TimedOut);
            }
        }
    }
}

struct TestClient {
    txn: Transaction,
    hooks: CommitHooks,
}

impl TestClient {
    fn new() -> Self {
        TestClient { txn: Transaction::new(), hooks: CommitHooks::default() }
    }

    fn begin(&mut self, c: &mut Cluster) {
        let ts = c.timestamp();
        self.txn.begin(ts);
    }

    fn set(&mut self, key: &[u8], value: &[u8]) {
        self.txn.set(key, value);
    }

    fn get(&self, c: &mut Cluster, key: &[u8]) -> Result<Vec<u8>, TimedOut> {
        let start_ts = self.txn.start_ts().expect("no transaction");
        let (mut reader, mut step) = Reader::start(start_ts, key);
        loop {
            step = match step {
                ReadStep::Get(req) => reader.step(ReadEvent::Got(c.store.get(req))),
                ReadStep::Wait(ms) => {
                    assert_eq!(ms, BACKOFF_MS);
                    reader.step(ReadEvent::Woke)
                }
                ReadStep::Check(req) => reader.step(ReadEvent::Checked(c.store.check(req))),
                ReadStep::Commit(req) => {
                    c.apply_commit(&req).unwrap();
                    reader.step(ReadEvent::Resolved)
                }
                ReadStep::Rollback(req) => {
                    c.store.rollback(req).unwrap();
                    reader.step(ReadEvent::Resolved)
                }
                ReadStep::Done(v) => return Ok(v),
                ReadStep::Failed => return Err(TimedOut),
            }
        }
    }

    fn commit(&self, c: &mut Cluster) -> Result<bool, TimedOut> {
        let (mut committer, mut step) = Committer::start(&self.txn);
        loop {
            step = match step {
                CommitStep::GetTimestamp => {
                    let ts = c.timestamp();
                    committer.step(&self.txn, CommitEvent::Timestamp(ts))
                }
                CommitStep::Prewrite(req) => {
                    let rsp = c.store.prewrite(req);
                    committer.step(&self.txn, CommitEvent::Prewritten(rsp))
                }
                CommitStep::Commit(req) => match c.commit_call(&req, self.hooks) {
                    Ok(rsp) => committer.step(&self.txn, CommitEvent::Committed(rsp)),
                    Err(TimedOut) => committer.step(&self.txn, CommitEvent::TransportError),
                },
                CommitStep::Check(req) => {
                    let rsp = c.store.check(req);
                    committer.step(&self.txn, CommitEvent::Checked(rsp))
                }
                CommitStep::Done(b) => return Ok(b),
                CommitStep::Failed => return Err(TimedOut),
            }
        }
    }
}

fn setup(n: usize) -> (Cluster, Vec<TestClient>) {
    (Cluster::new(), (0..n).map(|_| TestClient::new()).collect())
}

fn init_one_two(c: &mut Cluster, client0: &mut TestClient) {
    client0.begin(c);
    client0.set(b"1", b"10");
    client0.set(b"2", b"20");
    assert_eq!(client0.commit(c).unwrap(), true);
}

/// Simulated clock for a client whose link is down until `up_at` ms: each
/// attempt is sent when the previous one timed out.
fn timestamp_with_link_down(c: &mut Cluster, up_at: u64) -> Result<u64, TimedOut> {
    let mut retry = Retry::new();
    let mut now: u64 = 0;
    loop {
        if now >= up_at {
            return Ok(c.timestamp());
        }
        now += retry.timeout_ms();
        if !retry.on_failure() {
            return Err(TimedOut);
        }
    }
}

#[test]
fn test_get_timestamp_under_unreliable_network() {
    let (mut c, _) = setup(3);
    let ups = [100u64, 100 + 200, 100 + 200 + 400];
    for (i, up) in ups.iter().enumerate() {
        let res = timestamp_with_link_down(&mut c, *up);
        if i == 2 {
            assert_eq!(res.unwrap_err(), TimedOut);
        } else {
            assert!(res.is_ok());
        }
    }
}

#[test]
fn test_predicate_many_preceders_read_predicates() {
    let (mut c, mut cl) = setup(3);
    init_one_two(&mut c, &mut cl[0]);

    cl[1].begin(&mut c);
    assert_eq!(cl[1].get(&mut c, b"3").unwrap(), b"");

    cl[2].begin(&mut c);
    cl[2].set(b"3", b"30");
    assert_eq!(cl[2].commit(&mut c).unwrap(), true);

    assert_eq!(cl[1].get(&mut c, b"3").unwrap(), b"");
}

#[test]
fn test_predicate_many_preceders_write_predicates() {
    let (mut c, mut cl) = setup(3);
    init_one_two(&mut c, &mut cl[0]);

    cl[1].begin(&mut c);
    cl[2].begin(&mut c);

    cl[1].set(b"1", b"20");
    cl[1].set(b"2", b"30");
    assert_eq!(cl[1].get(&mut c, b"2").unwrap(), b"20");

    cl[2].set(b"2", b"40");
    assert_eq!(cl[1].commit(&mut c).unwrap(), true);
    assert_eq!(cl[2].commit(&mut c).unwrap(), false);
}

#[test]
fn test_lost_update() {
    let (mut c, mut cl) = setup(3);
    init_one_two(&mut c, &mut cl[0]);

    cl[1].begin(&mut c);
    cl[2].begin(&mut c);

    assert_eq!(cl[1].get(&mut c, b"1").unwrap(), b"10");
    assert_eq!(cl[2].get(&mut c, b"1").unwrap(), b"10");

    cl[1].set(b"1", b"11");
    cl[2].set(b"1", b"11");
    assert_eq!(cl[1].commit(&mut c).unwrap(), true);
    assert_eq!(cl[2].commit(&mut c).unwrap(), false);
}

#[test]
fn test_read_skew_read_only() {
    let (mut c, mut cl) = setup(3);
    init_one_two(&mut c, &mut cl[0]);

    cl[1].begin(&mut c);
    cl[2].begin(&mut c);

    assert_eq!(cl[1].get(&mut c, b"1").unwrap(), b"10");
    assert_eq!(cl[2].get(&mut c, b"1").unwrap(), b"10");
    assert_eq!(cl[2].get(&mut c, b"2").unwrap(), b"20");

    cl[2].set(b"1", b"12");
    cl[2].set(b"2", b"18");
    assert_eq!(cl[2].commit(&mut c).unwrap(), true);

    assert_eq!(cl[1].get(&mut c, b"2").unwrap(), b"20");
}

#[test]
fn test_read_skew_predicate_dependencies() {
    let (mut c, mut cl) = setup(3);
    init_one_two(&mut c, &mut cl[0]);

    cl[1].begin(&mut c);
    cl[2].begin(&mut c);

    assert_eq!(cl[1].get(&mut c, b"1").unwrap(), b"10");
    assert_eq!(cl[1].get(&mut c, b"2").unwrap(), b"20");

    cl[2].set(b"3", b"30");
    assert_eq!(cl[2].commit(&mut c).unwrap(), true);

    assert_eq!(cl[1].get(&mut c, b"3").unwrap(), b"");
}

#[test]
fn test_read_skew_write_predicate() {
    let (mut c, mut cl) = setup(3);
    init_one_two(&mut c, &mut cl[0]);

    cl[1].begin(&mut c);
    cl[2].begin(&mut c);

    assert_eq!(cl[1].get(&mut c, b"1").unwrap(), b"10");
    assert_eq!(cl[2].get(&mut c, b"1").unwrap(), b"10");
    assert_eq!(cl[2].get(&mut c, b"2").unwrap(), b"20");

    cl[2].set(b"1", b"12");
    cl[2].set(b"2", b"18");
    assert_eq!(cl[2].commit(&mut c).unwrap(), true);

    cl[1].set(b"2", b"30");
    assert_eq!(cl[1].commit(&mut c).unwrap(), false);
}

#[test]
fn test_write_skew() {
    let (mut c, mut cl) = setup(3);
    init_one_two(&mut c, &mut cl[0]);

    cl[1].begin(&mut c);
    cl[2].begin(&mut c);

    assert_eq!(cl[1].get(&mut c, b"1").unwrap(), b"10");
    assert_eq!(cl[1].get(&mut c, b"2").unwrap(), b"20");
    assert_eq!(cl[2].get(&mut c, b"1").unwrap(), b"10");
    assert_eq!(cl[2].get(&mut c, b"2").unwrap(), b"20");

    cl[1].set(b"1", b"11");
    cl[2].set(b"2", b"21");

    assert_eq!(cl[1].commit(&mut c).unwrap(), true);
    assert_eq!(cl[2].commit(&mut c).unwrap(), true);
}

#[test]
fn test_anti_dependency_cycles() {
    let (mut c, mut cl) = setup(4);
    init_one_two(&mut c, &mut cl[0]);

    cl[1].begin(&mut c);
    cl[2].begin(&mut c);

    cl[1].set(b"3", b"30");
    cl[2].set(b"4", b"42");

    assert_eq!(cl[1].commit(&mut c).unwrap(), true);
    assert_eq!(cl[2].commit(&mut c).unwrap(), true);

    cl[3].begin(&mut c);
    assert_eq!(cl[3].get(&mut c, b"3").unwrap(), b"30");
    assert_eq!(cl[3].get(&mut c, b"4").unwrap(), b"42");
}

fn three_keys(c: &mut Cluster, client0: &mut TestClient) {
    client0.begin(c);
    client0.set(b"3", b"30");
    client0.set(b"4", b"40");
    client0.set(b"5", b"50");
}

fn read_three(c: &mut Cluster, client1: &mut TestClient, expect: [&[u8]; 3]) {
    client1.begin(c);
    assert_eq!(client1.get(c, b"3").unwrap(), expect[0]);
    assert_eq!(client1.get(c, b"4").unwrap(), expect[1]);
    assert_eq!(client1.get(c, b"5").unwrap(), expect[2]);
}

#[test]
fn test_commit_primary_drop_secondary_requests() {
    let (mut c, mut cl) = setup(2);
    three_keys(&mut c, &mut cl[0]);
    cl[0].hooks.drop_req = true;
    assert_eq!(cl[0].commit(&mut c).unwrap(), true);
    read_three(&mut c, &mut cl[1], [b"30", b"40", b"50"]);
}

#[test]
fn test_commit_primary_success() {
    let (mut c, mut cl) = setup(2);
    three_keys(&mut c, &mut cl[0]);
    cl[0].hooks.drop_req = true;
    assert_eq!(cl[0].commit(&mut c).unwrap(), true);
    read_three(&mut c, &mut cl[1], [b"30", b"40", b"50"]);
}

#[test]
fn test_commit_primary_success_without_response() {
    let (mut c, mut cl) = setup(2);
    three_keys(&mut c, &mut cl[0]);
    cl[0].hooks.drop_resp = true;
    assert!(cl[0].commit(&mut c).is_err());
    read_three(&mut c, &mut cl[1], [b"30", b"40", b"50"]);
}

#[test]
fn test_commit_primary_fail() {
    let (mut c, mut cl) = setup(2);
    three_keys(&mut c, &mut cl[0]);
    cl[0].hooks.drop_req = true;
    cl[0].hooks.fail_primary = true;
    assert_eq!(cl[0].commit(&mut c).unwrap(), false);
    read_three(&mut c, &mut cl[1], [b"", b"", b""]);
}

#[test]
fn read_only_commit_returns_true_without_requests() {
    let txn = Transaction::new();
    let (_, step) = Committer::start(&txn);
    assert!(matches!(step, CommitStep::Done(true)));
    let (mut c, mut cl) = setup(1);
    cl[0].begin(&mut c);
    assert_eq!(cl[0].get(&mut c, b"1").unwrap(), b"");
    assert_eq!(cl[0].commit(&mut c).unwrap(), true);
    // Only the begin drew a timestamp.
    assert_eq!(c.timestamp(), 1);
}

#[test]
fn reader_rolls_back_abandoned_lock() {
    let mut c = Cluster::new();
    // A transaction that prewrote and vanished.
    c.store
        .prewrite(PrewriteRequest { start_ts: 5, key: b"k".to_vec(), value: b"v".to_vec(), primary_key: b"k".to_vec() })
        .unwrap();
    let mut t = TestClient::new();
    t.txn.begin(9);
    assert_eq!(t.get(&mut c, b"k").unwrap(), b"");
    // The lock is gone, the dead Data row stays.
    assert!(c.store.has_data(b"k", 5));
    assert_eq!(c.store.get(GetRequest { start_ts: 9, key: b"k".to_vec() }), Ok(None));
}

#[test]
fn reader_rolls_forward_secondary_of_committed_primary() {
    let mut c = Cluster::new();
    for (k, v) in [(b"a", b"1"), (b"b", b"2")] {
        c.store
            .prewrite(PrewriteRequest { start_ts: 3, key: k.to_vec(), value: v.to_vec(), primary_key: b"a".to_vec() })
            .unwrap();
    }
    c.apply_commit(&CommitRequest { is_primary: true, key: b"a".to_vec(), start_ts: 3, commit_ts: 4 }).unwrap();
    assert_eq!(c.store.check(CheckRequest { key: b"a".to_vec(), lock_ts: 3 }), Some(4));
    let mut t = TestClient::new();
    t.txn.begin(10);
    assert_eq!(t.get(&mut c, b"b").unwrap(), b"2");
    assert_eq!(c.store.check(CheckRequest { key: b"b".to_vec(), lock_ts: 3 }), Some(4));
    c.store.rollback(RollbackRequest { key: b"b".to_vec(), start_ts: 3 }).unwrap();
    assert_eq!(t.get(&mut c, b"b").unwrap(), b"2");
}

#[test]
fn commit_hooks_drop_what_they_are_told() {
    let primary = CommitRequest { is_primary: true, key: b"a".to_vec(), start_ts: 1, commit_ts: 2 };
    let secondary = CommitRequest { is_primary: false, key: b"b".to_vec(), start_ts: 1, commit_ts: 2 };
    let mut h = CommitHooks::default();
    assert!(h.hook_req(&primary) && h.hook_req(&secondary) && h.hook_rsp(&Ok(())));
    h.drop_req = true;
    assert!(h.hook_req(&primary));
    assert!(!h.hook_req(&secondary));
    h.fail_primary = true;
    assert!(!h.hook_req(&primary));
    h.drop_resp = true;
    assert!(!h.hook_rsp(&Ok(())));
}
