use percolator::client::Transaction;
use percolator::msg::{CommitError, GetError, PrewriteError};
use percolator::protocol::{
    CommitEvent, CommitPhase, CommitStep, Committer, ReadEvent, ReadPhase, ReadStep, Reader, Retry,
    BACKOFF_MS, RETRY_TIMES,
};

#[test]
fn retry_doubles_timeout_three_attempts() {
    let mut r = Retry::new();
    let mut timeouts = vec![r.timeout_ms()];
    while r.on_failure() {
        timeouts.push(r.timeout_ms());
    }
    assert_eq!(timeouts, vec![100, 200, 400]);
    assert_eq!(timeouts.len(), RETRY_TIMES);
    assert!(!r.on_failure());
}

#[test]
fn set_keeps_keys_sorted_and_overwrites() {
    let mut t = Transaction::new();
    t.begin(7);
    t.set(b"5", b"50");
    t.set(b"3", b"30");
    t.set(b"4", b"40");
    t.set(b"3", b"33");
    let got: Vec<(Vec<u8>, Vec<u8>)> =
        (0..t.len()).map(|i| (t.write_at(i).key.clone(), t.write_at(i).value.clone())).collect();
    assert_eq!(
        got,
        vec![(b"3".to_vec(), b"33".to_vec()), (b"4".to_vec(), b"40".to_vec()), (b"5".to_vec(), b"50".to_vec())]
    );
    assert_eq!(t.start_ts(), Some(7));
}

fn three_key_txn() -> Transaction {
    let mut t = Transaction::new();
    t.begin(10);
    t.set(b"b", b"2");
    t.set(b"a", b"1");
    t.set(b"c", b"3");
    t
}

#[test]
fn committer_prewrites_then_commits_primary_first() {
    let t = three_key_txn();
    let (mut c, step) = Committer::start(&t);
    assert!(matches!(step, CommitStep::GetTimestamp));
    let mut step = c.step(&t, CommitEvent::Timestamp(11));
    let mut prewrites = vec![];
    while let CommitStep::Prewrite(req) = step {
        assert_eq!(req.start_ts, 10);
        assert_eq!(req.primary_key, b"a");
        prewrites.push(req.key.clone());
        step = c.step(&t, CommitEvent::Prewritten(Ok(())));
    }
    assert_eq!(prewrites, vec![b"a".to_vec(), b"b".to_vec(), b"c".to_vec()]);
    let mut commits = vec![];
    while let CommitStep::Commit(req) = step {
        assert_eq!((req.start_ts, req.commit_ts), (10, 11));
        commits.push((req.key.clone(), req.is_primary));
        step = c.step(&t, CommitEvent::Committed(Ok(())));
    }
    assert_eq!(commits, vec![(b"a".to_vec(), true), (b"b".to_vec(), false), (b"c".to_vec(), false)]);
    assert!(matches!(step, CommitStep::Done(true)));
    assert!(matches!(c.phase, CommitPhase::Finished));
}

#[test]
fn committer_aborts_on_prewrite_error() {
    let t = three_key_txn();
    let (mut c, _) = Committer::start(&t);
    c.step(&t, CommitEvent::Timestamp(11));
    c.step(&t, CommitEvent::Prewritten(Ok(())));
    let step = c.step(&t, CommitEvent::Prewritten(Err(PrewriteError::WriteConflict { ts: 12 })));
    assert!(matches!(step, CommitStep::Done(false)));
    let (mut c, _) = Committer::start(&t);
    c.step(&t, CommitEvent::Timestamp(11));
    let step = c.step(&t, CommitEvent::Prewritten(Err(PrewriteError::IsLocked { ts: 9 })));
    assert!(matches!(step, CommitStep::Done(false)));
}

fn to_commit_phase(t: &Transaction) -> Committer {
    let (mut c, _) = Committer::start(t);
    let mut step = c.step(t, CommitEvent::Timestamp(11));
    while let CommitStep::Prewrite(_) = step {
        step = c.step(t, CommitEvent::Prewritten(Ok(())));
    }
    c
}

#[test]
fn committer_primary_failure_consults_primary() {
    let t = three_key_txn();
    let mut c = to_commit_phase(&t);
    let step = c.step(&t, CommitEvent::TransportError);
    match step {
        CommitStep::Check(req) => {
            assert_eq!(req.key, b"a");
            assert_eq!(req.lock_ts, 10);
        }
        _ => panic!("expected a check of the primary"),
    }
    let mut c2 = to_commit_phase(&t);
    c2.step(&t, CommitEvent::TransportError);
    assert!(matches!(c2.step(&t, CommitEvent::Checked(None)), CommitStep::Done(false)));
    assert!(matches!(c.step(&t, CommitEvent::Checked(Some(11))), CommitStep::Failed));
}

#[test]
fn committer_secondary_failure_still_commits() {
    let t = three_key_txn();
    let mut c = to_commit_phase(&t);
    c.step(&t, CommitEvent::Committed(Ok(())));
    assert!(matches!(c.step(&t, CommitEvent::TransportError), CommitStep::Done(true)));
    let mut c = to_commit_phase(&t);
    assert!(matches!(c.step(&t, CommitEvent::Committed(Err(CommitError {}))), CommitStep::Done(true)));
}

#[test]
fn committer_fails_on_transport_error_before_commit_phase() {
    let t = three_key_txn();
    let (mut c, _) = Committer::start(&t);
    assert!(matches!(c.step(&t, CommitEvent::TransportError), CommitStep::Failed));
    let (mut c, _) = Committer::start(&t);
    c.step(&t, CommitEvent::Timestamp(11));
    assert!(matches!(c.step(&t, CommitEvent::TransportError), CommitStep::Failed));
}

#[test]
fn reader_recovers_lock_by_rolling_forward() {
    let (mut r, step) = Reader::start(20, b"s");
    match step {
        ReadStep::Get(req) => assert_eq!((req.start_ts, req.key), (20, b"s".to_vec())),
        _ => panic!("expected a get"),
    }
    let step = r.step(ReadEvent::Got(Err(GetError::IsLocked { ts: 15, primary: b"p".to_vec() })));
    assert!(matches!(step, ReadStep::Wait(BACKOFF_MS)));
    assert_eq!(BACKOFF_MS, 100);
    match r.step(ReadEvent::Woke) {
        ReadStep::Check(req) => assert_eq!((req.key, req.lock_ts), (b"p".to_vec(), 15)),
        _ => panic!("expected a check"),
    }
    match r.step(ReadEvent::Checked(Some(17))) {
        ReadStep::Commit(req) => {
            assert_eq!(req.key, b"s");
            assert_eq!((req.start_ts, req.commit_ts, req.is_primary), (15, 17, false));
        }
        _ => panic!("expected a commit"),
    }
    assert!(matches!(r.step(ReadEvent::Resolved), ReadStep::Get(_)));
    match r.step(ReadEvent::Got(Ok(Some(b"v".to_vec())))) {
        ReadStep::Done(v) => assert_eq!(v, b"v"),
        _ => panic!("expected done"),
    }
    assert!(matches!(r.phase, ReadPhase::Finished));
}

#[test]
fn reader_recovers_lock_by_rolling_back() {
    let (mut r, _) = Reader::start(20, b"p");
    r.step(ReadEvent::Got(Err(GetError::IsLocked { ts: 15, primary: b"p".to_vec() })));
    r.step(ReadEvent::Woke);
    match r.step(ReadEvent::Checked(None)) {
        ReadStep::Rollback(req) => assert_eq!((req.key, req.start_ts), (b"p".to_vec(), 15)),
        _ => panic!("expected a rollback"),
    }
    r.step(ReadEvent::Resolved);
    match r.step(ReadEvent::Got(Ok(None))) {
        ReadStep::Done(v) => assert!(v.is_empty()),
        _ => panic!("expected done"),
    }
}

#[test]
fn reader_commit_of_primary_is_marked_primary() {
    let (mut r, _) = Reader::start(20, b"p");
    r.step(ReadEvent::Got(Err(GetError::IsLocked { ts: 15, primary: b"p".to_vec() })));
    r.step(ReadEvent::Woke);
    match r.step(ReadEvent::Checked(Some(16))) {
        ReadStep::Commit(req) => assert!(req.is_primary),
        _ => panic!("expected a commit"),
    }
}

#[test]
fn reader_fails_on_transport_error() {
    let (mut r, _) = Reader::start(20, b"k");
    assert!(matches!(r.step(ReadEvent::TransportError), ReadStep::Failed));
}

