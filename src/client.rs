//! The client's side of a transaction: its start timestamp, its buffered
//! writes in key order, and the decisions of the commit and read protocols.
use vstd::prelude::*;

use crate::bytes::{
    bytes_lt, compare_bytes, lemma_bytes_lt_irreflexive, lemma_bytes_lt_total,
    lemma_bytes_lt_transitive,
};

verus! {

/// A buffered write.
pub struct BufferedWrite {
    pub key: Vec<u8>,
    pub value: Vec<u8>,
}

/// The keys of `s` are strictly increasing.
pub open spec fn keys_sorted(s: Seq<(Seq<u8>, Seq<u8>)>) -> bool {
    forall|i: int, j: int| 0 <= i < j < s.len() ==> bytes_lt(#[trigger] s[i].0, #[trigger] s[j].0)
}

pub open spec fn has_entry(s: Seq<(Seq<u8>, Seq<u8>)>, k: Seq<u8>) -> bool {
    exists|i: int| 0 <= i < s.len() && #[trigger] s[i].0 == k
}

/// The buffer as a map from key to value.
pub open spec fn buffered(s: Seq<(Seq<u8>, Seq<u8>)>) -> Map<Seq<u8>, Seq<u8>> {
    Map::new(
        |k: Seq<u8>| has_entry(s, k),
        |k: Seq<u8>| s[choose|i: int| 0 <= i < s.len() && #[trigger] s[i].0 == k].1,
    )
}

proof fn lemma_buffered_at(s: Seq<(Seq<u8>, Seq<u8>)>, i: int)
    requires
        keys_sorted(s),
        0 <= i < s.len(),
    ensures
        buffered(s).contains_key(s[i].0),
        buffered(s)[s[i].0] == s[i].1,
{
    assert(has_entry(s, s[i].0));
    let j = choose|j: int| 0 <= j < s.len() && #[trigger] s[j].0 == s[i].0;
    if j != i {
        lemma_bytes_lt_irreflexive(s[i].0);
    }
}

/// One client transaction: the start timestamp, once begun, and the writes
/// buffered until commit, ordered by key.
pub struct Transaction {
    start_ts: Option<u64>,
    writes: Vec<BufferedWrite>,
}

impl Transaction {
    /// The start timestamp, once the transaction has begun.
    pub closed spec fn start(&self) -> Option<u64> {
        self.start_ts
    }

    /// The buffered writes, in increasing key order.
    pub closed spec fn writes(&self) -> Seq<(Seq<u8>, Seq<u8>)> {
        self.writes@.map_values(|w: BufferedWrite| (w.key@, w.value@))
    }

    pub open spec fn wf(&self) -> bool {
        keys_sorted(self.writes())
    }

    pub fn new() -> (r: Self)
        ensures
            r.wf(),
            r.start() is None,
            r.writes() == Seq::<(Seq<u8>, Seq<u8>)>::empty(),
    {
        let r = Transaction { start_ts: None, writes: Vec::new() };
        assert(r.writes() =~= Seq::<(Seq<u8>, Seq<u8>)>::empty());
        r
    }

    pub fn start_ts(&self) -> (r: Option<u64>)
        ensures
            r == self.start(),
    {
        self.start_ts
    }

    /// Begins the transaction at `start_ts` with an empty buffer.
    pub fn begin(&mut self, start_ts: u64)
        requires
            old(self).start() is None,
        ensures
            final(self).wf(),
            final(self).start() == Some(start_ts),
            final(self).writes() == Seq::<(Seq<u8>, Seq<u8>)>::empty(),
    {
        self.start_ts = Some(start_ts);
        self.writes.clear();
        assert(self.writes() =~= Seq::<(Seq<u8>, Seq<u8>)>::empty());
    }

    /// The number of buffered writes.
    pub fn len(&self) -> (r: usize)
        ensures
            r == self.writes().len(),
    {
        self.writes.len()
    }

    /// The buffered write at position `i`, in key order.
    pub fn write_at(&self, i: usize) -> (r: &BufferedWrite)
        requires
            i < self.writes().len(),
        ensures
            (r.key@, r.value@) == self.writes()[i as int],
    {
        &self.writes[i]
    }

    /// Buffers `value` for `key`, replacing an earlier value for it.
    pub fn set(&mut self, key: &[u8], value: &[u8])
        requires
            old(self).wf(),
        ensures
            final(self).wf(),
            final(self).start() == old(self).start(),
            buffered(final(self).writes()) == buffered(old(self).writes()).insert(key@, value@),
    {
        let ghost s = self.writes();
        let n = self.writes.len();
        let mut i: usize = 0;
        let mut scanning = true;
        while scanning && i < n
            invariant
                n == self.writes@.len(),
                s == self.writes(),
                s == old(self).writes(),
                keys_sorted(s),
                self.start() == old(self).start(),
                i <= n,
                forall|j: int| 0 <= j < i ==> bytes_lt(#[trigger] s[j].0, key@),
                !scanning ==> i < n && bytes_lt(key@, s[i as int].0),
            decreases n - i + if scanning { 1int } else { 0int },
        {
            match compare_bytes(self.writes[i].key.as_slice(), key) {
                core::cmp::Ordering::Less => {
                    i += 1;
                },
                core::cmp::Ordering::Equal => {
                    assert(s[i as int].0 == key@);
                    let w = BufferedWrite { key: vstd::slice::slice_to_vec(key), value: vstd::slice::slice_to_vec(value) };
                    self.writes.set(i, w);
                    proof {
                        let ns = self.writes();
                        assert(ns =~= s.update(i as int, (key@, value@)));
                        assert(forall|j: int| 0 <= j < ns.len() ==> #[trigger] ns[j].0 == s[j].0);
                        assert(keys_sorted(ns));
                        assert forall|k: Seq<u8>| has_entry(ns, k) <==> has_entry(s, k) by {
                            if has_entry(ns, k) {
                                let j = choose|j: int| 0 <= j < ns.len() && #[trigger] ns[j].0 == k;
                                assert(s[j].0 == k);
                            }
                            if has_entry(s, k) {
                                let j = choose|j: int| 0 <= j < s.len() && #[trigger] s[j].0 == k;
                                assert(ns[j].0 == k);
                            }
                        }
                        assert forall|k: Seq<u8>| has_entry(ns, k) implies buffered(ns)[k] == buffered(s).insert(key@, value@)[k] by {
                            let j = choose|j: int| 0 <= j < ns.len() && #[trigger] ns[j].0 == k;
                            lemma_buffered_at(ns, j);
                            lemma_buffered_at(s, j);
                            lemma_bytes_lt_irreflexive(key@);
                            if j != i {
                                assert(bytes_lt(s[j].0, s[i as int].0) || bytes_lt(s[i as int].0, s[j].0));
                            }
                        }
                        lemma_buffered_at(s, i as int);
                        assert(buffered(ns) =~= buffered(s).insert(key@, value@));
                    }
                    return;
                },
                core::cmp::Ordering::Greater => {
                    scanning = false;
                },
            }
        }
        proof {
            assert forall|j: int| i <= j < s.len() implies bytes_lt(key@, #[trigger] s[j].0) by {
                assert(bytes_lt(key@, s[i as int].0));
                if j > i {
                    lemma_bytes_lt_transitive(key@, s[i as int].0, s[j].0);
                }
            }
        }
        let w = BufferedWrite { key: vstd::slice::slice_to_vec(key), value: vstd::slice::slice_to_vec(value) };
        self.writes.insert(i, w);
        proof {
            let ns = self.writes();
            assert(ns =~= s.insert(i as int, (key@, value@)));
            assert forall|a: int, b: int| 0 <= a < b < ns.len() implies bytes_lt(#[trigger] ns[a].0, #[trigger] ns[b].0) by {
                if b < i {
                    assert(bytes_lt(s[a].0, s[b].0));
                } else if b == i {
                } else if a < i {
                    lemma_bytes_lt_transitive(s[a].0, key@, s[b - 1].0);
                } else if a == i {
                } else {
                    assert(bytes_lt(s[a - 1].0, s[b - 1].0));
                }
            }
            assert forall|k: Seq<u8>| has_entry(ns, k) <==> (has_entry(s, k) || k == key@) by {
                if has_entry(ns, k) {
                    let j = choose|j: int| 0 <= j < ns.len() && #[trigger] ns[j].0 == k;
                    if j < i {
                        assert(s[j].0 == k);
                    } else if j > i {
                        assert(s[j - 1].0 == k);
                    }
                }
                if has_entry(s, k) {
                    let j = choose|j: int| 0 <= j < s.len() && #[trigger] s[j].0 == k;
                    if j < i {
                        assert(ns[j].0 == k);
                    } else {
                        assert(ns[j + 1].0 == k);
                    }
                }
                if k == key@ {
                    assert(ns[i as int].0 == k);
                }
            }
            assert forall|k: Seq<u8>| has_entry(ns, k) implies buffered(ns)[k] == buffered(s).insert(key@, value@)[k] by {
                let j = choose|j: int| 0 <= j < ns.len() && #[trigger] ns[j].0 == k;
                lemma_buffered_at(ns, j);
                lemma_bytes_lt_irreflexive(key@);
                if j < i {
                    lemma_buffered_at(s, j);
                } else if j > i {
                    lemma_buffered_at(s, j - 1);
                }
            }
            assert(buffered(ns) =~= buffered(s).insert(key@, value@));
        }
    }
}

} // verus!
