//! An ordered map from `(raw key, timestamp)` to a cell value, kept as a
//! vector sorted by raw key and then by timestamp.
use vstd::prelude::*;

use vstd::slice::slice_to_vec;

use crate::bytes::{
    bytes_lt, compare_bytes, lemma_bytes_lt_asymmetric, lemma_bytes_lt_irreflexive,
    lemma_bytes_lt_total, lemma_bytes_lt_transitive,
};

verus! {

/// What a cell of the store holds: a timestamp pointer or a byte payload.
#[derive(Clone, PartialEq)]
pub enum Value {
    Timestamp(u64),
    Vector(Vec<u8>),
}

/// The mathematical content of a [`Value`].
pub enum CellValue {
    Timestamp(u64),
    Vector(Seq<u8>),
}

impl View for Value {
    type V = CellValue;

    open spec fn view(&self) -> CellValue {
        match self {
            Value::Timestamp(t) => CellValue::Timestamp(*t),
            Value::Vector(b) => CellValue::Vector(b@),
        }
    }
}

impl Value {
    /// The payload of a byte cell.
    pub fn as_bytes(&self) -> (r: &[u8])
        requires
            self is Vector,
        ensures
            self@ == CellValue::Vector(r@),
    {
        match self {
            Value::Vector(bytes) => bytes.as_slice(),
            Value::Timestamp(_) => {
                proof {
                    assert(false);
                }
                &[]
            },
        }
    }

    /// A copy of the value.
    pub fn duplicate(&self) -> (r: Value)
        ensures
            r@ == self@,
    {
        match self {
            Value::Timestamp(ts) => Value::Timestamp(*ts),
            Value::Vector(bytes) => Value::Vector(slice_to_vec(bytes.as_slice())),
        }
    }

    /// The pointer of a timestamp cell.
    pub fn as_ts(&self) -> (r: u64)
        requires
            self is Timestamp,
        ensures
            self@ == CellValue::Timestamp(r),
    {
        match self {
            Value::Timestamp(ts) => *ts,
            Value::Vector(_) => {
                proof {
                    assert(false);
                }
                0
            },
        }
    }
}

/// A composite key: a raw key and a timestamp.
pub type VersionKey = (Seq<u8>, u64);

/// Composite keys ordered by raw key, then by timestamp.
pub open spec fn key_lt(a: VersionKey, b: VersionKey) -> bool {
    bytes_lt(a.0, b.0) || (a.0 == b.0 && a.1 < b.1)
}

pub proof fn lemma_key_lt_irreflexive(a: VersionKey)
    ensures
        !key_lt(a, a),
{
    lemma_bytes_lt_irreflexive(a.0);
}

pub proof fn lemma_key_lt_transitive(a: VersionKey, b: VersionKey, c: VersionKey)
    requires
        key_lt(a, b),
        key_lt(b, c),
    ensures
        key_lt(a, c),
{
    if bytes_lt(a.0, b.0) && bytes_lt(b.0, c.0) {
        lemma_bytes_lt_transitive(a.0, b.0, c.0);
    }
}

pub proof fn lemma_key_lt_total(a: VersionKey, b: VersionKey)
    ensures
        a == b || key_lt(a, b) || key_lt(b, a),
{
    lemma_bytes_lt_total(a.0, b.0);
}

pub proof fn lemma_key_lt_asymmetric(a: VersionKey, b: VersionKey)
    ensures
        !(key_lt(a, b) && key_lt(b, a)),
{
    lemma_bytes_lt_asymmetric(a.0, b.0);
    lemma_bytes_lt_irreflexive(a.0);
}

/// One stored cell.
pub struct Cell {
    pub key: Vec<u8>,
    pub ts: u64,
    pub value: Value,
}

pub open spec fn cell_key(c: Cell) -> VersionKey {
    (c.key@, c.ts)
}

/// `t` is a version of `k` within `[lo, hi]` present in `m`.
pub open spec fn in_range(m: Map<VersionKey, CellValue>, k: Seq<u8>, lo: u64, hi: u64, t: u64) -> bool {
    m.contains_key((k, t)) && lo <= t <= hi
}

/// `t` is the greatest version of `k` within `[lo, hi]` present in `m`.
pub open spec fn is_latest(m: Map<VersionKey, CellValue>, k: Seq<u8>, lo: u64, hi: u64, t: u64) -> bool {
    &&& in_range(m, k, lo, hi, t)
    &&& forall|t2: u64| #[trigger] in_range(m, k, lo, hi, t2) ==> t2 <= t
}

/// The greatest version of `k` within `[lo, hi]`, if there is one.
pub open spec fn latest_version(m: Map<VersionKey, CellValue>, k: Seq<u8>, lo: u64, hi: u64) -> Option<u64> {
    if exists|t: u64| is_latest(m, k, lo, hi, t) {
        Some(choose|t: u64| is_latest(m, k, lo, hi, t))
    } else {
        None
    }
}

/// A version within a range means there is a greatest one.
pub proof fn lemma_latest_version_exists(m: Map<VersionKey, CellValue>, k: Seq<u8>, lo: u64, hi: u64, t: u64)
    requires
        in_range(m, k, lo, hi, t),
    ensures
        latest_version(m, k, lo, hi) matches Some(l) && is_latest(m, k, lo, hi, l),
    decreases hi - lo,
{
    if in_range(m, k, lo, hi, hi) {
        assert(is_latest(m, k, lo, hi, hi));
    } else {
        lemma_latest_version_exists(m, k, lo, (hi - 1) as u64, t);
        let l = latest_version(m, k, lo, (hi - 1) as u64)->Some_0;
        assert forall|t2: u64| #[trigger] in_range(m, k, lo, hi, t2) implies t2 <= l by {
            assert(in_range(m, k, lo, (hi - 1) as u64, t2));
        }
        assert(is_latest(m, k, lo, hi, l));
    }
}

/// The greatest version is unique.
pub proof fn lemma_latest_version_unique(m: Map<VersionKey, CellValue>, k: Seq<u8>, lo: u64, hi: u64, t: u64)
    requires
        is_latest(m, k, lo, hi, t),
    ensures
        latest_version(m, k, lo, hi) == Some(t),
{
    let c = choose|t: u64| is_latest(m, k, lo, hi, t);
    assert(c <= t && t <= c);
}

/// At timestamp `c` the version of `k` in `m` is the pointer `s`.
pub open spec fn points_to(m: Map<VersionKey, CellValue>, k: Seq<u8>, c: u64, s: u64) -> bool {
    m.contains_key((k, c)) && m[(k, c)] == CellValue::Timestamp(s)
}

spec fn sorted(s: Seq<Cell>) -> bool {
    forall|i: int, j: int| 0 <= i < j < s.len() ==> key_lt(#[trigger] cell_key(s[i]), #[trigger] cell_key(s[j]))
}

spec fn has_key(s: Seq<Cell>, k: VersionKey) -> bool {
    exists|i: int| 0 <= i < s.len() && #[trigger] cell_key(s[i]) == k
}

spec fn cells_map(s: Seq<Cell>) -> Map<VersionKey, CellValue> {
    Map::new(
        |k: VersionKey| has_key(s, k),
        |k: VersionKey| s[choose|i: int| 0 <= i < s.len() && #[trigger] cell_key(s[i]) == k].value@,
    )
}

proof fn lemma_map_at(s: Seq<Cell>, i: int)
    requires
        sorted(s),
        0 <= i < s.len(),
    ensures
        cells_map(s).contains_key(cell_key(s[i])),
        cells_map(s)[cell_key(s[i])] == s[i].value@,
{
    let k = cell_key(s[i]);
    assert(has_key(s, k));
    let j = choose|j: int| 0 <= j < s.len() && #[trigger] cell_key(s[j]) == k;
    if j != i {
        lemma_key_lt_irreflexive(k);
    }
}

/// `c` comes before the target `t` (or is it, when `inclusive`).
spec fn before(c: VersionKey, t: VersionKey, inclusive: bool) -> bool {
    key_lt(c, t) || (inclusive && c == t)
}

proof fn lemma_before_down(a: VersionKey, b: VersionKey, t: VersionKey, inclusive: bool)
    requires
        key_lt(a, b),
        before(b, t, inclusive),
    ensures
        before(a, t, inclusive),
{
    if key_lt(b, t) {
        lemma_key_lt_transitive(a, b, t);
    }
}

/// Compares a cell's composite key with `(key, ts)`.
fn compare_cell(c: &Cell, key: &[u8], ts: u64) -> (r: core::cmp::Ordering)
    ensures
        r == core::cmp::Ordering::Less <==> key_lt(cell_key(*c), (key@, ts)),
        r == core::cmp::Ordering::Equal <==> cell_key(*c) == (key@, ts),
        r == core::cmp::Ordering::Greater <==> key_lt((key@, ts), cell_key(*c)),
{
    proof {
        lemma_key_lt_asymmetric(cell_key(*c), (key@, ts));
        lemma_key_lt_irreflexive((key@, ts));
    }
    match compare_bytes(c.key.as_slice(), key) {
        core::cmp::Ordering::Less => core::cmp::Ordering::Less,
        core::cmp::Ordering::Greater => core::cmp::Ordering::Greater,
        core::cmp::Ordering::Equal => {
            if c.ts < ts {
                core::cmp::Ordering::Less
            } else if c.ts == ts {
                core::cmp::Ordering::Equal
            } else {
                core::cmp::Ordering::Greater
            }
        },
    }
}

/// An ordered map of versioned cells.
pub struct VersionMap {
    cells: Vec<Cell>,
}

impl View for VersionMap {
    type V = Map<VersionKey, CellValue>;

    closed spec fn view(&self) -> Map<VersionKey, CellValue> {
        cells_map(self.cells@)
    }
}

impl VersionMap {
    /// The cells in increasing order of composite key.
    pub closed spec fn cells(&self) -> Seq<Cell> {
        self.cells@
    }

    /// The cells are strictly ordered by composite key.
    pub closed spec fn wf(&self) -> bool {
        sorted(self.cells@)
    }

    pub fn new() -> (r: Self)
        ensures
            r.wf(),
            r@ == Map::<VersionKey, CellValue>::empty(),
    {
        let r = VersionMap { cells: Vec::new() };
        assert(r@ =~= Map::<VersionKey, CellValue>::empty());
        r
    }

    /// The cells are in increasing order, and their keys are the map's keys.
    pub proof fn lemma_cells(&self)
        requires
            self.wf(),
        ensures
            forall|i: int, j: int|
                0 <= i < j < self.cells().len() ==> key_lt(#[trigger] cell_key(self.cells()[i]), #[trigger] cell_key(self.cells()[j])),
            forall|k: VersionKey|
                self@.contains_key(k) <==> exists|i: int| 0 <= i < self.cells().len() && #[trigger] cell_key(self.cells()[i]) == k,
    {
        assert forall|k: VersionKey|
            self@.contains_key(k) <==> exists|i: int| 0 <= i < self.cells().len() && #[trigger] cell_key(self.cells()[i]) == k by {
            if self@.contains_key(k) {
                let i = choose|i: int| 0 <= i < self.cells@.len() && #[trigger] cell_key(self.cells@[i]) == k;
                assert(cell_key(self.cells()[i]) == k);
            }
            if exists|i: int| 0 <= i < self.cells().len() && #[trigger] cell_key(self.cells()[i]) == k {
                let i = choose|i: int| 0 <= i < self.cells().len() && #[trigger] cell_key(self.cells()[i]) == k;
                assert(cell_key(self.cells@[i]) == k);
            }
        }
    }

    /// The number of cells.
    pub fn len(&self) -> (r: usize)
        ensures
            r == self.cells().len(),
    {
        self.cells.len()
    }

    /// The `i`-th cell in increasing order of composite key.
    pub fn cell_at(&self, i: usize) -> (r: &Cell)
        requires
            self.wf(),
            i < self.cells().len(),
        ensures
            *r == self.cells()[i as int],
            self@.contains_key(cell_key(*r)),
            self@[cell_key(*r)] == r.value@,
    {
        proof {
            lemma_map_at(self.cells@, i as int);
        }
        &self.cells[i]
    }

    /// The number of cells before `(key, ts)` (or up to it, when `inclusive`).
    fn partition(&self, key: &[u8], ts: u64, inclusive: bool) -> (p: usize)
        requires
            self.wf(),
        ensures
            p <= self.cells@.len(),
            forall|i: int| 0 <= i < p ==> before(#[trigger] cell_key(self.cells@[i]), (key@, ts), inclusive),
            forall|i: int| p <= i < self.cells@.len() ==> !before(#[trigger] cell_key(self.cells@[i]), (key@, ts), inclusive),
    {
        let ghost t = (key@, ts);
        let mut lo: usize = 0;
        let mut hi: usize = self.cells.len();
        while lo < hi
            invariant
                self.wf(),
                t == (key@, ts),
                lo <= hi <= self.cells@.len(),
                forall|i: int| 0 <= i < lo ==> before(#[trigger] cell_key(self.cells@[i]), t, inclusive),
                forall|i: int| hi <= i < self.cells@.len() ==> !before(#[trigger] cell_key(self.cells@[i]), t, inclusive),
            decreases hi - lo,
        {
            let mid: usize = lo + (hi - lo) / 2;
            let c = &self.cells[mid];
            let ord = compare_cell(c, key, ts);
            let b = match ord {
                core::cmp::Ordering::Less => true,
                core::cmp::Ordering::Equal => inclusive,
                core::cmp::Ordering::Greater => false,
            };
            let ghost m = cell_key(self.cells@[mid as int]);
            if b {
                assert(before(m, t, inclusive));
                assert forall|i: int| 0 <= i < mid + 1 implies before(#[trigger] cell_key(self.cells@[i]), t, inclusive) by {
                    if i < mid {
                        lemma_before_down(cell_key(self.cells@[i]), m, t, inclusive);
                    }
                }
                lo = mid + 1;
            } else {
                assert(!before(m, t, inclusive));
                assert forall|i: int| mid <= i < self.cells@.len() implies !before(#[trigger] cell_key(self.cells@[i]), t, inclusive) by {
                    if mid < i && before(cell_key(self.cells@[i]), t, inclusive) {
                        lemma_before_down(m, cell_key(self.cells@[i]), t, inclusive);
                    }
                }
                hi = mid;
            }
        }
        lo
    }

    /// The greatest version of `key` whose timestamp lies in `[lo, hi]`.
    pub fn latest(&self, key: &[u8], lo: u64, hi: u64) -> (r: Option<(u64, &Value)>)
        requires
            self.wf(),
        ensures
            match r {
                Some((t, v)) => {
                    &&& is_latest(self@, key@, lo, hi, t)
                    &&& latest_version(self@, key@, lo, hi) == Some(t)
                    &&& self@[(key@, t)] == v@
                },
                None => {
                    &&& forall|t: u64| !#[trigger] in_range(self@, key@, lo, hi, t)
                    &&& latest_version(self@, key@, lo, hi) is None
                },
            },
    {
        let p = self.partition(key, hi, true);
        let ghost s = self.cells@;
        if p > 0 {
            let c = &self.cells[p - 1];
            if matches!(compare_bytes(c.key.as_slice(), key), core::cmp::Ordering::Equal) && lo <= c.ts {
                proof {
                    lemma_map_at(s, p - 1);
                    assert forall|t2: u64| #[trigger] in_range(self@, key@, lo, hi, t2) implies t2 <= c.ts by {
                        let j = choose|j: int| 0 <= j < s.len() && #[trigger] cell_key(s[j]) == (key@, t2);
                        if j >= p {
                            assert(!before(cell_key(s[j]), (key@, hi), true));
                        } else if j < p - 1 {
                            assert(key_lt(cell_key(s[j]), cell_key(s[p - 1])));
                            lemma_bytes_lt_irreflexive(key@);
                        }
                    }
                    lemma_latest_version_unique(self@, key@, lo, hi, c.ts);
                }
                return Some((c.ts, &c.value));
            }
        }
        proof {
            assert forall|t: u64| !#[trigger] in_range(self@, key@, lo, hi, t) by {
                if in_range(self@, key@, lo, hi, t) {
                    let j = choose|j: int| 0 <= j < s.len() && #[trigger] cell_key(s[j]) == (key@, t);
                    if j >= p {
                        assert(!before(cell_key(s[j]), (key@, hi), true));
                    } else if j < p - 1 {
                        let l = cell_key(s[p - 1]);
                        assert(key_lt(cell_key(s[j]), l));
                        assert(before(l, (key@, hi), true));
                        lemma_bytes_lt_irreflexive(key@);
                        if l.0 != key@ {
                            lemma_bytes_lt_asymmetric(key@, l.0);
                        }
                    }
                }
            }
        }
        None
    }

    /// Inserts or overwrites the cell at `(key, ts)`.
    pub fn insert(&mut self, key: Vec<u8>, ts: u64, value: Value)
        requires
            old(self).wf(),
        ensures
            final(self).wf(),
            final(self)@ == old(self)@.insert((key@, ts), value@),
    {
        let p = self.partition(key.as_slice(), ts, false);
        let ghost s = self.cells@;
        let ghost k = (key@, ts);
        let ghost v = value@;
        if p < self.cells.len() && matches!(compare_cell(&self.cells[p], key.as_slice(), ts), core::cmp::Ordering::Equal) {
            self.cells.set(p, Cell { key, ts, value });
            proof {
                let ns = self.cells@;
                assert(forall|i: int| 0 <= i < ns.len() ==> #[trigger] cell_key(ns[i]) == cell_key(s[i]));
                assert(sorted(ns));
                assert forall|k2: VersionKey| has_key(ns, k2) <==> has_key(s, k2) by {
                    if has_key(ns, k2) {
                        let j = choose|j: int| 0 <= j < ns.len() && #[trigger] cell_key(ns[j]) == k2;
                        assert(cell_key(s[j]) == k2);
                    }
                    if has_key(s, k2) {
                        let j = choose|j: int| 0 <= j < s.len() && #[trigger] cell_key(s[j]) == k2;
                        assert(cell_key(ns[j]) == k2);
                    }
                }
                assert forall|k2: VersionKey| has_key(ns, k2) implies cells_map(ns)[k2] == cells_map(s).insert(k, v)[k2] by {
                    let j = choose|j: int| 0 <= j < ns.len() && #[trigger] cell_key(ns[j]) == k2;
                    lemma_map_at(ns, j);
                    lemma_map_at(s, j);
                }
                lemma_map_at(s, p as int);
                assert(cells_map(ns) =~= cells_map(s).insert(k, v));
            }
        } else {
            proof {
                if p < s.len() {
                    lemma_key_lt_total(cell_key(s[p as int]), k);
                }
                assert forall|i: int| p <= i < s.len() implies key_lt(k, #[trigger] cell_key(s[i])) by {
                    lemma_key_lt_total(cell_key(s[p as int]), k);
                    if i > p {
                        lemma_key_lt_transitive(k, cell_key(s[p as int]), cell_key(s[i]));
                    }
                }
            }
            self.cells.insert(p, Cell { key, ts, value });
            proof {
                let ns = self.cells@;
                assert(cell_key(ns[p as int]) == k);
                assert forall|i: int, j: int| 0 <= i < j < ns.len() implies key_lt(#[trigger] cell_key(ns[i]), #[trigger] cell_key(ns[j])) by {
                    if j < p {
                        assert(key_lt(cell_key(s[i]), cell_key(s[j])));
                    } else if j == p {
                        assert(before(cell_key(s[i]), k, false));
                    } else if i < p {
                        assert(key_lt(cell_key(s[i]), cell_key(s[j - 1])));
                    } else if i == p {
                        assert(key_lt(k, cell_key(s[j - 1])));
                    } else {
                        assert(key_lt(cell_key(s[i - 1]), cell_key(s[j - 1])));
                    }
                }
                assert(sorted(ns));
                assert forall|k2: VersionKey| has_key(ns, k2) <==> (has_key(s, k2) || k2 == k) by {
                    if has_key(ns, k2) {
                        let j = choose|j: int| 0 <= j < ns.len() && #[trigger] cell_key(ns[j]) == k2;
                        if j < p {
                            assert(cell_key(s[j]) == k2);
                        } else if j > p {
                            assert(cell_key(s[j - 1]) == k2);
                        }
                    }
                    if has_key(s, k2) {
                        let j = choose|j: int| 0 <= j < s.len() && #[trigger] cell_key(s[j]) == k2;
                        if j < p {
                            assert(cell_key(ns[j]) == k2);
                        } else {
                            assert(cell_key(ns[j + 1]) == k2);
                        }
                    }
                    if k2 == k {
                        assert(cell_key(ns[p as int]) == k2);
                    }
                }
                assert forall|k2: VersionKey| has_key(ns, k2) implies cells_map(ns)[k2] == cells_map(s).insert(k, v)[k2] by {
                    let j = choose|j: int| 0 <= j < ns.len() && #[trigger] cell_key(ns[j]) == k2;
                    lemma_map_at(ns, j);
                    if j < p {
                        lemma_map_at(s, j);
                        lemma_key_lt_irreflexive(k);
                    } else if j > p {
                        lemma_map_at(s, j - 1);
                        lemma_key_lt_irreflexive(k);
                    }
                }
                assert(cells_map(ns) =~= cells_map(s).insert(k, v));
            }
        }
    }

    /// Removes the cell at `(key, ts)`, if there is one.
    pub fn remove(&mut self, key: &[u8], ts: u64)
        requires
            old(self).wf(),
        ensures
            final(self).wf(),
            final(self)@ == old(self)@.remove((key@, ts)),
    {
        let p = self.partition(key, ts, false);
        let ghost s = self.cells@;
        let ghost k = (key@, ts);
        if p < self.cells.len() && matches!(compare_cell(&self.cells[p], key, ts), core::cmp::Ordering::Equal) {
            self.cells.remove(p);
            proof {
                let ns = self.cells@;
                assert forall|i: int, j: int| 0 <= i < j < ns.len() implies key_lt(#[trigger] cell_key(ns[i]), #[trigger] cell_key(ns[j])) by {
                    if j < p {
                        assert(key_lt(cell_key(s[i]), cell_key(s[j])));
                    } else if i < p {
                        assert(key_lt(cell_key(s[i]), cell_key(s[j + 1])));
                    } else {
                        assert(key_lt(cell_key(s[i + 1]), cell_key(s[j + 1])));
                    }
                }
                assert(sorted(ns));
                assert forall|k2: VersionKey| has_key(ns, k2) <==> (has_key(s, k2) && k2 != k) by {
                    if has_key(ns, k2) {
                        let j = choose|j: int| 0 <= j < ns.len() && #[trigger] cell_key(ns[j]) == k2;
                        if j < p {
                            assert(cell_key(s[j]) == k2);
                            assert(key_lt(cell_key(s[j]), cell_key(s[p as int])));
                            lemma_key_lt_irreflexive(k);
                        } else {
                            assert(cell_key(s[j + 1]) == k2);
                            assert(key_lt(cell_key(s[p as int]), cell_key(s[j + 1])));
                            lemma_key_lt_irreflexive(k);
                        }
                    }
                    if has_key(s, k2) && k2 != k {
                        let j = choose|j: int| 0 <= j < s.len() && #[trigger] cell_key(s[j]) == k2;
                        if j < p {
                            assert(cell_key(ns[j]) == k2);
                        } else {
                            assert(cell_key(ns[j - 1]) == k2);
                        }
                    }
                }
                assert forall|k2: VersionKey| has_key(ns, k2) implies cells_map(ns)[k2] == cells_map(s).remove(k)[k2] by {
                    let j = choose|j: int| 0 <= j < ns.len() && #[trigger] cell_key(ns[j]) == k2;
                    lemma_map_at(ns, j);
                    if j < p {
                        lemma_map_at(s, j);
                    } else {
                        lemma_map_at(s, j + 1);
                    }
                }
                assert(cells_map(ns) =~= cells_map(s).remove(k));
            }
        } else {
            proof {
                if has_key(s, k) {
                    let j = choose|j: int| 0 <= j < s.len() && #[trigger] cell_key(s[j]) == k;
                    lemma_key_lt_irreflexive(k);
                    if j > p {
                        assert(key_lt(cell_key(s[p as int]), cell_key(s[j])));
                    }
                }
                assert(cells_map(s) =~= cells_map(s).remove(k));
            }
        }
    }

    /// The smallest timestamp at which a version of `key` holds the pointer `target`.
    pub fn first_pointing_to(&self, key: &[u8], target: u64) -> (r: Option<u64>)
        requires
            self.wf(),
        ensures
            match r {
                Some(c) => {
                    &&& points_to(self@, key@, c, target)
                    &&& forall|c2: u64| c2 < c ==> !#[trigger] points_to(self@, key@, c2, target)
                },
                None => forall|c: u64| !#[trigger] points_to(self@, key@, c, target),
            },
    {
        let ghost s = self.cells@;
        let p = self.partition(key, 0, false);
        proof {
            assert forall|j: int| 0 <= j < p implies (#[trigger] s[j]).key@ != key@ by {
                assert(before(cell_key(s[j]), (key@, 0u64), false));
                lemma_bytes_lt_irreflexive(key@);
            }
        }
        let mut i: usize = p;
        while i < self.cells.len()
            invariant
                self.wf(),
                s == self.cells@,
                p <= i <= s.len(),
                forall|j: int| 0 <= j < p ==> (#[trigger] s[j]).key@ != key@,
                forall|j: int| p <= j < s.len() ==> !before(#[trigger] cell_key(s[j]), (key@, 0u64), false),
                forall|j: int| p <= j < i ==> (#[trigger] s[j]).key@ == key@ && s[j].value@ != CellValue::Timestamp(target),
            decreases s.len() - i,
        {
            let c = &self.cells[i];
            if !matches!(compare_bytes(c.key.as_slice(), key), core::cmp::Ordering::Equal) {
                proof {
                    lemma_bytes_lt_total(s[i as int].key@, key@);
                    assert(!before(cell_key(s[i as int]), (key@, 0u64), false));
                    assert(bytes_lt(key@, s[i as int].key@));
                    assert forall|j: int| i <= j < s.len() implies (#[trigger] s[j]).key@ != key@ by {
                        if j > i {
                            assert(key_lt(cell_key(s[i as int]), cell_key(s[j])));
                            if bytes_lt(s[i as int].key@, s[j].key@) {
                                lemma_bytes_lt_transitive(key@, s[i as int].key@, s[j].key@);
                            }
                            lemma_bytes_lt_irreflexive(key@);
                        }
                    }
                    self.lemma_no_pointer(key@, target);
                }
                return None;
            }
            let hit = match &c.value {
                Value::Timestamp(t) => *t == target,
                Value::Vector(_) => false,
            };
            if hit {
                proof {
                    lemma_map_at(s, i as int);
                    assert forall|c2: u64| c2 < c.ts implies !#[trigger] points_to(self@, key@, c2, target) by {
                        if points_to(self@, key@, c2, target) {
                            let j = choose|j: int| 0 <= j < s.len() && #[trigger] cell_key(s[j]) == (key@, c2);
                            lemma_map_at(s, j);
                            if j > i {
                                assert(key_lt(cell_key(s[i as int]), cell_key(s[j])));
                                lemma_bytes_lt_irreflexive(key@);
                            }
                        }
                    }
                }
                return Some(c.ts);
            }
            i += 1;
        }
        proof {
            self.lemma_no_pointer(key@, target);
        }
        None
    }

    proof fn lemma_no_pointer(&self, key: Seq<u8>, target: u64)
        requires
            self.wf(),
            forall|j: int| 0 <= j < self.cells@.len() ==> (#[trigger] self.cells@[j]).key@ != key || self.cells@[j].value@ != CellValue::Timestamp(target),
        ensures
            forall|c: u64| !#[trigger] points_to(self@, key, c, target),
    {
        let s = self.cells@;
        assert forall|c: u64| !#[trigger] points_to(self@, key, c, target) by {
            if points_to(self@, key, c, target) {
                let j = choose|j: int| 0 <= j < s.len() && #[trigger] cell_key(s[j]) == (key, c);
                lemma_map_at(s, j);
            }
        }
    }
}

} // verus!
