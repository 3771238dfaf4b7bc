//! The three columns of the simulated Bigtable: Write, Data and Lock.
use vstd::prelude::*;

use vstd::slice::slice_to_vec;

use crate::version_map::{
    cell_key, in_range, is_latest, key_lt, latest_version, points_to, CellValue, Value, VersionKey,
    VersionMap,
};

verus! {

/// A raw key and a raw value.
#[derive(Debug, Clone)]
pub struct Write(pub Vec<u8>, pub Vec<u8>);

/// One of the three columns.
pub enum Column {
    Write,
    Data,
    Lock,
}

/// The contents of the three columns.
pub struct TableModel {
    pub write: Map<VersionKey, CellValue>,
    pub data: Map<VersionKey, CellValue>,
    pub lock: Map<VersionKey, CellValue>,
}

pub open spec fn column_of(m: TableModel, c: Column) -> Map<VersionKey, CellValue> {
    match c {
        Column::Write => m.write,
        Column::Data => m.data,
        Column::Lock => m.lock,
    }
}

/// `m` with column `c` replaced by `col`.
pub open spec fn with_column(m: TableModel, c: Column, col: Map<VersionKey, CellValue>) -> TableModel {
    match c {
        Column::Write => TableModel { write: col, ..m },
        Column::Data => TableModel { data: col, ..m },
        Column::Lock => TableModel { lock: col, ..m },
    }
}

/// What each column holds at one composite key.
pub struct TableRow {
    pub key: Vec<u8>,
    pub ts: u64,
    pub data: Option<Value>,
    pub lock: Option<Value>,
    pub write: Option<Value>,
}

pub open spec fn row_key(r: TableRow) -> VersionKey {
    (r.key@, r.ts)
}

/// The cell of `m` at `k`, if any.
pub open spec fn entry(m: Map<VersionKey, CellValue>, k: VersionKey) -> Option<CellValue> {
    if m.contains_key(k) {
        Some(m[k])
    } else {
        None
    }
}

pub open spec fn view_opt(v: Option<Value>) -> Option<CellValue> {
    match v {
        Some(x) => Some(x@),
        None => None,
    }
}

/// Some column holds a cell at `k`.
pub open spec fn in_table(m: TableModel, k: VersionKey) -> bool {
    m.data.contains_key(k) || m.lock.contains_key(k) || m.write.contains_key(k)
}

/// Adds the keys of `from` to `into`.
fn add_keys(from: &VersionMap, into: &mut VersionMap)
    requires
        from.wf(),
        old(into).wf(),
    ensures
        final(into).wf(),
        forall|k: VersionKey| #[trigger] final(into)@.contains_key(k) <==> old(into)@.contains_key(k) || from@.contains_key(k),
{
    proof {
        from.lemma_cells();
    }
    let n = from.len();
    let mut i: usize = 0;
    while i < n
        invariant
            from.wf(),
            into.wf(),
            n == from.cells().len(),
            i <= n,
            forall|k: VersionKey| #[trigger] into@.contains_key(k) <==> old(into)@.contains_key(k)
                || exists|j: int| 0 <= j < i && #[trigger] cell_key(from.cells()[j]) == k,
        decreases n - i,
    {
        let c = from.cell_at(i);
        let ghost before = into@;
        into.insert(slice_to_vec(c.key.as_slice()), c.ts, Value::Timestamp(0));
        proof {
            assert forall|k: VersionKey| #[trigger] into@.contains_key(k) <==> old(into)@.contains_key(k)
                || exists|j: int| 0 <= j < i + 1 && #[trigger] cell_key(from.cells()[j]) == k by {
                if k == cell_key(from.cells()[i as int]) {
                    assert(into@.contains_key(k));
                } else if exists|j: int| 0 <= j < i + 1 && #[trigger] cell_key(from.cells()[j]) == k {
                    let j = choose|j: int| 0 <= j < i + 1 && #[trigger] cell_key(from.cells()[j]) == k;
                    assert(j < i);
                }
            }
        }
        i += 1;
    }
}

/// The cell of `col` at `(key, ts)`, copied.
fn entry_of(col: &VersionMap, key: &[u8], ts: u64) -> (r: Option<Value>)
    requires
        col.wf(),
    ensures
        view_opt(r) == entry(col@, (key@, ts)),
{
    match col.latest(key, ts, ts) {
        Some((_, v)) => Some(v.duplicate()),
        None => {
            proof {
                assert(!in_range(col@, key@, ts, ts, ts));
            }
            None
        },
    }
}

/// Three ordered maps keyed by `(raw key, timestamp)`.
pub struct KvTable {
    write: VersionMap,
    data: VersionMap,
    lock: VersionMap,
}

impl View for KvTable {
    type V = TableModel;

    closed spec fn view(&self) -> TableModel {
        TableModel { write: self.write@, data: self.data@, lock: self.lock@ }
    }
}

impl KvTable {
    pub closed spec fn wf(&self) -> bool {
        self.write.wf() && self.data.wf() && self.lock.wf()
    }

    pub fn new() -> (r: Self)
        ensures
            r.wf(),
            r@.write == Map::<VersionKey, CellValue>::empty(),
            r@.data == Map::<VersionKey, CellValue>::empty(),
            r@.lock == Map::<VersionKey, CellValue>::empty(),
    {
        KvTable { write: VersionMap::new(), data: VersionMap::new(), lock: VersionMap::new() }
    }

    /// One of the three columns.
    pub fn column(&self, column: Column) -> (r: &VersionMap)
        requires
            self.wf(),
        ensures
            r.wf(),
            r@ == column_of(self@, column),
    {
        match column {
            Column::Write => &self.write,
            Column::Data => &self.data,
            Column::Lock => &self.lock,
        }
    }

    /// The latest record of `key` in `column` whose timestamp lies in `[lo, hi]`.
    pub fn read(&self, key: &[u8], column: Column, lo: u64, hi: u64) -> (r: Option<(u64, &Value)>)
        requires
            self.wf(),
        ensures
            match r {
                Some((t, v)) => {
                    &&& is_latest(column_of(self@, column), key@, lo, hi, t)
                    &&& latest_version(column_of(self@, column), key@, lo, hi) == Some(t)
                    &&& column_of(self@, column)[(key@, t)] == v@
                },
                None => {
                    &&& forall|t: u64| !#[trigger] in_range(column_of(self@, column), key@, lo, hi, t)
                    &&& latest_version(column_of(self@, column), key@, lo, hi) is None
                },
            },
    {
        match column {
            Column::Write => self.write.latest(key, lo, hi),
            Column::Data => self.data.latest(key, lo, hi),
            Column::Lock => self.lock.latest(key, lo, hi),
        }
    }

    /// Writes a record to `column` at `(key, ts)`, replacing any record there.
    pub fn write(&mut self, key: Vec<u8>, column: Column, ts: u64, value: Value)
        requires
            old(self).wf(),
        ensures
            final(self).wf(),
            final(self)@ == with_column(
                old(self)@,
                column,
                column_of(old(self)@, column).insert((key@, ts), value@),
            ),
    {
        match column {
            Column::Write => self.write.insert(key, ts, value),
            Column::Data => self.data.insert(key, ts, value),
            Column::Lock => self.lock.insert(key, ts, value),
        }
    }

    /// Erases the record of `column` at `(key, ts)`, if there is one.
    pub fn erase(&mut self, key: &[u8], column: Column, ts: u64)
        requires
            old(self).wf(),
        ensures
            final(self).wf(),
            final(self)@ == with_column(old(self)@, column, column_of(old(self)@, column).remove((key@, ts))),
    {
        match column {
            Column::Write => self.write.remove(key, ts),
            Column::Data => self.data.remove(key, ts),
            Column::Lock => self.lock.remove(key, ts),
        }
    }

    /// The commit timestamp of the first Write record of `key` that points to
    /// `start_ts`.
    pub fn find_write(&self, key: &[u8], start_ts: u64) -> (r: Option<u64>)
        requires
            self.wf(),
        ensures
            match r {
                Some(c) => {
                    &&& points_to(self@.write, key@, c, start_ts)
                    &&& forall|c2: u64| c2 < c ==> !#[trigger] points_to(self@.write, key@, c2, start_ts)
                },
                None => forall|c: u64| !#[trigger] points_to(self@.write, key@, c, start_ts),
            },
    {
        self.write.first_pointing_to(key, start_ts)
    }

    /// Every composite key that some column holds, in increasing order, with
    /// the cell of each column there.
    pub fn rows(&self) -> (r: Vec<TableRow>)
        requires
            self.wf(),
        ensures
            forall|i: int, j: int| 0 <= i < j < r@.len() ==> key_lt(#[trigger] row_key(r@[i]), #[trigger] row_key(r@[j])),
            forall|i: int| #![trigger r@[i]] 0 <= i < r@.len() ==> {
                &&& view_opt(r@[i].data) == entry(self@.data, row_key(r@[i]))
                &&& view_opt(r@[i].lock) == entry(self@.lock, row_key(r@[i]))
                &&& view_opt(r@[i].write) == entry(self@.write, row_key(r@[i]))
            },
            forall|k: VersionKey| in_table(self@, k) <==> exists|i: int| 0 <= i < r@.len() && #[trigger] row_key(r@[i]) == k,
    {
        let mut keys = VersionMap::new();
        add_keys(&self.data, &mut keys);
        add_keys(&self.lock, &mut keys);
        add_keys(&self.write, &mut keys);
        proof {
            keys.lemma_cells();
        }
        let n = keys.len();
        let mut rows: Vec<TableRow> = Vec::new();
        let mut i: usize = 0;
        while i < n
            invariant
                self.wf(),
                keys.wf(),
                n == keys.cells().len(),
                i <= n,
                rows@.len() == i,
                forall|j: int| #![trigger rows@[j]] 0 <= j < i ==> {
                    &&& row_key(rows@[j]) == cell_key(keys.cells()[j])
                    &&& view_opt(rows@[j].data) == entry(self@.data, row_key(rows@[j]))
                    &&& view_opt(rows@[j].lock) == entry(self@.lock, row_key(rows@[j]))
                    &&& view_opt(rows@[j].write) == entry(self@.write, row_key(rows@[j]))
                },
            decreases n - i,
        {
            let c = keys.cell_at(i);
            let key = c.key.as_slice();
            let row = TableRow {
                key: slice_to_vec(key),
                ts: c.ts,
                data: entry_of(&self.data, key, c.ts),
                lock: entry_of(&self.lock, key, c.ts),
                write: entry_of(&self.write, key, c.ts),
            };
            rows.push(row);
            i += 1;
        }
        proof {
            assert forall|a: int, b: int| 0 <= a < b < rows@.len() implies key_lt(#[trigger] row_key(rows@[a]), #[trigger] row_key(rows@[b])) by {
                assert(row_key(rows@[a]) == cell_key(keys.cells()[a]));
                assert(row_key(rows@[b]) == cell_key(keys.cells()[b]));
            }
            assert forall|k: VersionKey| in_table(self@, k) <==> exists|j: int| 0 <= j < rows@.len() && #[trigger] row_key(rows@[j]) == k by {
                if in_table(self@, k) {
                    assert(keys@.contains_key(k));
                    let j = choose|j: int| 0 <= j < keys.cells().len() && #[trigger] cell_key(keys.cells()[j]) == k;
                    assert(row_key(rows@[j]) == k);
                }
                if exists|j: int| 0 <= j < rows@.len() && #[trigger] row_key(rows@[j]) == k {
                    let j = choose|j: int| 0 <= j < rows@.len() && #[trigger] row_key(rows@[j]) == k;
                    assert(cell_key(keys.cells()[j]) == k);
                    assert(keys@.contains_key(k));
                }
            }
        }
        rows
    }
}

} // verus!
