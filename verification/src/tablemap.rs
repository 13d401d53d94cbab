//! A table map: the key-value metadata segment the service offers, with
//! conditional updates and delta iteration.
//!
//! Rows carry a version. A conditional update names the version it expects
//! and fails with a bad-key-version outcome when the row has moved on —
//! this is the only mutual-exclusion primitive readers share. Every
//! successful update is appended to a mutation log; delta iteration replays
//! the log from a caller's position, and a caller whose position predates
//! the log's start is told to discard its cache first.

use vstd::prelude::*;

verus! {

/// Version a conditional update passes to mean "update whatever is there,
/// or insert": the unconditional put.
pub const VERSION_ANY: i64 = -1;

/// Version a conditional update passes to mean "insert; the key must not
/// exist yet".
pub const VERSION_NOT_EXISTS: i64 = -2;

/// One row: a key, its value, and the version the next conditional update
/// must name.
#[derive(Clone, Copy, Debug, PartialEq, Eq, Structural)]
pub struct TableRow<V> {
    pub key: u64,
    pub value: V,
    pub version: i64,
}

/// The table: its live rows, and the mutation log from `log_start`
/// onward (older mutations have been compacted away).
pub struct TableMapState<V> {
    pub rows: Vec<TableRow<V>>,
    pub log: Vec<TableRow<V>>,
    pub log_start: u64,
}

/// The first row with this key, scanning in order.
pub open spec fn find_row_from<V>(rows: Seq<TableRow<V>>, key: u64, k: int) -> Option<int>
    decreases rows.len() - k,
{
    if k < 0 || k >= rows.len() {
        None
    } else if rows[k].key == key {
        Some(k)
    } else {
        find_row_from(rows, key, k + 1)
    }
}

/// No two rows share a key, and versions are non-negative.
pub open spec fn table_wf<V>(t: TableMapState<V>) -> bool {
    &&& forall|i: int, j: int|
        0 <= i < j < t.rows@.len() ==> t.rows@[i].key != t.rows@[j].key
    &&& forall|i: int| 0 <= i < t.rows@.len() ==> (#[trigger] t.rows@[i]).version >= 0
}

/// What a conditional update did.
#[derive(Clone, Copy, Debug, PartialEq, Eq, Structural)]
pub enum PutOutcome {
    /// The row now carries this version.
    Updated(i64),
    /// The expected version did not match the row (or the row's existence):
    /// nothing changed.
    BadKeyVersion,
}

/// Whether a conditional update expecting `expected` goes through against
/// the row state `current` (`None` for an absent key).
pub open spec fn put_allowed(current: Option<i64>, expected: i64) -> bool {
    if expected == VERSION_ANY {
        true
    } else if expected == VERSION_NOT_EXISTS {
        current is None
    } else {
        current == Some(expected)
    }
}

impl<V: Copy> TableMapState<V> {
    /// An empty table.
    pub fn new() -> (t: TableMapState<V>)
        ensures
            t.rows@ == Seq::<TableRow<V>>::empty(),
            t.log@ == Seq::<TableRow<V>>::empty(),
            t.log_start == 0,
            table_wf(t),
    {
        TableMapState { rows: Vec::new(), log: Vec::new(), log_start: 0 }
    }

    /// The index of the row with this key.
    fn find(&self, key: u64) -> (r: Option<usize>)
        ensures
            (match r {
                Some(i) => find_row_from(self.rows@, key, 0) == Some(i as int) && i
                    < self.rows@.len() && self.rows@[i as int].key == key,
                None => find_row_from(self.rows@, key, 0) is None,
            }),
    {
        let n = self.rows.len();
        let mut k: usize = 0;
        while k < n
            invariant
                k <= n,
                n == self.rows@.len(),
                find_row_from(self.rows@, key, 0) == find_row_from(self.rows@, key, k as int),
            decreases n - k,
        {
            if self.rows[k].key == key {
                return Some(k);
            }
            k = k + 1;
        }
        None
    }

    /// Reads a row: its value and the version a conditional update must
    /// name.
    pub fn get(&self, key: u64) -> (r: Option<(V, i64)>)
        ensures
            (match find_row_from(self.rows@, key, 0) {
                Some(i) => r == Some((self.rows@[i].value, self.rows@[i].version)),
                None => r is None,
            }),
    {
        match self.find(key) {
            Some(i) => Some((self.rows[i].value, self.rows[i].version)),
            None => None,
        }
    }

    /// The current version of a row, `None` for an absent key.
    pub open spec fn spec_version_of(self, key: u64) -> Option<i64> {
        match find_row_from(self.rows@, key, 0) {
            Some(i) => Some(self.rows@[i].version),
            None => None,
        }
    }

    /// One conditional update. It goes through exactly when `expected`
    /// matches the row: `VERSION_ANY` always, `VERSION_NOT_EXISTS` only for
    /// an absent key, a non-negative version only when the row carries
    /// exactly that version. On success the row holds `value` under the
    /// next version, strictly above the one it had, and the mutation is
    /// logged; on failure nothing changes. (A row whose version counter is
    /// exhausted refuses every further update.)
    pub fn put(&mut self, key: u64, value: V, expected: i64) -> (r: PutOutcome)
        requires
            table_wf(*old(self)),
        ensures
            table_wf(*final(self)),
            final(self).log_start == old(self).log_start,
            (!put_allowed(old(self).spec_version_of(key), expected) || old(self).spec_version_of(
                key,
            ) == Some(i64::MAX)) ==> r == PutOutcome::BadKeyVersion && final(self).rows@ == old(
                self,
            ).rows@ && final(self).log@ == old(self).log@,
            (put_allowed(old(self).spec_version_of(key), expected) && old(self).spec_version_of(
                key,
            ) != Some(i64::MAX)) ==> {
                let newv = (match old(self).spec_version_of(key) {
                    Some(v) => v + 1,
                    None => 0int,
                });
                &&& r == PutOutcome::Updated(newv as i64)
                &&& final(self).spec_version_of(key) == Some(newv as i64)
                &&& (match find_row_from(final(self).rows@, key, 0) {
                    Some(i) => final(self).rows@[i] == (TableRow {
                        key,
                        value,
                        version: newv as i64,
                    }),
                    None => false,
                })
                &&& (match find_row_from(old(self).rows@, key, 0) {
                    Some(i) => final(self).rows@ == old(self).rows@.update(
                        i,
                        TableRow { key, value, version: newv as i64 },
                    ),
                    None => final(self).rows@ == old(self).rows@.push(
                        TableRow { key, value, version: newv as i64 },
                    ),
                })
                &&& final(self).log@ == old(self).log@.push(
                    TableRow { key, value, version: newv as i64 },
                )
            },
    {
        match self.find(key) {
            Some(i) => {
                let cur = self.rows[i].version;
                if cur == i64::MAX {
                    return PutOutcome::BadKeyVersion;
                }
                if expected == VERSION_ANY || expected == cur {
                    let newv = cur + 1;
                    let row = TableRow { key, value, version: newv };
                    let _ = self.rows.remove(i);
                    self.rows.insert(i, row);
                    proof {
                        assert(self.rows@ =~= old(self).rows@.update(i as int, row));
                        lemma_find_same_keys(old(self).rows@, self.rows@, key, 0);
                    }
                    self.log.push(row);
                    PutOutcome::Updated(newv)
                } else {
                    PutOutcome::BadKeyVersion
                }
            },
            None => {
                if expected == VERSION_ANY || expected == VERSION_NOT_EXISTS {
                    let row = TableRow { key, value, version: 0 };
                    self.rows.push(row);
                    proof {
                        lemma_find_none_no_key(old(self).rows@, key);
                        assert(self.rows@.take(old(self).rows@.len() as int) =~= old(self).rows@);
                        lemma_find_push(old(self).rows@, row);
                    }
                    self.log.push(row);
                    PutOutcome::Updated(0)
                } else {
                    PutOutcome::BadKeyVersion
                }
            },
        }
    }
}

impl<V: Copy> TableMapState<V> {
    /// The table's mutation position: how many updates it has ever taken.
    pub open spec fn spec_position(self) -> int {
        self.log_start + self.log@.len()
    }

    /// The table's mutation position.
    pub fn position(&self) -> (p: u64)
        requires
            self.log_start + self.log@.len() <= u64::MAX,
        ensures
            p == self.spec_position(),
    {
        self.log_start + self.log.len() as u64
    }

    /// The mutations since position `from`, the position after them, and
    /// whether the caller must discard its cache first: it must exactly
    /// when `from` predates the compacted log, and the entries then are a
    /// full snapshot of the live rows. The returned position always catches
    /// the caller up to the present.
    pub fn delta_iterate(&self, from: u64) -> (r: (Vec<TableRow<V>>, u64, bool, bool))
        requires
            table_wf(*self),
            self.log_start + self.log@.len() <= u64::MAX,
        ensures
            r.1 == self.spec_position(),
            r.2 == true,
            from < self.log_start ==> r.3 == true && r.0@ == self.rows@,
            from >= self.log_start ==> r.3 == false && r.0@ == (if from - self.log_start
                <= self.log@.len() {
                self.log@.skip(from - self.log_start)
            } else {
                Seq::<TableRow<V>>::empty()
            }),
    {
        let next = self.log_start + self.log.len() as u64;
        if from < self.log_start {
            let entries = copy_rows(&self.rows, 0);
            (entries, next, true, true)
        } else {
            let idx = from - self.log_start;
            if idx >= self.log.len() as u64 {
                (Vec::new(), next, true, false)
            } else {
                let entries = copy_rows(&self.log, idx as usize);
                (entries, next, true, false)
            }
        }
    }

    /// Compacts the mutation log: every delta reader positioned before the
    /// present will be told to clear and resnapshot.
    pub fn compact(&mut self)
        requires
            table_wf(*old(self)),
            old(self).log_start + old(self).log@.len() <= u64::MAX,
        ensures
            table_wf(*final(self)),
            final(self).rows@ == old(self).rows@,
            final(self).log@ == Seq::<TableRow<V>>::empty(),
            final(self).log_start == old(self).spec_position(),
    {
        self.log_start = self.log_start + self.log.len() as u64;
        self.log.clear();
    }
}

/// A copy of the rows from `start` on.
fn copy_rows<V: Copy>(rows: &Vec<TableRow<V>>, start: usize) -> (r: Vec<TableRow<V>>)
    requires
        start <= rows@.len(),
    ensures
        r@ == rows@.skip(start as int),
{
    let mut r: Vec<TableRow<V>> = Vec::new();
    let n = rows.len();
    let mut k: usize = start;
    while k < n
        invariant
            start <= k <= n,
            n == rows@.len(),
            r@ == rows@.subrange(start as int, k as int),
        decreases n - k,
    {
        r.push(rows[k]);
        proof {
            assert(rows@.subrange(start as int, k as int + 1) =~= rows@.subrange(
                start as int,
                k as int,
            ).push(rows@[k as int]));
        }
        k = k + 1;
    }
    proof {
        assert(rows@.subrange(start as int, n as int) =~= rows@.skip(start as int));
    }
    r
}

/// A cache row set with `row` written into it: updated in place if the key
/// is there, appended if not.
pub open spec fn spec_upsert<V>(cache: Seq<TableRow<V>>, row: TableRow<V>) -> Seq<TableRow<V>> {
    match find_row_from(cache, row.key, 0) {
        Some(i) => cache.update(i, row),
        None => cache.push(row),
    }
}

/// A cache with a delta batch applied, first entry first.
pub open spec fn spec_apply<V>(cache: Seq<TableRow<V>>, entries: Seq<TableRow<V>>) -> Seq<
    TableRow<V>,
>
    decreases entries.len(),
{
    if entries.len() == 0 {
        cache
    } else {
        spec_apply(spec_upsert(cache, entries.first()), entries.drop_first())
    }
}

/// Applies a delta batch to a local cache. When the delta says to clear,
/// the cache is discarded first and the batch applies to nothing but
/// itself; otherwise the batch applies on top of what the cache held.
pub fn apply_delta<V: Copy>(
    cache: &mut Vec<TableRow<V>>,
    entries: &Vec<TableRow<V>>,
    should_clear: bool,
)
    ensures
        final(cache)@ == spec_apply(
            if should_clear {
                Seq::<TableRow<V>>::empty()
            } else {
                old(cache)@
            },
            entries@,
        ),
{
    if should_clear {
        cache.clear();
    }
    let ghost cache0 = cache@;
    let n = entries.len();
    let mut k: usize = 0;
    proof {
        assert(entries@.skip(0) =~= entries@);
    }
    while k < n
        invariant
            k <= n,
            n == entries@.len(),
            spec_apply(cache0, entries@) == spec_apply(cache@, entries@.skip(k as int)),
        decreases n - k,
    {
        let row = entries[k];
        let ghost cache_prev = cache@;
        proof {
            let tail = entries@.skip(k as int);
            assert(tail.first() == entries@[k as int]);
            assert(tail.drop_first() =~= entries@.skip(k as int + 1));
        }
        match find_row(cache, row.key) {
            Some(i) => {
                let _ = cache.remove(i);
                cache.insert(i, row);
                proof {
                    assert(cache@ =~= cache_prev.update(i as int, row));
                }
            },
            None => {
                cache.push(row);
            },
        }
        proof {
            assert(cache@ == spec_upsert(cache_prev, row));
            assert(spec_apply(cache_prev, entries@.skip(k as int)) == spec_apply(
                spec_upsert(cache_prev, row),
                entries@.skip(k as int + 1),
            ));
        }
        k = k + 1;
    }
    proof {
        assert(entries@.skip(n as int) =~= Seq::<TableRow<V>>::empty());
    }
}

/// The index of the first row with this key.
pub fn find_row<V>(rows: &Vec<TableRow<V>>, key: u64) -> (r: Option<usize>)
    ensures
        (match r {
            Some(i) => find_row_from(rows@, key, 0) == Some(i as int) && i < rows@.len()
                && rows@[i as int].key == key,
            None => find_row_from(rows@, key, 0) is None,
        }),
{
    let n = rows.len();
    let mut k: usize = 0;
    while k < n
        invariant
            k <= n,
            n == rows@.len(),
            find_row_from(rows@, key, 0) == find_row_from(rows@, key, k as int),
        decreases n - k,
    {
        if rows[k].key == key {
            return Some(k);
        }
        k = k + 1;
    }
    None
}

/// Mutual exclusion from conditional updates: a successful claim that
/// expected version `e` moves the row to version `e + 1`, and no later
/// claim still expecting `e` can pass. Two racing claimers of one row can
/// therefore never both succeed.
pub proof fn lemma_conditional_claim_excludes(v0: Option<i64>, e: i64)
    requires
        e >= 0,
        e < i64::MAX,
        put_allowed(v0, e),
    ensures
        v0 == Some(e),
        !put_allowed(Some((e + 1) as i64), e),
{
}

/// A found row lies in range and carries the key.
pub proof fn lemma_find_row_some_bounds<V>(rows: Seq<TableRow<V>>, key: u64, s: int)
    requires
        find_row_from(rows, key, s) is Some,
    ensures
        s <= find_row_from(rows, key, s)->Some_0 < rows.len(),
        rows[find_row_from(rows, key, s)->Some_0].key == key,
    decreases rows.len() - s,
{
    if !(0 <= s < rows.len() && rows[s].key == key) {
        lemma_find_row_some_bounds(rows, key, s + 1);
    }
}

/// Two row sets with the same keys position for position are searched the
/// same way.
proof fn lemma_find_same_keys<V>(a: Seq<TableRow<V>>, b: Seq<TableRow<V>>, key: u64, k: int)
    requires
        a.len() == b.len(),
        forall|j: int| 0 <= j < a.len() ==> (#[trigger] a[j]).key == b[j].key,
        0 <= k,
    ensures
        find_row_from(a, key, k) == find_row_from(b, key, k),
    decreases a.len() - k,
{
    if k < a.len() {
        lemma_find_same_keys(a, b, key, k + 1);
    }
}

proof fn lemma_find_none_no_key<V>(rows: Seq<TableRow<V>>, key: u64)
    requires
        find_row_from(rows, key, 0) is None,
    ensures
        forall|i: int| 0 <= i < rows.len() ==> (#[trigger] rows[i]).key != key,
{
    assert forall|i: int| 0 <= i < rows.len() implies (#[trigger] rows[i]).key != key by {
        lemma_find_row_none_at(rows, key, 0, i);
    }
}

proof fn lemma_find_row_none_at<V>(rows: Seq<TableRow<V>>, key: u64, k: int, i: int)
    requires
        find_row_from(rows, key, k) is None,
        0 <= k <= i < rows.len(),
    ensures
        rows[i].key != key,
    decreases i - k,
{
    if k < i {
        lemma_find_row_none_at(rows, key, k + 1, i);
    }
}

proof fn lemma_find_push<V>(rows: Seq<TableRow<V>>, row: TableRow<V>)
    requires
        find_row_from(rows, row.key, 0) is None,
    ensures
        find_row_from(rows.push(row), row.key, 0) == Some(rows.len() as int),
{
    lemma_find_push_from(rows, row, 0);
}

proof fn lemma_find_push_from<V>(rows: Seq<TableRow<V>>, row: TableRow<V>, k: int)
    requires
        find_row_from(rows, row.key, k) is None,
        0 <= k <= rows.len(),
    ensures
        find_row_from(rows.push(row), row.key, k) == Some(rows.len() as int),
    decreases rows.len() - k,
{
    if k < rows.len() {
        lemma_find_push_from(rows, row, k + 1);
    }
}

} // verus!
