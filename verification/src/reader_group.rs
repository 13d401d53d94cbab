//! The reader-group coordinator: who reads which segment.
//!
//! The group's state lives in a shared table map: one row per reader (its
//! presence and last heartbeat) and one row per segment (its owner, read
//! offset, and whether it is finished). Ownership moves only through the
//! table's conditional updates — never an in-process lock — so two readers
//! can never both claim one segment: the loser's expected version has moved
//! on. A reader whose heartbeat goes stale past the group's timeout loses
//! its claim to whoever asks next. A finished segment is marked terminal in
//! the same call that registers its successors, so delta readers see the
//! hand-over whole.
//!
//! Readers at even keys, segments at odd: see `segment_key` and
//! `reader_key`.

use vstd::prelude::*;

use crate::tablemap::{find_row_from, table_wf, PutOutcome, TableMapState, TableRow,
    VERSION_NOT_EXISTS};

verus! {

/// One row of the reader-group state.
#[derive(Clone, Copy, Debug, PartialEq, Eq, Structural)]
pub enum StateValue {
    /// A reader's presence row: when it last announced itself.
    Reader { last_heartbeat_ms: u64 },
    /// A segment's assignment row. `owned` says whether `owner` holds it;
    /// `completed` marks a segment read to its end, never acquired again.
    Segment { owner: u64, owned: bool, last_read_offset: i64, completed: bool },
}

/// The table key of a segment's assignment row.
pub open spec fn spec_segment_key(segment: u64) -> u64
    recommends
        segment < 0x8000_0000_0000_0000,
{
    (2 * segment) as u64
}

/// The table key of a reader's presence row (an id past the fold of the
/// key space wraps, so the lookup stays total).
pub open spec fn spec_reader_key(reader: u64) -> u64 {
    (((2 * reader) + 1) % 0x1_0000_0000_0000_0000) as u64
}

pub fn segment_key(segment: u64) -> (k: u64)
    requires
        segment < 0x8000_0000_0000_0000,
    ensures
        k == spec_segment_key(segment),
{
    2 * segment
}

pub fn reader_key(reader: u64) -> (k: u64)
    requires
        reader < 0x8000_0000_0000_0000,
    ensures
        k == spec_reader_key(reader),
{
    2 * reader + 1
}

/// Whether this reader's heartbeat is stale at `now`: its presence row is
/// missing, malformed, or older than the group's timeout.
pub open spec fn spec_stale(
    rows: Seq<TableRow<StateValue>>,
    reader: u64,
    now_ms: u64,
    timeout_ms: u64,
) -> bool {
    match find_row_from(rows, spec_reader_key(reader), 0) {
        Some(j) => match rows[j].value {
            StateValue::Reader { last_heartbeat_ms } => last_heartbeat_ms + timeout_ms < now_ms,
            _ => true,
        },
        None => true,
    }
}

/// Whether the row at `i` is a segment a reader may claim at `now`: an
/// assignment row of an unfinished segment that nobody holds, or whose
/// holder has gone stale. (A row whose version counter is exhausted cannot
/// move and is never claimed.)
pub open spec fn spec_acquirable(
    rows: Seq<TableRow<StateValue>>,
    i: int,
    now_ms: u64,
    timeout_ms: u64,
) -> bool {
    &&& 0 <= i < rows.len()
    &&& rows[i].version < i64::MAX
    &&& rows[i].key % 2 == 0
    &&& (match rows[i].value {
        StateValue::Segment { owner, owned, completed, .. } => !completed && (!owned
            || spec_stale(rows, owner, now_ms, timeout_ms)),
        _ => false,
    })
}

/// Writes (or refreshes) the reader's presence row with the current time.
/// Registering does not hand the reader any segment yet. It succeeds on
/// every input but a presence row whose version counter is exhausted.
pub fn create_reader(t: &mut TableMapState<StateValue>, reader: u64, now_ms: u64) -> (ok: bool)
    requires
        table_wf(*old(t)),
        reader < 0x8000_0000_0000_0000,
    ensures
        table_wf(*final(t)),
        ok == (old(t).spec_version_of(spec_reader_key(reader)) != Some(i64::MAX)),
        ok ==> final(t).spec_version_of(spec_reader_key(reader)) is Some && (match find_row_from(
            final(t).rows@,
            spec_reader_key(reader),
            0,
        ) {
            Some(j) => final(t).rows@[j].value == (StateValue::Reader {
                last_heartbeat_ms: now_ms,
            }),
            None => false,
        }),
        !ok ==> final(t).rows@ == old(t).rows@,
    {
    let key = reader_key(reader);
    match t.put(key, StateValue::Reader { last_heartbeat_ms: now_ms }, crate::tablemap::VERSION_ANY) {
        PutOutcome::Updated(_) => true,
        PutOutcome::BadKeyVersion => false,
    }
}

/// One attempt to claim a segment for `reader`: the first claimable
/// assignment row — unowned, or held by a reader stale past `timeout_ms` —
/// is taken over by a conditional update naming the version the scan saw.
/// Returns the claimed segment and the reader's starting offset in it, or
/// `None` when nothing is claimable.
pub fn acquire_segment(
    t: &mut TableMapState<StateValue>,
    reader: u64,
    now_ms: u64,
    timeout_ms: u64,
) -> (r: Option<(u64, i64)>)
    requires
        table_wf(*old(t)),
    ensures
        table_wf(*final(t)),
        r is None ==> final(t).rows@ == old(t).rows@ && (forall|i: int|
            !spec_acquirable(old(t).rows@, i, now_ms, timeout_ms)),
        (match r {
            Some((seg, off)) => exists|i: int|
                {
                    &&& spec_acquirable(old(t).rows@, i, now_ms, timeout_ms)
                    &&& old(t).rows@[i].key == 2 * seg
                    &&& (old(t).rows@[i].value matches StateValue::Segment {
                        last_read_offset,
                        ..
                    } && last_read_offset == off)
                    &&& final(t).rows@ == old(t).rows@.update(
                        i,
                        TableRow {
                            key: old(t).rows@[i].key,
                            value: StateValue::Segment {
                                owner: reader,
                                owned: true,
                                last_read_offset: off,
                                completed: false,
                            },
                            version: (old(t).rows@[i].version + 1) as i64,
                        },
                    )
                },
            None => true,
        }),
{
    let n = t.rows.len();
    let mut k: usize = 0;
    while k < n
        invariant
            k <= n,
            n == t.rows@.len(),
            table_wf(*t),
            *t == *old(t),
            forall|i: int| 0 <= i < k ==> !spec_acquirable(t.rows@, i, now_ms, timeout_ms),
        decreases n - k,
    {
        let row = t.rows[k];
        let mut claimable = false;
        let mut offset: i64 = 0;
        match row.value {
            StateValue::Segment { owner, owned, last_read_offset, completed } => {
                if !completed && row.version < i64::MAX && row.key % 2 == 0 {
                    if !owned {
                        claimable = true;
                        offset = last_read_offset;
                    } else {
                        if is_stale(t, owner, now_ms, timeout_ms) {
                            claimable = true;
                            offset = last_read_offset;
                        }
                    }
                }
            },
            _ => {},
        }
        if claimable {
            let seg = row.key / 2;
            let claimed = StateValue::Segment {
                owner: reader,
                owned: true,
                last_read_offset: offset,
                completed: false,
            };
            proof {
                lemma_find_is_index(t.rows@, row.key, k as int);
            }
            let outcome = t.put(row.key, claimed, row.version);
            proof {
                assert(2 * seg == row.key);
                assert(spec_acquirable(old(t).rows@, k as int, now_ms, timeout_ms));
                assert(old(t).rows@[k as int].key == 2 * seg);
                assert(t.rows@ == old(t).rows@.update(
                    k as int,
                    TableRow {
                        key: old(t).rows@[k as int].key,
                        value: StateValue::Segment {
                            owner: reader,
                            owned: true,
                            last_read_offset: offset,
                            completed: false,
                        },
                        version: (old(t).rows@[k as int].version + 1) as i64,
                    },
                ));
            }
            return Some((seg, offset));
        }
        proof {
            assert(!spec_acquirable(t.rows@, k as int, now_ms, timeout_ms));
        }
        k = k + 1;
    }
    None
}

/// The presence-row key of any reader id, wrapped into the key space (ids
/// are expected below the fold; the wrap only keeps the lookup total).
fn reader_key_any(reader: u64) -> (k: u64)
    ensures
        k == spec_reader_key(reader),
{
    if reader < 0x8000_0000_0000_0000 {
        2 * reader + 1
    } else {
        2 * (reader - 0x8000_0000_0000_0000) + 1
    }
}

/// Whether `reader`'s heartbeat is stale at `now_ms`.
fn is_stale(t: &TableMapState<StateValue>, reader: u64, now_ms: u64, timeout_ms: u64) -> (r: bool)
    ensures
        r == spec_stale(t.rows@, reader, now_ms, timeout_ms),
{
    let key = reader_key_any(reader);
    match t.get(key) {
        Some((value, _version)) => match value {
            StateValue::Reader { last_heartbeat_ms } => {
                let stale = (last_heartbeat_ms as u128 + timeout_ms as u128) < (now_ms as u128);
                stale
            },
            _ => true,
        },
        None => true,
    }
}

/// In a table whose keys are unique, the row holding this key is found at
/// its own index.
proof fn lemma_find_is_index(rows: Seq<TableRow<StateValue>>, key: u64, k: int)
    requires
        0 <= k < rows.len(),
        rows[k].key == key,
        forall|i: int, j: int| 0 <= i < j < rows.len() ==> rows[i].key != rows[j].key,
    ensures
        find_row_from(rows, key, 0) == Some(k),
{
    lemma_find_is_index_from(rows, key, k, 0);
}

proof fn lemma_find_is_index_from(rows: Seq<TableRow<StateValue>>, key: u64, k: int, s: int)
    requires
        0 <= s <= k < rows.len(),
        rows[k].key == key,
        forall|i: int, j: int| 0 <= i < j < rows.len() ==> rows[i].key != rows[j].key,
    ensures
        find_row_from(rows, key, s) == Some(k),
    decreases k - s,
{
    if s < k {
        assert(rows[s].key != rows[k].key);
        lemma_find_is_index_from(rows, key, k, s + 1);
    }
}

/// Gives a segment back: writes the offset the reader reached and clears
/// the owner, conditionally on the segment still being the reader's under
/// the version the reader saw. It goes through exactly when the segment's
/// row exists, the reader holds it, it is not completed, and its version
/// counter is not exhausted; otherwise nothing changes.
pub fn release_segment(
    t: &mut TableMapState<StateValue>,
    reader: u64,
    segment: u64,
    offset: i64,
) -> (ok: bool)
    requires
        table_wf(*old(t)),
        segment < 0x8000_0000_0000_0000,
    ensures
        table_wf(*final(t)),
        ok == (match find_row_from(old(t).rows@, spec_segment_key(segment), 0) {
            Some(i) => (old(t).rows@[i].value matches StateValue::Segment {
                owner,
                owned,
                completed,
                ..
            } && owner == reader && owned && !completed && old(t).rows@[i].version < i64::MAX),
            None => false,
        }),
        !ok ==> final(t).rows@ == old(t).rows@,
        ok ==> (match find_row_from(old(t).rows@, spec_segment_key(segment), 0) {
            Some(i) => {
                &&& final(t).rows@ == old(t).rows@.update(
                    i,
                    TableRow {
                        key: spec_segment_key(segment),
                        value: StateValue::Segment {
                            owner: reader,
                            owned: false,
                            last_read_offset: offset,
                            completed: false,
                        },
                        version: (old(t).rows@[i].version + 1) as i64,
                    },
                )
            },
            None => false,
        }),
{
    let key = segment_key(segment);
    let (value, version) = match t.get(key) {
        Some(x) => x,
        None => {
            return false;
        },
    };
    match value {
        StateValue::Segment { owner, owned, completed, .. } => {
            if !(owned && owner == reader && !completed) {
                return false;
            }
            if version == i64::MAX {
                return false;
            }
            let cleared = StateValue::Segment {
                owner: reader,
                owned: false,
                last_read_offset: offset,
                completed: false,
            };
            proof {
                crate::tablemap::lemma_find_row_some_bounds(t.rows@, key, 0);
                assert(crate::tablemap::put_allowed(t.spec_version_of(key), version));
            }
            match t.put(key, cleared, version) {
                PutOutcome::Updated(_) => true,
                PutOutcome::BadKeyVersion => false,
            }
        },
        _ => false,
    }
}

/// Marks a finished segment terminal and registers its successors, in one
/// call against the shared state, so no delta reader can see the segment
/// retired without its successors: afterwards the segment's row is
/// `completed` and every successor has an assignment row (an already-known
/// successor is left as it is — duplicates are tolerated). It goes through
/// exactly when the segment's row exists as an assignment row whose version
/// counter is not exhausted; otherwise nothing changes.
pub fn complete_segment(
    t: &mut TableMapState<StateValue>,
    segment: u64,
    successors: &Vec<u64>,
) -> (ok: bool)
    requires
        table_wf(*old(t)),
        segment < 0x8000_0000_0000_0000,
        forall|i: int| 0 <= i < successors@.len() ==> successors@[i] < 0x8000_0000_0000_0000,
    ensures
        table_wf(*final(t)),
        ok == (match find_row_from(old(t).rows@, spec_segment_key(segment), 0) {
            Some(i) => (old(t).rows@[i].value is Segment && old(t).rows@[i].version < i64::MAX),
            None => false,
        }),
        !ok ==> final(t).rows@ == old(t).rows@ && final(t).log@ == old(t).log@,
        ok ==> (match find_row_from(final(t).rows@, spec_segment_key(segment), 0) {
            Some(i) => final(t).rows@[i].value matches StateValue::Segment { completed, .. }
                && completed,
            None => false,
        }),
        ok ==> forall|i: int|
            0 <= i < successors@.len() ==> find_row_from(
                final(t).rows@,
                spec_segment_key(#[trigger] successors@[i]),
                0,
            ) is Some,
    {
    let key = segment_key(segment);
    let (value, version) = match t.get(key) {
        Some(x) => x,
        None => {
            return false;
        },
    };
    let done = match value {
        StateValue::Segment { owner, owned, last_read_offset, .. } => StateValue::Segment {
            owner,
            owned,
            last_read_offset,
            completed: true,
        },
        _ => {
            return false;
        },
    };
    if version == i64::MAX {
        return false;
    }
    proof {
        crate::tablemap::lemma_find_row_some_bounds(t.rows@, key, 0);
        assert(crate::tablemap::put_allowed(t.spec_version_of(key), version));
    }
    match t.put(key, done, version) {
        PutOutcome::BadKeyVersion => {
            return false;
        },
        PutOutcome::Updated(_) => {},
    }
    let n = successors.len();
    let mut k: usize = 0;
    while k < n
        invariant
            k <= n,
            n == successors@.len(),
            table_wf(*t),
            forall|i: int| 0 <= i < successors@.len() ==> successors@[i] < 0x8000_0000_0000_0000,
            (match find_row_from(t.rows@, spec_segment_key(segment), 0) {
                Some(i) => t.rows@[i].value matches StateValue::Segment { completed, .. }
                    && completed,
                None => false,
            }),
            forall|i: int|
                0 <= i < k ==> find_row_from(
                    t.rows@,
                    spec_segment_key(#[trigger] successors@[i]),
                    0,
                ) is Some,
        decreases n - k,
    {
        let skey = segment_key(successors[k]);
        let fresh = StateValue::Segment {
            owner: 0,
            owned: false,
            last_read_offset: 0,
            completed: false,
        };
        let ghost rows_before = t.rows@;
        let outcome = t.put(skey, fresh, VERSION_NOT_EXISTS);
        proof {
            match outcome {
                PutOutcome::Updated(_) => {
                    // The key was absent: the row was appended; everything
                    // already present is still found where it was.
                    assert(t.rows@ == rows_before.push(
                        TableRow { key: skey, value: fresh, version: 0 },
                    ));
                    assert(find_row_from(t.rows@, skey, 0) is Some);
                    assert forall|i: int| 0 <= i < k + 1 implies find_row_from(
                        t.rows@,
                        spec_segment_key(#[trigger] successors@[i]),
                        0,
                    ) is Some by {
                        if i < k {
                            lemma_find_preserved_by_push(
                                rows_before,
                                TableRow { key: skey, value: fresh, version: 0 },
                                spec_segment_key(successors@[i]),
                            );
                        }
                    }
                    lemma_find_preserved_by_push(
                        rows_before,
                        TableRow { key: skey, value: fresh, version: 0 },
                        spec_segment_key(segment),
                    );
                },
                PutOutcome::BadKeyVersion => {
                    // The key already has a row (that is the only way an
                    // insert-if-absent can fail): nothing changed.
                    assert(t.rows@ == rows_before);
                    assert(find_row_from(t.rows@, skey, 0) is Some);
                },
            }
        }
        k = k + 1;
    }
    true
}

/// Whether this row is a segment currently held by `reader`.
pub open spec fn row_owned_by(row: TableRow<StateValue>, reader: u64) -> bool {
    row.value matches StateValue::Segment { owner, owned, .. } && owned && owner == reader
}

/// Best-effort release of everything a departed reader held: afterwards no
/// row is owned by it (but for a row whose version counter is exhausted,
/// which cannot move), rows it did not own are untouched, and no row moves
/// or changes key. Stale-heartbeat stealing recovers anything this missed.
pub fn reader_offline(t: &mut TableMapState<StateValue>, reader: u64)
    requires
        table_wf(*old(t)),
    ensures
        table_wf(*final(t)),
        final(t).rows@.len() == old(t).rows@.len(),
        forall|i: int|
            0 <= i < final(t).rows@.len() ==> (#[trigger] final(t).rows@[i]).key == old(t).rows@[
            i].key,
        forall|i: int|
            0 <= i < final(t).rows@.len() ==> !(row_owned_by(#[trigger] final(t).rows@[i], reader)
                && final(t).rows@[i].version < i64::MAX),
        forall|i: int|
            0 <= i < old(t).rows@.len() && !row_owned_by(#[trigger] old(t).rows@[i], reader)
                ==> final(t).rows@[i] == old(t).rows@[i],
{
    let n = t.rows.len();
    let mut k: usize = 0;
    while k < n
        invariant
            k <= n,
            n == t.rows@.len(),
            table_wf(*t),
            t.rows@.len() == old(t).rows@.len(),
            t.log_start == old(t).log_start,
            forall|i: int|
                0 <= i < t.rows@.len() ==> (#[trigger] t.rows@[i]).key == old(t).rows@[i].key,
            forall|i: int|
                0 <= i < k ==> !(row_owned_by(#[trigger] t.rows@[i], reader) && t.rows@[i].version
                    < i64::MAX),
            forall|i: int|
                0 <= i < old(t).rows@.len() && !row_owned_by(#[trigger] old(t).rows@[i], reader)
                    ==> t.rows@[i] == old(t).rows@[i],
            forall|i: int| k <= i < t.rows@.len() ==> #[trigger] t.rows@[i] == old(t).rows@[i],
        decreases n - k,
    {
        let row = t.rows[k];
        match row.value {
            StateValue::Segment { owner, owned, last_read_offset, completed } => {
                if owned && owner == reader && row.version < i64::MAX {
                    let cleared = StateValue::Segment {
                        owner,
                        owned: false,
                        last_read_offset,
                        completed,
                    };
                    proof {
                        lemma_find_is_index(t.rows@, row.key, k as int);
                    }
                    let ghost rows_before = t.rows@;
                    let outcome = t.put(row.key, cleared, row.version);
                    proof {
                        assert(t.rows@ == rows_before.update(
                            k as int,
                            TableRow {
                                key: row.key,
                                value: cleared,
                                version: (row.version + 1) as i64,
                            },
                        ));
                    }
                }
            },
            _ => {},
        }
        k = k + 1;
    }
}

/// Appending a row does not move or change the rows already found.
proof fn lemma_find_preserved_by_push(
    rows: Seq<TableRow<StateValue>>,
    row: TableRow<StateValue>,
    key: u64,
)
    requires
        find_row_from(rows, key, 0) is Some,
    ensures
        find_row_from(rows.push(row), key, 0) == find_row_from(rows, key, 0),
        rows.push(row)[find_row_from(rows, key, 0)->Some_0] == rows[find_row_from(
            rows,
            key,
            0,
        )->Some_0],
{
    lemma_find_preserved_by_push_from(rows, row, key, 0);
}

proof fn lemma_find_preserved_by_push_from(
    rows: Seq<TableRow<StateValue>>,
    row: TableRow<StateValue>,
    key: u64,
    s: int,
)
    requires
        0 <= s,
        find_row_from(rows, key, s) is Some,
    ensures
        find_row_from(rows.push(row), key, s) == find_row_from(rows, key, s),
        rows.push(row)[find_row_from(rows, key, s)->Some_0] == rows[find_row_from(
            rows,
            key,
            s,
        )->Some_0],
    decreases rows.len() - s,
{
    if s < rows.len() && rows[s].key != key {
        lemma_find_preserved_by_push_from(rows, row, key, s + 1);
    }
}

} // verus!
