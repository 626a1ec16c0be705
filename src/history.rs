//! Change events and the bounded change history.

use vstd::prelude::*;

use crate::diff::RowDiff;

verus! {

/// Most change records that the history keeps.
pub const MAX_HISTORY_SIZE: usize = 100;

/// One user-visible change notification.
#[derive(Clone, Debug)]
pub struct TableChange {
    pub id: usize,
    pub timestamp: String,
    pub table: String,
    pub schema: String,
    pub change_type: String,
    pub row_count: i64,
}

/// A change event with the row diffs of the same cycle.
#[derive(Clone, Debug)]
pub struct ChangeRecord {
    pub change: TableChange,
    pub diffs: Vec<RowDiff>,
}

/// The history after appending `r` to `h`: where that exceeds the bound,
/// the oldest record leaves.
pub open spec fn appended(h: Seq<ChangeRecord>, r: ChangeRecord) -> Seq<ChangeRecord> {
    let s = h.push(r);
    if s.len() > MAX_HISTORY_SIZE {
        s.subrange(1, s.len() as int)
    } else {
        s
    }
}

/// The history after appending each of `rs` in turn.
pub open spec fn appended_all(h: Seq<ChangeRecord>, rs: Seq<ChangeRecord>) -> Seq<ChangeRecord>
    decreases rs.len(),
{
    if rs.len() == 0 {
        h
    } else {
        appended(appended_all(h, rs.drop_last()), rs.last())
    }
}

/// The last `n` elements of `s` (all of them where it has fewer).
pub open spec fn most_recent(s: Seq<ChangeRecord>, n: int) -> Seq<ChangeRecord> {
    if s.len() <= n {
        s
    } else {
        s.subrange(s.len() - n, s.len() as int)
    }
}

/// Appends a record for `change` and `diffs`, evicting the oldest record
/// where the history would exceed `MAX_HISTORY_SIZE`.
pub fn add_to_history(history: &mut Vec<ChangeRecord>, change: TableChange, diffs: Vec<RowDiff>)
    ensures
        final(history)@ == appended(old(history)@, ChangeRecord { change, diffs }),
{
    history.push(ChangeRecord { change, diffs });
    if history.len() > MAX_HISTORY_SIZE {
        history.remove(0);
        assert(history@ =~= appended(old(history)@, ChangeRecord { change, diffs }));
    }
}

/// Eviction: from a history within the bound, appending records in turn
/// always keeps the most recent `MAX_HISTORY_SIZE` of all, in their order.
pub proof fn lemma_history_keeps_most_recent(h: Seq<ChangeRecord>, rs: Seq<ChangeRecord>)
    requires
        h.len() <= MAX_HISTORY_SIZE,
    ensures
        appended_all(h, rs) == most_recent(h + rs, MAX_HISTORY_SIZE as int),
        appended_all(h, rs).len() <= MAX_HISTORY_SIZE,
    decreases rs.len(),
{
    if rs.len() > 0 {
        lemma_history_keeps_most_recent(h, rs.drop_last());
        let prev = h + rs.drop_last();
        assert(h + rs =~= prev.push(rs.last()));
        let m = MAX_HISTORY_SIZE as int;
        if prev.len() + 1 > m {
            if prev.len() <= m {
                assert(most_recent(prev.push(rs.last()), m) =~= prev.push(rs.last()).subrange(1, prev.len() as int + 1));
            } else {
                assert(most_recent(prev, m).push(rs.last()).subrange(1, m + 1) =~= most_recent(
                    prev.push(rs.last()),
                    m,
                ));
            }
        }
    }
}

/// The index of the first record whose event has number `id`.
pub fn find_change(history: &Vec<ChangeRecord>, id: usize) -> (r: Option<usize>)
    ensures
        match r {
            Some(i) => i < history@.len() && history@[i as int].change.id == id && forall|j: int|
                0 <= j < i ==> history@[j].change.id != id,
            None => forall|j: int| 0 <= j < history@.len() ==> history@[j].change.id != id,
        },
{
    let mut i: usize = 0;
    while i < history.len()
        invariant
            i <= history@.len(),
            forall|j: int| 0 <= j < i ==> history@[j].change.id != id,
        decreases history@.len() - i,
    {
        if history[i].change.id == id {
            return Some(i);
        }
        i = i + 1;
    }
    None
}

} // verus!
