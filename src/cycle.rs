//! One watch cycle: which tables changed, their row diffs against the
//! snapshot store, and the change event that sums them up.

use vstd::prelude::*;
use vstd::string::StrSliceExecFns;
use vstd::string::StringExecFns;

use crate::diff::{calculate_all_diffs, collect, diffs_of, diffs_view, rows_view, strings_view, DiffView, RowDiff};
use crate::history::{add_to_history, appended, ChangeRecord, TableChange};
use crate::row::{Row, RowView};
use crate::stats::{detect_changes, detected, detected_view, stats_lookup, SnapshotView, StatsSnapshot, TableKey};
use crate::text::{decimal, decimal_string, join_strings, join_with};

verus! {

/// The flattened name of a table: `schema.table`.
pub open spec fn full_name(schema: Seq<char>, table: Seq<char>) -> Seq<char> {
    schema + "."@ + table
}

/// `schema.table` for a table.
pub fn full_table_name(schema: &String, table: &String) -> (r: String)
    ensures
        r@ == full_name(schema@, table@),
{
    let mut s = schema.clone();
    s.append(".");
    s.append(table.as_str());
    s
}

/// The index of the last `.` in `s`, or -1.
pub open spec fn last_dot(s: Seq<char>) -> int
    decreases s.len(),
{
    if s.len() == 0 {
        -1
    } else if s.last() == '.' {
        s.len() - 1
    } else {
        last_dot(s.drop_last())
    }
}

/// Splits a tagged key column `schema.table.column` at its last `.` into the
/// table name and the column; without a `.`, the table name is empty.
pub fn extract_table_and_column(pk_column: &str) -> (r: (String, String))
    ensures
        last_dot(pk_column@) >= 0 ==> r.0@ == pk_column@.subrange(0, last_dot(pk_column@)) && r.1@
            == pk_column@.subrange(last_dot(pk_column@) + 1, pk_column@.len() as int),
        last_dot(pk_column@) < 0 ==> r.0@.len() == 0 && r.1@ == pk_column@,
{
    let n = pk_column.unicode_len();
    let mut j: usize = n;
    assert(pk_column@.subrange(0, n as int) =~= pk_column@);
    while j > 0
        invariant
            j <= n == pk_column@.len(),
            last_dot(pk_column@) == last_dot(pk_column@.subrange(0, j as int)),
        decreases j,
    {
        assert(pk_column@.subrange(0, j as int).drop_last() =~= pk_column@.subrange(0, j - 1));
        if pk_column.get_char(j - 1) == '.' {
            let table = String::from_str(pk_column.substring_char(0, j - 1));
            let column = String::from_str(pk_column.substring_char(j, n));
            return (table, column);
        }
        j = j - 1;
    }
    (String::new(), String::from_str(pk_column))
}

/// Mathematical model of the row snapshot store: table names with their rows.
pub type StoredTablesView = Seq<(Seq<char>, Seq<RowView>)>;

/// The rows stored for table `name`.
pub open spec fn store_lookup(s: StoredTablesView, name: Seq<char>) -> Option<Seq<RowView>>
    decreases s.len(),
{
    if s.len() == 0 {
        None
    } else if s[0].0 == name {
        Some(s[0].1)
    } else {
        store_lookup(s.drop_first(), name)
    }
}

/// The last captured rows of each table, by flattened table name.
#[derive(Clone, Debug)]
pub struct SnapshotStore {
    pub tables: Vec<(String, Vec<Row>)>,
}

impl View for SnapshotStore {
    type V = StoredTablesView;

    open spec fn view(&self) -> StoredTablesView {
        self.tables@.map_values(|e: (String, Vec<Row>)| (e.0@, rows_view(e.1@)))
    }
}

impl SnapshotStore {
    /// An empty store.
    pub fn new() -> (r: SnapshotStore)
        ensures
            r@ == Seq::<(Seq<char>, Seq<RowView>)>::empty(),
    {
        SnapshotStore { tables: Vec::new() }
    }

    fn position(&self, name: &String) -> (r: Option<usize>)
        ensures
            match r {
                Some(i) => i < self@.len() && self@[i as int].0 == name@ && store_lookup(self@, name@)
                    == Some(self@[i as int].1) && forall|j: int| 0 <= j < i ==> self@[j].0 != name@,
                None => store_lookup(self@, name@) is None,
            },
            r is None ==> forall|j: int| 0 <= j < self@.len() ==> self@[j].0 != name@,
    {
        let mut i: usize = 0;
        assert(self@.subrange(0, self@.len() as int) =~= self@);
        while i < self.tables.len()
            invariant
                i <= self@.len(),
                store_lookup(self@, name@) == store_lookup(self@.subrange(i as int, self@.len() as int), name@),
                forall|j: int| 0 <= j < i ==> self@[j].0 != name@,
            decreases self@.len() - i,
        {
            let ghost rest = self@.subrange(i as int, self@.len() as int);
            assert(rest.drop_first() =~= self@.subrange(i + 1, self@.len() as int));
            assert(rest[0] == self@[i as int]);
            if self.tables[i].0 == *name {
                return Some(i);
            }
            i = i + 1;
        }
        None
    }

    /// The rows stored for table `name`.
    pub fn get(&self, name: &String) -> (r: Option<&Vec<Row>>)
        ensures
            match r {
                Some(rows) => store_lookup(self@, name@) == Some(rows_view(rows@)),
                None => store_lookup(self@, name@) is None,
            },
    {
        match self.position(name) {
            Some(i) => Some(&self.tables[i].1),
            None => None,
        }
    }

    /// Stores `rows` for table `name`, replacing what it held for it.
    pub fn insert(&mut self, name: String, rows: Vec<Row>)
        ensures
            store_lookup(final(self)@, name@) == Some(rows_view(rows@)),
            forall|k: Seq<char>| k != name@ ==> store_lookup(final(self)@, k) == store_lookup(old(self)@, k),
    {
        let ghost entry = (name@, rows_view(rows@));
        match self.position(&name) {
            Some(i) => {
                self.tables.set(i, (name, rows));
                assert(self@ =~= old(self)@.update(i as int, entry));
                proof {
                    assert forall|k: Seq<char>| k != entry.0 || k == entry.0 implies store_lookup(self@, k)
                        == if k == entry.0 {
                        Some(entry.1)
                    } else {
                        store_lookup(old(self)@, k)
                    } by {
                        lemma_store_update(old(self)@, i as int, entry, k);
                    }
                }
            },
            None => {
                self.tables.insert(0, (name, rows));
                assert(self@ =~= seq![entry] + old(self)@);
                proof {
                    assert forall|k: Seq<char>| k != entry.0 implies store_lookup(self@, k) == store_lookup(
                        old(self)@,
                        k,
                    ) by {
                        assert(self@.drop_first() =~= old(self)@);
                    }
                }
            },
        }
    }

    /// Empties the store.
    pub fn clear(&mut self)
        ensures
            final(self)@ == Seq::<(Seq<char>, Seq<RowView>)>::empty(),
    {
        self.tables.clear();
        assert(self@ =~= Seq::<(Seq<char>, Seq<RowView>)>::empty());
    }
}

/// Replacing entry `i` of a store changes what the first entry of that name finds.
proof fn lemma_store_update(s: StoredTablesView, i: int, entry: (Seq<char>, Seq<RowView>), k: Seq<char>)
    requires
        0 <= i < s.len(),
        s[i].0 == entry.0,
        store_lookup(s, entry.0) == Some(s[i].1),
        forall|j: int| 0 <= j < i ==> s[j].0 != entry.0,
    ensures
        store_lookup(s.update(i, entry), k) == if k == entry.0 {
            Some(entry.1)
        } else {
            store_lookup(s, k)
        },
    decreases s.len(),
{
    let u = s.update(i, entry);
    if i > 0 {
        assert(u[0] == s[0]);
        assert(s[0].0 != entry.0);
        assert(u.drop_first() =~= s.drop_first().update(i - 1, entry));
        assert forall|j: int| 0 <= j < i - 1 implies s.drop_first()[j].0 != entry.0 by {
            assert(s[j + 1].0 != entry.0);
        }
        lemma_store_update(s.drop_first(), i - 1, entry, k);
    } else {
        assert(u[0] == entry);
        assert(u.drop_first() =~= s.drop_first());
    }
}

/// The diffs of one table with the table's name put before each key column:
/// `schema.table.column`.
pub open spec fn tagged(ds: Seq<DiffView>, name: Seq<char>) -> Seq<DiffView> {
    ds.map_values(|d: DiffView| DiffView { pk_column: name + "."@ + d.pk_column, ..d })
}

/// The rows that the store holds for `name`, none where it holds nothing.
pub open spec fn stored_rows(s: StoredTablesView, name: Seq<char>) -> Seq<RowView> {
    match store_lookup(s, name) {
        Some(rows) => rows,
        None => Seq::empty(),
    }
}

/// The key column of a table: the one that was found, else `id`.
pub open spec fn key_column(found: Option<Seq<char>>) -> Seq<char> {
    match found {
        Some(c) => c,
        None => "id"@,
    }
}

/// Diffs the freshly fetched `new_rows` of table `full_key` against the rows
/// stored for it, tags each diff with the table name, and stores `new_rows`
/// in place of the old rows. `pk_col` is the table's key column where the
/// lookup found one.
pub fn calculate_table_diffs(
    full_key: &String,
    new_rows: Vec<Row>,
    pk_col: Option<String>,
    snapshots: &mut SnapshotStore,
) -> (r: Vec<RowDiff>)
    ensures
        diffs_view(r@) == tagged(
            diffs_of(
                stored_rows(old(snapshots)@, full_key@),
                rows_view(new_rows@),
                key_column(
                    match pk_col {
                        Some(c) => Some(c@),
                        None => None,
                    },
                ),
            ),
            full_key@,
        ),
        store_lookup(final(snapshots)@, full_key@) == Some(rows_view(new_rows@)),
        forall|k: Seq<char>| k != full_key@ ==> store_lookup(final(snapshots)@, k) == store_lookup(old(snapshots)@, k),
{
    let pk = match pk_col {
        Some(c) => c,
        None => String::from_str("id"),
    };
    let empty: Vec<Row> = Vec::new();
    let mut diffs = match snapshots.get(full_key) {
        Some(old_rows) => calculate_all_diffs(old_rows.as_slice(), new_rows.as_slice(), pk.as_str()),
        None => {
            assert(rows_view(empty@) =~= Seq::<RowView>::empty());
            calculate_all_diffs(empty.as_slice(), new_rows.as_slice(), pk.as_str())
        },
    };
    let ghost untagged = diffs_view(diffs@);
    let mut i: usize = 0;
    while i < diffs.len()
        invariant
            i <= diffs@.len() == untagged.len(),
            forall|j: int| i <= j < diffs@.len() ==> #[trigger] diffs@[j]@ == untagged[j],
            forall|j: int| 0 <= j < i ==> #[trigger] diffs@[j]@ == tagged(untagged, full_key@)[j],
        decreases diffs@.len() - i,
    {
        let mut tag = full_key.clone();
        tag.append(".");
        tag.append(diffs[i].pk_column.as_str());
        let ghost before = diffs@;
        let mut d = diffs.remove(i);
        assert(d@ == untagged[i as int]);
        d.pk_column = tag;
        assert(d@ == tagged(untagged, full_key@)[i as int]);
        diffs.insert(i, d);
        proof {
            assert forall|j: int| 0 <= j < diffs@.len() && j != i implies diffs@[j] == before[j] by {}
            assert(diffs@[i as int] == d);
        }
        i = i + 1;
    }
    assert(diffs_view(diffs@) =~= tagged(untagged, full_key@));
    snapshots.insert(full_key.clone(), new_rows);
    diffs
}


/// The kinds of change seen in one cycle.
#[derive(Clone, Copy, Debug, PartialEq, Eq, Structural)]
pub struct ChangeKinds {
    pub insert: bool,
    pub update: bool,
    pub delete: bool,
}

/// The names of the kinds present, in lexical order: DELETE, INSERT, UPDATE.
pub open spec fn kind_names(k: ChangeKinds) -> Seq<Seq<char>> {
    (if k.delete {
        seq!["DELETE"@]
    } else {
        Seq::empty()
    }) + (if k.insert {
        seq!["INSERT"@]
    } else {
        Seq::empty()
    }) + (if k.update {
        seq!["UPDATE"@]
    } else {
        Seq::empty()
    })
}

/// The kinds after seeing a change named `name`.
pub open spec fn note_kind(k: ChangeKinds, name: Seq<char>) -> ChangeKinds {
    ChangeKinds {
        insert: k.insert || name == "INSERT"@,
        update: k.update || name == "UPDATE"@,
        delete: k.delete || name == "DELETE"@,
    }
}

/// The kinds after seeing each of the named changes in turn.
pub open spec fn note_all(k: ChangeKinds, ds: Seq<(Seq<char>, int)>) -> ChangeKinds
    decreases ds.len(),
{
    if ds.len() == 0 {
        k
    } else {
        note_kind(note_all(k, ds.drop_last()), ds.last().0)
    }
}

/// `a + b`, held at the largest `i64`.
pub open spec fn capped_sum(a: int, b: int) -> int {
    if a + b > i64::MAX {
        i64::MAX as int
    } else {
        a + b
    }
}

/// The row total after adding each count of `ds` in turn.
pub open spec fn add_counts(total: int, ds: Seq<(Seq<char>, int)>) -> int
    decreases ds.len(),
{
    if ds.len() == 0 {
        total
    } else {
        capped_sum(add_counts(total, ds.drop_last()), ds.last().1)
    }
}

impl ChangeKinds {
    /// No kind seen.
    pub fn new() -> (r: ChangeKinds)
        ensures
            !r.insert && !r.update && !r.delete,
    {
        ChangeKinds { insert: false, update: false, delete: false }
    }

    /// Notes a change named `name` (`INSERT`, `UPDATE` or `DELETE`).
    pub fn note(&mut self, name: &str)
        ensures
            *final(self) == note_kind(*old(self), name@),
    {
        let n = String::from_str(name);
        if n == String::from_str("INSERT") {
            self.insert = true;
        }
        if n == String::from_str("UPDATE") {
            self.update = true;
        }
        if n == String::from_str("DELETE") {
            self.delete = true;
        }
    }

    /// The names of the kinds seen, in lexical order.
    pub fn names(&self) -> (r: Vec<String>)
        ensures
            strings_view(r@) == kind_names(*self),
    {
        let mut v: Vec<String> = Vec::new();
        if self.delete {
            v.push(String::from_str("DELETE"));
        }
        if self.insert {
            v.push(String::from_str("INSERT"));
        }
        if self.update {
            v.push(String::from_str("UPDATE"));
        }
        assert(strings_view(v@) =~= kind_names(*self));
        v
    }

    /// The kinds seen, joined by `+` in lexical order (`DELETE+INSERT`).
    pub fn label(&self) -> (r: String)
        ensures
            r@ == join_with(kind_names(*self), "+"@),
    {
        let names = self.names();
        join_strings(&names, "+")
    }
}

/// A table whose counters rose this cycle, with the kinds of change.
#[derive(Debug)]
pub struct TableActivity {
    pub schema: String,
    pub table: String,
    pub full_key: String,
    pub detected: Vec<(&'static str, i64)>,
}

/// Mathematical model of a table activity: table, flattened name, changes.
pub type ActivityView = (TableKey, Seq<char>, Seq<(Seq<char>, int)>);

impl View for TableActivity {
    type V = ActivityView;

    open spec fn view(&self) -> ActivityView {
        ((self.schema@, self.table@), self.full_key@, detected_view(self.detected@))
    }
}

/// The activity of entry `i` of `current`: where `previous` has the table
/// and some counter rose.
pub open spec fn activity_at(current: SnapshotView, previous: SnapshotView, i: int) -> Option<ActivityView> {
    match stats_lookup(previous, current[i].0) {
        Some(p) => if detected(current[i].1, p).len() > 0 {
            Some((current[i].0, full_name(current[i].0.0, current[i].0.1), detected(current[i].1, p)))
        } else {
            None
        },
        None => None,
    }
}

pub open spec fn activity_fn(current: SnapshotView, previous: SnapshotView) -> spec_fn(int) -> Option<ActivityView> {
    |i: int| activity_at(current, previous, i)
}

/// The tables of `final_stats` whose counters rose over `prev_stats`, in the
/// order of `final_stats`. A table that `prev_stats` lacks gets only its
/// baseline this cycle.
pub fn changed_tables(final_stats: &StatsSnapshot, prev_stats: &StatsSnapshot) -> (r: Vec<TableActivity>)
    requires
        final_stats.wf(),
        prev_stats.wf(),
    ensures
        r@.map_values(|a: TableActivity| a@) == collect(activity_fn(final_stats@, prev_stats@), final_stats@.len() as int),
{
    let ghost f = activity_fn(final_stats@, prev_stats@);
    let mut out: Vec<TableActivity> = Vec::new();
    let mut i: usize = 0;
    while i < final_stats.entries.len()
        invariant
            i <= final_stats@.len(),
            final_stats.wf(),
            prev_stats.wf(),
            f == activity_fn(final_stats@, prev_stats@),
            out@.map_values(|a: TableActivity| a@) == collect(f, i as int),
        decreases final_stats@.len() - i,
    {
        let e = &final_stats.entries[i];
        assert(final_stats@[i as int] == ((e.schema@, e.table@), e.stats));
        assert(final_stats@[i as int].1.wf());
        if let Some(p) = prev_stats.get(&e.schema, &e.table) {
            proof {
                lemma_lookup_found_wf(prev_stats@, (e.schema@, e.table@));
            }
            let found = detect_changes(&e.stats, &p);
            if found.len() > 0 {
                let a = TableActivity {
                    schema: e.schema.clone(),
                    table: e.table.clone(),
                    full_key: full_table_name(&e.schema, &e.table),
                    detected: found,
                };
                assert(f(i as int) == Some(a@));
                let ghost before = out@;
                out.push(a);
                assert(out@.map_values(|a: TableActivity| a@) =~= before.map_values(|a: TableActivity| a@).push(a@));
            }
        }
        i = i + 1;
    }
    out
}

/// What a valid snapshot finds is valid.
proof fn lemma_lookup_found_wf(s: SnapshotView, key: TableKey)
    requires
        forall|i: int| 0 <= i < s.len() ==> (#[trigger] s[i]).1.wf(),
    ensures
        stats_lookup(s, key) matches Some(p) ==> p.wf(),
    decreases s.len(),
{
    if s.len() > 0 && s[0].0 != key {
        assert forall|i: int| 0 <= i < s.drop_first().len() implies (#[trigger] s.drop_first()[i]).1.wf() by {
            assert(s.drop_first()[i] == s[i + 1]);
        }
        lemma_lookup_found_wf(s.drop_first(), key);
    }
}

/// What one cycle gathered: the row diffs, the changed tables (each once),
/// the kinds of change, and the affected-row total.
#[derive(Debug)]
pub struct CycleResult {
    pub diffs: Vec<RowDiff>,
    pub tables: Vec<String>,
    pub change_types: ChangeKinds,
    pub total_rows: i64,
}

impl CycleResult {
    /// Nothing gathered.
    pub fn new() -> (r: CycleResult)
        ensures
            r.diffs@.len() == 0,
            r.tables@.len() == 0,
            !r.change_types.insert && !r.change_types.update && !r.change_types.delete,
            r.total_rows == 0,
    {
        CycleResult { diffs: Vec::new(), tables: Vec::new(), change_types: ChangeKinds::new(), total_rows: 0 }
    }

    /// Adds the diffs and detected changes of table `full_key`. Counts add up
    /// to the total, held at the largest `i64`.
    pub fn record_table(&mut self, full_key: String, detected: &Vec<(&'static str, i64)>, diffs: Vec<RowDiff>)
        requires
            old(self).total_rows >= 0,
            forall|i: int| 0 <= i < detected@.len() ==> (#[trigger] detected@[i]).1 >= 0,
        ensures
            final(self).diffs@ == old(self).diffs@ + diffs@,
            final(self).total_rows == add_counts(old(self).total_rows as int, detected_view(detected@)),
            final(self).total_rows >= 0,
            final(self).change_types == note_all(old(self).change_types, detected_view(detected@)),
            strings_view(final(self).tables@) == if strings_view(old(self).tables@).contains(full_key@) {
                strings_view(old(self).tables@)
            } else {
                strings_view(old(self).tables@).push(full_key@)
            },
    {
        let ghost added = diffs@;
        let mut incoming = diffs;
        self.diffs.append(&mut incoming);
        let ghost dv = detected_view(detected@);
        let ghost start_total = self.total_rows as int;
        let ghost start_kinds = self.change_types;
        let mut i: usize = 0;
        while i < detected.len()
            invariant
                i <= detected@.len(),
                dv == detected_view(detected@),
                forall|j: int| 0 <= j < detected@.len() ==> (#[trigger] detected@[j]).1 >= 0,
                self.total_rows >= 0,
                self.total_rows == add_counts(start_total, dv.subrange(0, i as int)),
                self.change_types == note_all(start_kinds, dv.subrange(0, i as int)),
                self.diffs@ == old(self).diffs@ + added,
                self.tables@ == old(self).tables@,
                start_total == old(self).total_rows,
                start_kinds == old(self).change_types,
            decreases detected@.len() - i,
        {
            let (name, count) = detected[i];
            assert(dv.subrange(0, i + 1).drop_last() =~= dv.subrange(0, i as int));
            assert(dv[i as int] == (name@, count as int));
            if self.total_rows <= i64::MAX - count {
                self.total_rows = self.total_rows + count;
            } else {
                self.total_rows = i64::MAX;
            }
            self.change_types.note(name);
            i = i + 1;
        }
        assert(dv.subrange(0, detected@.len() as int) =~= dv);
        let mut k: usize = 0;
        let mut present = false;
        while k < self.tables.len()
            invariant
                k <= self.tables@.len(),
                self.tables@ == old(self).tables@,
                self.diffs@ == old(self).diffs@ + added,
                self.total_rows >= 0,
                self.total_rows == add_counts(start_total, dv),
                self.change_types == note_all(start_kinds, dv),
                dv == detected_view(detected@),
                start_total == old(self).total_rows,
                start_kinds == old(self).change_types,
                present == exists|j: int| 0 <= j < k && #[trigger] strings_view(self.tables@)[j] == full_key@,
            decreases self.tables@.len() - k,
        {
            if self.tables[k] == full_key {
                present = true;
                assert(strings_view(self.tables@)[k as int] == full_key@);
            }
            k = k + 1;
        }
        let ghost old_tables = strings_view(self.tables@);
        assert(present == old_tables.contains(full_key@));
        if !present {
            self.tables.push(full_key);
            assert(strings_view(self.tables@) =~= old_tables.push(full_key@));
        }
    }
}

/// The table label of an event: the one table's name, else `<n> tables`.
pub open spec fn table_label(tables: Seq<Seq<char>>) -> Seq<char> {
    if tables.len() == 1 {
        tables[0]
    } else {
        decimal(tables.len()) + " tables"@
    }
}

/// The event for cycle `id` at time `timestamp`: the table label, the kinds
/// joined by `+` in lexical order, and the affected-row total.
pub fn build_change_event(
    id: usize,
    tables: &Vec<String>,
    change_types: &ChangeKinds,
    total_rows: i64,
    timestamp: String,
) -> (r: TableChange)
    ensures
        r.id == id,
        r.timestamp == timestamp,
        r.schema@ == Seq::<char>::empty(),
        r.table@ == table_label(strings_view(tables@)),
        r.change_type@ == join_with(kind_names(*change_types), "+"@),
        r.row_count == total_rows,
{
    let table = if tables.len() == 1 {
        tables[0].clone()
    } else {
        let mut s = decimal_string(tables.len());
        s.append(" tables");
        s
    };
    TableChange {
        id,
        timestamp,
        table,
        schema: String::new(),
        change_type: change_types.label(),
        row_count: total_rows,
    }
}

/// Relies on chrono's `Local::now` with `format("%H:%M:%S")`: the local time
/// as two-digit hour, minute and second separated by colons.
#[verifier::external_body]
fn clock_label() -> (r: String)
    ensures
        r@.len() == 8,
        r@[2] == ':',
        r@[5] == ':',
{
    chrono::Local::now().format("%H:%M:%S").to_string()
}

/// The event for cycle `id`, stamped with the local time now.
pub fn create_change_event(id: usize, tables: &Vec<String>, change_types: &ChangeKinds, total_rows: i64) -> (r: TableChange)
    ensures
        r.id == id,
        r.timestamp@.len() == 8,
        r.schema@ == Seq::<char>::empty(),
        r.table@ == table_label(strings_view(tables@)),
        r.change_type@ == join_with(kind_names(*change_types), "+"@),
        r.row_count == total_rows,
{
    let now = clock_label();
    build_change_event(id, tables, change_types, total_rows, now)
}

/// The state that a watch session owns: the change history, the number of
/// the last event, and the row snapshot store.
#[derive(Debug)]
pub struct Session {
    pub history: Vec<ChangeRecord>,
    pub change_count: usize,
    pub snapshots: SnapshotStore,
}

impl Session {
    /// A fresh session: no history, no events, no snapshots.
    pub fn new() -> (r: Session)
        ensures
            r.history@.len() == 0,
            r.change_count == 0,
            r.snapshots@ == Seq::<(Seq<char>, Seq<RowView>)>::empty(),
    {
        Session { history: Vec::new(), change_count: 0, snapshots: SnapshotStore::new() }
    }

    /// Publishes a cycle: where it found diffs, numbers the next event,
    /// builds it and appends it with the diffs to the history. Returns
    /// whether it did.
    pub fn publish(&mut self, result: CycleResult) -> (published: bool)
        requires
            old(self).change_count < usize::MAX,
        ensures
            published == (result.diffs@.len() > 0),
            !published ==> *final(self) == *old(self),
            published ==> ({
                let rec = final(self).history@.last();
                &&& final(self).change_count == old(self).change_count + 1
                &&& final(self).snapshots == old(self).snapshots
                &&& final(self).history@ == appended(old(self).history@, rec)
                &&& rec.change.id == final(self).change_count
                &&& rec.change.table@ == table_label(strings_view(result.tables@))
                &&& rec.change.change_type@ == join_with(kind_names(result.change_types), "+"@)
                &&& rec.change.row_count == result.total_rows
                &&& rec.diffs == result.diffs
            }),
    {
        if result.diffs.len() == 0 {
            return false;
        }
        self.change_count = self.change_count + 1;
        let change = create_change_event(self.change_count, &result.tables, &result.change_types, result.total_rows);
        add_to_history(&mut self.history, change, result.diffs);
        true
    }

    /// Clears the history and restarts event numbering.
    pub fn clear_history(&mut self)
        ensures
            final(self).history@.len() == 0,
            final(self).change_count == 0,
            final(self).snapshots == old(self).snapshots,
    {
        self.history.clear();
        self.change_count = 0;
    }

    /// Starts over for a new table selection: clears the history, the event
    /// numbering and the snapshot store.
    pub fn reset(&mut self)
        ensures
            final(self).history@.len() == 0,
            final(self).change_count == 0,
            final(self).snapshots@ == Seq::<(Seq<char>, Seq<RowView>)>::empty(),
    {
        self.history.clear();
        self.change_count = 0;
        self.snapshots.clear();
    }
}

} // verus!
