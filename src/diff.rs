//! The diff engine: key resolution and row-set comparison.

use vstd::prelude::*;
use vstd::string::StrSliceExecFns;
use vstd::string::StringExecFns;

use crate::row::{column_names, lemma_lookup, lemma_lookup_unique, lookup, unique_names, Row, RowView};

verus! {

/// A value that can identify a row: non-empty and not the NULL marker.
pub open spec fn usable(v: Seq<char>) -> bool {
    v.len() > 0 && v != "NULL"@
}

/// The value of column `name` where it is usable.
pub open spec fn usable_value(row: RowView, name: Seq<char>) -> Option<Seq<char>> {
    match lookup(row, name) {
        Some(v) => if usable(v) {
            Some(v)
        } else {
            None
        },
        None => None,
    }
}

/// The first column, in row order, whose value is usable.
pub open spec fn first_usable(row: RowView) -> Option<(Seq<char>, Seq<char>)>
    decreases row.len(),
{
    if row.len() == 0 {
        None
    } else if usable(row[0].1) {
        Some(row[0])
    } else {
        first_usable(row.drop_first())
    }
}

/// Values joined by `_`.
pub open spec fn join_values(vals: Seq<Seq<char>>) -> Seq<char>
    decreases vals.len(),
{
    if vals.len() == 0 {
        Seq::empty()
    } else if vals.len() == 1 {
        vals[0]
    } else {
        join_values(vals.drop_last()) + "_"@ + vals.last()
    }
}

/// The first `n` values of a row.
pub open spec fn leading_values(row: RowView, n: int) -> Seq<Seq<char>> {
    Seq::new(n as nat, |i: int| row[i].1)
}

/// At most the first `n` characters of `s`.
pub open spec fn truncate(s: Seq<char>, n: int) -> Seq<char> {
    if s.len() <= n {
        s
    } else {
        s.subrange(0, n)
    }
}

/// The identifier of a row: the usable value of the key column, else of
/// `id`, `uuid` or `pk`, else `<column>:<value>` of the first usable column,
/// else `row_` and the first three values joined by `_`, cut to 20 characters.
pub open spec fn pk_of(row: RowView, pk_col: Seq<char>) -> Seq<char> {
    if usable_value(row, pk_col) is Some {
        usable_value(row, pk_col)->0
    } else if usable_value(row, "id"@) is Some {
        usable_value(row, "id"@)->0
    } else if usable_value(row, "uuid"@) is Some {
        usable_value(row, "uuid"@)->0
    } else if usable_value(row, "pk"@) is Some {
        usable_value(row, "pk"@)->0
    } else if first_usable(row) is Some {
        let (name, value) = first_usable(row)->0;
        name + ":"@ + value
    } else {
        "row_"@ + truncate(
            join_values(leading_values(row, if row.len() < 3 { row.len() as int } else { 3 })),
            20,
        )
    }
}

/// A row without a usable value has no usable column and no usable first column.
proof fn lemma_no_usable(row: RowView, name: Seq<char>)
    requires
        forall|t: int| 0 <= t < row.len() ==> !usable(#[trigger] row[t].1),
    ensures
        usable_value(row, name) is None,
        first_usable(row) is None,
    decreases row.len(),
{
    lemma_lookup(row, name);
    if row.len() > 0 {
        assert forall|t: int| 0 <= t < row.drop_first().len() implies !usable(
            #[trigger] row.drop_first()[t].1,
        ) by {
            assert(row.drop_first()[t] == row[t + 1]);
        }
        lemma_no_usable(row.drop_first(), name);
    }
}

fn is_usable(v: &String) -> (r: bool)
    ensures
        r == usable(v@),
{
    let null = String::from_str("NULL");
    v.as_str().unicode_len() > 0 && !(*v == null)
}

fn usable_column(row: &Row, name: &str) -> (r: Option<String>)
    ensures
        match r {
            Some(v) => usable_value(row@, name@) == Some(v@),
            None => usable_value(row@, name@) is None,
        },
{
    match row.get(name) {
        Some(v) => if is_usable(v) {
            Some(v.clone())
        } else {
            None
        },
        None => None,
    }
}

/// The identifier of `row` under the key column `pk_col`, with the fallbacks
/// of `pk_of`. Never empty.
pub fn get_pk_value(row: &Row, pk_col: &str) -> (r: String)
    ensures
        r@ == pk_of(row@, pk_col@),
        r@.len() > 0,
        (forall|t: int| 0 <= t < row@.len() ==> !usable(#[trigger] row@[t].1)) ==> r@.subrange(0, 4)
            == "row_"@,
{
    proof {
        reveal_strlit("row_");
        if forall|t: int| 0 <= t < row@.len() ==> !usable(#[trigger] row@[t].1) {
            lemma_no_usable(row@, pk_col@);
            lemma_no_usable(row@, "id"@);
            lemma_no_usable(row@, "uuid"@);
            lemma_no_usable(row@, "pk"@);
            let p = pk_of(row@, pk_col@);
            assert(p.subrange(0, 4) =~= "row_"@);
        }
    }
    if let Some(v) = usable_column(row, pk_col) {
        return v;
    }
    if let Some(v) = usable_column(row, "id") {
        return v;
    }
    if let Some(v) = usable_column(row, "uuid") {
        return v;
    }
    if let Some(v) = usable_column(row, "pk") {
        return v;
    }
    let n = row.columns.len();
    let mut i: usize = 0;
    assert(row@.subrange(0, n as int) =~= row@);
    while i < n
        invariant
            n == row@.len(),
            i <= n,
            first_usable(row@) == first_usable(row@.subrange(i as int, n as int)),
            usable_value(row@, pk_col@) is None,
            usable_value(row@, "id"@) is None,
            usable_value(row@, "uuid"@) is None,
            usable_value(row@, "pk"@) is None,
        decreases n - i,
    {
        assert(row@.subrange(i as int, n as int).drop_first() =~= row@.subrange(i + 1, n as int));
        assert(row@.subrange(i as int, n as int)[0] == row@[i as int]);
        if is_usable(&row.columns[i].1) {
            let mut s = row.columns[i].0.clone();
            s.append(":");
            s.append(row.columns[i].1.as_str());
            assert(first_usable(row@) == Some(row@[i as int]));
            return s;
        }
        i = i + 1;
    }
    let count: usize = if n < 3 { n } else { 3 };
    let mut joined = String::new();
    let mut k: usize = 0;
    while k < count
        invariant
            count <= n == row@.len(),
            k <= count,
            joined@ == join_values(leading_values(row@, k as int)),
            count == (if n < 3 { n } else { 3 }),
        decreases count - k,
    {
        if k > 0 {
            joined.append("_");
        }
        joined.append(row.columns[k].1.as_str());
        proof {
            let next = leading_values(row@, k + 1);
            assert(next.drop_last() =~= leading_values(row@, k as int));
            if k == 0 {
                assert(joined@ =~= next[0]);
            }
        }
        k = k + 1;
    }
    let len = joined.as_str().unicode_len();
    let cut: usize = if len < 20 { len } else { 20 };
    let head = joined.as_str().substring_char(0, cut);
    let mut r = String::from_str("row_");
    r.append(head);
    proof {
        reveal_strlit("row_");
        if len <= 20 {
            assert(joined@.subrange(0, cut as int) =~= joined@);
        }
    }
    r
}


/// Mathematical model of a row diff.
pub struct DiffView {
    pub pk_column: Seq<char>,
    pub pk_value: Seq<char>,
    pub change_type: Seq<char>,
    pub old_values: Option<RowView>,
    pub new_values: Option<RowView>,
    pub changed_columns: Seq<Seq<char>>,
}

/// One changed logical row: its key, the kind of change (`added`, `removed`
/// or `modified`), the row before and after, and the columns that differ.
#[derive(Clone, Debug)]
pub struct RowDiff {
    pub pk_column: String,
    pub pk_value: String,
    pub change_type: String,
    pub old_values: Option<Row>,
    pub new_values: Option<Row>,
    pub changed_columns: Vec<String>,
}

pub open spec fn option_row_view(r: Option<Row>) -> Option<RowView> {
    match r {
        Some(row) => Some(row@),
        None => None,
    }
}

pub open spec fn strings_view(v: Seq<String>) -> Seq<Seq<char>> {
    v.map_values(|s: String| s@)
}

impl View for RowDiff {
    type V = DiffView;

    open spec fn view(&self) -> DiffView {
        DiffView {
            pk_column: self.pk_column@,
            pk_value: self.pk_value@,
            change_type: self.change_type@,
            old_values: option_row_view(self.old_values),
            new_values: option_row_view(self.new_values),
            changed_columns: strings_view(self.changed_columns@),
        }
    }
}

pub open spec fn diffs_view(v: Seq<RowDiff>) -> Seq<DiffView> {
    v.map_values(|d: RowDiff| d@)
}

pub open spec fn rows_view(v: Seq<Row>) -> Seq<RowView> {
    v.map_values(|r: Row| r@)
}

/// The results of `f` on `0 .. n`, in order, where it gives one.
pub open spec fn collect<A>(f: spec_fn(int) -> Option<A>, n: int) -> Seq<A>
    decreases n,
{
    if n <= 0 {
        Seq::empty()
    } else {
        match f(n - 1) {
            Some(a) => collect(f, n - 1).push(a),
            None => collect(f, n - 1),
        }
    }
}

/// Every element of `collect(f, n)` is a result of `f` below `n`, and the
/// other way round.
pub proof fn lemma_collect_members<A>(f: spec_fn(int) -> Option<A>, n: int)
    ensures
        forall|t: int|
            #![trigger collect(f, n)[t]]
            0 <= t < collect(f, n).len() ==> exists|i: int|
                #![trigger f(i)]
                0 <= i < n && f(i) == Some(collect(f, n)[t]),
        forall|i: int|
            0 <= i < n && #[trigger] f(i) is Some ==> collect(f, n).contains(f(i)->0),
    decreases n,
{
    if n > 0 {
        lemma_collect_members(f, n - 1);
        let prev = collect(f, n - 1);
        assert forall|t: int|
            #![trigger collect(f, n)[t]]
            0 <= t < collect(f, n).len() implies exists|i: int|
                #![trigger f(i)]
                0 <= i < n && f(i) == Some(collect(f, n)[t]) by {
            if t < prev.len() {
                assert(collect(f, n)[t] == prev[t]);
            } else {
                assert(f(n - 1) == Some(collect(f, n)[t]));
            }
        }
        assert forall|i: int| 0 <= i < n && #[trigger] f(i) is Some implies collect(
            f,
            n,
        ).contains(f(i)->0) by {
            if i < n - 1 {
                let t = choose|t: int| 0 <= t < prev.len() && prev[t] == f(i)->0;
                assert(collect(f, n)[t] == prev[t]);
            } else {
                assert(collect(f, n)[prev.len() as int] == f(i)->0);
            }
        }
    }
}

/// Where `f` gives results with distinct keys on distinct arguments, the
/// elements of `collect(f, n)` have distinct keys.
pub proof fn lemma_collect_distinct<A, K>(f: spec_fn(int) -> Option<A>, key: spec_fn(A) -> K, n: int)
    requires
        forall|i: int, j: int|
            0 <= i < j < n && #[trigger] f(i) is Some && #[trigger] f(j) is Some ==> key(f(i)->0)
                != key(f(j)->0),
    ensures
        forall|s: int, t: int|
            0 <= s < t < collect(f, n).len() ==> key(#[trigger] collect(f, n)[s]) != key(
                #[trigger] collect(f, n)[t],
            ),
    decreases n,
{
    if n > 0 {
        lemma_collect_distinct(f, key, n - 1);
        lemma_collect_members(f, n - 1);
        let prev = collect(f, n - 1);
        assert forall|s: int, t: int| 0 <= s < t < collect(f, n).len() implies key(
            #[trigger] collect(f, n)[s],
        ) != key(#[trigger] collect(f, n)[t]) by {
            if t < prev.len() {
                assert(collect(f, n)[s] == prev[s]);
                assert(collect(f, n)[t] == prev[t]);
            } else {
                assert(collect(f, n)[s] == prev[s]);
                let i = choose|i: int| 0 <= i < n - 1 && #[trigger] f(i) == Some(prev[s]);
                assert(f(n - 1) == Some(collect(f, n)[t]));
            }
        }
    }
}

/// The identifiers of `rows`, in order.
pub open spec fn keys_of(rows: Seq<RowView>, pk_col: Seq<char>) -> Seq<Seq<char>> {
    rows.map_values(|r: RowView| pk_of(r, pk_col))
}

/// No later row has the identifier of row `i`: row `i` stands for its key.
pub open spec fn is_last(keys: Seq<Seq<char>>, i: int) -> bool {
    forall|j: int| i < j < keys.len() ==> keys[j] != keys[i]
}

/// The index of the last row with identifier `k`, or -1.
pub open spec fn last_index(keys: Seq<Seq<char>>, k: Seq<char>) -> int
    decreases keys.len(),
{
    if keys.len() == 0 {
        -1
    } else if keys.last() == k {
        keys.len() - 1
    } else {
        last_index(keys.drop_last(), k)
    }
}

/// The columns that differ between two rows: first the columns of `new_row`
/// whose value differs from the same-named column of `old_row` or that
/// `old_row` lacks, then the columns of `old_row` that `new_row` lacks.
pub open spec fn changed_columns(new_row: RowView, old_row: RowView) -> Seq<Seq<char>> {
    collect(changed_fn(new_row, old_row), new_row.len() as int) + collect(
        dropped_fn(new_row, old_row),
        old_row.len() as int,
    )
}

/// Column `t` of `old_row`, where `new_row` has no column of that name.
pub open spec fn dropped_fn(new_row: RowView, old_row: RowView) -> spec_fn(int) -> Option<Seq<char>> {
    |t: int|
        if lookup(new_row, old_row[t].0) is None {
            Some(old_row[t].0)
        } else {
            None
        }
}

/// Column `t` of `new_row`, where its value differs in `old_row`.
pub open spec fn changed_fn(new_row: RowView, old_row: RowView) -> spec_fn(int) -> Option<Seq<char>> {
    |t: int|
        if lookup(old_row, new_row[t].0) != Some(new_row[t].1) {
            Some(new_row[t].0)
        } else {
            None
        }
}

/// The `added` diff for new row `i`, if it stands for a key that no old row has.
pub open spec fn added_at(old: Seq<RowView>, new: Seq<RowView>, pk_col: Seq<char>, i: int) -> Option<DiffView> {
    let keys = keys_of(new, pk_col);
    if is_last(keys, i) && last_index(keys_of(old, pk_col), keys[i]) < 0 {
        Some(DiffView {
            pk_column: pk_col,
            pk_value: keys[i],
            change_type: "added"@,
            old_values: None,
            new_values: Some(new[i]),
            changed_columns: column_names(new[i]),
        })
    } else {
        None
    }
}

/// The `removed` diff for old row `j`, if it stands for a key that no new row has.
pub open spec fn removed_at(old: Seq<RowView>, new: Seq<RowView>, pk_col: Seq<char>, j: int) -> Option<DiffView> {
    let keys = keys_of(old, pk_col);
    if is_last(keys, j) && last_index(keys_of(new, pk_col), keys[j]) < 0 {
        Some(DiffView {
            pk_column: pk_col,
            pk_value: keys[j],
            change_type: "removed"@,
            old_values: Some(old[j]),
            new_values: None,
            changed_columns: column_names(old[j]),
        })
    } else {
        None
    }
}

/// The `modified` diff for new row `i`, if it stands for a key that an old row
/// has too and some column differs.
pub open spec fn modified_at(old: Seq<RowView>, new: Seq<RowView>, pk_col: Seq<char>, i: int) -> Option<DiffView> {
    let keys = keys_of(new, pk_col);
    let o = last_index(keys_of(old, pk_col), keys[i]);
    if is_last(keys, i) && o >= 0 && changed_columns(new[i], old[o]).len() > 0 {
        Some(DiffView {
            pk_column: pk_col,
            pk_value: keys[i],
            change_type: "modified"@,
            old_values: Some(old[o]),
            new_values: Some(new[i]),
            changed_columns: changed_columns(new[i], old[o]),
        })
    } else {
        None
    }
}

/// All diffs between two row sets: the added rows, then the removed rows, then
/// the modified rows. Where several rows share an identifier, the last one
/// stands for it.
pub open spec fn diffs_of(old: Seq<RowView>, new: Seq<RowView>, pk_col: Seq<char>) -> Seq<DiffView> {
    collect(added_fn(old, new, pk_col), new.len() as int) + collect(
        removed_fn(old, new, pk_col),
        old.len() as int,
    ) + collect(modified_fn(old, new, pk_col), new.len() as int)
}

pub open spec fn added_fn(old: Seq<RowView>, new: Seq<RowView>, pk_col: Seq<char>) -> spec_fn(int) -> Option<DiffView> {
    |i: int| added_at(old, new, pk_col, i)
}

pub open spec fn removed_fn(old: Seq<RowView>, new: Seq<RowView>, pk_col: Seq<char>) -> spec_fn(int) -> Option<DiffView> {
    |j: int| removed_at(old, new, pk_col, j)
}

pub open spec fn modified_fn(old: Seq<RowView>, new: Seq<RowView>, pk_col: Seq<char>) -> spec_fn(int) -> Option<DiffView> {
    |i: int| modified_at(old, new, pk_col, i)
}

proof fn lemma_last_index(keys: Seq<Seq<char>>, k: Seq<char>)
    ensures
        -1 <= last_index(keys, k) < keys.len(),
        last_index(keys, k) >= 0 ==> keys[last_index(keys, k)] == k,
        forall|j: int| last_index(keys, k) < j < keys.len() ==> keys[j] != k,
    decreases keys.len(),
{
    if keys.len() > 0 && keys.last() != k {
        lemma_last_index(keys.drop_last(), k);
        assert forall|j: int| last_index(keys, k) < j < keys.len() implies keys[j] != k by {
            if j < keys.len() - 1 {
                assert(keys[j] == keys.drop_last()[j]);
            }
        }
    }
}


/// Every row of the list has unique column names.
pub open spec fn rows_wf(rows: Seq<RowView>) -> bool {
    forall|i: int| 0 <= i < rows.len() ==> unique_names(#[trigger] rows[i])
}

proof fn lemma_contains_last(keys: Seq<Seq<char>>, k: Seq<char>)
    ensures
        keys.contains(k) <==> last_index(keys, k) >= 0,
{
    lemma_last_index(keys, k);
}

proof fn lemma_last_is_index(keys: Seq<Seq<char>>, i: int)
    requires
        0 <= i < keys.len(),
        is_last(keys, i),
    ensures
        last_index(keys, keys[i]) == i,
{
    lemma_last_index(keys, keys[i]);
}

/// Where key `k` is present, the row at its last index stands for it.
proof fn lemma_last_stands(keys: Seq<Seq<char>>, k: Seq<char>)
    requires
        keys.contains(k),
    ensures
        0 <= last_index(keys, k) < keys.len(),
        keys[last_index(keys, k)] == k,
        is_last(keys, last_index(keys, k)),
{
    lemma_last_index(keys, k);
}

/// The added diffs: keys only in `new`, each once.
proof fn lemma_added_part(old: Seq<RowView>, new: Seq<RowView>, pk_col: Seq<char>)
    ensures
        ({
            let a = collect(added_fn(old, new, pk_col), new.len() as int);
            &&& forall|t: int|
                #![trigger a[t]]
                0 <= t < a.len() ==> !keys_of(old, pk_col).contains(a[t].pk_value) && keys_of(
                    new,
                    pk_col,
                ).contains(a[t].pk_value)
            &&& forall|s: int, t: int| 0 <= s < t < a.len() ==> #[trigger] a[s].pk_value != #[trigger] a[t].pk_value
        }),
{
    let f = added_fn(old, new, pk_col);
    let n = new.len() as int;
    let nk = keys_of(new, pk_col);
    let ok = keys_of(old, pk_col);
    let a = collect(f, n);
    lemma_collect_members(f, n);
    lemma_collect_distinct(f, |d: DiffView| d.pk_value, n);
    assert forall|t: int| #![trigger a[t]] 0 <= t < a.len() implies !ok.contains(a[t].pk_value)
        && nk.contains(a[t].pk_value) by {
        let i = choose|i: int| #![trigger f(i)] 0 <= i < n && f(i) == Some(a[t]);
        lemma_contains_last(ok, nk[i]);
        assert(nk[i] == a[t].pk_value);
    }
}

/// The removed diffs: keys only in `old`, each once.
proof fn lemma_removed_part(old: Seq<RowView>, new: Seq<RowView>, pk_col: Seq<char>)
    ensures
        ({
            let r = collect(removed_fn(old, new, pk_col), old.len() as int);
            &&& forall|t: int|
                #![trigger r[t]]
                0 <= t < r.len() ==> keys_of(old, pk_col).contains(r[t].pk_value) && !keys_of(
                    new,
                    pk_col,
                ).contains(r[t].pk_value)
            &&& forall|s: int, t: int| 0 <= s < t < r.len() ==> #[trigger] r[s].pk_value != #[trigger] r[t].pk_value
        }),
{
    let f = removed_fn(old, new, pk_col);
    let n = old.len() as int;
    let nk = keys_of(new, pk_col);
    let ok = keys_of(old, pk_col);
    let r = collect(f, n);
    lemma_collect_members(f, n);
    lemma_collect_distinct(f, |d: DiffView| d.pk_value, n);
    assert forall|t: int| #![trigger r[t]] 0 <= t < r.len() implies ok.contains(r[t].pk_value)
        && !nk.contains(r[t].pk_value) by {
        let j = choose|j: int| #![trigger f(j)] 0 <= j < n && f(j) == Some(r[t]);
        lemma_contains_last(nk, ok[j]);
        assert(ok[j] == r[t].pk_value);
    }
}

/// The modified diffs: keys in both, each once, from the rows that stand for
/// the key.
proof fn lemma_modified_part(old: Seq<RowView>, new: Seq<RowView>, pk_col: Seq<char>)
    ensures
        ({
            let m = collect(modified_fn(old, new, pk_col), new.len() as int);
            let nk = keys_of(new, pk_col);
            let ok = keys_of(old, pk_col);
            &&& forall|t: int|
                #![trigger m[t]]
                0 <= t < m.len() ==> ok.contains(m[t].pk_value) && nk.contains(m[t].pk_value)
                    && modified_at(old, new, pk_col, last_index(nk, m[t].pk_value)) == Some(m[t])
            &&& forall|s: int, t: int| 0 <= s < t < m.len() ==> #[trigger] m[s].pk_value != #[trigger] m[t].pk_value
        }),
{
    let f = modified_fn(old, new, pk_col);
    let n = new.len() as int;
    let nk = keys_of(new, pk_col);
    let ok = keys_of(old, pk_col);
    let m = collect(f, n);
    lemma_collect_members(f, n);
    lemma_collect_distinct(f, |d: DiffView| d.pk_value, n);
    assert forall|t: int| #![trigger m[t]] 0 <= t < m.len() implies ok.contains(m[t].pk_value)
        && nk.contains(m[t].pk_value) && modified_at(
        old,
        new,
        pk_col,
        last_index(nk, m[t].pk_value),
    ) == Some(m[t]) by {
        let i = choose|i: int| #![trigger f(i)] 0 <= i < n && f(i) == Some(m[t]);
        lemma_contains_last(ok, nk[i]);
        lemma_last_is_index(nk, i);
        assert(nk[i] == m[t].pk_value);
    }
}

/// No two diffs of one comparison share an identifier.
pub proof fn lemma_diff_keys_distinct(old: Seq<RowView>, new: Seq<RowView>, pk_col: Seq<char>)
    ensures
        forall|s: int, t: int|
            0 <= s < t < diffs_of(old, new, pk_col).len() ==> #[trigger] diffs_of(old, new, pk_col)[s].pk_value
                != #[trigger] diffs_of(old, new, pk_col)[t].pk_value,
{
    let a = collect(added_fn(old, new, pk_col), new.len() as int);
    let r = collect(removed_fn(old, new, pk_col), old.len() as int);
    let m = collect(modified_fn(old, new, pk_col), new.len() as int);
    let d = diffs_of(old, new, pk_col);
    lemma_added_part(old, new, pk_col);
    lemma_removed_part(old, new, pk_col);
    lemma_modified_part(old, new, pk_col);
    assert forall|s: int, t: int| 0 <= s < t < d.len() implies #[trigger] d[s].pk_value
        != #[trigger] d[t].pk_value by {
        let al = a.len() as int;
        let rl = r.len() as int;
        if t < al {
            assert(d[s] == a[s] && d[t] == a[t]);
        } else if t < al + rl {
            assert(d[t] == r[t - al]);
            if s < al {
                assert(d[s] == a[s]);
            } else {
                assert(d[s] == r[s - al]);
            }
        } else {
            assert(d[t] == m[t - al - rl]);
            if s < al {
                assert(d[s] == a[s]);
            } else if s < al + rl {
                assert(d[s] == r[s - al]);
            } else {
                assert(d[s] == m[s - al - rl]);
            }
        }
    }
}

/// A diff of one comparison has identifier `k` exactly at index `t`.
pub open spec fn only_at(d: Seq<DiffView>, k: Seq<char>, t: int) -> bool {
    &&& 0 <= t < d.len()
    &&& d[t].pk_value == k
    &&& forall|u: int| 0 <= u < d.len() && u != t ==> #[trigger] d[u].pk_value != k
}

proof fn lemma_only_at(old: Seq<RowView>, new: Seq<RowView>, pk_col: Seq<char>, k: Seq<char>, t: int)
    requires
        0 <= t < diffs_of(old, new, pk_col).len(),
        diffs_of(old, new, pk_col)[t].pk_value == k,
    ensures
        only_at(diffs_of(old, new, pk_col), k, t),
{
    let d = diffs_of(old, new, pk_col);
    lemma_diff_keys_distinct(old, new, pk_col);
    assert forall|u: int| 0 <= u < d.len() && u != t implies #[trigger] d[u].pk_value != k by {
        if u < t {
            assert(d[u].pk_value != d[t].pk_value);
        } else {
            assert(d[t].pk_value != d[u].pk_value);
        }
    }
}

/// A key that only new rows have gives exactly one diff for it: `added`,
/// with the row that stands for the key and all of its column names.
pub proof fn lemma_added_row(old: Seq<RowView>, new: Seq<RowView>, pk_col: Seq<char>, k: Seq<char>)
    requires
        keys_of(new, pk_col).contains(k),
        !keys_of(old, pk_col).contains(k),
    ensures
        exists|t: int|
            only_at(diffs_of(old, new, pk_col), k, t) && #[trigger] diffs_of(old, new, pk_col)[t] == (DiffView {
                pk_column: pk_col,
                pk_value: k,
                change_type: "added"@,
                old_values: None,
                new_values: Some(new[last_index(keys_of(new, pk_col), k)]),
                changed_columns: column_names(new[last_index(keys_of(new, pk_col), k)]),
            }),
{
    let nk = keys_of(new, pk_col);
    let ok = keys_of(old, pk_col);
    let f = added_fn(old, new, pk_col);
    let a = collect(f, new.len() as int);
    let d = diffs_of(old, new, pk_col);
    lemma_last_stands(nk, k);
    lemma_contains_last(ok, k);
    let i = last_index(nk, k);
    lemma_collect_members(f, new.len() as int);
    assert(f(i) is Some);
    let t = choose|t: int| 0 <= t < a.len() && a[t] == f(i)->0;
    assert(d[t] == a[t]);
    lemma_only_at(old, new, pk_col, k, t);
}

/// A key that only old rows have gives exactly one diff for it: `removed`,
/// with the row that stands for the key and all of its column names.
pub proof fn lemma_removed_row(old: Seq<RowView>, new: Seq<RowView>, pk_col: Seq<char>, k: Seq<char>)
    requires
        keys_of(old, pk_col).contains(k),
        !keys_of(new, pk_col).contains(k),
    ensures
        exists|t: int|
            only_at(diffs_of(old, new, pk_col), k, t) && #[trigger] diffs_of(old, new, pk_col)[t] == (DiffView {
                pk_column: pk_col,
                pk_value: k,
                change_type: "removed"@,
                old_values: Some(old[last_index(keys_of(old, pk_col), k)]),
                new_values: None,
                changed_columns: column_names(old[last_index(keys_of(old, pk_col), k)]),
            }),
{
    let nk = keys_of(new, pk_col);
    let ok = keys_of(old, pk_col);
    let f = removed_fn(old, new, pk_col);
    let a = collect(added_fn(old, new, pk_col), new.len() as int);
    let r = collect(f, old.len() as int);
    let d = diffs_of(old, new, pk_col);
    lemma_last_stands(ok, k);
    lemma_contains_last(nk, k);
    let j = last_index(ok, k);
    lemma_collect_members(f, old.len() as int);
    assert(f(j) is Some);
    let t = choose|t: int| 0 <= t < r.len() && r[t] == f(j)->0;
    assert(d[a.len() + t] == r[t]);
    lemma_only_at(old, new, pk_col, k, a.len() + t);
}

/// The rows that stand for key `k` on either side.
pub open spec fn new_row_for(new: Seq<RowView>, pk_col: Seq<char>, k: Seq<char>) -> RowView {
    new[last_index(keys_of(new, pk_col), k)]
}

pub open spec fn old_row_for(old: Seq<RowView>, pk_col: Seq<char>, k: Seq<char>) -> RowView {
    old[last_index(keys_of(old, pk_col), k)]
}

/// The names of the columns of either row whose value is not the same in the
/// other (a column that one row lacks differs).
pub open spec fn differing_names(new_row: RowView, old_row: RowView) -> Set<Seq<char>> {
    Set::new(
        |n: Seq<char>|
            (column_names(new_row).contains(n) || column_names(old_row).contains(n)) && lookup(
                old_row,
                n,
            ) != lookup(new_row, n),
    )
}

proof fn lemma_changed_set(new_row: RowView, old_row: RowView)
    requires
        unique_names(new_row),
    ensures
        changed_columns(new_row, old_row).to_set() == differing_names(new_row, old_row),
{
    let f = changed_fn(new_row, old_row);
    let g = dropped_fn(new_row, old_row);
    let a = collect(f, new_row.len() as int);
    let b = collect(g, old_row.len() as int);
    let c = changed_columns(new_row, old_row);
    lemma_collect_members(f, new_row.len() as int);
    lemma_collect_members(g, old_row.len() as int);
    assert forall|n: Seq<char>| c.to_set().contains(n) <==> differing_names(new_row, old_row).contains(n) by {
        if c.to_set().contains(n) {
            let t = choose|t: int| 0 <= t < c.len() && c[t] == n;
            if t < a.len() {
                assert(c[t] == a[t]);
                let i = choose|i: int| #![trigger f(i)] 0 <= i < new_row.len() && f(i) == Some(a[t]);
                lemma_lookup_unique(new_row, i);
                assert(column_names(new_row)[i] == n);
            } else {
                assert(c[t] == b[t - a.len()]);
                let i = choose|i: int| #![trigger g(i)] 0 <= i < old_row.len() && g(i) == Some(b[t - a.len()]);
                lemma_lookup(old_row, n);
                assert(old_row[i].0 == n);
                assert(column_names(old_row)[i] == n);
            }
        }
        if differing_names(new_row, old_row).contains(n) {
            if column_names(new_row).contains(n) {
                let i = choose|i: int| 0 <= i < column_names(new_row).len() && column_names(new_row)[i] == n;
                lemma_lookup_unique(new_row, i);
                assert(f(i) is Some);
                let u = choose|u: int| 0 <= u < a.len() && a[u] == f(i)->0;
                assert(c[u] == a[u]);
            } else {
                let i = choose|i: int| 0 <= i < column_names(old_row).len() && column_names(old_row)[i] == n;
                lemma_lookup(new_row, n);
                if lookup(new_row, n) is Some {
                    let w = choose|w: int|
                        0 <= w < new_row.len() && new_row[w].0 == n && lookup(new_row, n) == Some(
                            #[trigger] new_row[w].1,
                        );
                    assert(column_names(new_row)[w] == n);
                }
                assert(g(i) is Some);
                let u = choose|u: int| 0 <= u < b.len() && b[u] == g(i)->0;
                assert(c[a.len() + u] == b[u]);
            }
        }
    }
    assert(c.to_set() =~= differing_names(new_row, old_row));
}

/// A key that rows on both sides have, whose rows hold the same value in
/// every column, gives no diff.
pub proof fn lemma_unchanged_row(old: Seq<RowView>, new: Seq<RowView>, pk_col: Seq<char>, k: Seq<char>)
    requires
        rows_wf(new),
        keys_of(old, pk_col).contains(k),
        keys_of(new, pk_col).contains(k),
        differing_names(new_row_for(new, pk_col, k), old_row_for(old, pk_col, k)).is_empty(),
    ensures
        forall|t: int| 0 <= t < diffs_of(old, new, pk_col).len() ==> #[trigger] diffs_of(old, new, pk_col)[t].pk_value != k,
{
    let nk = keys_of(new, pk_col);
    let ok = keys_of(old, pk_col);
    let a = collect(added_fn(old, new, pk_col), new.len() as int);
    let r = collect(removed_fn(old, new, pk_col), old.len() as int);
    let m = collect(modified_fn(old, new, pk_col), new.len() as int);
    let d = diffs_of(old, new, pk_col);
    lemma_added_part(old, new, pk_col);
    lemma_removed_part(old, new, pk_col);
    lemma_modified_part(old, new, pk_col);
    lemma_last_stands(nk, k);
    lemma_last_stands(ok, k);
    let nr = new_row_for(new, pk_col, k);
    let or = old_row_for(old, pk_col, k);
    lemma_changed_set(nr, or);
    assert(changed_columns(nr, or).len() == 0) by {
        if changed_columns(nr, or).len() > 0 {
            assert(changed_columns(nr, or).to_set().contains(changed_columns(nr, or)[0]));
        }
    }
    assert forall|t: int| 0 <= t < d.len() implies #[trigger] d[t].pk_value != k by {
        let al = a.len() as int;
        let rl = r.len() as int;
        if t < al {
            assert(d[t] == a[t]);
        } else if t < al + rl {
            assert(d[t] == r[t - al]);
        } else {
            assert(d[t] == m[t - al - rl]);
        }
    }
}

/// A key that rows on both sides have, whose rows differ in some column,
/// gives exactly one diff for it: `modified`, whose changed columns are the
/// differing column names.
pub proof fn lemma_modified_row(old: Seq<RowView>, new: Seq<RowView>, pk_col: Seq<char>, k: Seq<char>)
    requires
        rows_wf(new),
        keys_of(old, pk_col).contains(k),
        keys_of(new, pk_col).contains(k),
        !differing_names(new_row_for(new, pk_col, k), old_row_for(old, pk_col, k)).is_empty(),
    ensures
        exists|t: int|
            only_at(diffs_of(old, new, pk_col), k, t) && (#[trigger] diffs_of(old, new, pk_col)[t]).change_type
                == "modified"@ && diffs_of(old, new, pk_col)[t].changed_columns.to_set() == differing_names(
                new_row_for(new, pk_col, k),
                old_row_for(old, pk_col, k),
            ),
{
    let nk = keys_of(new, pk_col);
    let ok = keys_of(old, pk_col);
    let f = modified_fn(old, new, pk_col);
    let a = collect(added_fn(old, new, pk_col), new.len() as int);
    let r = collect(removed_fn(old, new, pk_col), old.len() as int);
    let m = collect(f, new.len() as int);
    let d = diffs_of(old, new, pk_col);
    lemma_last_stands(nk, k);
    lemma_last_stands(ok, k);
    let nr = new_row_for(new, pk_col, k);
    let or = old_row_for(old, pk_col, k);
    lemma_changed_set(nr, or);
    let x = choose|x: Seq<char>| differing_names(nr, or).contains(x);
    assert(changed_columns(nr, or).to_set().contains(x));
    let i = last_index(nk, k);
    assert(f(i) is Some);
    lemma_collect_members(f, new.len() as int);
    let t = choose|t: int| 0 <= t < m.len() && m[t] == f(i)->0;
    let at = a.len() + r.len() + t;
    assert(d[at] == m[t]);
    lemma_only_at(old, new, pk_col, k, at);
}

fn find_last(keys: &Vec<String>, k: &String) -> (r: Option<usize>)
    ensures
        match r {
            Some(i) => i as int == last_index(strings_view(keys@), k@),
            None => last_index(strings_view(keys@), k@) < 0,
        },
{
    let ghost kv = strings_view(keys@);
    let mut j: usize = keys.len();
    assert(kv.subrange(0, j as int) =~= kv);
    while j > 0
        invariant
            j <= keys@.len(),
            kv == strings_view(keys@),
            last_index(kv, k@) == last_index(kv.subrange(0, j as int), k@),
        decreases j,
    {
        assert(kv.subrange(0, j as int).drop_last() =~= kv.subrange(0, j - 1));
        if keys[j - 1] == *k {
            return Some(j - 1);
        }
        j = j - 1;
    }
    None
}

fn is_last_at(keys: &Vec<String>, i: usize) -> (r: bool)
    requires
        i < keys@.len(),
    ensures
        r == is_last(strings_view(keys@), i as int),
{
    let n = keys.len();
    let mut j: usize = i + 1;
    while j < n
        invariant
            n == keys@.len(),
            i < j <= n,
            forall|m: int| i < m < j ==> strings_view(keys@)[m] != strings_view(keys@)[i as int],
        decreases keys@.len() - j,
    {
        if keys[j] == keys[i] {
            assert(strings_view(keys@)[j as int] == strings_view(keys@)[i as int]);
            return false;
        }
        j = j + 1;
    }
    true
}

fn keys_for(rows: &[Row], pk_col: &str) -> (r: Vec<String>)
    ensures
        strings_view(r@) == keys_of(rows_view(rows@), pk_col@),
{
    let mut keys: Vec<String> = Vec::new();
    let mut i: usize = 0;
    while i < rows.len()
        invariant
            i <= rows@.len(),
            strings_view(keys@) =~= keys_of(rows_view(rows@), pk_col@).subrange(0, i as int),
        decreases rows@.len() - i,
    {
        let k = get_pk_value(&rows[i], pk_col);
        let ghost before = keys@;
        keys.push(k);
        assert(strings_view(keys@) =~= strings_view(before).push(k@));
        assert(keys_of(rows_view(rows@), pk_col@).subrange(0, i + 1) =~= keys_of(
            rows_view(rows@),
            pk_col@,
        ).subrange(0, i as int).push(pk_of(rows@[i as int]@, pk_col@)));
        i = i + 1;
    }
    keys
}

fn column_name_list(row: &Row) -> (r: Vec<String>)
    ensures
        strings_view(r@) == column_names(row@),
{
    let mut names: Vec<String> = Vec::new();
    let mut i: usize = 0;
    while i < row.columns.len()
        invariant
            i <= row@.len(),
            strings_view(names@) =~= column_names(row@).subrange(0, i as int),
        decreases row@.len() - i,
    {
        let name = row.columns[i].0.clone();
        let ghost before = names@;
        names.push(name);
        assert(strings_view(names@) =~= strings_view(before).push(name@));
        assert(column_names(row@).subrange(0, i + 1) =~= column_names(row@).subrange(
            0,
            i as int,
        ).push(row@[i as int].0));
        i = i + 1;
    }
    names
}

fn changed_column_list(new_row: &Row, old_row: &Row) -> (r: Vec<String>)
    ensures
        strings_view(r@) == changed_columns(new_row@, old_row@),
{
    let ghost f = changed_fn(new_row@, old_row@);
    let mut names: Vec<String> = Vec::new();
    let mut t: usize = 0;
    while t < new_row.columns.len()
        invariant
            t <= new_row@.len(),
            f == changed_fn(new_row@, old_row@),
            strings_view(names@) == collect(f, t as int),
        decreases new_row@.len() - t,
    {
        let name = &new_row.columns[t].0;
        let differs = match old_row.get(name.as_str()) {
            Some(v) => !(*v == new_row.columns[t].1),
            None => true,
        };
        if differs {
            names.push(name.clone());
            assert(strings_view(names@) =~= collect(f, t as int).push(name@));
        }
        t = t + 1;
    }
    let ghost g = dropped_fn(new_row@, old_row@);
    let ghost kept = strings_view(names@);
    assert(kept + collect(g, 0) =~= kept);
    let mut u: usize = 0;
    while u < old_row.columns.len()
        invariant
            u <= old_row@.len(),
            g == dropped_fn(new_row@, old_row@),
            kept == collect(changed_fn(new_row@, old_row@), new_row@.len() as int),
            strings_view(names@) == kept + collect(g, u as int),
        decreases old_row@.len() - u,
    {
        let name = &old_row.columns[u].0;
        if new_row.get(name.as_str()).is_none() {
            let ghost before = names@;
            names.push(name.clone());
            assert(strings_view(names@) =~= strings_view(before).push(name@));
            assert(strings_view(names@) =~= kept + collect(g, u as int).push(name@));
        }
        u = u + 1;
    }
    names
}



fn added_diff(pk_col: &str, key: &String, row: &Row) -> (r: RowDiff)
    ensures
        r@ == (DiffView {
            pk_column: pk_col@,
            pk_value: key@,
            change_type: "added"@,
            old_values: None,
            new_values: Some(row@),
            changed_columns: column_names(row@),
        }),
{
    RowDiff {
        pk_column: String::from_str(pk_col),
        pk_value: key.clone(),
        change_type: String::from_str("added"),
        old_values: None,
        new_values: Some(row.clone()),
        changed_columns: column_name_list(row),
    }
}

fn removed_diff(pk_col: &str, key: &String, row: &Row) -> (r: RowDiff)
    ensures
        r@ == (DiffView {
            pk_column: pk_col@,
            pk_value: key@,
            change_type: "removed"@,
            old_values: Some(row@),
            new_values: None,
            changed_columns: column_names(row@),
        }),
{
    RowDiff {
        pk_column: String::from_str(pk_col),
        pk_value: key.clone(),
        change_type: String::from_str("removed"),
        old_values: Some(row.clone()),
        new_values: None,
        changed_columns: column_name_list(row),
    }
}

/// Compares two row sets by identifier (see `pk_of`): a key only in `new_rows`
/// gives an `added` diff, a key only in `old_rows` a `removed` diff, and a key
/// in both whose rows differ in some column a `modified` diff.
pub fn calculate_all_diffs(old_rows: &[Row], new_rows: &[Row], pk_col: &str) -> (r: Vec<RowDiff>)
    ensures
        diffs_view(r@) == diffs_of(rows_view(old_rows@), rows_view(new_rows@), pk_col@),
{
    let ghost old_v = rows_view(old_rows@);
    let ghost new_v = rows_view(new_rows@);
    let old_keys = keys_for(old_rows, pk_col);
    let new_keys = keys_for(new_rows, pk_col);
    assert(strings_view(old_keys@).len() == old_keys@.len());
    assert(strings_view(new_keys@).len() == new_keys@.len());
    let mut diffs: Vec<RowDiff> = Vec::new();

    let ghost fa = added_fn(old_v, new_v, pk_col@);
    let mut i: usize = 0;
    while i < new_rows.len()
        invariant
            i <= new_rows@.len() == new_v.len() == new_keys@.len(),
            old_rows@.len() == old_v.len() == old_keys@.len(),
            old_v == rows_view(old_rows@),
            new_v == rows_view(new_rows@),
            strings_view(old_keys@) == keys_of(old_v, pk_col@),
            strings_view(new_keys@) == keys_of(new_v, pk_col@),
            fa == added_fn(old_v, new_v, pk_col@),
            diffs_view(diffs@) == collect(fa, i as int),
        decreases new_rows@.len() - i,
    {
        assert(strings_view(new_keys@)[i as int] == new_keys@[i as int]@);
        assert(new_v[i as int] == new_rows@[i as int]@);
        if is_last_at(&new_keys, i) && find_last(&old_keys, &new_keys[i]).is_none() {
            let d = added_diff(pk_col, &new_keys[i], &new_rows[i]);
            diffs.push(d);
            assert(diffs_view(diffs@) =~= collect(fa, i as int).push(fa(i as int)->0));
        }
        i = i + 1;
    }
    let ghost added = diffs_view(diffs@);

    let ghost fr = removed_fn(old_v, new_v, pk_col@);
    let mut j: usize = 0;
    assert(diffs_view(diffs@) =~= added + collect(fr, 0));
    while j < old_rows.len()
        invariant
            j <= old_rows@.len() == old_v.len() == old_keys@.len(),
            new_rows@.len() == new_v.len() == new_keys@.len(),
            old_v == rows_view(old_rows@),
            new_v == rows_view(new_rows@),
            strings_view(old_keys@) == keys_of(old_v, pk_col@),
            strings_view(new_keys@) == keys_of(new_v, pk_col@),
            fr == removed_fn(old_v, new_v, pk_col@),
            diffs_view(diffs@) == added + collect(fr, j as int),
        decreases old_rows@.len() - j,
    {
        assert(strings_view(old_keys@)[j as int] == old_keys@[j as int]@);
        assert(old_v[j as int] == old_rows@[j as int]@);
        if is_last_at(&old_keys, j) && find_last(&new_keys, &old_keys[j]).is_none() {
            let d = removed_diff(pk_col, &old_keys[j], &old_rows[j]);
            assert(fr(j as int) == Some(d@));
            let ghost before = diffs@;
            diffs.push(d);
            assert(diffs_view(diffs@) =~= diffs_view(before).push(d@));
            assert(diffs_view(diffs@) =~= added + collect(fr, j as int).push(fr(j as int)->0));
        }
        j = j + 1;
    }
    let ghost added_removed = diffs_view(diffs@);

    let ghost fm = modified_fn(old_v, new_v, pk_col@);
    let mut i: usize = 0;
    assert(diffs_view(diffs@) =~= added_removed + collect(fm, 0));
    while i < new_rows.len()
        invariant
            i <= new_rows@.len() == new_v.len() == new_keys@.len(),
            old_rows@.len() == old_v.len() == old_keys@.len(),
            old_v == rows_view(old_rows@),
            new_v == rows_view(new_rows@),
            strings_view(old_keys@) == keys_of(old_v, pk_col@),
            strings_view(new_keys@) == keys_of(new_v, pk_col@),
            fm == modified_fn(old_v, new_v, pk_col@),
            diffs_view(diffs@) == added_removed + collect(fm, i as int),
        decreases new_rows@.len() - i,
    {
        assert(strings_view(new_keys@)[i as int] == new_keys@[i as int]@);
        assert(new_v[i as int] == new_rows@[i as int]@);
        if is_last_at(&new_keys, i) {
            if let Some(o) = find_last(&old_keys, &new_keys[i]) {
                proof {
                    lemma_last_index(strings_view(old_keys@), new_keys@[i as int]@);
                }
                assert(old_v[o as int] == old_rows@[o as int]@);
                let changed = changed_column_list(&new_rows[i], &old_rows[o]);
                if changed.len() > 0 {
                    let d = RowDiff {
                        pk_column: String::from_str(pk_col),
                        pk_value: new_keys[i].clone(),
                        change_type: String::from_str("modified"),
                        old_values: Some(old_rows[o].clone()),
                        new_values: Some(new_rows[i].clone()),
                        changed_columns: changed,
                    };
                    assert(fm(i as int) == Some(d@));
                    let ghost before = diffs@;
                    diffs.push(d);
                    assert(diffs_view(diffs@) =~= diffs_view(before).push(d@));
                    assert(diffs_view(diffs@) =~= added_removed + collect(fm, i as int).push(
                        fm(i as int)->0,
                    ));
                }
            }
        }
        i = i + 1;
    }
    diffs
}

} // verus!
