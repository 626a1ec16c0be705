//! Rows: ordered mappings from column name to a display-formatted value.

use vstd::prelude::*;

verus! {

/// Mathematical model of a row: its columns, in order, as (name, value) pairs.
pub type RowView = Seq<(Seq<char>, Seq<char>)>;

/// The value of the first column named `name`, if any.
pub open spec fn lookup(cols: RowView, name: Seq<char>) -> Option<Seq<char>>
    decreases cols.len(),
{
    if cols.len() == 0 {
        None
    } else if cols[0].0 == name {
        Some(cols[0].1)
    } else {
        lookup(cols.drop_first(), name)
    }
}

/// Column names are unique.
pub open spec fn unique_names(cols: RowView) -> bool {
    forall|i: int, j: int| 0 <= i < j < cols.len() ==> #[trigger] cols[i].0 != #[trigger] cols[j].0
}

/// A found value is the value of a column of that name, and a column's name
/// finds a value.
pub proof fn lemma_lookup(cols: RowView, name: Seq<char>)
    ensures
        lookup(cols, name) is Some ==> exists|t: int|
            0 <= t < cols.len() && cols[t].0 == name && lookup(cols, name) == Some(#[trigger] cols[t].1),
        lookup(cols, name) is None ==> forall|t: int| 0 <= t < cols.len() ==> #[trigger] cols[t].0 != name,
    decreases cols.len(),
{
    if cols.len() > 0 && cols[0].0 != name {
        lemma_lookup(cols.drop_first(), name);
        if lookup(cols, name) is Some {
            let t = choose|t: int|
                0 <= t < cols.drop_first().len() && cols.drop_first()[t].0 == name && lookup(
                    cols.drop_first(),
                    name,
                ) == Some(#[trigger] cols.drop_first()[t].1);
            assert(cols[t + 1] == cols.drop_first()[t]);
        } else {
            assert forall|t: int| 0 <= t < cols.len() implies #[trigger] cols[t].0 != name by {
                if t > 0 {
                    assert(cols[t] == cols.drop_first()[t - 1]);
                }
            }
        }
    }
}

/// In a row with unique names, each column's name finds its own value.
pub proof fn lemma_lookup_unique(cols: RowView, t: int)
    requires
        unique_names(cols),
        0 <= t < cols.len(),
    ensures
        lookup(cols, cols[t].0) == Some(cols[t].1),
{
    lemma_lookup(cols, cols[t].0);
    let u = choose|u: int|
        0 <= u < cols.len() && cols[u].0 == cols[t].0 && lookup(cols, cols[t].0) == Some(
            #[trigger] cols[u].1,
        );
    if u < t {
        assert(cols[u].0 != cols[t].0);
    } else if u > t {
        assert(cols[t].0 != cols[u].0);
    }
}

/// The column names of a row, in order.
pub open spec fn column_names(cols: RowView) -> Seq<Seq<char>> {
    cols.map_values(|c: (Seq<char>, Seq<char>)| c.0)
}

/// The column values of a row, in order.
pub open spec fn column_values(cols: RowView) -> Seq<Seq<char>> {
    cols.map_values(|c: (Seq<char>, Seq<char>)| c.1)
}

/// A row of a table, captured as strings. `"NULL"` marks a database NULL.
#[derive(Debug)]
pub struct Row {
    pub columns: Vec<(String, String)>,
}

impl View for Row {
    type V = RowView;

    open spec fn view(&self) -> RowView {
        self.columns@.map_values(|c: (String, String)| (c.0@, c.1@))
    }
}

impl Clone for Row {
    fn clone(&self) -> (r: Row)
        ensures
            r@ == self@,
    {
        let mut columns: Vec<(String, String)> = Vec::new();
        let mut i: usize = 0;
        while i < self.columns.len()
            invariant
                i <= self@.len(),
                columns@.map_values(|c: (String, String)| (c.0@, c.1@)) =~= self@.subrange(0, i as int),
            decreases self@.len() - i,
        {
            let name = self.columns[i].0.clone();
            let value = self.columns[i].1.clone();
            let ghost before = columns@;
            columns.push((name, value));
            proof {
                assert(columns@ == before.push((name, value)));
                assert(columns@.map_values(|c: (String, String)| (c.0@, c.1@)) =~= before.map_values(
                    |c: (String, String)| (c.0@, c.1@),
                ).push((name@, value@)));
                assert(self@.subrange(0, i + 1) =~= self@.subrange(0, i as int).push(self@[i as int]));
            }
            i = i + 1;
        }
        Row { columns }
    }
}

impl Row {
    /// Column names are unique.
    pub open spec fn wf(&self) -> bool {
        unique_names(self@)
    }

    /// An empty row.
    pub fn new() -> (r: Row)
        ensures
            r@ == Seq::<(Seq<char>, Seq<char>)>::empty(),
            r.wf(),
    {
        Row { columns: Vec::new() }
    }

    /// The number of columns.
    pub fn len(&self) -> (r: usize)
        ensures
            r == self@.len(),
    {
        self.columns.len()
    }

    /// The index of the first column named `name`.
    fn position(&self, name: &String) -> (r: Option<usize>)
        ensures
            match r {
                Some(i) => i < self@.len() && self@[i as int].0 == name@ && lookup(self@, name@)
                    == Some(self@[i as int].1),
                None => lookup(self@, name@) is None,
            },
            r is None ==> forall|j: int| 0 <= j < self@.len() ==> self@[j].0 != name@,
    {
        let mut i: usize = 0;
        assert(self@.subrange(0, self@.len() as int) =~= self@);
        while i < self.columns.len()
            invariant
                i <= self@.len(),
                lookup(self@, name@) == lookup(self@.subrange(i as int, self@.len() as int), name@),
                forall|j: int| 0 <= j < i ==> self@[j].0 != name@,
            decreases self@.len() - i,
        {
            let ghost rest = self@.subrange(i as int, self@.len() as int);
            assert(rest.drop_first() =~= self@.subrange(i + 1, self@.len() as int));
            if self.columns[i].0 == *name {
                return Some(i);
            }
            i = i + 1;
        }
        None
    }

    /// The value of the column named `name`.
    pub fn get(&self, name: &str) -> (r: Option<&String>)
        ensures
            match r {
                Some(v) => lookup(self@, name@) == Some(v@),
                None => lookup(self@, name@) is None,
            },
    {
        let key = String::from_str(name);
        match self.position(&key) {
            Some(i) => Some(&self.columns[i].1),
            None => None,
        }
    }

    /// Sets the column `name` to `value`: replaces its value where the column
    /// exists, else appends the column.
    pub fn insert(&mut self, name: String, value: String)
        requires
            old(self).wf(),
        ensures
            final(self).wf(),
            lookup(old(self)@, name@) is Some ==> final(self)@ == old(self)@.update(
                choose|i: int| 0 <= i < old(self)@.len() && old(self)@[i].0 == name@,
                (name@, value@),
            ),
            lookup(old(self)@, name@) is None ==> final(self)@ == old(self)@.push((name@, value@)),
    {
        match self.position(&name) {
            Some(i) => {
                proof {
                    assert forall|j: int| 0 <= j < old(self)@.len() && old(self)@[j].0 == name@ implies j == i by {
                        if j != i {
                            if j < i {
                                assert(old(self)@[j].0 != old(self)@[i as int].0);
                            } else {
                                assert(old(self)@[i as int].0 != old(self)@[j].0);
                            }
                        }
                    }
                }
                self.columns.set(i, (name, value));
                assert(self@ =~= old(self)@.update(i as int, (name@, value@)));
            },
            None => {
                self.columns.push((name, value));
                assert(self@ =~= old(self)@.push((name@, value@)));
            },
        }
    }
}

} // verus!
