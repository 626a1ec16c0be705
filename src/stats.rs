//! Counter snapshots, change detection and the debounce state machine.

use vstd::prelude::*;
use vstd::string::StringExecFns;

verus! {

/// Most re-polls that one debounce makes.
pub const DEBOUNCE_MAX_ITERATIONS: usize = 5;

/// Wait between two debounce re-polls, in milliseconds.
pub const DEBOUNCE_INTERVAL_MS: u64 = 100;

/// Cumulative insert, update and delete counters of one table.
#[derive(Clone, Copy, Debug, PartialEq, Eq, Structural)]
pub struct TableStats {
    pub n_tup_ins: i64,
    pub n_tup_upd: i64,
    pub n_tup_del: i64,
}

impl TableStats {
    /// Counters count rows, so none is negative.
    pub open spec fn wf(&self) -> bool {
        self.n_tup_ins >= 0 && self.n_tup_upd >= 0 && self.n_tup_del >= 0
    }
}

/// Some counter of `now` is above the same counter of `before`.
pub open spec fn increased(now: TableStats, before: TableStats) -> bool {
    now.n_tup_ins > before.n_tup_ins || now.n_tup_upd > before.n_tup_upd || now.n_tup_del
        > before.n_tup_del
}

/// One kind of change with its count, where the counter rose.
pub open spec fn delta_entry(name: Seq<char>, now: i64, before: i64) -> Seq<(Seq<char>, int)> {
    if now > before {
        seq![(name, now - before)]
    } else {
        Seq::empty()
    }
}

/// The kinds of change between two counter triples, with the increase of
/// each, in the order INSERT, UPDATE, DELETE.
pub open spec fn detected(now: TableStats, before: TableStats) -> Seq<(Seq<char>, int)> {
    delta_entry("INSERT"@, now.n_tup_ins, before.n_tup_ins) + delta_entry(
        "UPDATE"@,
        now.n_tup_upd,
        before.n_tup_upd,
    ) + delta_entry("DELETE"@, now.n_tup_del, before.n_tup_del)
}

pub open spec fn detected_view(v: Seq<(&'static str, i64)>) -> Seq<(Seq<char>, int)> {
    v.map_values(|p: (&'static str, i64)| (p.0@, p.1 as int))
}

/// The kinds of change from `prev` to `stats`, each with its positive increase.
pub fn detect_changes(stats: &TableStats, prev: &TableStats) -> (r: Vec<(&'static str, i64)>)
    requires
        stats.wf(),
        prev.wf(),
    ensures
        detected_view(r@) == detected(*stats, *prev),
{
    let mut found: Vec<(&'static str, i64)> = Vec::new();
    if stats.n_tup_ins > prev.n_tup_ins {
        found.push(("INSERT", stats.n_tup_ins - prev.n_tup_ins));
    }
    if stats.n_tup_upd > prev.n_tup_upd {
        found.push(("UPDATE", stats.n_tup_upd - prev.n_tup_upd));
    }
    if stats.n_tup_del > prev.n_tup_del {
        found.push(("DELETE", stats.n_tup_del - prev.n_tup_del));
    }
    assert(detected_view(found@) =~= detected(*stats, *prev));
    found
}

/// Identity of a table: (schema, table).
pub type TableKey = (Seq<char>, Seq<char>);

/// Mathematical model of a counter snapshot: tables with their counters.
pub type SnapshotView = Seq<(TableKey, TableStats)>;

/// The counters of one table in a snapshot.
#[derive(Clone, Debug)]
pub struct StatsEntry {
    pub schema: String,
    pub table: String,
    pub stats: TableStats,
}

/// Counters of each watched table at one point in time.
#[derive(Clone, Debug)]
pub struct StatsSnapshot {
    pub entries: Vec<StatsEntry>,
}

impl View for StatsSnapshot {
    type V = SnapshotView;

    open spec fn view(&self) -> SnapshotView {
        self.entries@.map_values(|e: StatsEntry| ((e.schema@, e.table@), e.stats))
    }
}

/// The counters of the first entry for `key`.
pub open spec fn stats_lookup(s: SnapshotView, key: TableKey) -> Option<TableStats>
    decreases s.len(),
{
    if s.len() == 0 {
        None
    } else if s[0].0 == key {
        Some(s[0].1)
    } else {
        stats_lookup(s.drop_first(), key)
    }
}

/// Some table of `current` has a counter above its entry in `previous`.
/// Tables that only one side has count as unchanged.
pub open spec fn stats_changed(current: SnapshotView, previous: SnapshotView) -> bool {
    exists|i: int|
        0 <= i < current.len() && match stats_lookup(previous, #[trigger] current[i].0) {
            Some(p) => increased(current[i].1, p),
            None => false,
        }
}

/// All counters of the snapshot are valid.
pub open spec fn snapshot_wf(s: SnapshotView) -> bool {
    &&& forall|i: int| 0 <= i < s.len() ==> (#[trigger] s[i]).1.wf()
    &&& forall|i: int, j: int| 0 <= i < j < s.len() ==> #[trigger] s[i].0 != #[trigger] s[j].0
}

impl StatsSnapshot {
    /// Table keys are unique and counters valid.
    pub open spec fn wf(&self) -> bool {
        snapshot_wf(self@)
    }

    /// An empty snapshot.
    pub fn new() -> (r: StatsSnapshot)
        ensures
            r@ == Seq::<(TableKey, TableStats)>::empty(),
    {
        StatsSnapshot { entries: Vec::new() }
    }

    /// The number of tables.
    pub fn len(&self) -> (r: usize)
        ensures
            r == self@.len(),
    {
        self.entries.len()
    }

    fn position(&self, schema: &String, table: &String) -> (r: Option<usize>)
        ensures
            match r {
                Some(i) => i < self@.len() && self@[i as int].0 == (schema@, table@)
                    && stats_lookup(self@, (schema@, table@)) == Some(self@[i as int].1),
                None => stats_lookup(self@, (schema@, table@)) is None && forall|j: int|
                    0 <= j < self@.len() ==> self@[j].0 != (schema@, table@),
            },
    {
        let ghost key = (schema@, table@);
        let mut i: usize = 0;
        assert(self@.subrange(0, self@.len() as int) =~= self@);
        while i < self.entries.len()
            invariant
                i <= self@.len(),
                key == (schema@, table@),
                stats_lookup(self@, key) == stats_lookup(self@.subrange(i as int, self@.len() as int), key),
                forall|j: int| 0 <= j < i ==> self@[j].0 != key,
            decreases self@.len() - i,
        {
            let ghost rest = self@.subrange(i as int, self@.len() as int);
            assert(rest.drop_first() =~= self@.subrange(i + 1, self@.len() as int));
            assert(rest[0] == self@[i as int]);
            if self.entries[i].schema == *schema && self.entries[i].table == *table {
                return Some(i);
            }
            i = i + 1;
        }
        None
    }

    /// The counters of table (`schema`, `table`).
    pub fn get(&self, schema: &String, table: &String) -> (r: Option<TableStats>)
        ensures
            r == stats_lookup(self@, (schema@, table@)),
    {
        match self.position(schema, table) {
            Some(i) => Some(self.entries[i].stats),
            None => None,
        }
    }

    /// Sets the counters of table (`schema`, `table`), replacing an entry for
    /// it or appending one.
    pub fn insert(&mut self, schema: String, table: String, stats: TableStats)
        requires
            old(self).wf(),
            stats.wf(),
        ensures
            final(self).wf(),
            stats_lookup(final(self)@, (schema@, table@)) == Some(stats),
            forall|k: TableKey| k != (schema@, table@) ==> stats_lookup(final(self)@, k) == stats_lookup(old(self)@, k),
    {
        let ghost key = (schema@, table@);
        match self.position(&schema, &table) {
            Some(i) => {
                self.entries.set(i, StatsEntry { schema, table, stats });
                assert(self@ =~= old(self)@.update(i as int, (key, stats)));
                proof {
                    assert forall|k: TableKey| k != key implies stats_lookup(self@, k) == stats_lookup(
                        old(self)@,
                        k,
                    ) by {
                        lemma_lookup_update(old(self)@, i as int, key, stats, k);
                    }
                    lemma_lookup_update(old(self)@, i as int, key, stats, key);
                }
            },
            None => {
                self.entries.push(StatsEntry { schema, table, stats });
                assert(self@ =~= old(self)@.push((key, stats)));
                proof {
                    assert forall|k: TableKey| k != key implies stats_lookup(self@, k) == stats_lookup(
                        old(self)@,
                        k,
                    ) by {
                        lemma_lookup_push(old(self)@, key, stats, k);
                    }
                    lemma_lookup_push(old(self)@, key, stats, key);
                }
            },
        }
    }
}

proof fn lemma_lookup_update(s: SnapshotView, i: int, key: TableKey, stats: TableStats, k: TableKey)
    requires
        0 <= i < s.len(),
        s[i].0 == key,
        snapshot_wf(s),
    ensures
        stats_lookup(s.update(i, (key, stats)), k) == if k == key {
            Some(stats)
        } else {
            stats_lookup(s, k)
        },
    decreases s.len(),
{
    let u = s.update(i, (key, stats));
    if i > 0 {
        assert(u[0] == s[0]);
        assert(s[0].0 != s[i].0);
        assert(u.drop_first() =~= s.drop_first().update(i - 1, (key, stats)));
        assert forall|a: int, b: int| 0 <= a < b < s.drop_first().len() implies #[trigger] s.drop_first()[a].0
            != #[trigger] s.drop_first()[b].0 by {
            assert(s[a + 1].0 != s[b + 1].0);
        }
        assert forall|a: int| 0 <= a < s.drop_first().len() implies (#[trigger] s.drop_first()[a]).1.wf() by {
            assert(s[a + 1].1.wf());
        }
        lemma_lookup_update(s.drop_first(), i - 1, key, stats, k);
    } else {
        assert(u[0] == (key, stats));
        assert(u.drop_first() =~= s.drop_first());
    }
}

proof fn lemma_lookup_push(s: SnapshotView, key: TableKey, stats: TableStats, k: TableKey)
    requires
        forall|j: int| 0 <= j < s.len() ==> s[j].0 != key,
    ensures
        stats_lookup(s.push((key, stats)), k) == if k == key {
            Some(stats)
        } else {
            stats_lookup(s, k)
        },
    decreases s.len(),
{
    let p = s.push((key, stats));
    if s.len() > 0 {
        assert(p[0] == s[0]);
        assert(s[0].0 != key);
        assert(p.drop_first() =~= s.drop_first().push((key, stats)));
        assert forall|j: int| 0 <= j < s.drop_first().len() implies s.drop_first()[j].0 != key by {
            assert(s[j + 1].0 != key);
        }
        lemma_lookup_push(s.drop_first(), key, stats, k);
    } else {
        assert(p[0] == (key, stats));
        assert(p.drop_first() =~= s);
    }
}

/// Whether any table of `current` has a counter above its entry in `previous`.
pub fn has_stats_changes(current: &StatsSnapshot, previous: &StatsSnapshot) -> (r: bool)
    ensures
        r == stats_changed(current@, previous@),
{
    let mut i: usize = 0;
    while i < current.entries.len()
        invariant
            i <= current@.len(),
            forall|j: int|
                0 <= j < i ==> match stats_lookup(previous@, #[trigger] current@[j].0) {
                    Some(p) => !increased(current@[j].1, p),
                    None => true,
                },
        decreases current@.len() - i,
    {
        let e = &current.entries[i];
        assert(current@[i as int] == ((e.schema@, e.table@), e.stats));
        if let Some(p) = previous.get(&e.schema, &e.table) {
            if e.stats.n_tup_ins > p.n_tup_ins || e.stats.n_tup_upd > p.n_tup_upd || e.stats.n_tup_del
                > p.n_tup_del {
                assert(match stats_lookup(previous@, current@[i as int].0) {
                    Some(p) => increased(current@[i as int].1, p),
                    None => false,
                });
                return true;
            }
        }
        i = i + 1;
    }
    false
}


/// Progress of a debounce: the last snapshot obtained and how many re-polls
/// were made so far.
#[derive(Debug)]
pub struct Debouncer {
    pub last: StatsSnapshot,
    pub fetches: usize,
}

/// What a debounce does next: poll again, or stop with a settled snapshot.
#[derive(Debug)]
pub enum DebounceStep {
    Poll(Debouncer),
    Settled(StatsSnapshot),
}

/// Mathematical model of a debounce step.
pub enum DebounceOutcome {
    Poll(SnapshotView, nat),
    Settled(SnapshotView),
}

impl View for DebounceStep {
    type V = DebounceOutcome;

    open spec fn view(&self) -> DebounceOutcome {
        match self {
            DebounceStep::Poll(d) => DebounceOutcome::Poll(d.last@, d.fetches as nat),
            DebounceStep::Settled(s) => DebounceOutcome::Settled(s@),
        }
    }
}

/// The step after a re-poll from state (`last`, `fetches`): a failed poll
/// (`None`) settles on `last`; a poll that shows no rise over `last`, or
/// that uses up the budget, settles on what it fetched; any other polls again.
pub open spec fn debounce_next(last: SnapshotView, fetches: nat, fetched: Option<SnapshotView>) -> DebounceOutcome {
    match fetched {
        None => DebounceOutcome::Settled(last),
        Some(new) => if !stats_changed(new, last) || fetches + 1 >= DEBOUNCE_MAX_ITERATIONS {
            DebounceOutcome::Settled(new)
        } else {
            DebounceOutcome::Poll(new, fetches + 1)
        },
    }
}

/// Drives the debounce from state (`last`, `fetches`) on successive poll
/// results: the number of polls it takes, and the snapshot it settles on.
pub open spec fn debounce_run(last: SnapshotView, fetches: nat, polls: Seq<SnapshotView>) -> (nat, SnapshotView)
    decreases polls.len(),
{
    if polls.len() == 0 {
        (0, last)
    } else {
        match debounce_next(last, fetches, Some(polls[0])) {
            DebounceOutcome::Settled(r) => (1, r),
            DebounceOutcome::Poll(next, f) => {
                let (n, r) = debounce_run(next, f, polls.drop_first());
                (n + 1, r)
            },
        }
    }
}

/// The snapshot that poll `i` is compared with: the one before it, or the
/// first observation.
pub open spec fn poll_before(first: SnapshotView, polls: Seq<SnapshotView>, i: int) -> SnapshotView {
    if i == 0 {
        first
    } else {
        polls[i - 1]
    }
}

impl Debouncer {
    /// Starts a debounce from a snapshot that already differs from the
    /// previous cycle.
    pub fn new(current: StatsSnapshot) -> (r: Debouncer)
        ensures
            r.last@ == current@,
            r.fetches == 0,
    {
        Debouncer { last: current, fetches: 0 }
    }

    /// Takes the result of one re-poll (`None` where it failed).
    pub fn step(self, fetched: Option<StatsSnapshot>) -> (r: DebounceStep)
        requires
            self.fetches < DEBOUNCE_MAX_ITERATIONS,
        ensures
            r@ == debounce_next(
                self.last@,
                self.fetches as nat,
                match fetched {
                    Some(s) => Some(s@),
                    None => None,
                },
            ),
            r matches DebounceStep::Poll(d) ==> d.fetches < DEBOUNCE_MAX_ITERATIONS,
    {
        match fetched {
            None => DebounceStep::Settled(self.last),
            Some(new) => {
                if !has_stats_changes(&new, &self.last) || self.fetches + 1 >= DEBOUNCE_MAX_ITERATIONS {
                    DebounceStep::Settled(new)
                } else {
                    DebounceStep::Poll(Debouncer { last: new, fetches: self.fetches + 1 })
                }
            },
        }
    }
}

proof fn lemma_run_from(first: SnapshotView, polls: Seq<SnapshotView>, j: int, k: int)
    requires
        0 <= j <= k < polls.len(),
        k < DEBOUNCE_MAX_ITERATIONS,
        forall|i: int| 0 <= i < k ==> stats_changed(#[trigger] polls[i], poll_before(first, polls, i)),
        !stats_changed(polls[k], poll_before(first, polls, k)),
    ensures
        debounce_run(poll_before(first, polls, j), j as nat, polls.subrange(j, polls.len() as int)) == (
        (k - j + 1) as nat, polls[k]),
    decreases k - j,
{
    let rest = polls.subrange(j, polls.len() as int);
    assert(rest[0] == polls[j]);
    if j < k {
        assert(stats_changed(polls[j], poll_before(first, polls, j)));
        assert(rest.drop_first() =~= polls.subrange(j + 1, polls.len() as int));
        assert(poll_before(first, polls, j + 1) == polls[j]);
        lemma_run_from(first, polls, j + 1, k);
    }
}

proof fn lemma_run_unsettled(first: SnapshotView, polls: Seq<SnapshotView>, j: int)
    requires
        0 <= j < DEBOUNCE_MAX_ITERATIONS <= polls.len(),
        forall|i: int|
            0 <= i < DEBOUNCE_MAX_ITERATIONS ==> stats_changed(#[trigger] polls[i], poll_before(first, polls, i)),
    ensures
        debounce_run(poll_before(first, polls, j), j as nat, polls.subrange(j, polls.len() as int)) == (
        (DEBOUNCE_MAX_ITERATIONS - j) as nat, polls[DEBOUNCE_MAX_ITERATIONS - 1]),
    decreases DEBOUNCE_MAX_ITERATIONS - j,
{
    let rest = polls.subrange(j, polls.len() as int);
    assert(rest[0] == polls[j]);
    assert(stats_changed(polls[j], poll_before(first, polls, j)));
    if j + 1 < DEBOUNCE_MAX_ITERATIONS {
        assert(rest.drop_first() =~= polls.subrange(j + 1, polls.len() as int));
        assert(poll_before(first, polls, j + 1) == polls[j]);
        lemma_run_unsettled(first, polls, j + 1);
    }
}

/// Settling: where polls rise over their predecessor `k` times and then show
/// no rise, with `k` below the budget, the debounce makes exactly `k + 1`
/// polls and settles on the last of them.
pub proof fn lemma_debounce_settles(first: SnapshotView, polls: Seq<SnapshotView>, k: int)
    requires
        0 <= k < DEBOUNCE_MAX_ITERATIONS,
        k < polls.len(),
        forall|i: int| 0 <= i < k ==> stats_changed(#[trigger] polls[i], poll_before(first, polls, i)),
        !stats_changed(polls[k], poll_before(first, polls, k)),
    ensures
        debounce_run(first, 0, polls) == ((k + 1) as nat, polls[k]),
{
    lemma_run_from(first, polls, 0, k);
    assert(polls.subrange(0, polls.len() as int) =~= polls);
}

/// The budget: where every poll rises over its predecessor, the debounce
/// makes exactly `DEBOUNCE_MAX_ITERATIONS` polls and settles on the last.
pub proof fn lemma_debounce_budget(first: SnapshotView, polls: Seq<SnapshotView>)
    requires
        DEBOUNCE_MAX_ITERATIONS <= polls.len(),
        forall|i: int|
            0 <= i < DEBOUNCE_MAX_ITERATIONS ==> stats_changed(#[trigger] polls[i], poll_before(first, polls, i)),
    ensures
        debounce_run(first, 0, polls) == (DEBOUNCE_MAX_ITERATIONS as nat, polls[DEBOUNCE_MAX_ITERATIONS - 1]),
{
    lemma_run_unsettled(first, polls, 0);
    assert(polls.subrange(0, polls.len() as int) =~= polls);
}

} // verus!
