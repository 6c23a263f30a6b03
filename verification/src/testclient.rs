//! The per-thread benchmark client and the shared run context: the report
//! aggregation and the phase barrier.  Rather than living in process-wide
//! state, the aggregation map and the arrival counter form an explicit
//! context value handed to every client, created once per run.  Durations
//! are carried as nanosecond counts.
use vstd::prelude::*;

verus! {

use vstd::utf8::encode_utf8;
use crate::digits::{dec_chars, u64_to_dec_string, u128_to_dec_string};
use crate::fix_sized_key::padded;
use crate::interface::{GetType, Tree};

/// One phase's measurement: a metric name, how many operations ran, and the
/// elapsed wall time of the phase in nanoseconds.
pub struct ReportEntry {
    pub metric: String,
    pub size: usize,
    pub elapsed: u64,
}

/// Operations per second, `u128`-saturated, zero when no time elapsed.
pub open spec fn sat_per_sec(ops: nat, nanos: nat) -> nat {
    if nanos == 0 {
        0
    } else if ops * 1_000_000_000 > u128::MAX as nat {
        u128::MAX as nat
    } else {
        (ops * 1_000_000_000) / nanos
    }
}

/// Operations per second over a nanosecond duration.
pub fn per_sec(ops: u128, nanos: u128) -> (r: u128)
    ensures
        r as nat == sat_per_sec(ops as nat, nanos as nat),
{
    if nanos == 0 {
        0
    } else {
        match ops.checked_mul(1_000_000_000) {
            Some(x) => x / nanos,
            None => u128::MAX,
        }
    }
}

/// The line `format` prints for one report entry.
pub open spec fn report_line(metric: Seq<char>, size: nat, nanos: nat) -> Seq<char> {
    metric + ": "@ + dec_chars(size) + ", "@ + metric + "_per_sec: "@ + dec_chars(
        sat_per_sec(size, nanos),
    )
}

impl ReportEntry {
    pub fn new(metric: &str, size: usize, elapsed: u64) -> (r: Self)
        ensures
            r.metric@ == metric@,
            r.size == size,
            r.elapsed == elapsed,
    {
        Self { metric: metric.to_owned(), size, elapsed }
    }

    /// The metric's own line: count and rate.
    pub fn format(&self) -> (r: String)
        ensures
            r@ == report_line(self.metric@, self.size as nat, self.elapsed as nat),
    {
        let mut out: String = String::new();
        out.append(self.metric.as_str());
        out.append(": ");
        let num = u64_to_dec_string(self.size as u64);
        out.append(num.as_str());
        out.append(", ");
        out.append(self.metric.as_str());
        out.append("_per_sec: ");
        let rate = per_sec(self.size as u128, self.elapsed as u128);
        let rate_s = u128_to_dec_string(rate);
        out.append(rate_s.as_str());
        proof {
            assert(out@ =~= report_line(self.metric@, self.size as nat, self.elapsed as nat));
        }
        out
    }
}

/// Total operation count over one metric's entries.
pub open spec fn sum_sizes(es: Seq<(usize, ReportEntry)>) -> nat
    decreases es.len(),
{
    if es.len() == 0 {
        0
    } else {
        sum_sizes(es.drop_last()) + es.last().1.size as nat
    }
}

/// Total elapsed nanoseconds over one metric's entries.
pub open spec fn sum_nanos(es: Seq<(usize, ReportEntry)>) -> nat
    decreases es.len(),
{
    if es.len() == 0 {
        0
    } else {
        sum_nanos(es.drop_last()) + es.last().1.elapsed as nat
    }
}

/// Largest single-thread elapsed time over one metric's entries.
pub open spec fn max_nanos(es: Seq<(usize, ReportEntry)>) -> nat
    decreases es.len(),
{
    if es.len() == 0 {
        0
    } else if es.last().1.elapsed as nat > max_nanos(es.drop_last()) {
        es.last().1.elapsed as nat
    } else {
        max_nanos(es.drop_last())
    }
}

proof fn lemma_sum_bounds(es: Seq<(usize, ReportEntry)>)
    ensures
        sum_sizes(es) <= es.len() * 0xffff_ffff_ffff_ffff,
        sum_nanos(es) <= es.len() * 0xffff_ffff_ffff_ffff,
        max_nanos(es) <= 0xffff_ffff_ffff_ffff,
    decreases es.len(),
{
    if es.len() > 0 {
        lemma_sum_bounds(es.drop_last());
    }
}

/// Per-run report aggregation, one row per metric, in the order metrics
/// first reported.
pub struct BenchStats {
    entries: Vec<(String, Vec<(usize, ReportEntry)>)>,
}

impl BenchStats {
    /// The rows: a metric name and the (thread id, entry) reports for it.
    pub closed spec fn rows(&self) -> Seq<(Seq<char>, Seq<(usize, ReportEntry)>)> {
        self.entries@.map_values(
            |row: (String, Vec<(usize, ReportEntry)>)| (row.0@, row.1@),
        )
    }

    /// Metric names are distinct.
    pub closed spec fn wf(&self) -> bool {
        forall|i: int, j: int|
            0 <= i < j < self.rows().len() ==> #[trigger] self.rows()[i].0 != #[trigger] self.rows(
            )[j].0
    }

    pub fn new() -> (r: Self)
        ensures
            r.wf(),
            r.rows() == Seq::<(Seq<char>, Seq<(usize, ReportEntry)>)>::empty(),
    {
        let r = BenchStats { entries: Vec::new() };
        proof {
            assert(r.rows() =~= Seq::<(Seq<char>, Seq<(usize, ReportEntry)>)>::empty());
        }
        r
    }

    pub fn clear(&mut self)
        ensures
            final(self).wf(),
            final(self).rows() == Seq::<(Seq<char>, Seq<(usize, ReportEntry)>)>::empty(),
    {
        self.entries = Vec::new();
        proof {
            assert(self.rows() =~= Seq::<(Seq<char>, Seq<(usize, ReportEntry)>)>::empty());
        }
    }

    /// Record one report under its metric: appended to the metric's row, or
    /// opening a new row at the end for a first-seen metric.
    pub fn add(&mut self, id: usize, entry: ReportEntry)
        requires
            old(self).wf(),
        ensures
            final(self).wf(),
            final(self).rows() == stats_add(old(self).rows(), id, entry),
    {
        let ghost entry_g = entry;
        let n = self.entries.len();
        let mut idx: usize = 0;
        while idx < n
            invariant
                0 <= idx <= n,
                n == self.rows().len(),
                self.wf(),
                self.rows() == old(self).rows(),
                entry == entry_g,
                forall|j: int| 0 <= j < idx ==> #[trigger] self.rows()[j].0 != entry_g.metric@,
            decreases n - idx,
        {
            if self.entries[idx].0 == entry.metric {
                let mut row = self.entries.remove(idx);
                row.1.push((id, entry));
                self.entries.insert(idx, row);
                proof {
                    lemma_stats_add_found(old(self).rows(), id, entry_g, idx as int);
                    assert(self.rows() =~= stats_add(old(self).rows(), id, entry_g));
                }
                return ;
            }
            idx = idx + 1;
        }
        let metric = entry.metric.clone();
        let mut fresh: Vec<(usize, ReportEntry)> = Vec::new();
        fresh.push((id, entry));
        self.entries.push((metric, fresh));
        proof {
            lemma_stats_add_missing(old(self).rows(), id, entry_g);
            assert(self.rows() =~= stats_add(old(self).rows(), id, entry_g));
        }
    }
}

/// What `add` does to the rows, as a function of the old rows.
pub open spec fn stats_add(
    rows: Seq<(Seq<char>, Seq<(usize, ReportEntry)>)>,
    id: usize,
    entry: ReportEntry,
) -> Seq<(Seq<char>, Seq<(usize, ReportEntry)>)>
    decreases rows.len(),
{
    if rows.len() == 0 {
        seq![(entry.metric@, seq![(id, entry)])]
    } else if rows[0].0 == entry.metric@ {
        seq![(rows[0].0, rows[0].1.push((id, entry)))] + rows.drop_first()
    } else {
        seq![rows[0]] + stats_add(rows.drop_first(), id, entry)
    }
}

proof fn lemma_stats_add_found(
    rows: Seq<(Seq<char>, Seq<(usize, ReportEntry)>)>,
    id: usize,
    entry: ReportEntry,
    idx: int,
)
    requires
        0 <= idx < rows.len(),
        rows[idx].0 == entry.metric@,
        forall|j: int| 0 <= j < idx ==> #[trigger] rows[j].0 != entry.metric@,
    ensures
        stats_add(rows, id, entry) == rows.update(
            idx,
            (rows[idx].0, rows[idx].1.push((id, entry))),
        ),
    decreases idx,
{
    if idx == 0 {
        assert(stats_add(rows, id, entry) =~= rows.update(
            0,
            (rows[0].0, rows[0].1.push((id, entry))),
        ));
    } else {
        lemma_stats_add_found(rows.drop_first(), id, entry, idx - 1);
        assert(stats_add(rows, id, entry) =~= rows.update(
            idx,
            (rows[idx].0, rows[idx].1.push((id, entry))),
        ));
    }
}

proof fn lemma_stats_add_missing(
    rows: Seq<(Seq<char>, Seq<(usize, ReportEntry)>)>,
    id: usize,
    entry: ReportEntry,
)
    requires
        forall|j: int| 0 <= j < rows.len() ==> #[trigger] rows[j].0 != entry.metric@,
    ensures
        stats_add(rows, id, entry) == rows.push((entry.metric@, seq![(id, entry)])),
    decreases rows.len(),
{
    if rows.len() == 0 {
        assert(stats_add(rows, id, entry) =~= rows.push((entry.metric@, seq![(id, entry)])));
    } else {
        lemma_stats_add_missing(rows.drop_first(), id, entry);
        assert(stats_add(rows, id, entry) =~= rows.push((entry.metric@, seq![(id, entry)])));
    }
}

/// The cross-thread phase barrier: a monotone arrival counter, drained
/// implicitly by modular arithmetic against the thread count.
pub struct WaitBarrier {
    count: usize,
    nthreads: usize,
}

impl WaitBarrier {
    pub closed spec fn arrivals(&self) -> nat {
        self.count as nat
    }

    pub closed spec fn threads(&self) -> nat {
        self.nthreads as nat
    }

    pub open spec fn wf(&self) -> bool {
        self.threads() >= 1
    }

    pub fn new(nthreads: usize) -> (r: Self)
        requires
            nthreads >= 1,
        ensures
            r.wf(),
            r.arrivals() == 0,
            r.threads() == nthreads,
    {
        WaitBarrier { count: 0, nthreads }
    }

    /// Record one arrival.
    pub fn arrive(&mut self)
        requires
            old(self).arrivals() < usize::MAX,
        ensures
            final(self).arrivals() == old(self).arrivals() + 1,
            final(self).threads() == old(self).threads(),
    {
        self.count = self.count + 1;
    }

    /// Whether the barrier is open: every thread of the current phase has
    /// arrived, that is, the arrivals are a whole number of rounds.  A
    /// waiting thread polls this until it holds.
    pub fn ready(&self) -> (r: bool)
        requires
            self.wf(),
        ensures
            r == (self.arrivals() % self.threads() == 0),
    {
        self.count % self.nthreads == 0
    }
}

/// Barrier correctness: the barrier opens exactly when the arrivals are a
/// whole multiple of the thread count, so no thread proceeds past a phase
/// wait before a full round of arrivals; and with a single thread the barrier
/// is always open right after its own arrival, so it never blocks.
pub proof fn lemma_barrier_rounds(count: nat, nthreads: nat)
    requires
        nthreads >= 1,
    ensures
        (count % nthreads == 0) <==> (exists|m: nat| count == #[trigger] (m * nthreads)),
        nthreads == 1 ==> count % nthreads == 0,
{
    if count % nthreads == 0 {
        let m = count / nthreads;
        assert(count == m * nthreads) by (nonlinear_arith)
            requires
                nthreads >= 1,
                count % nthreads == 0,
                m == count / nthreads,
        ;
    }
    if exists|m: nat| count == #[trigger] (m * nthreads) {
        let m = choose|m: nat| count == #[trigger] (m * nthreads);
        assert((m * nthreads) % nthreads == 0) by (nonlinear_arith)
            requires
                nthreads >= 1,
        ;
    }
    if nthreads == 1 {
        assert(count % 1 == 0) by (nonlinear_arith);
    }
}

/// The shared context of one benchmark run: the aggregation and the phase barrier.
pub struct BenchContext {
    pub stats: BenchStats,
    pub barrier: WaitBarrier,
}

impl BenchContext {
    pub open spec fn wf(&self) -> bool {
        self.stats.wf() && self.barrier.wf()
    }

    pub fn new(nthreads: usize) -> (r: Self)
        requires
            nthreads >= 1,
        ensures
            r.wf(),
            r.stats.rows() == Seq::<(Seq<char>, Seq<(usize, ReportEntry)>)>::empty(),
            r.barrier.arrivals() == 0,
            r.barrier.threads() == nthreads,
    {
        BenchContext { stats: BenchStats::new(), barrier: WaitBarrier::new(nthreads) }
    }
}

/// The aggregate of one metric across all threads that reported it.
pub struct MetricSummary {
    pub metric: String,
    pub num_threads: usize,
    pub total_num: u128,
    pub total_cost: u128,
    pub max_time_cost: u64,
    pub total_throughput: u128,
    pub avg_throughput: u128,
}

/// The line `MetricSummary::format` prints.
pub open spec fn summary_line(
    metric: Seq<char>,
    threads: nat,
    total: nat,
    avg: nat,
) -> Seq<char> {
    "metric: "@ + metric + ", #threads: "@ + dec_chars(threads) + ", total throughput: "@
        + dec_chars(total) + ", avg throughput: "@ + dec_chars(avg)
}

impl MetricSummary {
    /// The printed form: overall and serial-equivalent throughput.
    pub fn format(&self) -> (r: String)
        ensures
            r@ == summary_line(
                self.metric@,
                self.num_threads as nat,
                self.total_throughput as nat,
                self.avg_throughput as nat,
            ),
    {
        let mut out: String = String::new();
        out.append("metric: ");
        out.append(self.metric.as_str());
        out.append(", #threads: ");
        let t = u64_to_dec_string(self.num_threads as u64);
        out.append(t.as_str());
        out.append(", total throughput: ");
        let tot = u128_to_dec_string(self.total_throughput);
        out.append(tot.as_str());
        out.append(", avg throughput: ");
        let avg = u128_to_dec_string(self.avg_throughput);
        out.append(avg.as_str());
        proof {
            assert(out@ =~= summary_line(
                self.metric@,
                self.num_threads as nat,
                self.total_throughput as nat,
                self.avg_throughput as nat,
            ));
        }
        out
    }
}

/// The summaries `aggregate` owes for given rows: one per metric, in row
/// order, totals and throughputs computed exactly.
pub open spec fn summaries_match(
    rows: Seq<(Seq<char>, Seq<(usize, ReportEntry)>)>,
    r: Seq<MetricSummary>,
) -> bool {
    &&& r.len() == rows.len()
    &&& forall|i: int|
        0 <= i < r.len() ==> {
            let row = #[trigger] rows[i];
            let s = r[i];
            &&& s.metric@ == row.0
            &&& s.num_threads == row.1.len()
            &&& s.total_num as nat == sum_sizes(row.1)
            &&& s.total_cost as nat == sum_nanos(row.1)
            &&& s.max_time_cost as nat == max_nanos(row.1)
            &&& s.total_throughput as nat == sat_per_sec(sum_sizes(row.1), max_nanos(row.1))
            &&& s.avg_throughput as nat == sat_per_sec(sum_sizes(row.1), sum_nanos(row.1))
        }
}

impl BenchStats {
    /// Aggregate every metric: overall throughput divides the total count
    /// by the longest single-thread time (the wall-clock view of a parallel
    /// run); average throughput divides it by the summed time (the
    /// serial-equivalent view).  Summaries come in the order the metrics
    /// were first reported — a deliberate choice, since no order is owed.
    pub fn aggregate(&self) -> (r: Vec<MetricSummary>)
        ensures
            summaries_match(self.rows(), r@),
    {
        let n = self.entries.len();
        let mut r: Vec<MetricSummary> = Vec::new();
        let mut i: usize = 0;
        while i < n
            invariant
                0 <= i <= n,
                n == self.rows().len(),
                r@.len() == i,
                forall|k: int|
                    0 <= k < i ==> {
                        let row = #[trigger] self.rows()[k];
                        let s = r@[k];
                        &&& s.metric@ == row.0
                        &&& s.num_threads == row.1.len()
                        &&& s.total_num as nat == sum_sizes(row.1)
                        &&& s.total_cost as nat == sum_nanos(row.1)
                        &&& s.max_time_cost as nat == max_nanos(row.1)
                        &&& s.total_throughput as nat == sat_per_sec(
                            sum_sizes(row.1),
                            max_nanos(row.1),
                        )
                        &&& s.avg_throughput as nat == sat_per_sec(
                            sum_sizes(row.1),
                            sum_nanos(row.1),
                        )
                    },
            decreases n - i,
        {
            let row = &self.entries[i];
            let m = row.1.len();
            let mut total_num: u128 = 0;
            let mut total_cost: u128 = 0;
            let mut max_time_cost: u64 = 0;
            let mut j: usize = 0;
            while j < m
                invariant
                    0 <= j <= m,
                    i < n,
                    n == self.rows().len(),
                    m == self.rows()[i as int].1.len(),
                    row == &self.entries@[i as int],
                    row.1@ == self.rows()[i as int].1,
                    total_num as nat == sum_sizes(row.1@.take(j as int)),
                    total_cost as nat == sum_nanos(row.1@.take(j as int)),
                    max_time_cost as nat == max_nanos(row.1@.take(j as int)),
                decreases m - j,
            {
                let e = &row.1[j];
                proof {
                    lemma_sum_bounds(row.1@.take(j as int));
                    assert(row.1@.take(j + 1).drop_last() =~= row.1@.take(j as int));
                    assert(row.1@.take(j + 1).last() == row.1@[j as int]);
                }
                total_num = total_num + (e.1.size as u128);
                total_cost = total_cost + (e.1.elapsed as u128);
                if max_time_cost < e.1.elapsed {
                    max_time_cost = e.1.elapsed;
                }
                j = j + 1;
            }
            proof {
                assert(row.1@.take(m as int) =~= row.1@);
            }
            let total_throughput = per_sec(total_num, max_time_cost as u128);
            let avg_throughput = per_sec(total_num, total_cost);
            let summary = MetricSummary {
                metric: row.0.clone(),
                num_threads: m,
                total_num,
                total_cost,
                max_time_cost,
                total_throughput,
                avg_throughput,
            };
            r.push(summary);
            i = i + 1;
        }
        r
    }
}

/// One worker's handle on the run: its thread id, the thread count, and the
/// tree under test.  Mutation of the tree is serialized by ownership here;
/// a parallel runner shares one tree among clients and funnels the context
/// through its one lock.
pub struct MultiThreadClient<T: Tree> {
    tree: Option<T>,
    nthreads: usize,
    thread_id: usize,
}

impl<T: Tree> MultiThreadClient<T> {
    pub closed spec fn spec_tree(&self) -> Option<T> {
        self.tree
    }

    /// The bindings of the tree under test.
    pub open spec fn kv(&self) -> Map<Seq<u8>, Seq<char>> {
        self.spec_tree().unwrap().kv()
    }

    /// The tree's fixed key width.
    pub open spec fn width(&self) -> nat {
        self.spec_tree().unwrap().width()
    }

    pub closed spec fn spec_nthreads(&self) -> nat {
        self.nthreads as nat
    }

    pub closed spec fn spec_id(&self) -> nat {
        self.thread_id as nat
    }

    pub open spec fn wf(&self) -> bool {
        &&& self.spec_tree() matches Some(t) && t.inv()
        &&& self.spec_nthreads() >= 1
    }

    pub fn new_multithread(id: usize, nthreads: usize) -> (r: Self)
        requires
            nthreads >= 1,
        ensures
            r.spec_tree() is None,
            r.spec_id() == id,
            r.spec_nthreads() == nthreads,
    {
        MultiThreadClient { tree: None, nthreads, thread_id: id }
    }

    pub fn nthreads(&self) -> (r: usize)
        ensures
            r as nat == self.spec_nthreads(),
    {
        self.nthreads
    }

    pub fn id(&self) -> (r: usize)
        ensures
            r as nat == self.spec_id(),
    {
        self.thread_id
    }

    pub fn set_tree(&mut self, tree: T)
        requires
            tree.inv(),
        ensures
            final(self).spec_tree() == Some(tree),
            final(self).spec_id() == old(self).spec_id(),
            final(self).spec_nthreads() == old(self).spec_nthreads(),
            old(self).spec_nthreads() >= 1 ==> final(self).wf(),
    {
        self.tree = Some(tree);
    }

    pub fn get_tree(&self) -> (r: &T)
        requires
            self.spec_tree() is Some,
        ensures
            *r == self.spec_tree().unwrap(),
    {
        match &self.tree {
            Some(t) => t,
            None => vstd::pervasive::unreached(),
        }
    }

    /// Store one binding in the tree under test.
    pub fn put(&mut self, key: String, value: String)
        requires
            old(self).wf(),
            encode_utf8(key@).len() <= old(self).width(),
        ensures
            final(self).wf(),
            final(self).width() == old(self).width(),
            final(self).spec_id() == old(self).spec_id(),
            final(self).spec_nthreads() == old(self).spec_nthreads(),
            final(self).kv() == old(self).kv().insert(
                padded(encode_utf8(key@), old(self).width() as int),
                value@,
            ),
    {
        match self.tree.take() {
            Some(mut t) => {
                t.put(key, value);
                self.tree = Some(t);
            },
            None => vstd::pervasive::unreached(),
        }
    }

    /// Check that a key holds the given value: true exactly when the tree
    /// binds the encoded key to it.
    pub fn get_check(&self, key: String, value: String) -> (r: bool)
        requires
            self.wf(),
            encode_utf8(key@).len() <= self.width(),
        ensures
            r == {
                let kb = padded(encode_utf8(key@), self.width() as int);
                self.kv().contains_key(kb) && self.kv()[kb] == value@
            },
    {
        let t = self.get_tree();
        match t.get_type() {
            GetType::GetRef => match t.get(key) {
                Some(v) => *v == value,
                None => false,
            },
            GetType::GetVal => match t.get_val(key) {
                Some(v) => v == value,
                None => false,
            },
        }
    }

    /// Check that a key is absent: true exactly when no binding exists.
    pub fn get_check_absent(&self, key: String) -> (r: bool)
        requires
            self.wf(),
            encode_utf8(key@).len() <= self.width(),
        ensures
            r == !self.kv().contains_key(padded(encode_utf8(key@), self.width() as int)),
    {
        let t = self.get_tree();
        match t.get_type() {
            GetType::GetRef => match t.get(key) {
                Some(_) => false,
                None => true,
            },
            GetType::GetVal => match t.get_val(key) {
                Some(_) => false,
                None => true,
            },
        }
    }

    /// A log line tagged with this client's thread id.
    pub fn notice(&self, msg: &str) -> (r: String)
        ensures
            r@ == seq!['['] + dec_chars(self.spec_id()) + "]: "@ + msg@,
    {
        let mut out: String = String::new();
        proof {
            reveal_strlit("[");
        }
        out.append("[");
        let id = u64_to_dec_string(self.thread_id as u64);
        out.append(id.as_str());
        out.append("]: ");
        out.append(msg);
        proof {
            assert("["@ =~= seq!['[']);
            assert(out@ =~= seq!['['] + dec_chars(self.spec_id()) + "]: "@ + msg@);
        }
        out
    }

    /// File one phase measurement under its metric.
    pub fn report(&self, ctx: &mut BenchContext, base: &str, num: usize, cost: u64)
        requires
            old(ctx).wf(),
        ensures
            final(ctx).wf(),
            final(ctx).barrier == old(ctx).barrier,
            exists|e: ReportEntry|
                e.metric@ == base@ && e.size == num && e.elapsed == cost && final(ctx).stats.rows()
                    == stats_add(old(ctx).stats.rows(), self.spec_id() as usize, e),
    {
        let entry = ReportEntry::new(base, num, cost);
        let ghost e = entry;
        ctx.stats.add(self.thread_id, entry);
        proof {
            assert(e.metric@ == base@ && e.size == num && e.elapsed == cost && ctx.stats.rows()
                == stats_add(old(ctx).stats.rows(), self.spec_id() as usize, e));
        }
    }

    /// Arrive at the phase barrier.  A parallel runner then polls
    /// `WaitBarrier::ready` (yielding between polls) until the round is
    /// complete; with one thread the barrier is open at once.
    pub fn wait(&self, ctx: &mut BenchContext)
        requires
            old(ctx).wf(),
            old(ctx).barrier.arrivals() < usize::MAX,
        ensures
            final(ctx).wf(),
            final(ctx).stats == old(ctx).stats,
            final(ctx).barrier.arrivals() == old(ctx).barrier.arrivals() + 1,
            final(ctx).barrier.threads() == old(ctx).barrier.threads(),
    {
        ctx.barrier.arrive();
    }

    /// Close the workload: aggregate all metrics (in first-report order),
    /// clear the aggregation for the next workload, and hand the summaries
    /// back for printing.
    pub fn end(&self, ctx: &mut BenchContext) -> (r: Vec<MetricSummary>)
        requires
            old(ctx).wf(),
        ensures
            final(ctx).wf(),
            final(ctx).stats.rows() == Seq::<(Seq<char>, Seq<(usize, ReportEntry)>)>::empty(),
            final(ctx).barrier == old(ctx).barrier,
            summaries_match(old(ctx).stats.rows(), r@),
    {
        let r = ctx.stats.aggregate();
        ctx.stats.clear();
        r
    }
}

} // verus!
