//! The scripted workloads: pure-insert runs with three value sizes over
//! string keys, and the phased insert / verified-read / mixed workload over
//! integer keys.  Key generation is deterministic per thread (the generator
//! is seeded from the thread id); every check phase is verified to succeed
//! against the tree's contract, so a finished run has zero check failures.
//!
//! Each phase stands as a function of its own, so a parallel runner can
//! interleave the bookkeeping: run a phase, file its report under the one
//! context lock, then poll the barrier until the round completes.  The
//! `test_simple` drivers chain the phases for a sequential run.
use vstd::prelude::*;

verus! {

use vstd::utf8::encode_utf8;
use crate::clock::{duration_nanos, elapsed, now};
use crate::digits::{
    dec_chars, dec_of, i32_to_dec_string, int_chars, int_dec_of, lemma_chars_of_encode,
    lemma_dec_len_bounds, lemma_dec_of_injective, lemma_int_dec_of_bytes,
    lemma_int_dec_of_injective, str_eq, u64_to_dec_string, usize_to_dec_string,
};
use crate::errors::BenchError;
use crate::fix_sized_key::{padded, lemma_round_trip};
use crate::interface::Tree;
use crate::rng::{gen_bool, gen_i32, gen_u32, gen_usize, random_alnum_string, rng_from_seed};
use crate::testclient::{
    BenchContext, MetricSummary, MultiThreadClient, ReportEntry, stats_add, summaries_match,
};

/// The string-keyed workloads: pure inserts with small, medium or large
/// values.
#[derive(Debug, Clone, Copy, PartialEq, Eq, Structural)]
pub enum Workload {
    PutS,
    PutM,
    PutL,
}

impl Workload {
    /// The value size the workload inserts.
    pub open spec fn spec_value_size(&self) -> nat {
        match self {
            Workload::PutS => 8,
            Workload::PutM => 32,
            Workload::PutL => 128,
        }
    }

    /// The value size the workload inserts.
    pub fn value_size(&self) -> (r: usize)
        ensures
            r as nat == self.spec_value_size(),
    {
        match self {
            Workload::PutS => 8,
            Workload::PutM => 32,
            Workload::PutL => 128,
        }
    }
}

/// The integer-keyed workloads.
#[derive(Debug, Clone, Copy, PartialEq, Eq, Structural)]
pub enum SimpleWorkload {
    Simple,
}

/// The encoded form of an `i32` key in a tree of width `w`.
pub open spec fn i32_key_bytes(k: i32, w: int) -> Seq<u8> {
    padded(int_dec_of(k as int), w)
}

/// The key plus one, wrapping at the type's edge.
pub open spec fn wrap_inc_i32(k: i32) -> int {
    if k == i32::MAX {
        i32::MIN as int
    } else {
        k + 1
    }
}

/// The encoded form of a `usize` key in a tree of width `w`.
pub open spec fn usize_key_bytes(k: usize, w: int) -> Seq<u8> {
    padded(dec_of(k as nat), w)
}

/// The key plus one, wrapping at the type's edge.
pub open spec fn wrap_inc_usize(k: usize) -> nat {
    if k == usize::MAX {
        0
    } else {
        (k + 1) as nat
    }
}

/// The tree binds the key to its successor, both in decimal form.
pub open spec fn succ_bound_i32(kv: Map<Seq<u8>, Seq<char>>, k: i32, w: int) -> bool {
    kv.contains_key(i32_key_bytes(k, w)) && kv[i32_key_bytes(k, w)] == int_chars(wrap_inc_i32(k))
}

/// The tree binds the key to its successor, both in decimal form.
pub open spec fn succ_bound_usize(kv: Map<Seq<u8>, Seq<char>>, k: usize, w: int) -> bool {
    kv.contains_key(usize_key_bytes(k, w)) && kv[usize_key_bytes(k, w)] == dec_chars(
        wrap_inc_usize(k),
    )
}

/// The width-padded decimal rendering of some 32-bit key.
pub open spec fn is_u32_key_bytes(kb: Seq<u8>, w: int) -> bool {
    exists|v: u32| kb == #[trigger] padded(dec_of(v as nat), w)
}

/// What a pure-insert run does to the tree: no binding is removed, every
/// new or changed binding is a decimal 32-bit key bound to a value of the
/// run's value size, and a non-empty run leaves at least one such binding.
pub open spec fn put_run_effect(
    old_kv: Map<Seq<u8>, Seq<char>>,
    new_kv: Map<Seq<u8>, Seq<char>>,
    w: int,
    n: nat,
    value_size: nat,
) -> bool {
    &&& forall|kb: Seq<u8>| #[trigger] old_kv.contains_key(kb) ==> new_kv.contains_key(kb)
    &&& forall|kb: Seq<u8>| #[trigger]
        new_kv.contains_key(kb) ==> (old_kv.contains_key(kb) && new_kv[kb] == old_kv[kb]) || (
        is_u32_key_bytes(kb, w) && new_kv[kb].len() == value_size)
    &&& (n >= 1 ==> exists|kb: Seq<u8>| #[trigger]
        new_kv.contains_key(kb) && is_u32_key_bytes(kb, w) && new_kv[kb].len() == value_size)
}

/// A finished phased run over `i32` keys: some `n` pairwise-distinct keys
/// are each bound to their successor.
pub open spec fn simple_run_bindings_i32(
    kv: Map<Seq<u8>, Seq<char>>,
    ks: Seq<i32>,
    n: nat,
    w: int,
) -> bool {
    &&& ks.len() == n
    &&& forall|a: int, b: int| 0 <= a < b < ks.len() ==> ks[a] != ks[b]
    &&& forall|j: int| 0 <= j < ks.len() ==> #[trigger] succ_bound_i32(kv, ks[j], w)
}

/// A finished phased run over `usize` keys; see `simple_run_bindings_i32`.
pub open spec fn simple_run_bindings_usize(
    kv: Map<Seq<u8>, Seq<char>>,
    ks: Seq<usize>,
    n: nat,
    w: int,
) -> bool {
    &&& ks.len() == n
    &&& forall|a: int, b: int| 0 <= a < b < ks.len() ==> ks[a] != ks[b]
    &&& forall|j: int| 0 <= j < ks.len() ==> #[trigger] succ_bound_usize(kv, ks[j], w)
}

/// Distinct `i32` keys have distinct encoded forms.
proof fn lemma_i32_key_injective(a: i32, b: i32, w: int)
    requires
        a != b,
        w >= 11,
    ensures
        i32_key_bytes(a, w) != i32_key_bytes(b, w),
{
    lemma_dec_len_bounds();
    lemma_int_dec_of_bytes(a as int);
    lemma_int_dec_of_bytes(b as int);
    if i32_key_bytes(a, w) == i32_key_bytes(b, w) {
        lemma_round_trip(int_dec_of(a as int), w);
        lemma_round_trip(int_dec_of(b as int), w);
        lemma_int_dec_of_injective(a as int, b as int);
    }
}

/// Distinct `usize` keys have distinct encoded forms.
proof fn lemma_usize_key_injective(a: usize, b: usize, w: int)
    requires
        a != b,
        w >= 20,
    ensures
        usize_key_bytes(a, w) != usize_key_bytes(b, w),
{
    lemma_dec_len_bounds();
    crate::digits::lemma_dec_of_digits(a as nat);
    crate::digits::lemma_dec_of_digits(b as nat);
    if usize_key_bytes(a, w) == usize_key_bytes(b, w) {
        lemma_round_trip(dec_of(a as nat), w);
        lemma_round_trip(dec_of(b as nat), w);
        lemma_dec_of_injective(a as nat, b as nat);
    }
}

fn contains_i32(keys: &Vec<i32>, k: i32) -> (r: bool)
    ensures
        r == keys@.contains(k),
{
    let n = keys.len();
    let mut i: usize = 0;
    while i < n
        invariant
            0 <= i <= n,
            n == keys@.len(),
            forall|j: int| 0 <= j < i ==> keys@[j] != k,
        decreases n - i,
    {
        if keys[i] == k {
            return true;
        }
        i = i + 1;
    }
    false
}

fn contains_usize(keys: &Vec<usize>, k: usize) -> (r: bool)
    ensures
        r == keys@.contains(k),
{
    let n = keys.len();
    let mut i: usize = 0;
    while i < n
        invariant
            0 <= i <= n,
            n == keys@.len(),
            forall|j: int| 0 <= j < i ==> keys@[j] != k,
        decreases n - i,
    {
        if keys[i] == k {
            return true;
        }
        i = i + 1;
    }
    false
}

/// Draw until `n` distinct keys are at hand, within a fixed drawing budget
/// (the unbounded dedup loop of a random source cannot be given a
/// termination measure; exhausting the budget is a key-generation error).
/// Asking for at most one key always succeeds: the budget is positive and
/// a first draw can collide with nothing.
pub fn gen_distinct_i32(rng: &mut rand::rngs::StdRng, n: usize) -> (r: Result<
    Vec<i32>,
    BenchError,
>)
    ensures
        r matches Ok(keys) ==> keys@.len() == n && (forall|i: int, j: int|
            0 <= i < j < n ==> keys@[i] != keys@[j]),
        r matches Err(e) ==> e == BenchError::KeyGeneration,
        n <= 1 ==> r is Ok,
{
    let mut keys: Vec<i32> = Vec::new();
    let budget: u64 = (n as u64).wrapping_mul(64).wrapping_add(4096);
    let mut attempts: u64 = 0;
    while keys.len() < n && attempts < budget
        invariant
            keys@.len() <= n,
            attempts <= budget,
            forall|i: int, j: int| 0 <= i < j < keys@.len() ==> keys@[i] != keys@[j],
            attempts > 0 ==> keys@.len() >= 1,
        decreases budget - attempts,
    {
        let k = gen_i32(rng);
        if !contains_i32(&keys, k) {
            keys.push(k);
        }
        attempts = attempts + 1;
    }
    if keys.len() < n {
        proof {
            assert(n > 1) by {
                if n <= 1 {
                    assert(budget >= 4096);
                    assert(attempts >= budget);
                    assert(keys@.len() >= 1);
                }
            }
        }
        Err(BenchError::KeyGeneration)
    } else {
        Ok(keys)
    }
}

/// Draw until `n` distinct keys are at hand, within a fixed drawing budget;
/// asking for at most one key always succeeds.
pub fn gen_distinct_usize(rng: &mut rand::rngs::StdRng, n: usize) -> (r: Result<
    Vec<usize>,
    BenchError,
>)
    ensures
        r matches Ok(keys) ==> keys@.len() == n && (forall|i: int, j: int|
            0 <= i < j < n ==> keys@[i] != keys@[j]),
        r matches Err(e) ==> e == BenchError::KeyGeneration,
        n <= 1 ==> r is Ok,
{
    let mut keys: Vec<usize> = Vec::new();
    let budget: u64 = (n as u64).wrapping_mul(64).wrapping_add(4096);
    let mut attempts: u64 = 0;
    while keys.len() < n && attempts < budget
        invariant
            keys@.len() <= n,
            attempts <= budget,
            forall|i: int, j: int| 0 <= i < j < keys@.len() ==> keys@[i] != keys@[j],
            attempts > 0 ==> keys@.len() >= 1,
        decreases budget - attempts,
    {
        let k = gen_usize(rng);
        if !contains_usize(&keys, k) {
            keys.push(k);
        }
        attempts = attempts + 1;
    }
    if keys.len() < n {
        proof {
            assert(n > 1) by {
                if n <= 1 {
                    assert(budget >= 4096);
                    assert(attempts >= budget);
                    assert(keys@.len() >= 1);
                }
            }
        }
        Err(BenchError::KeyGeneration)
    } else {
        Ok(keys)
    }
}

/// One coin per operation of the mixed phase.
pub fn draw_coins(rng: &mut rand::rngs::StdRng, n: usize) -> (r: Vec<bool>)
    ensures
        r@.len() == n,
{
    let mut coins: Vec<bool> = Vec::new();
    let mut i: usize = 0;
    while i < n
        invariant
            0 <= i <= n,
            coins@.len() == i,
        decreases n - i,
    {
        coins.push(gen_bool(rng));
        i = i + 1;
    }
    coins
}

/// The string-keyed testcases.
pub struct Testcases {}

impl Testcases {
    /// Map a testcase name to its workload.  An unknown name is a fatal
    /// configuration error, surfaced as a value for the runner to abort on.
    pub fn find(name: &str) -> (r: Result<Workload, BenchError>)
        ensures
            name@ == "put_s"@ ==> r == Ok::<Workload, BenchError>(Workload::PutS),
            name@ == "put_m"@ ==> r == Ok::<Workload, BenchError>(Workload::PutM),
            name@ == "put_l"@ ==> r == Ok::<Workload, BenchError>(Workload::PutL),
            (name@ != "put_s"@ && name@ != "put_m"@ && name@ != "put_l"@) ==> r == Err::<
                Workload,
                BenchError,
            >(BenchError::UnknownTestcase),
    {
        proof {
            reveal_strlit("put_s");
            reveal_strlit("put_m");
            reveal_strlit("put_l");
            assert("put_s"@[4] == 's' && "put_m"@[4] == 'm' && "put_l"@[4] == 'l');
            assert("put_s"@ != "put_m"@ && "put_s"@ != "put_l"@ && "put_m"@ != "put_l"@);
        }
        if str_eq(name, "put_s") {
            Ok(Workload::PutS)
        } else if str_eq(name, "put_m") {
            Ok(Workload::PutM)
        } else if str_eq(name, "put_l") {
            Ok(Workload::PutL)
        } else {
            Err(BenchError::UnknownTestcase)
        }
    }

    /// The operation phase of a pure-insert run: `n` random 32-bit keys in
    /// decimal form, each bound to a fresh random alphanumeric value of the
    /// given size.  Returns the phase's elapsed time in nanoseconds.
    pub fn put_values_phase<T: Tree>(
        client: &mut MultiThreadClient<T>,
        rng: &mut rand::rngs::StdRng,
        n: usize,
        value_size: usize,
    ) -> (cost: u64)
        requires
            old(client).wf(),
            old(client).width() >= 10,
        ensures
            final(client).wf(),
            final(client).width() == old(client).width(),
            final(client).spec_id() == old(client).spec_id(),
            final(client).spec_nthreads() == old(client).spec_nthreads(),
            put_run_effect(
                old(client).kv(),
                final(client).kv(),
                old(client).width() as int,
                n as nat,
                value_size as nat,
            ),
    {
        let ghost w = old(client).width() as int;
        let t = now();
        let mut i: usize = 0;
        while i < n
            invariant
                client.wf(),
                w == client.width() as int,
                w >= 10,
                client.spec_id() == old(client).spec_id(),
                client.spec_nthreads() == old(client).spec_nthreads(),
                0 <= i <= n,
                forall|kb: Seq<u8>| #[trigger]
                    old(client).kv().contains_key(kb) ==> client.kv().contains_key(kb),
                forall|kb: Seq<u8>| #[trigger]
                    client.kv().contains_key(kb) ==> (old(client).kv().contains_key(kb)
                        && client.kv()[kb] == old(client).kv()[kb]) || (is_u32_key_bytes(kb, w)
                        && client.kv()[kb].len() == value_size),
                i >= 1 ==> exists|kb: Seq<u8>| #[trigger]
                    client.kv().contains_key(kb) && is_u32_key_bytes(kb, w)
                        && client.kv()[kb].len() == value_size,
            decreases n - i,
        {
            let key_num = gen_u32(rng);
            let key = u64_to_dec_string(key_num as u64);
            let value = random_alnum_string(value_size);
            proof {
                lemma_dec_len_bounds();
                lemma_int_dec_of_bytes(key_num as int);
                lemma_chars_of_encode(dec_of(key_num as nat));
                assert(encode_utf8(key@) == dec_of(key_num as nat));
            }
            let ghost kv0 = client.kv();
            client.put(key, value);
            proof {
                let kb0 = padded(dec_of(key_num as nat), w);
                assert(client.kv() == kv0.insert(kb0, value@));
                assert(is_u32_key_bytes(kb0, w));
                assert(client.kv().contains_key(kb0) && client.kv()[kb0].len() == value_size);
                assert forall|kb: Seq<u8>| #[trigger]
                    client.kv().contains_key(kb) implies (old(client).kv().contains_key(kb)
                    && client.kv()[kb] == old(client).kv()[kb]) || (is_u32_key_bytes(kb, w)
                    && client.kv()[kb].len() == value_size) by {
                    if kb != kb0 {
                        assert(kv0.contains_key(kb));
                    }
                }
            }
            i = i + 1;
        }
        let d = elapsed(&t);
        duration_nanos(&d)
    }

    /// One pure-insert run: the operation phase, then its report, a barrier
    /// arrival, and the closing aggregation.
    pub fn put_with_value_size<T: Tree>(
        client: &mut MultiThreadClient<T>,
        ctx: &mut BenchContext,
        n: usize,
        value_size: usize,
    ) -> (r: Vec<MetricSummary>)
        requires
            old(client).wf(),
            old(client).width() >= 10,
            old(ctx).wf(),
            old(ctx).barrier.arrivals() < usize::MAX,
        ensures
            final(client).wf(),
            final(client).width() == old(client).width(),
            put_run_effect(
                old(client).kv(),
                final(client).kv(),
                old(client).width() as int,
                n as nat,
                value_size as nat,
            ),
            final(ctx).wf(),
            final(ctx).stats.rows().len() == 0,
            final(ctx).barrier.arrivals() == old(ctx).barrier.arrivals() + 1,
            final(ctx).barrier.threads() == old(ctx).barrier.threads(),
            exists|e: ReportEntry|
                e.metric@ == "put_"@ + dec_chars(value_size as nat) && e.size == n
                    && summaries_match(
                    stats_add(old(ctx).stats.rows(), old(client).spec_id() as usize, e),
                    r@,
                ),
    {
        let seed = (client.id() as u64).wrapping_add(12345);
        let mut rng = rng_from_seed(seed);
        let cost = Self::put_values_phase(client, &mut rng, n, value_size);
        let mut metric: String = String::new();
        metric.append("put_");
        let vs = u64_to_dec_string(value_size as u64);
        metric.append(vs.as_str());
        proof {
            assert(metric@ =~= "put_"@ + dec_chars(value_size as nat));
        }
        client.report(ctx, metric.as_str(), n, cost);
        let ghost rows1 = ctx.stats.rows();
        client.wait(ctx);
        let r = client.end(ctx);
        proof {
            let e = choose|e: ReportEntry|
                e.metric@ == metric@ && e.size == n && e.elapsed == cost && rows1 == stats_add(
                    old(ctx).stats.rows(),
                    old(client).spec_id() as usize,
                    e,
                );
            assert(e.metric@ == "put_"@ + dec_chars(value_size as nat) && e.size == n
                && summaries_match(
                stats_add(old(ctx).stats.rows(), old(client).spec_id() as usize, e),
                r@,
            ));
        }
        r
    }

    /// Insert with eight-byte values.
    pub fn put_s<T: Tree>(client: &mut MultiThreadClient<T>, ctx: &mut BenchContext, n: usize) -> (r: Vec<
        MetricSummary,
    >)
        requires
            old(client).wf(),
            old(client).width() >= 10,
            old(ctx).wf(),
            old(ctx).barrier.arrivals() < usize::MAX,
        ensures
            final(client).wf(),
            final(client).width() == old(client).width(),
            put_run_effect(
                old(client).kv(),
                final(client).kv(),
                old(client).width() as int,
                n as nat,
                8,
            ),
            final(ctx).wf(),
            final(ctx).stats.rows().len() == 0,
            final(ctx).barrier.arrivals() == old(ctx).barrier.arrivals() + 1,
            exists|e: ReportEntry|
                e.metric@ == "put_"@ + dec_chars(8) && e.size == n && summaries_match(
                    stats_add(old(ctx).stats.rows(), old(client).spec_id() as usize, e),
                    r@,
                ),
    {
        Self::put_with_value_size(client, ctx, n, 8)
    }

    /// Insert with 32-byte values.
    pub fn put_m<T: Tree>(client: &mut MultiThreadClient<T>, ctx: &mut BenchContext, n: usize) -> (r: Vec<
        MetricSummary,
    >)
        requires
            old(client).wf(),
            old(client).width() >= 10,
            old(ctx).wf(),
            old(ctx).barrier.arrivals() < usize::MAX,
        ensures
            final(client).wf(),
            final(client).width() == old(client).width(),
            put_run_effect(
                old(client).kv(),
                final(client).kv(),
                old(client).width() as int,
                n as nat,
                32,
            ),
            final(ctx).wf(),
            final(ctx).stats.rows().len() == 0,
            final(ctx).barrier.arrivals() == old(ctx).barrier.arrivals() + 1,
            exists|e: ReportEntry|
                e.metric@ == "put_"@ + dec_chars(32) && e.size == n && summaries_match(
                    stats_add(old(ctx).stats.rows(), old(client).spec_id() as usize, e),
                    r@,
                ),
    {
        Self::put_with_value_size(client, ctx, n, 32)
    }

    /// Insert with 128-byte values.
    pub fn put_l<T: Tree>(client: &mut MultiThreadClient<T>, ctx: &mut BenchContext, n: usize) -> (r: Vec<
        MetricSummary,
    >)
        requires
            old(client).wf(),
            old(client).width() >= 10,
            old(ctx).wf(),
            old(ctx).barrier.arrivals() < usize::MAX,
        ensures
            final(client).wf(),
            final(client).width() == old(client).width(),
            put_run_effect(
                old(client).kv(),
                final(client).kv(),
                old(client).width() as int,
                n as nat,
                128,
            ),
            final(ctx).wf(),
            final(ctx).stats.rows().len() == 0,
            final(ctx).barrier.arrivals() == old(ctx).barrier.arrivals() + 1,
            exists|e: ReportEntry|
                e.metric@ == "put_"@ + dec_chars(128) && e.size == n && summaries_match(
                    stats_add(old(ctx).stats.rows(), old(client).spec_id() as usize, e),
                    r@,
                ),
    {
        Self::put_with_value_size(client, ctx, n, 128)
    }

    /// Run the named workload.
    pub fn run<T: Tree>(w: Workload, client: &mut MultiThreadClient<T>, ctx: &mut BenchContext, n: usize) -> (r:
        Vec<MetricSummary>)
        requires
            old(client).wf(),
            old(client).width() >= 10,
            old(ctx).wf(),
            old(ctx).barrier.arrivals() < usize::MAX,
        ensures
            final(client).wf(),
            final(client).width() == old(client).width(),
            put_run_effect(
                old(client).kv(),
                final(client).kv(),
                old(client).width() as int,
                n as nat,
                w.spec_value_size(),
            ),
            final(ctx).wf(),
            final(ctx).stats.rows().len() == 0,
            final(ctx).barrier.arrivals() == old(ctx).barrier.arrivals() + 1,
            exists|e: ReportEntry|
                e.metric@ == "put_"@ + dec_chars(w.spec_value_size()) && e.size == n
                    && summaries_match(
                    stats_add(old(ctx).stats.rows(), old(client).spec_id() as usize, e),
                    r@,
                ),
    {
        match w {
            Workload::PutS => Self::put_s(client, ctx, n),
            Workload::PutM => Self::put_m(client, ctx, n),
            Workload::PutL => Self::put_l(client, ctx, n),
        }
    }
}

/// The `i32`-keyed testcases: keys travel in signed decimal form.
pub struct Testcasesi32 {}

impl Testcasesi32 {
    /// Map a testcase name to its workload.
    pub fn find(name: &str) -> (r: Result<SimpleWorkload, BenchError>)
        ensures
            name@ == "simple"@ ==> r == Ok::<SimpleWorkload, BenchError>(SimpleWorkload::Simple),
            name@ != "simple"@ ==> r == Err::<SimpleWorkload, BenchError>(
                BenchError::UnknownTestcase,
            ),
    {
        if str_eq(name, "simple") {
            Ok(SimpleWorkload::Simple)
        } else {
            Err(BenchError::UnknownTestcase)
        }
    }

    /// The insert phase: bind every key to its successor.  Bindings of this
    /// shape are stable — a later insert can only rewrite one with the same
    /// value — and nothing is ever removed.  Returns the elapsed time.
    pub fn put_phase<T: Tree>(client: &mut MultiThreadClient<T>, keys: &Vec<i32>) -> (cost: u64)
        requires
            old(client).wf(),
            old(client).width() >= 11,
        ensures
            final(client).wf(),
            final(client).width() == old(client).width(),
            final(client).spec_id() == old(client).spec_id(),
            final(client).spec_nthreads() == old(client).spec_nthreads(),
            forall|j: int|
                0 <= j < keys@.len() ==> #[trigger] succ_bound_i32(
                    final(client).kv(),
                    keys@[j],
                    old(client).width() as int,
                ),
            forall|k: i32| #[trigger]
                succ_bound_i32(old(client).kv(), k, old(client).width() as int)
                    ==> succ_bound_i32(final(client).kv(), k, old(client).width() as int),
            forall|kb: Seq<u8>| #[trigger]
                old(client).kv().contains_key(kb) ==> final(client).kv().contains_key(kb),
    {
        let ghost w = old(client).width() as int;
        let n = keys.len();
        let t = now();
        let mut i: usize = 0;
        while i < n
            invariant
                client.wf(),
                w == client.width() as int,
                w >= 11,
                client.spec_id() == old(client).spec_id(),
                client.spec_nthreads() == old(client).spec_nthreads(),
                0 <= i <= n,
                n == keys@.len(),
                forall|j: int|
                    0 <= j < i ==> #[trigger] succ_bound_i32(client.kv(), keys@[j], w),
                forall|k: i32| #[trigger]
                    succ_bound_i32(old(client).kv(), k, w) ==> succ_bound_i32(client.kv(), k, w),
                forall|kb: Seq<u8>| #[trigger]
                    old(client).kv().contains_key(kb) ==> client.kv().contains_key(kb),
            decreases n - i,
        {
            let k = keys[i];
            let kp: i32 = if k == i32::MAX {
                i32::MIN
            } else {
                k + 1
            };
            let ks = i32_to_dec_string(k);
            let vs = i32_to_dec_string(kp);
            proof {
                lemma_dec_len_bounds();
                lemma_int_dec_of_bytes(k as int);
                lemma_chars_of_encode(int_dec_of(k as int));
                assert(encode_utf8(ks@) == int_dec_of(k as int));
            }
            let ghost kv0 = client.kv();
            client.put(ks, vs);
            proof {
                assert(client.kv() == kv0.insert(i32_key_bytes(k, w), int_chars(wrap_inc_i32(k))));
                assert(succ_bound_i32(client.kv(), k, w));
                assert forall|j: int| 0 <= j < i + 1 implies #[trigger] succ_bound_i32(
                    client.kv(),
                    keys@[j],
                    w,
                ) by {
                    if j < i {
                        assert(succ_bound_i32(kv0, keys@[j], w));
                        if keys@[j] != k {
                            lemma_i32_key_injective(keys@[j], k, w);
                        }
                    }
                }
                assert forall|k0: i32| #[trigger] succ_bound_i32(old(client).kv(), k0, w)
                    implies succ_bound_i32(client.kv(), k0, w) by {
                    assert(succ_bound_i32(kv0, k0, w));
                    if k0 != k {
                        lemma_i32_key_injective(k0, k, w);
                    }
                }
            }
            i = i + 1;
        }
        let d = elapsed(&t);
        duration_nanos(&d)
    }

    /// The read phase: check every key's successor value back.  Each check
    /// is proved to succeed from the bindings the insert phase left, so the
    /// returned miss count is provably zero; a host runs whose preconditions
    /// Verus has not seen can still fail fatally on a nonzero count, as any
    /// failed check is fatal.  Returns the elapsed time and the miss count.
    pub fn check_phase<T: Tree>(client: &MultiThreadClient<T>, keys: &Vec<i32>) -> (r: (
        u64,
        usize,
    ))
        requires
            client.wf(),
            client.width() >= 11,
            forall|j: int|
                0 <= j < keys@.len() ==> #[trigger] succ_bound_i32(
                    client.kv(),
                    keys@[j],
                    client.width() as int,
                ),
        ensures
            r.1 == 0,
    {
        let ghost w = client.width() as int;
        let n = keys.len();
        let t = now();
        let mut i: usize = 0;
        let mut misses: usize = 0;
        while i < n
            invariant
                client.wf(),
                w == client.width() as int,
                w >= 11,
                misses == 0,
                0 <= i <= n,
                n == keys@.len(),
                forall|j: int|
                    0 <= j < n ==> #[trigger] succ_bound_i32(client.kv(), keys@[j], w),
            decreases n - i,
        {
            let k = keys[i];
            let kp: i32 = if k == i32::MAX {
                i32::MIN
            } else {
                k + 1
            };
            let ks = i32_to_dec_string(k);
            let vs = i32_to_dec_string(kp);
            proof {
                lemma_dec_len_bounds();
                lemma_int_dec_of_bytes(k as int);
                lemma_chars_of_encode(int_dec_of(k as int));
                assert(encode_utf8(ks@) == int_dec_of(k as int));
                assert(kp as int == wrap_inc_i32(k));
                assert(succ_bound_i32(client.kv(), keys@[i as int], w));
            }
            let ok = client.get_check(ks, vs);
            proof {
                assert(ok);
            }
            if !ok {
                misses = misses + 1;
            }
            i = i + 1;
        }
        let d = elapsed(&t);
        (duration_nanos(&d), misses)
    }

    /// The mixed phase: per operation, either insert a fresh key bound to
    /// its successor or re-check an old one, decided by the coin sequence.
    /// The old bindings survive: a colliding fresh key rewrites one with
    /// the same value.  Returns the elapsed time and the provably-zero
    /// miss count of the re-checks.
    pub fn mixed_phase<T: Tree>(
        client: &mut MultiThreadClient<T>,
        keys: &Vec<i32>,
        new_keys: &Vec<i32>,
        coins: &Vec<bool>,
    ) -> (r: (u64, usize))
        requires
            old(client).wf(),
            old(client).width() >= 11,
            keys@.len() == new_keys@.len() == coins@.len(),
            forall|j: int|
                0 <= j < keys@.len() ==> #[trigger] succ_bound_i32(
                    old(client).kv(),
                    keys@[j],
                    old(client).width() as int,
                ),
        ensures
            final(client).wf(),
            final(client).width() == old(client).width(),
            final(client).spec_id() == old(client).spec_id(),
            final(client).spec_nthreads() == old(client).spec_nthreads(),
            forall|j: int|
                0 <= j < keys@.len() ==> #[trigger] succ_bound_i32(
                    final(client).kv(),
                    keys@[j],
                    old(client).width() as int,
                ),
            forall|kb: Seq<u8>| #[trigger]
                old(client).kv().contains_key(kb) ==> final(client).kv().contains_key(kb),
            r.1 == 0,
    {
        let ghost w = old(client).width() as int;
        let n = keys.len();
        let t = now();
        let mut i: usize = 0;
        let mut misses: usize = 0;
        while i < n
            invariant
                misses == 0,
                client.wf(),
                w == client.width() as int,
                w >= 11,
                client.spec_id() == old(client).spec_id(),
                client.spec_nthreads() == old(client).spec_nthreads(),
                0 <= i <= n,
                n == keys@.len(),
                n == new_keys@.len(),
                n == coins@.len(),
                forall|j: int|
                    0 <= j < n ==> #[trigger] succ_bound_i32(client.kv(), keys@[j], w),
                forall|kb: Seq<u8>| #[trigger]
                    old(client).kv().contains_key(kb) ==> client.kv().contains_key(kb),
            decreases n - i,
        {
            if coins[i] {
                let k = new_keys[i];
                let kp: i32 = if k == i32::MAX {
                    i32::MIN
                } else {
                    k + 1
                };
                let ks = i32_to_dec_string(k);
                let vs = i32_to_dec_string(kp);
                proof {
                    lemma_dec_len_bounds();
                    lemma_int_dec_of_bytes(k as int);
                    lemma_chars_of_encode(int_dec_of(k as int));
                    assert(encode_utf8(ks@) == int_dec_of(k as int));
                }
                let ghost kv0 = client.kv();
                client.put(ks, vs);
                proof {
                    assert(client.kv() == kv0.insert(
                        i32_key_bytes(k, w),
                        int_chars(wrap_inc_i32(k)),
                    ));
                    assert forall|j: int| 0 <= j < n implies #[trigger] succ_bound_i32(
                        client.kv(),
                        keys@[j],
                        w,
                    ) by {
                        assert(succ_bound_i32(kv0, keys@[j], w));
                        if keys@[j] != k {
                            lemma_i32_key_injective(keys@[j], k, w);
                        }
                    }
                }
            } else {
                let k = keys[i];
                let kp: i32 = if k == i32::MAX {
                    i32::MIN
                } else {
                    k + 1
                };
                let ks = i32_to_dec_string(k);
                let vs = i32_to_dec_string(kp);
                proof {
                    lemma_dec_len_bounds();
                    lemma_int_dec_of_bytes(k as int);
                    lemma_chars_of_encode(int_dec_of(k as int));
                    assert(encode_utf8(ks@) == int_dec_of(k as int));
                    assert(kp as int == wrap_inc_i32(k));
                    assert(succ_bound_i32(client.kv(), keys@[i as int], w));
                }
                let ok = client.get_check(ks, vs);
                proof {
                    assert(ok);
                }
                if !ok {
                    misses = misses + 1;
                }
            }
            i = i + 1;
        }
        let d = elapsed(&t);
        (duration_nanos(&d), misses)
    }

    /// The whole phased workload, run sequentially: insert `n` distinct
    /// random keys each bound to its successor, read every one back (each
    /// check provably succeeds), then the mixed phase; a report and a
    /// barrier arrival close each phase.  Only key generation can fail,
    /// and never when at most one key is asked for.
    pub fn test_simple<T: Tree>(client: &mut MultiThreadClient<T>, ctx: &mut BenchContext, n: usize) -> (r:
        Result<Vec<MetricSummary>, BenchError>)
        requires
            old(client).wf(),
            old(client).width() >= 11,
            old(ctx).wf(),
            old(ctx).barrier.arrivals() + 3 <= usize::MAX,
        ensures
            final(client).wf(),
            final(client).width() == old(client).width(),
            final(ctx).wf(),
            forall|kb: Seq<u8>| #[trigger]
                old(client).kv().contains_key(kb) ==> final(client).kv().contains_key(kb),
            n <= 1 ==> r is Ok,
            r matches Ok(_) ==> final(ctx).stats.rows().len() == 0 && final(ctx).barrier.arrivals()
                == old(ctx).barrier.arrivals() + 3,
            r matches Ok(_) ==> exists|ks: Seq<i32>| #[trigger] simple_run_bindings_i32(
                final(client).kv(),
                ks,
                n as nat,
                old(client).width() as int,
            ),
            r matches Ok(s) ==> exists|e1: ReportEntry, e2: ReportEntry, e3: ReportEntry|
                e1.metric@ == "put"@ && e1.size == n && e2.metric@ == "get"@ && e2.size == n
                    && e3.metric@ == "r50"@ && e3.size == n && summaries_match(
                    #[trigger] stats_add(
                        stats_add(
                            stats_add(
                                old(ctx).stats.rows(),
                                old(client).spec_id() as usize,
                                e1,
                            ),
                            old(client).spec_id() as usize,
                            e2,
                        ),
                        old(client).spec_id() as usize,
                        e3,
                    ),
                    s@,
                ),
            r matches Err(e) ==> e == BenchError::KeyGeneration,
    {
        let ghost w = old(client).width() as int;
        let seed = (client.id() as u64).wrapping_add(12345);
        let mut rng = rng_from_seed(seed);
        let keys = match gen_distinct_i32(&mut rng, n) {
            Ok(ks) => ks,
            Err(e) => {
                return Err(e);
            },
        };
        let put_cost = Self::put_phase(client, &keys);
        client.report(ctx, "put", n, put_cost);
        let ghost rows1 = ctx.stats.rows();
        let ghost e1 = choose|e: ReportEntry|
            e.metric@ == "put"@ && e.size == n && e.elapsed == put_cost && rows1 == stats_add(
                old(ctx).stats.rows(),
                old(client).spec_id() as usize,
                e,
            );
        client.wait(ctx);
        let (get_cost, _) = Self::check_phase(client, &keys);
        client.report(ctx, "get", n, get_cost);
        let ghost rows2 = ctx.stats.rows();
        let ghost e2 = choose|e: ReportEntry|
            e.metric@ == "get"@ && e.size == n && e.elapsed == get_cost && rows2 == stats_add(
                rows1,
                old(client).spec_id() as usize,
                e,
            );
        client.wait(ctx);
        let coins = draw_coins(&mut rng, n);
        let new_keys = match gen_distinct_i32(&mut rng, n) {
            Ok(ks) => ks,
            Err(e) => {
                return Err(e);
            },
        };
        let (r50_cost, _) = Self::mixed_phase(client, &keys, &new_keys, &coins);
        client.report(ctx, "r50", n, r50_cost);
        let ghost rows3 = ctx.stats.rows();
        let ghost e3 = choose|e: ReportEntry|
            e.metric@ == "r50"@ && e.size == n && e.elapsed == r50_cost && rows3 == stats_add(
                rows2,
                old(client).spec_id() as usize,
                e,
            );
        client.wait(ctx);
        let summaries = client.end(ctx);
        proof {
            let id = old(client).spec_id() as usize;
            assert(e1.metric@ == "put"@ && e1.size == n && e2.metric@ == "get"@ && e2.size == n
                && e3.metric@ == "r50"@ && e3.size == n && summaries_match(
                stats_add(stats_add(stats_add(old(ctx).stats.rows(), id, e1), id, e2), id, e3),
                summaries@,
            ));
            assert(simple_run_bindings_i32(client.kv(), keys@, n as nat, w));
        }
        Ok(summaries)
    }
}

/// The `usize`-keyed testcases: keys travel in decimal form.  The wider
/// keys ask for a tree width of at least twenty bytes.
pub struct TestcasesUsize {}

impl TestcasesUsize {
    /// Map a testcase name to its workload.
    pub fn find(name: &str) -> (r: Result<SimpleWorkload, BenchError>)
        ensures
            name@ == "simple"@ ==> r == Ok::<SimpleWorkload, BenchError>(SimpleWorkload::Simple),
            name@ != "simple"@ ==> r == Err::<SimpleWorkload, BenchError>(
                BenchError::UnknownTestcase,
            ),
    {
        if str_eq(name, "simple") {
            Ok(SimpleWorkload::Simple)
        } else {
            Err(BenchError::UnknownTestcase)
        }
    }

    /// The insert phase; see `Testcasesi32::put_phase`.
    pub fn put_phase<T: Tree>(client: &mut MultiThreadClient<T>, keys: &Vec<usize>) -> (cost: u64)
        requires
            old(client).wf(),
            old(client).width() >= 20,
        ensures
            final(client).wf(),
            final(client).width() == old(client).width(),
            final(client).spec_id() == old(client).spec_id(),
            final(client).spec_nthreads() == old(client).spec_nthreads(),
            forall|j: int|
                0 <= j < keys@.len() ==> #[trigger] succ_bound_usize(
                    final(client).kv(),
                    keys@[j],
                    old(client).width() as int,
                ),
            forall|k: usize| #[trigger]
                succ_bound_usize(old(client).kv(), k, old(client).width() as int)
                    ==> succ_bound_usize(final(client).kv(), k, old(client).width() as int),
            forall|kb: Seq<u8>| #[trigger]
                old(client).kv().contains_key(kb) ==> final(client).kv().contains_key(kb),
    {
        let ghost w = old(client).width() as int;
        let n = keys.len();
        let t = now();
        let mut i: usize = 0;
        while i < n
            invariant
                client.wf(),
                w == client.width() as int,
                w >= 20,
                client.spec_id() == old(client).spec_id(),
                client.spec_nthreads() == old(client).spec_nthreads(),
                0 <= i <= n,
                n == keys@.len(),
                forall|j: int|
                    0 <= j < i ==> #[trigger] succ_bound_usize(client.kv(), keys@[j], w),
                forall|k: usize| #[trigger]
                    succ_bound_usize(old(client).kv(), k, w) ==> succ_bound_usize(
                        client.kv(),
                        k,
                        w,
                    ),
                forall|kb: Seq<u8>| #[trigger]
                    old(client).kv().contains_key(kb) ==> client.kv().contains_key(kb),
            decreases n - i,
        {
            let k = keys[i];
            let kp: usize = if k == usize::MAX {
                0
            } else {
                k + 1
            };
            let ks = usize_to_dec_string(k);
            let vs = usize_to_dec_string(kp);
            proof {
                lemma_dec_len_bounds();
                crate::digits::lemma_dec_of_digits(k as nat);
                lemma_chars_of_encode(dec_of(k as nat));
                assert(encode_utf8(ks@) == dec_of(k as nat));
            }
            let ghost kv0 = client.kv();
            client.put(ks, vs);
            proof {
                assert(client.kv() == kv0.insert(
                    usize_key_bytes(k, w),
                    dec_chars(wrap_inc_usize(k)),
                ));
                assert(succ_bound_usize(client.kv(), k, w));
                assert forall|j: int| 0 <= j < i + 1 implies #[trigger] succ_bound_usize(
                    client.kv(),
                    keys@[j],
                    w,
                ) by {
                    if j < i {
                        assert(succ_bound_usize(kv0, keys@[j], w));
                        if keys@[j] != k {
                            lemma_usize_key_injective(keys@[j], k, w);
                        }
                    }
                }
                assert forall|k0: usize| #[trigger] succ_bound_usize(old(client).kv(), k0, w)
                    implies succ_bound_usize(client.kv(), k0, w) by {
                    assert(succ_bound_usize(kv0, k0, w));
                    if k0 != k {
                        lemma_usize_key_injective(k0, k, w);
                    }
                }
            }
            i = i + 1;
        }
        let d = elapsed(&t);
        duration_nanos(&d)
    }

    /// The read phase; see `Testcasesi32::check_phase`.
    pub fn check_phase<T: Tree>(client: &MultiThreadClient<T>, keys: &Vec<usize>) -> (r: (
        u64,
        usize,
    ))
        requires
            client.wf(),
            client.width() >= 20,
            forall|j: int|
                0 <= j < keys@.len() ==> #[trigger] succ_bound_usize(
                    client.kv(),
                    keys@[j],
                    client.width() as int,
                ),
        ensures
            r.1 == 0,
    {
        let ghost w = client.width() as int;
        let n = keys.len();
        let t = now();
        let mut i: usize = 0;
        let mut misses: usize = 0;
        while i < n
            invariant
                client.wf(),
                w == client.width() as int,
                w >= 20,
                misses == 0,
                0 <= i <= n,
                n == keys@.len(),
                forall|j: int|
                    0 <= j < n ==> #[trigger] succ_bound_usize(client.kv(), keys@[j], w),
            decreases n - i,
        {
            let k = keys[i];
            let kp: usize = if k == usize::MAX {
                0
            } else {
                k + 1
            };
            let ks = usize_to_dec_string(k);
            let vs = usize_to_dec_string(kp);
            proof {
                lemma_dec_len_bounds();
                crate::digits::lemma_dec_of_digits(k as nat);
                lemma_chars_of_encode(dec_of(k as nat));
                assert(encode_utf8(ks@) == dec_of(k as nat));
                assert(kp as nat == wrap_inc_usize(k));
                assert(succ_bound_usize(client.kv(), keys@[i as int], w));
            }
            let ok = client.get_check(ks, vs);
            proof {
                assert(ok);
            }
            if !ok {
                misses = misses + 1;
            }
            i = i + 1;
        }
        let d = elapsed(&t);
        (duration_nanos(&d), misses)
    }

    /// The mixed phase; see `Testcasesi32::mixed_phase`.
    pub fn mixed_phase<T: Tree>(
        client: &mut MultiThreadClient<T>,
        keys: &Vec<usize>,
        new_keys: &Vec<usize>,
        coins: &Vec<bool>,
    ) -> (r: (u64, usize))
        requires
            old(client).wf(),
            old(client).width() >= 20,
            keys@.len() == new_keys@.len() == coins@.len(),
            forall|j: int|
                0 <= j < keys@.len() ==> #[trigger] succ_bound_usize(
                    old(client).kv(),
                    keys@[j],
                    old(client).width() as int,
                ),
        ensures
            final(client).wf(),
            final(client).width() == old(client).width(),
            final(client).spec_id() == old(client).spec_id(),
            final(client).spec_nthreads() == old(client).spec_nthreads(),
            forall|j: int|
                0 <= j < keys@.len() ==> #[trigger] succ_bound_usize(
                    final(client).kv(),
                    keys@[j],
                    old(client).width() as int,
                ),
            forall|kb: Seq<u8>| #[trigger]
                old(client).kv().contains_key(kb) ==> final(client).kv().contains_key(kb),
            r.1 == 0,
    {
        let ghost w = old(client).width() as int;
        let n = keys.len();
        let t = now();
        let mut i: usize = 0;
        let mut misses: usize = 0;
        while i < n
            invariant
                misses == 0,
                client.wf(),
                w == client.width() as int,
                w >= 20,
                client.spec_id() == old(client).spec_id(),
                client.spec_nthreads() == old(client).spec_nthreads(),
                0 <= i <= n,
                n == keys@.len(),
                n == new_keys@.len(),
                n == coins@.len(),
                forall|j: int|
                    0 <= j < n ==> #[trigger] succ_bound_usize(client.kv(), keys@[j], w),
                forall|kb: Seq<u8>| #[trigger]
                    old(client).kv().contains_key(kb) ==> client.kv().contains_key(kb),
            decreases n - i,
        {
            if coins[i] {
                let k = new_keys[i];
                let kp: usize = if k == usize::MAX {
                    0
                } else {
                    k + 1
                };
                let ks = usize_to_dec_string(k);
                let vs = usize_to_dec_string(kp);
                proof {
                    lemma_dec_len_bounds();
                    crate::digits::lemma_dec_of_digits(k as nat);
                    lemma_chars_of_encode(dec_of(k as nat));
                    assert(encode_utf8(ks@) == dec_of(k as nat));
                }
                let ghost kv0 = client.kv();
                client.put(ks, vs);
                proof {
                    assert(client.kv() == kv0.insert(
                        usize_key_bytes(k, w),
                        dec_chars(wrap_inc_usize(k)),
                    ));
                    assert forall|j: int| 0 <= j < n implies #[trigger] succ_bound_usize(
                        client.kv(),
                        keys@[j],
                        w,
                    ) by {
                        assert(succ_bound_usize(kv0, keys@[j], w));
                        if keys@[j] != k {
                            lemma_usize_key_injective(keys@[j], k, w);
                        }
                    }
                }
            } else {
                let k = keys[i];
                let kp: usize = if k == usize::MAX {
                    0
                } else {
                    k + 1
                };
                let ks = usize_to_dec_string(k);
                let vs = usize_to_dec_string(kp);
                proof {
                    lemma_dec_len_bounds();
                    crate::digits::lemma_dec_of_digits(k as nat);
                    lemma_chars_of_encode(dec_of(k as nat));
                    assert(encode_utf8(ks@) == dec_of(k as nat));
                    assert(kp as nat == wrap_inc_usize(k));
                    assert(succ_bound_usize(client.kv(), keys@[i as int], w));
                }
                let ok = client.get_check(ks, vs);
                proof {
                    assert(ok);
                }
                if !ok {
                    misses = misses + 1;
                }
            }
            i = i + 1;
        }
        let d = elapsed(&t);
        (duration_nanos(&d), misses)
    }

    /// The whole phased workload, run sequentially; see
    /// `Testcasesi32::test_simple`.
    pub fn test_simple<T: Tree>(client: &mut MultiThreadClient<T>, ctx: &mut BenchContext, n: usize) -> (r:
        Result<Vec<MetricSummary>, BenchError>)
        requires
            old(client).wf(),
            old(client).width() >= 20,
            old(ctx).wf(),
            old(ctx).barrier.arrivals() + 3 <= usize::MAX,
        ensures
            final(client).wf(),
            final(client).width() == old(client).width(),
            final(ctx).wf(),
            forall|kb: Seq<u8>| #[trigger]
                old(client).kv().contains_key(kb) ==> final(client).kv().contains_key(kb),
            n <= 1 ==> r is Ok,
            r matches Ok(_) ==> final(ctx).stats.rows().len() == 0 && final(ctx).barrier.arrivals()
                == old(ctx).barrier.arrivals() + 3,
            r matches Ok(_) ==> exists|ks: Seq<usize>| #[trigger] simple_run_bindings_usize(
                final(client).kv(),
                ks,
                n as nat,
                old(client).width() as int,
            ),
            r matches Ok(s) ==> exists|e1: ReportEntry, e2: ReportEntry, e3: ReportEntry|
                e1.metric@ == "put"@ && e1.size == n && e2.metric@ == "get"@ && e2.size == n
                    && e3.metric@ == "r50"@ && e3.size == n && summaries_match(
                    #[trigger] stats_add(
                        stats_add(
                            stats_add(
                                old(ctx).stats.rows(),
                                old(client).spec_id() as usize,
                                e1,
                            ),
                            old(client).spec_id() as usize,
                            e2,
                        ),
                        old(client).spec_id() as usize,
                        e3,
                    ),
                    s@,
                ),
            r matches Err(e) ==> e == BenchError::KeyGeneration,
    {
        let ghost w = old(client).width() as int;
        let seed = (client.id() as u64).wrapping_add(12345);
        let mut rng = rng_from_seed(seed);
        let keys = match gen_distinct_usize(&mut rng, n) {
            Ok(ks) => ks,
            Err(e) => {
                return Err(e);
            },
        };
        let put_cost = Self::put_phase(client, &keys);
        client.report(ctx, "put", n, put_cost);
        let ghost rows1 = ctx.stats.rows();
        let ghost e1 = choose|e: ReportEntry|
            e.metric@ == "put"@ && e.size == n && e.elapsed == put_cost && rows1 == stats_add(
                old(ctx).stats.rows(),
                old(client).spec_id() as usize,
                e,
            );
        client.wait(ctx);
        let (get_cost, _) = Self::check_phase(client, &keys);
        client.report(ctx, "get", n, get_cost);
        let ghost rows2 = ctx.stats.rows();
        let ghost e2 = choose|e: ReportEntry|
            e.metric@ == "get"@ && e.size == n && e.elapsed == get_cost && rows2 == stats_add(
                rows1,
                old(client).spec_id() as usize,
                e,
            );
        client.wait(ctx);
        let coins = draw_coins(&mut rng, n);
        let new_keys = match gen_distinct_usize(&mut rng, n) {
            Ok(ks) => ks,
            Err(e) => {
                return Err(e);
            },
        };
        let (r50_cost, _) = Self::mixed_phase(client, &keys, &new_keys, &coins);
        client.report(ctx, "r50", n, r50_cost);
        let ghost rows3 = ctx.stats.rows();
        let ghost e3 = choose|e: ReportEntry|
            e.metric@ == "r50"@ && e.size == n && e.elapsed == r50_cost && rows3 == stats_add(
                rows2,
                old(client).spec_id() as usize,
                e,
            );
        client.wait(ctx);
        let summaries = client.end(ctx);
        proof {
            let id = old(client).spec_id() as usize;
            assert(e1.metric@ == "put"@ && e1.size == n && e2.metric@ == "get"@ && e2.size == n
                && e3.metric@ == "r50"@ && e3.size == n && summaries_match(
                stats_add(stats_add(stats_add(old(ctx).stats.rows(), id, e1), id, e2), id, e3),
                summaries@,
            ));
            assert(simple_run_bindings_usize(client.kv(), keys@, n as nat, w));
        }
        Ok(summaries)
    }
}

} // verus!
