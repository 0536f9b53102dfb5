//! Process-wide column-family operation counters.
//!
//! Every `create_cf`/`drop_cf` rewrites the whole OPTIONS file under the
//! database mutex, so a slow query may only have queued behind one. The
//! counters below record how many such operations ran and for how long; a
//! snapshot taken before and after a query tells how much of that activity
//! overlapped it. The caller keeps one `CfOpCounters` for the process and
//! does the timing; the arithmetic is here.
use vstd::prelude::*;
use vstd::utf8::encode_utf8;

verus! {

/// Cumulative CF-op activity since process start.
#[derive(Clone, Copy, Debug, PartialEq)]
pub struct CfOpSnapshot {
    pub ops: u64,
    pub nanos: u64,
}

/// Ops between two snapshots, zero when `later` is not later.
pub open spec fn ops_between(before: CfOpSnapshot, later: CfOpSnapshot) -> u64 {
    if later.ops >= before.ops {
        (later.ops - before.ops) as u64
    } else {
        0u64
    }
}

impl CfOpSnapshot {
    /// CF ops that completed between `self` (before) and `later` (after);
    /// zero if `later` is not later.
    pub fn ops_since(&self, later: &CfOpSnapshot) -> (r: u64)
        ensures
            r == ops_between(*self, *later),
    {
        later.ops.saturating_sub(self.ops)
    }

    /// Nanoseconds spent inside CF ops between `self` and `later`; zero if
    /// `later` is not later.
    pub fn nanos_since(&self, later: &CfOpSnapshot) -> (r: u64)
        ensures
            r == if later.nanos >= self.nanos { (later.nanos - self.nanos) as u64 } else { 0u64 },
    {
        later.nanos.saturating_sub(self.nanos)
    }
}

/// The process-wide counters. Additions wrap, as atomic `fetch_add` does.
pub struct CfOpCounters {
    pub op_count: u64,
    pub op_nanos: u64,
    pub reuse_count: u64,
    pub autocreate_count: u64,
}

pub open spec fn wrapping_inc(x: u64, d: u64) -> u64 {
    if x + d <= u64::MAX {
        (x + d) as u64
    } else {
        (x + d - 0x1_0000_0000_0000_0000) as u64
    }
}

/// One call on the counters, as far as it changes them.
pub enum CounterStep {
    /// `record_op` of an op that took the given nanoseconds.
    Op(u64),
    /// `record_reuse`.
    Reuse,
    /// `record_autocreate`.
    Autocreate,
    /// `timed`: one op, of a duration that the clock gives.
    TimedOp,
}

/// `after` is `before` after the call `step`: each counter it touches is
/// raised by its amount, wrapping as atomic `fetch_add` does, and the others
/// stay. `TimedOp` adds to the nanoseconds a duration that the clock gives.
pub open spec fn counter_step(before: CfOpCounters, after: CfOpCounters, step: CounterStep) -> bool {
    match step {
        CounterStep::Op(n) => {
            &&& after.op_count == wrapping_inc(before.op_count, 1)
            &&& after.op_nanos == wrapping_inc(before.op_nanos, n)
            &&& after.reuse_count == before.reuse_count
            &&& after.autocreate_count == before.autocreate_count
        },
        CounterStep::Reuse => {
            &&& after.op_count == before.op_count
            &&& after.op_nanos == before.op_nanos
            &&& after.reuse_count == wrapping_inc(before.reuse_count, 1)
            &&& after.autocreate_count == before.autocreate_count
        },
        CounterStep::Autocreate => {
            &&& after.op_count == before.op_count
            &&& after.op_nanos == before.op_nanos
            &&& after.reuse_count == before.reuse_count
            &&& after.autocreate_count == wrapping_inc(before.autocreate_count, 1)
        },
        CounterStep::TimedOp => {
            &&& after.op_count == wrapping_inc(before.op_count, 1)
            &&& exists|n: u64| #[trigger] wrapping_inc(before.op_nanos, n) == after.op_nanos
            &&& after.reuse_count == before.reuse_count
            &&& after.autocreate_count == before.autocreate_count
        },
    }
}

/// The call `step`, going from `before` to `after`, passes the top of no
/// counter it touches (for `TimedOp`: the duration that was added did not).
pub open spec fn no_wrap(before: CfOpCounters, after: CfOpCounters, step: CounterStep) -> bool {
    match step {
        CounterStep::Op(n) => before.op_count < u64::MAX && before.op_nanos + n <= u64::MAX,
        CounterStep::Reuse => before.reuse_count < u64::MAX,
        CounterStep::Autocreate => before.autocreate_count < u64::MAX,
        CounterStep::TimedOp => {
            &&& before.op_count < u64::MAX
            &&& forall|n: u64|
                #[trigger] wrapping_inc(before.op_nanos, n) == after.op_nanos ==> before.op_nanos + n
                    <= u64::MAX
        },
    }
}

/// The snapshot that `snapshot` takes of `c`.
pub open spec fn snapshot_of(c: CfOpCounters) -> CfOpSnapshot {
    CfOpSnapshot { ops: c.op_count, nanos: c.op_nanos }
}

impl CfOpCounters {
    /// All counters at zero.
    pub fn new() -> (r: Self)
        ensures
            r.op_count == 0 && r.op_nanos == 0 && r.reuse_count == 0 && r.autocreate_count == 0,
    {
        CfOpCounters { op_count: 0, op_nanos: 0, reuse_count: 0, autocreate_count: 0 }
    }

    /// Snapshot the cumulative op counters.
    pub fn snapshot(&self) -> (r: CfOpSnapshot)
        ensures
            r == snapshot_of(*self),
    {
        CfOpSnapshot { ops: self.op_count, nanos: self.op_nanos }
    }

    /// Record one finished CF op that took `nanos` nanoseconds.
    pub fn record_op(&mut self, nanos: u64)
        ensures
            final(self).op_count == wrapping_inc(old(self).op_count, 1),
            final(self).op_nanos == wrapping_inc(old(self).op_nanos, nanos),
            final(self).reuse_count == old(self).reuse_count,
            final(self).autocreate_count == old(self).autocreate_count,
            counter_step(*old(self), *final(self), CounterStep::Op(nanos)),
    {
        self.op_count = self.op_count.wrapping_add(1);
        self.op_nanos = self.op_nanos.wrapping_add(nanos);
    }

    /// How many times a doomed column family was handed to a new collection
    /// instead of being dropped and recreated.
    pub fn reuses(&self) -> (r: u64)
        ensures
            r == self.reuse_count,
    {
        self.reuse_count
    }

    /// Record that a create reused an existing column family.
    pub fn record_reuse(&mut self)
        ensures
            final(self).reuse_count == wrapping_inc(old(self).reuse_count, 1),
            counter_step(*old(self), *final(self), CounterStep::Reuse),
            final(self).op_count == old(self).op_count,
            final(self).op_nanos == old(self).op_nanos,
            final(self).autocreate_count == old(self).autocreate_count,
    {
        self.reuse_count = self.reuse_count.wrapping_add(1);
    }

    /// Collections brought into existence by a write to an unknown name.
    pub fn autocreates(&self) -> (r: u64)
        ensures
            r == self.autocreate_count,
    {
        self.autocreate_count
    }

    /// Record that a write created a collection that did not exist.
    pub fn record_autocreate(&mut self)
        ensures
            final(self).autocreate_count == wrapping_inc(old(self).autocreate_count, 1),
            counter_step(*old(self), *final(self), CounterStep::Autocreate),
            final(self).op_count == old(self).op_count,
            final(self).op_nanos == old(self).op_nanos,
            final(self).reuse_count == old(self).reuse_count,
    {
        self.autocreate_count = self.autocreate_count.wrapping_add(1);
    }
}

#[verifier::external_type_specification]
#[verifier::external_body]
pub struct ExInstant(std::time::Instant);

/// Calls `std::time::Instant::now`: a reading of the monotonic clock, of
/// which nothing is stated.
#[verifier::external_body]
fn clock_now() -> (r: std::time::Instant) {
    std::time::Instant::now()
}

/// Calls `Instant::elapsed` and reads the duration in nanoseconds, cut to 64
/// bits: the clock decides it, so nothing is stated of it.
#[verifier::external_body]
fn nanos_elapsed(start: &std::time::Instant) -> (r: u64) {
    start.elapsed().as_nanos() as u64
}

/// Runs a column-family operation and records it in `counters`, adding its
/// duration: one more op is counted, some duration `n` is added to the
/// nanoseconds (wrapping), and the other counters stay. The duration is a
/// reading of the clock, so which `n` it is is not stated.
pub fn timed<R, F: FnOnce() -> R>(counters: &mut CfOpCounters, op: F) -> (r: R)
    requires
        call_requires(op, ()),
    ensures
        call_ensures(op, (), r),
        final(counters).op_count == wrapping_inc(old(counters).op_count, 1),
        exists|n: u64| #[trigger] wrapping_inc(old(counters).op_nanos, n) == final(counters).op_nanos,
        counter_step(*old(counters), *final(counters), CounterStep::TimedOp),
{
    let start = clock_now();
    let result = op();
    let nanos = nanos_elapsed(&start);
    counters.record_op(nanos);
    result
}

/// Two snapshots taken around `n` recorded ops (with no wrap in between)
/// are `n` ops apart.
pub proof fn ops_since_counts_recorded_ops(before: CfOpSnapshot, after: CfOpSnapshot, n: u64)
    requires
        after.ops == before.ops + n,
    ensures
        ops_between(before, after) == n,
{
}

/// How many of `steps` count a CF op.
pub open spec fn op_steps(steps: Seq<CounterStep>) -> nat
    decreases steps.len(),
{
    if steps.len() == 0 {
        0
    } else {
        op_steps(steps.drop_last()) + match steps.last() {
            CounterStep::Op(_) | CounterStep::TimedOp => 1nat,
            _ => 0nat,
        }
    }
}

/// How many of `steps` count a reuse, and how many an autocreate.
pub open spec fn other_steps(steps: Seq<CounterStep>) -> (nat, nat)
    decreases steps.len(),
{
    if steps.len() == 0 {
        (0, 0)
    } else {
        let (r, a) = other_steps(steps.drop_last());
        match steps.last() {
            CounterStep::Reuse => (r + 1, a),
            CounterStep::Autocreate => (r, a + 1),
            _ => (r, a),
        }
    }
}

/// The nanoseconds that `steps` record, where none is a `timed` op.
pub open spec fn nanos_recorded(steps: Seq<CounterStep>) -> nat
    decreases steps.len(),
{
    if steps.len() == 0 {
        0
    } else {
        nanos_recorded(steps.drop_last()) + match steps.last() {
            CounterStep::Op(n) => n as nat,
            _ => 0nat,
        }
    }
}

/// Whether some step is a `timed` op.
pub open spec fn has_timed(steps: Seq<CounterStep>) -> bool {
    exists|i: int| 0 <= i < steps.len() && #[trigger] steps[i] == CounterStep::TimedOp
}

/// `trace[i + 1]` is `trace[i]` after `steps[i]`, and no step wraps.
pub open spec fn run_of(trace: Seq<CfOpCounters>, steps: Seq<CounterStep>) -> bool {
    &&& trace.len() == steps.len() + 1
    &&& forall|i: int|
        0 <= i < steps.len() ==> counter_step(trace[i], trace[i + 1], #[trigger] steps[i])
            && no_wrap(trace[i], trace[i + 1], steps[i])
}

/// Across any run of calls on the counters (`record_op`, `record_reuse`,
/// `record_autocreate`, `timed`) in which no counter passes the top of
/// `u64`, the counters never decrease: a snapshot after is at least a
/// snapshot before, the ops between them are the ops counted in between,
/// the reuse and autocreate counts grow by exactly their calls, and where no
/// call is `timed` (whose duration the clock gives) the nanoseconds grow by
/// exactly the recorded durations.
pub proof fn counters_never_decrease(trace: Seq<CfOpCounters>, steps: Seq<CounterStep>)
    requires
        run_of(trace, steps),
    ensures
        trace.last().op_count == trace[0].op_count + op_steps(steps),
        trace.last().reuse_count == trace[0].reuse_count + other_steps(steps).0,
        trace.last().autocreate_count == trace[0].autocreate_count + other_steps(steps).1,
        ops_between(snapshot_of(trace[0]), snapshot_of(trace.last())) == op_steps(steps),
        snapshot_of(trace.last()).ops >= snapshot_of(trace[0]).ops,
        !has_timed(steps) ==> trace.last().op_nanos == trace[0].op_nanos + nanos_recorded(steps),
        snapshot_of(trace.last()).nanos >= snapshot_of(trace[0]).nanos,
    decreases steps.len(),
{
    if steps.len() > 0 {
        let k = steps.len() - 1;
        let t0 = trace.drop_last();
        let s0 = steps.drop_last();
        assert forall|i: int| 0 <= i < s0.len() implies counter_step(t0[i], t0[i + 1], #[trigger] s0[i])
            && no_wrap(t0[i], t0[i + 1], s0[i]) by {
            assert(steps[i] == s0[i]);
        }
        if has_timed(s0) {
            let i = choose|i: int| 0 <= i < s0.len() && #[trigger] s0[i] == CounterStep::TimedOp;
            assert(steps[i] == CounterStep::TimedOp);
        }
        counters_never_decrease(t0, s0);
        assert(counter_step(trace[k], trace[k + 1], steps[k]) && no_wrap(trace[k], trace[k + 1], steps[k]));
        if steps[k] == CounterStep::TimedOp {
            let n = choose|n: u64| #[trigger] wrapping_inc(trace[k].op_nanos, n) == trace[k + 1].op_nanos;
            assert(trace[k].op_nanos + n <= u64::MAX);
        }
        assert(t0.last() == trace[k]);
        assert(trace.last() == trace[k + 1]);
        if !has_timed(steps) {
            assert(steps[k] != CounterStep::TimedOp);
        }
    }
}

/// The lower-case ASCII form of a byte.
pub open spec fn ascii_lower(b: u8) -> u8 {
    if 65 <= b <= 90 {
        (b + 32) as u8
    } else {
        b
    }
}

/// Whether `s`, ASCII-lower-cased, equals `word` (given in lower case).
pub open spec fn lower_eq(s: Seq<u8>, word: Seq<u8>) -> bool {
    s.len() == word.len() && forall|i: int| 0 <= i < s.len() ==> ascii_lower(#[trigger] s[i])
        == word[i]
}

pub(crate) fn eq_ignore_ascii_case(s: &[u8], word: &[u8]) -> (r: bool)
    ensures
        r == lower_eq(s@, word@),
{
    if s.len() != word.len() {
        return false;
    }
    let mut i: usize = 0;
    while i < s.len()
        invariant
            s@.len() == word@.len(),
            i <= s@.len(),
            forall|j: int| 0 <= j < i ==> ascii_lower(#[trigger] s@[j]) == word@[j],
        decreases s@.len() - i,
    {
        let b = s[i];
        let l: u8 = if b >= 65u8 && b <= 90u8 { b + 32u8 } else { b };
        if l != word[i] {
            return false;
        }
        i = i + 1;
    }
    true
}

/// Whether a write to an unknown collection may create it, given the
/// `SOLIDB_AUTO_CREATE_COLLECTIONS` setting (`None` when unset): on unless
/// the setting is `0`, `false`, `off` or `no`, in any ASCII case.
pub fn auto_create_enabled(setting: Option<&str>) -> (r: bool)
    ensures
        r == match setting {
            None => true,
            Some(s) => !(lower_eq(encode_utf8(s@), seq![48u8]) || lower_eq(
                encode_utf8(s@),
                seq![102u8, 97u8, 108u8, 115u8, 101u8],
            ) || lower_eq(encode_utf8(s@), seq![111u8, 102u8, 102u8]) || lower_eq(
                encode_utf8(s@),
                seq![110u8, 111u8],
            )),
        },
{
    match setting {
        None => true,
        Some(s) => {
            let b = s.as_bytes();
            let zero: [u8; 1] = [48u8];
            let f: [u8; 5] = [102u8, 97u8, 108u8, 115u8, 101u8];
            let off: [u8; 3] = [111u8, 102u8, 102u8];
            let no: [u8; 2] = [110u8, 111u8];
            assert(zero@ =~= seq![48u8]);
            assert(f@ =~= seq![102u8, 97u8, 108u8, 115u8, 101u8]);
            assert(off@ =~= seq![111u8, 102u8, 102u8]);
            assert(no@ =~= seq![110u8, 111u8]);
            !(eq_ignore_ascii_case(b, &zero) || eq_ignore_ascii_case(b, &f) || eq_ignore_ascii_case(
                b,
                &off,
            ) || eq_ignore_ascii_case(b, &no))
        },
    }
}

/// Process-wide gauge of documents awaiting auto-embedding. Updates wrap,
/// as atomic `fetch_add`/`fetch_sub` do.
pub struct PendingEmbedGauge {
    pub count: u64,
}

impl PendingEmbedGauge {
    pub fn new() -> (r: Self)
        ensures
            r.count == 0,
    {
        PendingEmbedGauge { count: 0 }
    }

    /// A document was marked as awaiting embedding.
    pub fn mark(&mut self)
        ensures
            final(self).count == wrapping_inc(old(self).count, 1),
    {
        self.count = self.count.wrapping_add(1);
    }

    /// A document's pending mark was cleared.
    pub fn clear(&mut self)
        ensures
            final(self).count == if old(self).count > 0 {
                (old(self).count - 1) as u64
            } else {
                u64::MAX
            },
    {
        self.count = self.count.wrapping_sub(1);
    }

    /// Number of documents currently awaiting auto-embedding.
    pub fn pending_embed_count(&self) -> (r: u64)
        ensures
            r == self.count,
    {
        self.count
    }
}

} // verus!
