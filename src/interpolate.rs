use vstd::prelude::*;

use crate::event::{MouseRawEvent, RawRecord};

verus! {

/// Rust's `/` on integers: the quotient rounded toward zero (`b > 0`).
pub open spec fn trunc_div(a: int, b: int) -> int {
    if a >= 0 {
        a / b
    } else {
        -((-a) / b)
    }
}

/// The tick step between consecutive records of a batch of `n` records that
/// spans `last` to `now`.
pub open spec fn batch_increment(last: int, now: int, n: nat) -> int {
    trunc_div(now - last, n as int)
}

/// The timestamp given to the record at 1-based position `k` of a batch.
pub open spec fn record_stamp(last: int, now: int, n: nat, k: int) -> int {
    last + k * batch_increment(last, now, n)
}

/// The motion events produced by the first `i` records of `recs`, when the
/// whole batch of `recs.len()` records spans `last` to `now`.
pub open spec fn batch_events_prefix(
    recs: Seq<RawRecord>,
    last: int,
    now: int,
    i: nat,
) -> Seq<MouseRawEvent>
    decreases i,
{
    if i == 0 {
        seq![]
    } else {
        let prev = batch_events_prefix(recs, last, now, (i - 1) as nat);
        let r = recs[i - 1];
        if r.is_motion() {
            prev.push(
                MouseRawEvent {
                    dx: r.dx,
                    dy: r.dy,
                    t: record_stamp(last, now, recs.len(), i as int) as i64,
                },
            )
        } else {
            prev
        }
    }
}

/// The motion events of one drained batch, in arrival order.
pub open spec fn batch_events(recs: Seq<RawRecord>, last: int, now: int) -> Seq<MouseRawEvent> {
    batch_events_prefix(recs, last, now, recs.len())
}

/// Every stamp of a batch lies between the two clock readings that bound it.
proof fn lemma_stamp_between(last: int, now: int, n: nat, k: int)
    requires
        n >= 1,
        0 <= k <= n,
    ensures
        last <= now ==> last <= record_stamp(last, now, n, k) <= now,
        now < last ==> now <= record_stamp(last, now, n, k) <= last,
        last <= now ==> record_stamp(last, now, n, k) <= record_stamp(last, now, n, k + 1),
{
    let inc = batch_increment(last, now, n);
    if now - last >= 0 {
        assert(0 <= inc && inc * n <= now - last) by (nonlinear_arith)
            requires
                inc == (now - last) / (n as int),
                n >= 1,
                now - last >= 0,
        ;
        assert(0 <= k * inc <= n * inc) by (nonlinear_arith)
            requires
                0 <= k <= n,
                inc >= 0,
        ;
        assert(k * inc <= (k + 1) * inc) by (nonlinear_arith)
            requires
                inc >= 0,
        ;
    } else {
        let d = last - now;
        assert(0 <= d / (n as int) && (d / (n as int)) * n <= d) by (nonlinear_arith)
            requires
                n >= 1,
                d > 0,
        ;
        assert(inc == -(d / (n as int)));
        assert(-d <= n * inc) by (nonlinear_arith)
            requires
                inc == -(d / (n as int)),
                (d / (n as int)) * n <= d,
        ;
        assert(n * inc <= k * inc <= 0) by (nonlinear_arith)
            requires
                0 <= k <= n,
                inc <= 0,
        ;
    }
}

/// The timestamps of `s` never decrease.
pub open spec fn times_sorted(s: Seq<MouseRawEvent>) -> bool {
    forall|i: int, j: int| 0 <= i < j < s.len() ==> #[trigger] s[i].t <= #[trigger] s[j].t
}

/// Every timestamp of `s` lies in `lo ..= hi`.
pub open spec fn times_within(s: Seq<MouseRawEvent>, lo: int, hi: int) -> bool {
    forall|i: int| 0 <= i < s.len() ==> lo <= #[trigger] s[i].t <= hi
}

/// The reconciliation point after a batch of `recs` read at `now`: the
/// reading itself, or `last` unchanged when the batch is empty.
pub open spec fn next_last(last: i64, recs: Seq<RawRecord>, now: i64) -> i64 {
    if recs.len() == 0 {
        last
    } else {
        now
    }
}

/// The motion events of a run of batches, each a pair of the records drained
/// and the clock reading taken for them, starting from reconciliation point
/// `last`; each non-empty batch starts where the previous one was read.
pub open spec fn run_batches(last: i64, batches: Seq<(Vec<RawRecord>, i64)>) -> Seq<MouseRawEvent>
    decreases batches.len(),
{
    if batches.len() == 0 {
        seq![]
    } else {
        batch_events(batches[0].0@, last as int, batches[0].1 as int) + run_batches(
            next_last(last, batches[0].0@, batches[0].1),
            batches.drop_first(),
        )
    }
}

/// The reconciliation point after a run of batches.
pub open spec fn run_last(last: i64, batches: Seq<(Vec<RawRecord>, i64)>) -> i64
    decreases batches.len(),
{
    if batches.len() == 0 {
        last
    } else {
        run_last(next_last(last, batches[0].0@, batches[0].1), batches.drop_first())
    }
}

proof fn lemma_prefix_sorted(recs: Seq<RawRecord>, last: i64, now: i64, i: nat)
    requires
        last <= now,
        recs.len() >= 1,
        i <= recs.len(),
    ensures
        times_sorted(batch_events_prefix(recs, last as int, now as int, i)),
        times_within(
            batch_events_prefix(recs, last as int, now as int, i),
            last as int,
            record_stamp(last as int, now as int, recs.len(), i as int),
        ),
    decreases i,
{
    if i > 0 {
        let n = recs.len();
        lemma_prefix_sorted(recs, last, now, (i - 1) as nat);
        lemma_stamp_between(last as int, now as int, n, i - 1);
        lemma_stamp_between(last as int, now as int, n, i as int);
    }
}

/// Within one batch read at a clock reading no earlier than the reconciliation
/// point, the timestamps never decrease and stay between the two readings.
pub proof fn lemma_batch_sorted(recs: Seq<RawRecord>, last: i64, now: i64)
    requires
        last <= now,
    ensures
        times_sorted(batch_events(recs, last as int, now as int)),
        times_within(batch_events(recs, last as int, now as int), last as int, now as int),
{
    if recs.len() >= 1 {
        lemma_prefix_sorted(recs, last, now, recs.len());
        lemma_stamp_between(last as int, now as int, recs.len(), recs.len() as int);
    }
}

/// Over any run of batches whose clock readings never go backwards, starting
/// from a reconciliation point no later than the first reading, the emitted
/// timestamps never decrease, and none is earlier than the starting point.
pub proof fn lemma_run_sorted(last: i64, batches: Seq<(Vec<RawRecord>, i64)>)
    requires
        batches.len() > 0 ==> last <= batches[0].1,
        forall|i: int, j: int| 0 <= i < j < batches.len() ==> batches[i].1 <= batches[j].1,
    ensures
        times_sorted(run_batches(last, batches)),
        forall|i: int|
            0 <= i < run_batches(last, batches).len() ==> last <= #[trigger] run_batches(
                last,
                batches,
            )[i].t,
    decreases batches.len(),
{
    if batches.len() > 0 {
        let recs = batches[0].0@;
        let now = batches[0].1;
        let nl = next_last(last, recs, now);
        let rest = batches.drop_first();
        assert forall|i: int, j: int| 0 <= i < j < rest.len() implies rest[i].1 <= rest[j].1 by {
            assert(rest[i] == batches[i + 1] && rest[j] == batches[j + 1]);
        }
        if rest.len() > 0 {
            assert(rest[0] == batches[1]);
        }
        lemma_run_sorted(nl, rest);
        lemma_batch_sorted(recs, last, now);
        let a = batch_events(recs, last as int, now as int);
        let b = run_batches(nl, rest);
        let s = a + b;
        assert(s == run_batches(last, batches));
        assert(recs.len() == 0 ==> a.len() == 0);
        assert forall|i: int, j: int| 0 <= i < j < s.len() implies s[i].t <= s[j].t by {
            if j < a.len() {
            } else if i < a.len() {
                assert(s[i] == a[i] && s[j] == b[j - a.len()]);
            } else {
                assert(s[i] == b[i - a.len()] && s[j] == b[j - a.len()]);
            }
        }
        assert forall|i: int| 0 <= i < s.len() implies last <= #[trigger] s[i].t by {
            if i >= a.len() {
                assert(s[i] == b[i - a.len()]);
            }
        }
    }
}

/// In a batch of mouse records only, the `k`-th event (1-based) carries the
/// `k`-th record's deltas and the timestamp `last + k * ((now - last) / N)`,
/// the division rounded toward zero.
pub proof fn lemma_interpolation(recs: Seq<RawRecord>, last: i64, now: i64)
    requires
        recs.len() >= 1,
        forall|k: int| 0 <= k < recs.len() ==> (#[trigger] recs[k]).is_motion(),
    ensures
        batch_events(recs, last as int, now as int).len() == recs.len(),
        forall|k: int|
            1 <= k <= recs.len() ==> {
                let e = #[trigger] batch_events(recs, last as int, now as int)[k - 1];
                &&& e.dx == recs[k - 1].dx
                &&& e.dy == recs[k - 1].dy
                &&& e.t == last + k * trunc_div(now - last, recs.len() as int)
            },
{
    lemma_prefix_all_motion(recs, last, now, recs.len());
}

proof fn lemma_prefix_all_motion(recs: Seq<RawRecord>, last: i64, now: i64, i: nat)
    requires
        recs.len() >= 1,
        i <= recs.len(),
        forall|k: int| 0 <= k < recs.len() ==> (#[trigger] recs[k]).is_motion(),
    ensures
        batch_events_prefix(recs, last as int, now as int, i).len() == i,
        forall|k: int|
            1 <= k <= i ==> {
                let e = #[trigger] batch_events_prefix(recs, last as int, now as int, i)[k - 1];
                &&& e.dx == recs[k - 1].dx
                &&& e.dy == recs[k - 1].dy
                &&& e.t == last + k * trunc_div(now - last, recs.len() as int)
            },
    decreases i,
{
    if i > 0 {
        lemma_prefix_all_motion(recs, last, now, (i - 1) as nat);
        lemma_stamp_between(last as int, now as int, recs.len(), i as int);
        assert(recs[i - 1].is_motion());
    }
}

/// After a run of non-empty batches the reconciliation point is the last
/// batch's reading exactly: no rounding residue is carried along.
pub proof fn lemma_run_last(last: i64, batches: Seq<(Vec<RawRecord>, i64)>)
    requires
        batches.len() > 0,
        forall|j: int| 0 <= j < batches.len() ==> (#[trigger] batches[j]).0@.len() > 0,
    ensures
        run_last(last, batches) == batches.last().1,
    decreases batches.len(),
{
    let rest = batches.drop_first();
    assert(batches[0].0@.len() > 0);
    if rest.len() > 0 {
        assert forall|j: int| 0 <= j < rest.len() implies (#[trigger] rest[j]).0@.len() > 0 by {
            assert(rest[j] == batches[j + 1]);
        }
        lemma_run_last(batches[0].1, rest);
        assert(rest.last() == batches.last());
    } else {
        assert(batches.last() == batches[0]);
        assert(run_last(batches[0].1, rest) == batches[0].1);
    }
    assert(run_last(last, batches) == run_last(batches[0].1, rest));
}

/// The reconciliation point of the capture loop: the tick count up to which
/// buffered input has been stamped.
pub struct BatchClock {
    pub last_time: i64,
}

impl BatchClock {
    /// A clock whose last reconciliation point is `now`.
    pub fn new(now: i64) -> (r: BatchClock)
        ensures
            r.last_time == now,
    {
        BatchClock { last_time: now }
    }

    /// Stamps one drained batch of records read at tick `now`.
    ///
    /// The `k`-th record (1-based) of a batch of `N` gets the timestamp
    /// `last_time + k * ((now - last_time) / N)`, with the division rounded
    /// toward zero; only mouse records become events. Afterwards `last_time`
    /// is `now`, which discards the residue of the rounding. An empty read
    /// ends a drain and leaves `last_time` as it was.
    pub fn process_batch(&mut self, records: &Vec<RawRecord>, now: i64) -> (events: Vec<
        MouseRawEvent,
    >)
        ensures
            events@ == batch_events(records@, old(self).last_time as int, now as int),
            final(self).last_time == next_last(old(self).last_time, records@, now),
    {
        let n = records.len();
        if n == 0 {
            return Vec::new();
        }
        let last = self.last_time;
        let delta: i128 = now as i128 - last as i128;
        let increment: i128 = delta / (n as i128);
        proof {
            assert(increment as int == batch_increment(last as int, now as int, n as nat));
        }
        let mut events: Vec<MouseRawEvent> = Vec::new();
        let mut stamp: i64 = last;
        let mut i: usize = 0;
        while i < n
            invariant
                n == records.len(),
                n >= 1,
                i <= n,
                increment as int == batch_increment(last as int, now as int, n as nat),
                stamp as int == record_stamp(last as int, now as int, n as nat, i as int),
                events@ == batch_events_prefix(records@, last as int, now as int, i as nat),
            decreases n - i,
        {
            proof {
                lemma_stamp_between(last as int, now as int, n as nat, i as int + 1);
                assert(record_stamp(last as int, now as int, n as nat, i as int + 1) == stamp
                    + increment) by (nonlinear_arith)
                    requires
                        stamp as int == record_stamp(last as int, now as int, n as nat, i as int),
                        increment as int == batch_increment(last as int, now as int, n as nat),
                ;
            }
            stamp = (stamp as i128 + increment) as i64;
            let r = records[i];
            if r.kind == crate::event::RecordKind::Mouse {
                events.push(MouseRawEvent { dx: r.dx, dy: r.dy, t: stamp });
            }
            i = i + 1;
        }
        self.last_time = now;
        events
    }

    /// Stamps a run of batches drained one after another, in order: each
    /// batch starts from the reconciliation point that the one before left.
    pub fn process_run(&mut self, batches: &Vec<(Vec<RawRecord>, i64)>) -> (events: Vec<
        MouseRawEvent,
    >)
        ensures
            events@ == run_batches(old(self).last_time, batches@),
            final(self).last_time == run_last(old(self).last_time, batches@),
    {
        let mut events: Vec<MouseRawEvent> = Vec::new();
        let mut i: usize = 0;
        proof {
            assert(batches@.skip(0) =~= batches@);
            assert(Seq::<MouseRawEvent>::empty() + run_batches(self.last_time, batches@)
                =~= run_batches(self.last_time, batches@));
        }
        while i < batches.len()
            invariant
                i <= batches@.len(),
                events@ + run_batches(self.last_time, batches@.skip(i as int)) == run_batches(
                    old(self).last_time,
                    batches@,
                ),
                run_last(self.last_time, batches@.skip(i as int)) == run_last(
                    old(self).last_time,
                    batches@,
                ),
            decreases batches@.len() - i,
        {
            let ghost rest = batches@.skip(i as int);
            let ghost before = events@;
            let ghost lt = self.last_time;
            proof {
                assert(rest.drop_first() =~= batches@.skip(i as int + 1));
                assert(rest[0] == batches@[i as int]);
            }
            let batch = &batches[i];
            let mut stamped = self.process_batch(&batch.0, batch.1);
            events.append(&mut stamped);
            proof {
                let tail = run_batches(self.last_time, batches@.skip(i as int + 1));
                assert(before + (batch_events(batch.0@, lt as int, batch.1 as int) + tail) =~= events@
                    + tail);
            }
            i = i + 1;
        }
        proof {
            assert(batches@.skip(i as int) =~= Seq::<(Vec<RawRecord>, i64)>::empty());
            assert(events@ + Seq::<MouseRawEvent>::empty() =~= events@);
        }
        events
    }
}

} // verus!
