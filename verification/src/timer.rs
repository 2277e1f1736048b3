//! The retransmission bookkeeping: an ordered mapping from sequence number to
//! send timestamp, and the smoothed round-trip-time estimator.
//!
//! Times are in milliseconds. The estimator is the RFC 793-era exponentially
//! weighted moving average `SRTT <- 0.8 * SRTT + 0.2 * rtt`, kept in integer
//! milliseconds as `(4 * SRTT + rtt) / 5`; it starts deliberately large to
//! avoid spurious early retransmits.

use vstd::prelude::*;

use crate::seq_space::{in_between_wrapped, spec_in_between_wrapped};

verus! {

/// The initial smoothed round-trip time: one minute, in milliseconds.
pub const INITIAL_SRTT_MS: u64 = 60_000;

/// An ordered map from sequence number to send time (milliseconds), kept as a
/// vector sorted by key, plus the smoothed round-trip time.
pub struct Timers {
    pub send_times: Vec<(u32, u64)>,
    pub srtt: u64,
}

/// Keys strictly ascending: sorted and duplicate-free.
pub open spec fn sorted_by_key(ts: Seq<(u32, u64)>) -> bool {
    forall|i: int, j: int| 0 <= i < j < ts.len() ==> ts[i].0 < ts[j].0
}

/// `a - b`, stopping at zero: the elapsed time between two timestamps.
pub open spec fn sat_sub(a: u64, b: u64) -> u64 {
    if a >= b {
        (a - b) as u64
    } else {
        0
    }
}

/// One update of the estimator with a new round-trip sample.
pub open spec fn srtt_step(srtt: u64, rtt: u64) -> u64 {
    ((4 * srtt + rtt) / 5) as u64
}

/// A send-time entry at `k` is acknowledged by an ACK of `ackn`: `k` lies in
/// `[SND.UNA, ACKN)` on the ring.
pub open spec fn acked_key(k: u32, una: u32, ackn: u32) -> bool {
    spec_in_between_wrapped(una.wrapping_sub(1), k, ackn)
}

/// Insertion into the sorted vector, replacing the value of an existing key.
pub open spec fn spec_insert(ts: Seq<(u32, u64)>, k: u32, v: u64) -> Seq<(u32, u64)>
    decreases ts.len(),
{
    if ts.len() == 0 {
        seq![(k, v)]
    } else if ts[0].0 < k {
        seq![ts[0]] + spec_insert(ts.drop_first(), k, v)
    } else if ts[0].0 == k {
        seq![(k, v)] + ts.drop_first()
    } else {
        seq![(k, v)] + ts
    }
}

/// The entries left, and the estimator reached, after dropping every entry
/// acknowledged by `ackn` and feeding its round-trip sample to the estimator,
/// in ascending key order.
pub open spec fn spec_drain(ts: Seq<(u32, u64)>, una: u32, ackn: u32, srtt: u64, now: u64) -> (
    Seq<(u32, u64)>,
    u64,
)
    decreases ts.len(),
{
    if ts.len() == 0 {
        (Seq::<(u32, u64)>::empty(), srtt)
    } else if acked_key(ts[0].0, una, ackn) {
        spec_drain(ts.drop_first(), una, ackn, srtt_step(srtt, sat_sub(now, ts[0].1)), now)
    } else {
        let r = spec_drain(ts.drop_first(), una, ackn, srtt, now);
        (seq![ts[0]] + r.0, r.1)
    }
}

/// The first entry whose key is at least `una` in the plain `u32` order:
/// on a sorted vector, the one with the smallest such key.
pub open spec fn spec_oldest_from(ts: Seq<(u32, u64)>, una: u32) -> Option<(u32, u64)>
    decreases ts.len(),
{
    if ts.len() == 0 {
        None
    } else if ts[0].0 >= una {
        Some(ts[0])
    } else {
        spec_oldest_from(ts.drop_first(), una)
    }
}

/// Every entry after an insertion is the inserted pair or one of the old
/// entries, and sortedness is preserved.
pub proof fn lemma_insert_entries(ts: Seq<(u32, u64)>, k: u32, v: u64)
    ensures
        forall|i: int|
            0 <= i < spec_insert(ts, k, v).len() ==> (spec_insert(ts, k, v)[i] == (k, v)
                || ts.contains(spec_insert(ts, k, v)[i])),
        sorted_by_key(ts) ==> sorted_by_key(spec_insert(ts, k, v)),
    decreases ts.len(),
{
    if ts.len() == 0 {
    } else if ts[0].0 < k {
        lemma_insert_entries(ts.drop_first(), k, v);
        assert forall|i: int| 0 <= i < spec_insert(ts, k, v).len() implies (spec_insert(ts, k, v)[i]
            == (k, v) || ts.contains(spec_insert(ts, k, v)[i])) by {
            if i == 0 {
                assert(ts.contains(ts[0]));
            } else {
                let e = spec_insert(ts.drop_first(), k, v)[i - 1];
                assert(spec_insert(ts, k, v)[i] == e);
                if e != (k, v) {
                    let j = choose|j: int|
                        0 <= j < ts.drop_first().len() && ts.drop_first()[j] == e;
                    assert(ts[j + 1] == e);
                }
            }
        }
        if sorted_by_key(ts) {
            assert forall|i: int, j: int|
                0 <= i < j < spec_insert(ts, k, v).len() implies spec_insert(ts, k, v)[i].0
                < spec_insert(ts, k, v)[j].0 by {
                if i == 0 {
                    let e = spec_insert(ts.drop_first(), k, v)[j - 1];
                    if e != (k, v) {
                        let jj = choose|jj: int|
                            0 <= jj < ts.drop_first().len() && ts.drop_first()[jj] == e;
                        assert(ts[jj + 1] == e);
                    }
                }
            }
        }
    } else {
    }
}

/// Every entry left by a drain is one of the old entries and is not
/// acknowledged; sortedness is preserved.
pub proof fn lemma_drain_entries(ts: Seq<(u32, u64)>, una: u32, ackn: u32, srtt: u64, now: u64)
    ensures
        forall|i: int|
            0 <= i < spec_drain(ts, una, ackn, srtt, now).0.len() ==> ts.contains(
                #[trigger] spec_drain(ts, una, ackn, srtt, now).0[i],
            ) && !acked_key(spec_drain(ts, una, ackn, srtt, now).0[i].0, una, ackn),
        sorted_by_key(ts) ==> sorted_by_key(spec_drain(ts, una, ackn, srtt, now).0),
    decreases ts.len(),
{
    if ts.len() == 0 {
    } else {
        let rest = ts.drop_first();
        if acked_key(ts[0].0, una, ackn) {
            let srtt2 = srtt_step(srtt, sat_sub(now, ts[0].1));
            lemma_drain_entries(rest, una, ackn, srtt2, now);
            let r = spec_drain(ts, una, ackn, srtt, now);
            let r2 = spec_drain(rest, una, ackn, srtt2, now);
            assert(r == r2);
            assert forall|i: int| 0 <= i < r.0.len() implies ts.contains(#[trigger] r.0[i])
                && !acked_key(r.0[i].0, una, ackn) by {
                assert(rest.contains(r2.0[i]) && !acked_key(r2.0[i].0, una, ackn));
                let j = choose|j: int| 0 <= j < rest.len() && rest[j] == r.0[i];
                assert(ts[j + 1] == r.0[i]);
            }
        } else {
            lemma_drain_entries(rest, una, ackn, srtt, now);
            let r = spec_drain(ts, una, ackn, srtt, now);
            assert forall|i: int| 0 <= i < r.0.len() implies ts.contains(#[trigger] r.0[i])
                && !acked_key(r.0[i].0, una, ackn) by {
                if i == 0 {
                    assert(ts.contains(ts[0]));
                } else {
                    let e = spec_drain(rest, una, ackn, srtt, now).0[i - 1];
                    assert(r.0[i] == e);
                    let j = choose|j: int| 0 <= j < rest.len() && rest[j] == e;
                    assert(ts[j + 1] == e);
                }
            }
            if sorted_by_key(ts) {
                assert forall|i: int, j: int| 0 <= i < j < r.0.len() implies r.0[i].0
                    < r.0[j].0 by {
                    if i == 0 {
                        let e = spec_drain(rest, una, ackn, srtt, now).0[j - 1];
                        let jj = choose|jj: int| 0 <= jj < rest.len() && rest[jj] == e;
                        assert(ts[jj + 1] == e);
                    }
                }
            }
        }
    }
}

impl Timers {
    /// A fresh set of timers: no outstanding send times, the estimator at its
    /// deliberately large start.
    pub fn new() -> (r: Timers)
        ensures
            r.send_times@ == Seq::<(u32, u64)>::empty(),
            r.srtt == INITIAL_SRTT_MS,
    {
        Timers { send_times: Vec::new(), srtt: INITIAL_SRTT_MS }
    }

    /// Records `v` as the send time of sequence number `k`, replacing any
    /// earlier record for `k`.
    pub fn insert(&mut self, k: u32, v: u64)
        ensures
            final(self).send_times@ == spec_insert(old(self).send_times@, k, v),
            final(self).srtt == old(self).srtt,
    {
        let ghost ts0 = self.send_times@;
        let n = self.send_times.len();
        let mut out: Vec<(u32, u64)> = Vec::new();
        let mut placed: bool = false;
        let mut i: usize = 0;
        assert(ts0.skip(0) =~= ts0);
        while i < n
            invariant
                i <= n,
                n == self.send_times@.len(),
                self.send_times@ == ts0,
                placed ==> spec_insert(ts0, k, v) == out@ + ts0.skip(i as int),
                !placed ==> spec_insert(ts0, k, v) == out@ + spec_insert(
                    ts0.skip(i as int),
                    k,
                    v,
                ),
            decreases n - i,
        {
            let e = self.send_times[i];
            proof {
                assert(ts0.skip(i as int)[0] == ts0[i as int]);
                assert(ts0.skip(i as int).drop_first() =~= ts0.skip(i + 1));
            }
            if !placed && e.0 >= k {
                out.push((k, v));
                placed = true;
                if e.0 > k {
                    out.push(e);
                    proof {
                        assert(spec_insert(ts0.skip(i as int), k, v) =~= seq![(k, v), e] + ts0.skip(
                            i + 1,
                        ));
                        assert(out@ + ts0.skip(i + 1) =~= spec_insert(ts0, k, v));
                    }
                } else {
                    proof {
                        assert(out@ + ts0.skip(i + 1) =~= spec_insert(ts0, k, v));
                    }
                }
            } else {
                out.push(e);
                proof {
                    if placed {
                        assert(out@ + ts0.skip(i + 1) =~= spec_insert(ts0, k, v));
                    } else {
                        assert(out@ + spec_insert(ts0.skip(i + 1), k, v) =~= spec_insert(
                            ts0,
                            k,
                            v,
                        ));
                    }
                }
            }
            i += 1;
        }
        if !placed {
            assert(ts0.skip(n as int) =~= Seq::<(u32, u64)>::empty());
            out.push((k, v));
            assert(out@ =~= spec_insert(ts0, k, v));
        } else {
            assert(ts0.skip(n as int) =~= Seq::<(u32, u64)>::empty());
            assert(out@ =~= spec_insert(ts0, k, v));
        }
        self.send_times = out;
    }

    /// The entry with the smallest key at least `una` (in the plain `u32`
    /// order), if any: the oldest outstanding send time.
    pub fn oldest_from(&self, una: u32) -> (r: Option<(u32, u64)>)
        ensures
            r == spec_oldest_from(self.send_times@, una),
    {
        let ghost ts0 = self.send_times@;
        let n = self.send_times.len();
        let mut i: usize = 0;
        assert(ts0.skip(0) =~= ts0);
        while i < n
            invariant
                i <= n,
                n == self.send_times@.len(),
                self.send_times@ == ts0,
                spec_oldest_from(ts0, una) == spec_oldest_from(ts0.skip(i as int), una),
                forall|j: int| 0 <= j < i ==> ts0[j].0 < una,
            decreases n - i,
        {
            let e = self.send_times[i];
            proof {
                assert(ts0.skip(i as int)[0] == ts0[i as int]);
                assert(ts0.skip(i as int).drop_first() =~= ts0.skip(i + 1));
            }
            if e.0 >= una {
                return Some(e);
            }
            i += 1;
        }
        assert(ts0.skip(n as int) =~= Seq::<(u32, u64)>::empty());
        None
    }

    /// Drops every send-time entry acknowledged by `ackn` (key in
    /// `[una, ackn)` on the ring) and feeds each one's round-trip sample to
    /// the estimator, in ascending key order.
    pub fn drain_acked(&mut self, una: u32, ackn: u32, now_ms: u64)
        ensures
            final(self).send_times@ == spec_drain(
                old(self).send_times@,
                una,
                ackn,
                old(self).srtt,
                now_ms,
            ).0,
            final(self).srtt == spec_drain(
                old(self).send_times@,
                una,
                ackn,
                old(self).srtt,
                now_ms,
            ).1,
    {
        let ghost ts0 = self.send_times@;
        let ghost srtt0 = self.srtt;
        let n = self.send_times.len();
        let mut out: Vec<(u32, u64)> = Vec::new();
        let mut srtt = self.srtt;
        let mut i: usize = 0;
        assert(ts0.skip(0) =~= ts0);
        while i < n
            invariant
                i <= n,
                n == self.send_times@.len(),
                self.send_times@ == ts0,
                spec_drain(ts0, una, ackn, srtt0, now_ms) == {
                    let r = spec_drain(ts0.skip(i as int), una, ackn, srtt, now_ms);
                    (out@ + r.0, r.1)
                },
            decreases n - i,
        {
            let e = self.send_times[i];
            proof {
                assert(ts0.skip(i as int)[0] == ts0[i as int]);
                assert(ts0.skip(i as int).drop_first() =~= ts0.skip(i + 1));
            }
            if in_between_wrapped(una.wrapping_sub(1), e.0, ackn) {
                let ghost srtt_before = srtt;
                let rtt: u64 = if now_ms >= e.1 {
                    now_ms - e.1
                } else {
                    0
                };
                let wide: u128 = 4 * (srtt as u128) + (rtt as u128);
                assert(wide / 5 <= u64::MAX) by {
                    assert(wide <= 5 * (u64::MAX as u128));
                };
                srtt = (wide / 5) as u64;
                assert(srtt == srtt_step(srtt_before, sat_sub(now_ms, e.1)));
                proof {
                    let r = spec_drain(ts0.skip(i + 1), una, ackn, srtt, now_ms);
                    assert(spec_drain(ts0, una, ackn, srtt0, now_ms) == (out@ + r.0, r.1));
                }
            } else {
                out.push(e);
                proof {
                    let r = spec_drain(ts0.skip(i + 1), una, ackn, srtt, now_ms);
                    assert(out@ + (seq![ts0[i as int]] + r.0).skip(1) =~= out@ + r.0);
                    assert(spec_drain(ts0, una, ackn, srtt0, now_ms) == (out@ + r.0, r.1));
                }
            }
            i += 1;
        }
        assert(ts0.skip(n as int) =~= Seq::<(u32, u64)>::empty());
        assert(out@ + Seq::<(u32, u64)>::empty() =~= out@);
        self.send_times = out;
        self.srtt = srtt;
    }
}

} // verus!
