//! Properties of the library that span calls: what every push keeps, what
//! the reported figures are, and what a search or an export can yield.

use vstd::prelude::*;
use crate::buffer::{RamPoint, RingView, VramPoint, VramView, bucket_start, cap_points, cutoff, drop_stale_ram, drop_stale_vram, max_closed, max_points, peak_ram, peak_vram};
use crate::model::{Sample, VramProcessSample, WindowConfig, is_valid_interval, is_valid_window};

verus! {

proof fn lemma_drop_stale_ram_suffix<C>(h: Seq<RamPoint<C>>, cut: int) -> (k: int)
    ensures
        0 <= k <= h.len(),
        drop_stale_ram(h, cut) == h.skip(k),
        k < h.len() ==> h[k].0 >= cut,
    decreases h.len(),
{
    if h.len() > 0 && (h[0].0 as int) < cut {
        let k1 = lemma_drop_stale_ram_suffix(h.drop_first(), cut);
        assert(h.drop_first().skip(k1) =~= h.skip(k1 + 1));
        k1 + 1
    } else {
        assert(h.skip(0) =~= h);
        0
    }
}

proof fn lemma_drop_stale_vram_suffix(h: Seq<VramPoint>, cut: int) -> (k: int)
    ensures
        0 <= k <= h.len(),
        drop_stale_vram(h, cut) == h.skip(k),
        k < h.len() ==> h[k].0 >= cut,
    decreases h.len(),
{
    if h.len() > 0 && (h[0].0 as int) < cut {
        let k1 = lemma_drop_stale_vram_suffix(h.drop_first(), cut);
        assert(h.drop_first().skip(k1) =~= h.skip(k1 + 1));
        k1 + 1
    } else {
        assert(h.skip(0) =~= h);
        0
    }
}

proof fn lemma_cap_suffix<T>(h: Seq<T>) -> (k: int)
    ensures
        0 <= k <= h.len(),
        cap_points(h) == h.skip(k),
        cap_points(h).len() <= max_closed(),
{
    if h.len() > max_closed() {
        assert(h.subrange(h.len() - max_closed(), h.len() as int) =~= h.skip(h.len() - max_closed()));
        h.len() - max_closed()
    } else {
        assert(h.skip(0) =~= h);
        0
    }
}

/// After any push the series still holds at most `max_points()` points,
/// the open bucket included, and its gauge still brackets the last reading.
pub proof fn law_push_keeps_invariant<C>(v: RingView<C>, s: Sample<C>, cfg: WindowConfig, track: bool)
    requires
        v.inv(),
    ensures
        v.pushed(s, cfg, track).inv(),
        v.pushed(s, cfg, track).points().len() <= max_points(),
{
    if track {
        let b = bucket_start(s.ts_ms, cfg.spec_bucket_ms()) as u64;
        let h1 = match v.open {
            Some(o) => if o.start == b {
                v.history
            } else {
                v.history.push((o.max.ts_ms, o.max.rss_bytes, o.last.ts_ms, o.last.cpu_pct))
            },
            None => v.history,
        };
        let d = drop_stale_ram(h1, cutoff(s.ts_ms, cfg.window_ms()));
        lemma_cap_suffix(d);
    }
}

/// Samples pushed without history tracking leave the bucketed history and
/// the open bucket as they were; only the last reading and the gauge move.
pub proof fn law_gauge_mode_keeps_history<C>(v: RingView<C>, s: Sample<C>, cfg: WindowConfig)
    ensures
        v.pushed(s, cfg, false).history == v.history,
        v.pushed(s, cfg, false).open == v.open,
        v.pushed(s, cfg, false).points() == v.points(),
        v.pushed(s, cfg, false).last_raw == Some(s),
{
}

/// A bucket holds the largest memory value pushed into it and the last CPU
/// value: after a tracked push, the open bucket's memory sample is the new
/// sample or the previous maximum of the same bucket, whichever is larger
/// (the earlier one on ties), and its CPU sample is the new sample.
pub proof fn law_bucket_max_and_last<C>(v: RingView<C>, s: Sample<C>, cfg: WindowConfig)
    requires
        cfg.wf(),
    ensures
        ({
            let o = v.pushed(s, cfg, true).open->0;
            &&& v.pushed(s, cfg, true).open is Some
            &&& o.last == s
            &&& o.max.rss_bytes >= s.rss_bytes
            &&& (o.max == s || (v.open matches Some(p) && o.max == p.max))
            &&& (v.open is Some && v.open->0.start == o.start) ==> o.max.rss_bytes >= v.open->0.max.rss_bytes
            &&& o.start == bucket_start(s.ts_ms, cfg.spec_bucket_ms())
            &&& o.start <= s.ts_ms < o.start + cfg.spec_bucket_ms()
        }),
{
    lemma_bucket_start_bounds(s.ts_ms, cfg.spec_bucket_ms());
}

/// A sample falls in the bucket that starts at `bucket_start`.
pub proof fn lemma_bucket_start_bounds(ts: u64, w: int)
    requires
        w > 0,
    ensures
        0 <= bucket_start(ts, w) <= ts < bucket_start(ts, w) + w,
{
    let q = ts as int / w;
    assert(0 <= q * w <= ts < q * w + w) by (nonlinear_arith)
        requires
            w > 0,
            q == ts as int / w,
            ts >= 0;
}

/// The memory part `(time, bytes)` of a point.
pub open spec fn mem_pair<C>(p: RamPoint<C>) -> (u64, u64) {
    (p.0, p.1)
}

/// The CPU part `(time, value)` of a point.
pub open spec fn cpu_pair<C>(p: RamPoint<C>) -> (u64, C) {
    (p.2, p.3)
}

/// Points carry real readings: after a push, the memory part of every point
/// is the memory part of a point held before or the new sample's time and
/// memory, and likewise for the CPU part. By induction, every time and value
/// a series reports is one some pushed sample carried; none is invented.
pub proof fn law_points_come_from_samples<C>(v: RingView<C>, s: Sample<C>, cfg: WindowConfig, track: bool)
    ensures
        forall|i: int| 0 <= i < v.pushed(s, cfg, track).points().len() ==> {
            let p = #[trigger] v.pushed(s, cfg, track).points()[i];
            &&& (mem_pair(p) == (s.ts_ms, s.rss_bytes) || exists|j: int| 0 <= j < v.points().len() && mem_pair(v.points()[j]) == mem_pair(p))
            &&& (cpu_pair(p) == (s.ts_ms, s.cpu_pct) || exists|j: int| 0 <= j < v.points().len() && cpu_pair(v.points()[j]) == cpu_pair(p))
        },
{
    let w = v.pushed(s, cfg, track);
    if track {
        let b = bucket_start(s.ts_ms, cfg.spec_bucket_ms()) as u64;
        let h1 = match v.open {
            Some(o) => if o.start == b {
                v.history
            } else {
                v.history.push((o.max.ts_ms, o.max.rss_bytes, o.last.ts_ms, o.last.cpu_pct))
            },
            None => v.history,
        };
        let d = drop_stale_ram(h1, cutoff(s.ts_ms, cfg.window_ms()));
        let k1 = lemma_drop_stale_ram_suffix(h1, cutoff(s.ts_ms, cfg.window_ms()));
        let k2 = lemma_cap_suffix(d);
        assert forall|i: int| 0 <= i < w.points().len() implies {
            let p = #[trigger] w.points()[i];
            &&& (mem_pair(p) == (s.ts_ms, s.rss_bytes) || exists|j: int| 0 <= j < v.points().len() && mem_pair(v.points()[j]) == mem_pair(p))
            &&& (cpu_pair(p) == (s.ts_ms, s.cpu_pct) || exists|j: int| 0 <= j < v.points().len() && cpu_pair(v.points()[j]) == cpu_pair(p))
        } by {
            let p = w.points()[i];
            if i < w.history.len() {
                let idx = i + k2 + k1;
                assert(w.history[i] == h1[idx]);
                if idx < v.history.len() {
                    assert(v.points()[idx] == v.history[idx]);
                } else {
                    let j = v.history.len() as int;
                    assert(v.points()[j] == h1[idx]);
                }
            } else {
                let o = w.open->0;
                match v.open {
                    Some(q) => {
                        let j = v.history.len() as int;
                        assert(v.points()[j] == (q.max.ts_ms, q.max.rss_bytes, q.last.ts_ms, q.last.cpu_pct));
                    },
                    None => {},
                }
            }
        }
    } else {
        assert forall|i: int| 0 <= i < w.points().len() implies {
            let p = #[trigger] w.points()[i];
            &&& (mem_pair(p) == (s.ts_ms, s.rss_bytes) || exists|j: int| 0 <= j < v.points().len() && mem_pair(v.points()[j]) == mem_pair(p))
            &&& (cpu_pair(p) == (s.ts_ms, s.cpu_pct) || exists|j: int| 0 <= j < v.points().len() && cpu_pair(v.points()[j]) == cpu_pair(p))
        } by {
            assert(w.points() == v.points());
        }
    }
}


/// The history is in memory-time order, and the open bucket's memory sample
/// is not older than any closed bucket.
pub open spec fn ram_ordered<C>(v: RingView<C>) -> bool {
    &&& forall|i: int, j: int| 0 <= i <= j < v.history.len() ==> v.history[i].0 <= v.history[j].0
    &&& v.open is Some ==> forall|i: int| 0 <= i < v.history.len() ==> v.history[i].0 <= v.open->0.max.ts_ms
}

/// No memory time held is after `t`.
pub open spec fn ram_times_before<C>(v: RingView<C>, t: u64) -> bool {
    &&& forall|i: int| 0 <= i < v.history.len() ==> v.history[i].0 <= t
    &&& v.open is Some ==> v.open->0.max.ts_ms <= t
}

proof fn lemma_sorted_suffix<C>(h: Seq<RamPoint<C>>, k: int)
    requires
        0 <= k <= h.len(),
        forall|i: int, j: int| 0 <= i <= j < h.len() ==> h[i].0 <= h[j].0,
    ensures
        forall|i: int, j: int| 0 <= i <= j < h.skip(k).len() ==> h.skip(k)[i].0 <= h.skip(k)[j].0,
{
    assert forall|i: int, j: int| 0 <= i <= j < h.skip(k).len() implies h.skip(k)[i].0 <= h.skip(k)[j].0 by {
        assert(h.skip(k)[i] == h[i + k]);
        assert(h.skip(k)[j] == h[j + k]);
    }
}

/// Old buckets leave the window: when samples arrive in time order, after a
/// tracked push every closed bucket's memory time is within `window_ms` of
/// the new sample, and time order is kept.
pub proof fn law_window_retention<C>(v: RingView<C>, s: Sample<C>, cfg: WindowConfig)
    requires
        ram_ordered(v),
        ram_times_before(v, s.ts_ms),
    ensures
        ram_ordered(v.pushed(s, cfg, true)),
        ram_times_before(v.pushed(s, cfg, true), s.ts_ms),
        forall|i: int| 0 <= i < v.pushed(s, cfg, true).history.len() ==> v.pushed(s, cfg, true).history[i].0 >= cutoff(s.ts_ms, cfg.window_ms()),
{
    let w = v.pushed(s, cfg, true);
    let b = bucket_start(s.ts_ms, cfg.spec_bucket_ms()) as u64;
    let cut = cutoff(s.ts_ms, cfg.window_ms());
    let h1 = match v.open {
        Some(o) => if o.start == b {
            v.history
        } else {
            v.history.push((o.max.ts_ms, o.max.rss_bytes, o.last.ts_ms, o.last.cpu_pct))
        },
        None => v.history,
    };
    assert forall|i: int, j: int| 0 <= i <= j < h1.len() implies h1[i].0 <= h1[j].0 by {
        if j >= v.history.len() {
            assert(h1[j].0 == v.open->0.max.ts_ms);
        }
    }
    assert forall|i: int| 0 <= i < h1.len() implies h1[i].0 <= s.ts_ms by {
        if i >= v.history.len() {
            assert(h1[i].0 == v.open->0.max.ts_ms);
        }
    }
    let d = drop_stale_ram(h1, cut);
    let k1 = lemma_drop_stale_ram_suffix(h1, cut);
    lemma_sorted_suffix(h1, k1);
    let k2 = lemma_cap_suffix(d);
    lemma_sorted_suffix(d, k2);
    assert(w.history == d.skip(k2));
    assert forall|i: int| 0 <= i < w.history.len() implies w.history[i].0 >= cut && w.history[i].0 <= s.ts_ms && w.history[i].0 <= w.open->0.max.ts_ms by {
        assert(w.history[i] == h1[i + k2 + k1]);
        assert(h1[k1].0 <= h1[i + k2 + k1].0);
        if v.open is Some && v.open->0.start == b && w.open->0.max != s {
            assert(w.open->0.max == v.open->0.max);
            if i + k2 + k1 < v.history.len() {
            }
        }
    }
}

/// The series after a run of pushes, each with its own configuration and
/// history flag, in order.
pub open spec fn ram_pushed_all<C>(v: RingView<C>, ss: Seq<(Sample<C>, WindowConfig, bool)>) -> RingView<C>
    decreases ss.len(),
{
    if ss.len() == 0 {
        v
    } else {
        let l = ss.last();
        ram_pushed_all(v, ss.drop_last()).pushed(l.0, l.1, l.2)
    }
}

/// Each sample of the run is strictly newer than the one before.
pub open spec fn ram_arrive_in_order<C>(ss: Seq<(Sample<C>, WindowConfig, bool)>) -> bool {
    forall|i: int, j: int| 0 <= i < j < ss.len() ==> ss[i].0.ts_ms < ss[j].0.ts_ms
}

/// Memory times strictly increase along the points.
pub open spec fn ram_strictly_ordered<C>(pts: Seq<RamPoint<C>>) -> bool {
    forall|i: int, j: int| 0 <= i < j < pts.len() ==> pts[i].0 < pts[j].0
}

proof fn lemma_ram_strict_step<C>(v: RingView<C>, s: Sample<C>, cfg: WindowConfig, track: bool)
    requires
        ram_strictly_ordered(v.points()),
        forall|i: int| 0 <= i < v.points().len() ==> v.points()[i].0 < s.ts_ms,
    ensures
        ram_strictly_ordered(v.pushed(s, cfg, track).points()),
        forall|i: int| 0 <= i < v.pushed(s, cfg, track).points().len() ==> v.pushed(s, cfg, track).points()[i].0 <= s.ts_ms,
{
    let w = v.pushed(s, cfg, track);
    if track {
        let b = bucket_start(s.ts_ms, cfg.spec_bucket_ms()) as u64;
        let h1 = match v.open {
            Some(o) => if o.start == b {
                v.history
            } else {
                v.history.push((o.max.ts_ms, o.max.rss_bytes, o.last.ts_ms, o.last.cpu_pct))
            },
            None => v.history,
        };
        // The history before eviction is a prefix of the old points.
        assert(h1.len() <= v.points().len());
        assert forall|i: int| 0 <= i < h1.len() implies h1[i] == v.points()[i] by {
            if i < v.history.len() {
                assert(h1[i] == v.history[i]);
            }
        }
        let cut = cutoff(s.ts_ms, cfg.window_ms());
        let d = drop_stale_ram(h1, cut);
        let k1 = lemma_drop_stale_ram_suffix(h1, cut);
        let k2 = lemma_cap_suffix(d);
        assert(w.history == d.skip(k2));
        assert forall|i: int| 0 <= i < w.history.len() implies w.history[i] == v.points()[i + k2 + k1] by {
            assert(w.history[i] == h1[i + k2 + k1]);
        }
        let o = w.open->0;
        assert(o.max == s || (v.open is Some && v.open->0.start == b && o.max == v.open->0.max));
        assert forall|i: int| 0 <= i < w.history.len() implies w.history[i].0 < o.max.ts_ms by {
            if o.max != s {
                let j = v.history.len() as int;
                assert(v.points()[j].0 == o.max.ts_ms);
                assert(i + k2 + k1 < h1.len());
            }
        }
        assert(w.points() == w.history.push((o.max.ts_ms, o.max.rss_bytes, o.last.ts_ms, o.last.cpu_pct)));
        assert forall|i: int, j: int| 0 <= i < j < w.points().len() implies w.points()[i].0 < w.points()[j].0 by {
            if j < w.history.len() {
                assert(w.points()[i] == v.points()[i + k2 + k1]);
                assert(w.points()[j] == v.points()[j + k2 + k1]);
            }
        }
        assert forall|i: int| 0 <= i < w.points().len() implies w.points()[i].0 <= s.ts_ms by {
            if i < w.history.len() {
                assert(w.points()[i] == v.points()[i + k2 + k1]);
            } else if o.max != s {
                let j = v.history.len() as int;
                assert(v.points()[j].0 == o.max.ts_ms);
            }
        }
    } else {
        assert(w.points() == v.points());
    }
}

/// Over a run of pushes into a new or cleared series, when each sample is
/// strictly newer than the one before: the points' memory times strictly
/// increase, none is after the newest sample, every point's memory time and
/// value are those of a sample pushed with history, and after a push with
/// history every closed bucket lies within the window of that push.
pub proof fn law_ram_run<C>(ss: Seq<(Sample<C>, WindowConfig, bool)>)
    requires
        ram_arrive_in_order(ss),
    ensures
        ({
            let w = ram_pushed_all(RingView::<C>::empty(), ss);
            &&& ram_strictly_ordered(w.points())
            &&& ss.len() > 0 ==> forall|i: int| 0 <= i < w.points().len() ==> w.points()[i].0 <= ss.last().0.ts_ms
            &&& forall|i: int| 0 <= i < w.points().len() ==> exists|k: int| 0 <= k < ss.len() && ss[k].2 && mem_pair(#[trigger] w.points()[i]) == (ss[k].0.ts_ms, ss[k].0.rss_bytes)
            &&& (ss.len() > 0 && ss.last().2) ==> forall|i: int| 0 <= i < w.history.len() ==> w.history[i].0 >= cutoff(ss.last().0.ts_ms, ss.last().1.window_ms())
        }),
    decreases ss.len(),
{
    if ss.len() > 0 {
        let q = ss.drop_last();
        assert forall|i: int, j: int| 0 <= i < j < q.len() implies q[i].0.ts_ms < q[j].0.ts_ms by {
            assert(q[i] == ss[i] && q[j] == ss[j]);
        }
        law_ram_run(q);
        let v = ram_pushed_all(RingView::<C>::empty(), q);
        let l = ss.last();
        let w = v.pushed(l.0, l.1, l.2);
        assert(ram_pushed_all(RingView::<C>::empty(), ss) == w);
        assert forall|i: int| 0 <= i < v.points().len() implies v.points()[i].0 < l.0.ts_ms by {
            assert(q.len() > 0) by {
                if q.len() == 0 {
                    assert(v == RingView::<C>::empty());
                }
            }
            assert(q.last() == ss[q.len() - 1]);
        }
        lemma_ram_strict_step(v, l.0, l.1, l.2);
        law_points_come_from_samples(v, l.0, l.1, l.2);
        assert forall|i: int| 0 <= i < w.points().len() implies exists|k: int| 0 <= k < ss.len() && ss[k].2 && mem_pair(#[trigger] w.points()[i]) == (ss[k].0.ts_ms, ss[k].0.rss_bytes) by {
            let p = w.points()[i];
            if l.2 {
                if mem_pair(p) == (l.0.ts_ms, l.0.rss_bytes) {
                    assert(ss[ss.len() - 1] == l);
                } else {
                    let j = choose|j: int| 0 <= j < v.points().len() && mem_pair(v.points()[j]) == mem_pair(p);
                    let k = choose|k: int| 0 <= k < q.len() && q[k].2 && mem_pair(#[trigger] v.points()[j]) == (q[k].0.ts_ms, q[k].0.rss_bytes);
                    assert(ss[k] == q[k]);
                }
            } else {
                assert(w.points() == v.points());
                let k = choose|k: int| 0 <= k < q.len() && q[k].2 && mem_pair(#[trigger] v.points()[i]) == (q[k].0.ts_ms, q[k].0.rss_bytes);
                assert(ss[k] == q[k]);
            }
        }
        if l.2 {
            assert(ram_ordered(v)) by {
                assert forall|i: int, j: int| 0 <= i <= j < v.history.len() implies v.history[i].0 <= v.history[j].0 by {
                    assert(v.points()[i] == v.history[i] && v.points()[j] == v.history[j]);
                }
                if v.open is Some {
                    let n = v.history.len() as int;
                    assert forall|i: int| 0 <= i < v.history.len() implies v.history[i].0 <= v.open->0.max.ts_ms by {
                        assert(v.points()[i] == v.history[i]);
                        assert(v.points()[n].0 == v.open->0.max.ts_ms);
                    }
                }
            }
            assert(ram_times_before(v, l.0.ts_ms)) by {
                assert forall|i: int| 0 <= i < v.history.len() implies v.history[i].0 <= l.0.ts_ms by {
                    assert(v.points()[i] == v.history[i]);
                }
                if v.open is Some {
                    let n = v.history.len() as int;
                    assert(v.points()[n].0 == v.open->0.max.ts_ms);
                }
            }
            law_window_retention(v, l.0, l.1);
        }
    }
}

/// The peak is the largest memory value among the points, reported with
/// the time of the first point that has it; there is one exactly when
/// there are points.
pub proof fn law_peak_ram<C>(pts: Seq<RamPoint<C>>)
    ensures
        peak_ram(pts) is Some <==> pts.len() > 0,
        peak_ram(pts) matches Some((t, r)) ==> exists|i: int|
            0 <= i < pts.len() && pts[i].0 == t && pts[i].1 == r && (forall|j: int| 0 <= j < i ==> pts[j].1 < r),
        peak_ram(pts) matches Some((t, r)) ==> forall|j: int| 0 <= j < pts.len() ==> pts[j].1 <= r,
    decreases pts.len(),
{
    if pts.len() > 0 {
        let q = pts.drop_last();
        law_peak_ram(q);
        let l = pts.last();
        match peak_ram(q) {
            Some((t0, r0)) => {
                let i0 = choose|i: int| 0 <= i < q.len() && q[i].0 == t0 && q[i].1 == r0 && (forall|j: int| 0 <= j < i ==> q[j].1 < r0);
                if l.1 > r0 {
                    let n = pts.len() - 1;
                    assert(pts[n].0 == l.0 && pts[n].1 == l.1);
                    assert(forall|j: int| 0 <= j < n ==> pts[j] == q[j]);
                } else {
                    assert(pts[i0] == q[i0]);
                    assert(forall|j: int| 0 <= j < pts.len() - 1 ==> pts[j] == q[j]);
                }
            },
            None => {
                assert(pts[0] == l);
            },
        }
    }
}

/// The VRAM peak is the largest value among the points, reported with the
/// time of the first point that has it.
pub proof fn law_peak_vram(pts: Seq<VramPoint>)
    ensures
        peak_vram(pts) is Some <==> pts.len() > 0,
        peak_vram(pts) matches Some((t, r)) ==> exists|i: int|
            0 <= i < pts.len() && pts[i].0 == t && pts[i].1 == r && (forall|j: int| 0 <= j < i ==> pts[j].1 < r),
        peak_vram(pts) matches Some((t, r)) ==> forall|j: int| 0 <= j < pts.len() ==> pts[j].1 <= r,
    decreases pts.len(),
{
    if pts.len() > 0 {
        let q = pts.drop_last();
        law_peak_vram(q);
        let l = pts.last();
        match peak_vram(q) {
            Some((t0, r0)) => {
                let i0 = choose|i: int| 0 <= i < q.len() && q[i].0 == t0 && q[i].1 == r0 && (forall|j: int| 0 <= j < i ==> q[j].1 < r0);
                if l.1 > r0 {
                    let n = pts.len() - 1;
                    assert(pts[n].0 == l.0 && pts[n].1 == l.1);
                    assert(forall|j: int| 0 <= j < n ==> pts[j] == q[j]);
                } else {
                    assert(pts[i0] == q[i0]);
                    assert(forall|j: int| 0 <= j < pts.len() - 1 ==> pts[j] == q[j]);
                }
            },
            None => {
                assert(pts[0] == l);
            },
        }
    }
}


/// After any push a VRAM series still holds at most `max_points()` points,
/// the open bucket included, and its gauge still brackets the last reading.
pub proof fn law_vram_push_keeps_invariant(v: VramView, s: VramProcessSample, cfg: WindowConfig, track: bool)
    requires
        v.inv(),
    ensures
        v.pushed(s, cfg, track).inv(),
        v.pushed(s, cfg, track).points().len() <= max_points(),
{
    if track {
        let b = bucket_start(s.ts_ms, cfg.spec_bucket_ms()) as u64;
        let h1 = match v.open {
            Some(o) => if o.start == b {
                v.history
            } else {
                v.history.push((o.max.ts_ms, o.max.used_bytes))
            },
            None => v.history,
        };
        let d = drop_stale_vram(h1, cutoff(s.ts_ms, cfg.window_ms()));
        lemma_cap_suffix(d);
    }
}

/// A VRAM bucket holds the largest value pushed into it, with that
/// sample's own time.
pub proof fn law_vram_bucket_max(v: VramView, s: VramProcessSample, cfg: WindowConfig)
    requires
        cfg.wf(),
    ensures
        ({
            let o = v.pushed(s, cfg, true).open->0;
            &&& v.pushed(s, cfg, true).open is Some
            &&& o.max.used_bytes >= s.used_bytes
            &&& (o.max == s || (v.open matches Some(p) && o.max == p.max))
            &&& (v.open is Some && v.open->0.start == o.start) ==> o.max.used_bytes >= v.open->0.max.used_bytes
            &&& o.start <= s.ts_ms < o.start + cfg.spec_bucket_ms()
        }),
{
    lemma_bucket_start_bounds(s.ts_ms, cfg.spec_bucket_ms());
}

/// VRAM points carry real readings: after a push every point is one held
/// before or the new sample's time and value.
pub proof fn law_vram_points_come_from_samples(v: VramView, s: VramProcessSample, cfg: WindowConfig, track: bool)
    ensures
        forall|i: int| 0 <= i < v.pushed(s, cfg, track).points().len() ==> {
            let p = #[trigger] v.pushed(s, cfg, track).points()[i];
            p == (s.ts_ms, s.used_bytes) || v.points().contains(p)
        },
{
    let w = v.pushed(s, cfg, track);
    if track {
        let b = bucket_start(s.ts_ms, cfg.spec_bucket_ms()) as u64;
        let h1 = match v.open {
            Some(o) => if o.start == b {
                v.history
            } else {
                v.history.push((o.max.ts_ms, o.max.used_bytes))
            },
            None => v.history,
        };
        let d = drop_stale_vram(h1, cutoff(s.ts_ms, cfg.window_ms()));
        let k1 = lemma_drop_stale_vram_suffix(h1, cutoff(s.ts_ms, cfg.window_ms()));
        let k2 = lemma_cap_suffix(d);
        assert forall|i: int| 0 <= i < w.points().len() implies {
            let p = #[trigger] w.points()[i];
            p == (s.ts_ms, s.used_bytes) || v.points().contains(p)
        } by {
            let p = w.points()[i];
            if i < w.history.len() {
                let idx = i + k2 + k1;
                assert(w.history[i] == h1[idx]);
                if idx < v.history.len() {
                    assert(v.points()[idx] == v.history[idx]);
                } else {
                    let j = v.history.len() as int;
                    assert(v.points()[j] == h1[idx]);
                }
            } else {
                match v.open {
                    Some(q) => {
                        let j = v.history.len() as int;
                        assert(v.points()[j] == (q.max.ts_ms, q.max.used_bytes));
                    },
                    None => {},
                }
            }
        }
    } else {
        assert(w.points() == v.points());
    }
}

/// The VRAM history is in time order, and the open bucket's sample is not
/// older than any closed bucket.
pub open spec fn vram_ordered(v: VramView) -> bool {
    &&& forall|i: int, j: int| 0 <= i <= j < v.history.len() ==> v.history[i].0 <= v.history[j].0
    &&& v.open is Some ==> forall|i: int| 0 <= i < v.history.len() ==> v.history[i].0 <= v.open->0.max.ts_ms
}

/// No VRAM time held is after `t`.
pub open spec fn vram_times_before(v: VramView, t: u64) -> bool {
    &&& forall|i: int| 0 <= i < v.history.len() ==> v.history[i].0 <= t
    &&& v.open is Some ==> v.open->0.max.ts_ms <= t
}

proof fn lemma_sorted_suffix_vram(h: Seq<VramPoint>, k: int)
    requires
        0 <= k <= h.len(),
        forall|i: int, j: int| 0 <= i <= j < h.len() ==> h[i].0 <= h[j].0,
    ensures
        forall|i: int, j: int| 0 <= i <= j < h.skip(k).len() ==> h.skip(k)[i].0 <= h.skip(k)[j].0,
{
    assert forall|i: int, j: int| 0 <= i <= j < h.skip(k).len() implies h.skip(k)[i].0 <= h.skip(k)[j].0 by {
        assert(h.skip(k)[i] == h[i + k]);
        assert(h.skip(k)[j] == h[j + k]);
    }
}

/// Old VRAM buckets leave the window: when samples arrive in time order,
/// after a tracked push every closed bucket is within `window_ms` of the new
/// sample, and time order is kept.
pub proof fn law_vram_window_retention(v: VramView, s: VramProcessSample, cfg: WindowConfig)
    requires
        vram_ordered(v),
        vram_times_before(v, s.ts_ms),
    ensures
        vram_ordered(v.pushed(s, cfg, true)),
        vram_times_before(v.pushed(s, cfg, true), s.ts_ms),
        forall|i: int| 0 <= i < v.pushed(s, cfg, true).history.len() ==> v.pushed(s, cfg, true).history[i].0 >= cutoff(s.ts_ms, cfg.window_ms()),
{
    let w = v.pushed(s, cfg, true);
    let b = bucket_start(s.ts_ms, cfg.spec_bucket_ms()) as u64;
    let cut = cutoff(s.ts_ms, cfg.window_ms());
    let h1 = match v.open {
        Some(o) => if o.start == b {
            v.history
        } else {
            v.history.push((o.max.ts_ms, o.max.used_bytes))
        },
        None => v.history,
    };
    assert forall|i: int, j: int| 0 <= i <= j < h1.len() implies h1[i].0 <= h1[j].0 by {
        if j >= v.history.len() {
            assert(h1[j].0 == v.open->0.max.ts_ms);
        }
    }
    assert forall|i: int| 0 <= i < h1.len() implies h1[i].0 <= s.ts_ms by {
        if i >= v.history.len() {
            assert(h1[i].0 == v.open->0.max.ts_ms);
        }
    }
    let d = drop_stale_vram(h1, cut);
    let k1 = lemma_drop_stale_vram_suffix(h1, cut);
    lemma_sorted_suffix_vram(h1, k1);
    let k2 = lemma_cap_suffix(d);
    lemma_sorted_suffix_vram(d, k2);
    assert(w.history == d.skip(k2));
    assert forall|i: int| 0 <= i < w.history.len() implies w.history[i].0 >= cut && w.history[i].0 <= s.ts_ms && w.history[i].0 <= w.open->0.max.ts_ms by {
        assert(w.history[i] == h1[i + k2 + k1]);
        assert(h1[k1].0 <= h1[i + k2 + k1].0);
    }
}

/// A VRAM series after a run of pushes, each with its own configuration and
/// history flag, in order.
pub open spec fn vram_pushed_all(v: VramView, ss: Seq<(VramProcessSample, WindowConfig, bool)>) -> VramView
    decreases ss.len(),
{
    if ss.len() == 0 {
        v
    } else {
        let l = ss.last();
        vram_pushed_all(v, ss.drop_last()).pushed(l.0, l.1, l.2)
    }
}

/// Each VRAM sample of the run is strictly newer than the one before.
pub open spec fn vram_arrive_in_order(ss: Seq<(VramProcessSample, WindowConfig, bool)>) -> bool {
    forall|i: int, j: int| 0 <= i < j < ss.len() ==> ss[i].0.ts_ms < ss[j].0.ts_ms
}

/// Times strictly increase along the VRAM points.
pub open spec fn vram_strictly_ordered(pts: Seq<VramPoint>) -> bool {
    forall|i: int, j: int| 0 <= i < j < pts.len() ==> pts[i].0 < pts[j].0
}

proof fn lemma_vram_strict_step(v: VramView, s: VramProcessSample, cfg: WindowConfig, track: bool)
    requires
        vram_strictly_ordered(v.points()),
        forall|i: int| 0 <= i < v.points().len() ==> v.points()[i].0 < s.ts_ms,
    ensures
        vram_strictly_ordered(v.pushed(s, cfg, track).points()),
        forall|i: int| 0 <= i < v.pushed(s, cfg, track).points().len() ==> v.pushed(s, cfg, track).points()[i].0 <= s.ts_ms,
{
    let w = v.pushed(s, cfg, track);
    if track {
        let b = bucket_start(s.ts_ms, cfg.spec_bucket_ms()) as u64;
        let h1 = match v.open {
            Some(o) => if o.start == b {
                v.history
            } else {
                v.history.push((o.max.ts_ms, o.max.used_bytes))
            },
            None => v.history,
        };
        assert(h1.len() <= v.points().len());
        assert forall|i: int| 0 <= i < h1.len() implies h1[i] == v.points()[i] by {
            if i < v.history.len() {
                assert(h1[i] == v.history[i]);
            }
        }
        let cut = cutoff(s.ts_ms, cfg.window_ms());
        let d = drop_stale_vram(h1, cut);
        let k1 = lemma_drop_stale_vram_suffix(h1, cut);
        let k2 = lemma_cap_suffix(d);
        assert(w.history == d.skip(k2));
        assert forall|i: int| 0 <= i < w.history.len() implies w.history[i] == v.points()[i + k2 + k1] by {
            assert(w.history[i] == h1[i + k2 + k1]);
        }
        let o = w.open->0;
        assert(o.max == s || (v.open is Some && v.open->0.start == b && o.max == v.open->0.max));
        assert forall|i: int| 0 <= i < w.history.len() implies w.history[i].0 < o.max.ts_ms by {
            if o.max != s {
                let j = v.history.len() as int;
                assert(v.points()[j].0 == o.max.ts_ms);
                assert(i + k2 + k1 < h1.len());
            }
        }
        assert(w.points() == w.history.push((o.max.ts_ms, o.max.used_bytes)));
        assert forall|i: int, j: int| 0 <= i < j < w.points().len() implies w.points()[i].0 < w.points()[j].0 by {
            if j < w.history.len() {
                assert(w.points()[i] == v.points()[i + k2 + k1]);
                assert(w.points()[j] == v.points()[j + k2 + k1]);
            }
        }
        assert forall|i: int| 0 <= i < w.points().len() implies w.points()[i].0 <= s.ts_ms by {
            if i < w.history.len() {
                assert(w.points()[i] == v.points()[i + k2 + k1]);
            } else if o.max != s {
                let j = v.history.len() as int;
                assert(v.points()[j].0 == o.max.ts_ms);
            }
        }
    } else {
        assert(w.points() == v.points());
    }
}

/// Over a run of pushes into a new or cleared VRAM series, when each sample
/// is strictly newer than the one before: the points' times strictly
/// increase, none is after the newest sample, every point is the time and
/// value of a sample pushed with history, and after a push with history
/// every closed bucket lies within the window of that push.
pub proof fn law_vram_run(ss: Seq<(VramProcessSample, WindowConfig, bool)>)
    requires
        vram_arrive_in_order(ss),
    ensures
        ({
            let w = vram_pushed_all(VramView::empty(), ss);
            &&& vram_strictly_ordered(w.points())
            &&& ss.len() > 0 ==> forall|i: int| 0 <= i < w.points().len() ==> w.points()[i].0 <= ss.last().0.ts_ms
            &&& forall|i: int| 0 <= i < w.points().len() ==> exists|k: int| 0 <= k < ss.len() && ss[k].2 && #[trigger] w.points()[i] == (ss[k].0.ts_ms, ss[k].0.used_bytes)
            &&& (ss.len() > 0 && ss.last().2) ==> forall|i: int| 0 <= i < w.history.len() ==> w.history[i].0 >= cutoff(ss.last().0.ts_ms, ss.last().1.window_ms())
        }),
    decreases ss.len(),
{
    if ss.len() > 0 {
        let q = ss.drop_last();
        assert forall|i: int, j: int| 0 <= i < j < q.len() implies q[i].0.ts_ms < q[j].0.ts_ms by {
            assert(q[i] == ss[i] && q[j] == ss[j]);
        }
        law_vram_run(q);
        let v = vram_pushed_all(VramView::empty(), q);
        let l = ss.last();
        let w = v.pushed(l.0, l.1, l.2);
        assert(vram_pushed_all(VramView::empty(), ss) == w);
        assert forall|i: int| 0 <= i < v.points().len() implies v.points()[i].0 < l.0.ts_ms by {
            assert(q.len() > 0) by {
                if q.len() == 0 {
                    assert(v == VramView::empty());
                }
            }
            assert(q.last() == ss[q.len() - 1]);
        }
        lemma_vram_strict_step(v, l.0, l.1, l.2);
        law_vram_points_come_from_samples(v, l.0, l.1, l.2);
        assert forall|i: int| 0 <= i < w.points().len() implies exists|k: int| 0 <= k < ss.len() && ss[k].2 && #[trigger] w.points()[i] == (ss[k].0.ts_ms, ss[k].0.used_bytes) by {
            let p = w.points()[i];
            if l.2 {
                if p == (l.0.ts_ms, l.0.used_bytes) {
                    assert(ss[ss.len() - 1] == l);
                } else {
                    let j = v.points().index_of(p);
                    let k = choose|k: int| 0 <= k < q.len() && q[k].2 && #[trigger] v.points()[j] == (q[k].0.ts_ms, q[k].0.used_bytes);
                    assert(ss[k] == q[k]);
                }
            } else {
                assert(w.points() == v.points());
                let k = choose|k: int| 0 <= k < q.len() && q[k].2 && #[trigger] v.points()[i] == (q[k].0.ts_ms, q[k].0.used_bytes);
                assert(ss[k] == q[k]);
            }
        }
        if l.2 {
            assert(vram_ordered(v)) by {
                assert forall|i: int, j: int| 0 <= i <= j < v.history.len() implies v.history[i].0 <= v.history[j].0 by {
                    assert(v.points()[i] == v.history[i] && v.points()[j] == v.history[j]);
                }
                if v.open is Some {
                    let n = v.history.len() as int;
                    assert forall|i: int| 0 <= i < v.history.len() implies v.history[i].0 <= v.open->0.max.ts_ms by {
                        assert(v.points()[i] == v.history[i]);
                        assert(v.points()[n].0 == v.open->0.max.ts_ms);
                    }
                }
            }
            assert(vram_times_before(v, l.0.ts_ms)) by {
                assert forall|i: int| 0 <= i < v.history.len() implies v.history[i].0 <= l.0.ts_ms by {
                    assert(v.points()[i] == v.history[i]);
                }
                if v.open is Some {
                    let n = v.history.len() as int;
                    assert(v.points()[n].0 == v.open->0.max.ts_ms);
                }
            }
            law_vram_window_retention(v, l.0, l.1);
        }
    }
}

/// The smallest memory value of a non-empty run of pushes.
pub open spec fn run_min_rss<C>(ss: Seq<(Sample<C>, WindowConfig, bool)>) -> u64
    decreases ss.len(),
{
    if ss.len() <= 1 {
        ss[0].0.rss_bytes
    } else {
        let m = run_min_rss(ss.drop_last());
        if m <= ss.last().0.rss_bytes { m } else { ss.last().0.rss_bytes }
    }
}

/// The largest memory value of a non-empty run of pushes.
pub open spec fn run_max_rss<C>(ss: Seq<(Sample<C>, WindowConfig, bool)>) -> u64
    decreases ss.len(),
{
    if ss.len() <= 1 {
        ss[0].0.rss_bytes
    } else {
        let m = run_max_rss(ss.drop_last());
        if m >= ss.last().0.rss_bytes { m } else { ss.last().0.rss_bytes }
    }
}

/// The gauge over a run: after pushes (with history or not) into a series
/// whose gauge is empty (new, cleared or reset), the gauge holds the last
/// sample and the smallest and largest memory values of the whole run.
pub proof fn law_ram_gauge_over_run<C>(v: RingView<C>, ss: Seq<(Sample<C>, WindowConfig, bool)>)
    requires
        v.gauge_min is None,
        v.gauge_max is None,
        ss.len() > 0,
    ensures
        ram_pushed_all(v, ss).last_raw == Some(ss.last().0),
        ram_pushed_all(v, ss).gauge_min == Some(run_min_rss(ss)),
        ram_pushed_all(v, ss).gauge_max == Some(run_max_rss(ss)),
    decreases ss.len(),
{
    let q = ss.drop_last();
    let l = ss.last();
    assert(ram_pushed_all(v, ss) == ram_pushed_all(v, q).pushed(l.0, l.1, l.2));
    if ss.len() > 1 {
        law_ram_gauge_over_run(v, q);
    } else {
        assert(q.len() == 0);
        assert(ram_pushed_all(v, q) == v);
        assert(l == ss[0]);
    }
}

/// The smallest value of a non-empty run of VRAM pushes.
pub open spec fn run_min_used(ss: Seq<(VramProcessSample, WindowConfig, bool)>) -> u64
    decreases ss.len(),
{
    if ss.len() <= 1 {
        ss[0].0.used_bytes
    } else {
        let m = run_min_used(ss.drop_last());
        if m <= ss.last().0.used_bytes { m } else { ss.last().0.used_bytes }
    }
}

/// The largest value of a non-empty run of VRAM pushes.
pub open spec fn run_max_used(ss: Seq<(VramProcessSample, WindowConfig, bool)>) -> u64
    decreases ss.len(),
{
    if ss.len() <= 1 {
        ss[0].0.used_bytes
    } else {
        let m = run_max_used(ss.drop_last());
        if m >= ss.last().0.used_bytes { m } else { ss.last().0.used_bytes }
    }
}

/// The VRAM gauge over a run: after pushes (with history or not) into a
/// series whose gauge is empty (new, cleared or reset), the gauge holds the
/// last sample and the smallest and largest values of the whole run.
pub proof fn law_vram_gauge_over_run(v: VramView, ss: Seq<(VramProcessSample, WindowConfig, bool)>)
    requires
        v.gauge_min is None,
        v.gauge_max is None,
        ss.len() > 0,
    ensures
        vram_pushed_all(v, ss).last_raw == Some(ss.last().0),
        vram_pushed_all(v, ss).gauge_min == Some(run_min_used(ss)),
        vram_pushed_all(v, ss).gauge_max == Some(run_max_used(ss)),
    decreases ss.len(),
{
    let q = ss.drop_last();
    let l = ss.last();
    assert(vram_pushed_all(v, ss) == vram_pushed_all(v, q).pushed(l.0, l.1, l.2));
    if ss.len() > 1 {
        law_vram_gauge_over_run(v, q);
    } else {
        assert(q.len() == 0);
        assert(vram_pushed_all(v, q) == v);
        assert(l == ss[0]);
    }
}

/// The effective bucket is never narrower than the sampling interval, and a
/// window never spans more than `max_points()` buckets: for every
/// selectable configuration `window_ms / bucket_ms <= 1200`.
pub proof fn law_bucket_width(cfg: WindowConfig)
    requires
        is_valid_window(cfg.window_secs),
        is_valid_interval(cfg.interval_ms),
    ensures
        cfg.spec_bucket_ms() >= cfg.interval_ms,
        cfg.window_ms() / cfg.spec_bucket_ms() <= max_points(),
{
    let w = cfg.window_ms();
    let b = cfg.spec_bucket_ms();
    let m = w / 1200;
    assert(w == 1200 * m);
    assert(b >= m);
    assert(w / b <= 1200) by (nonlinear_arith)
        requires
            b > 0,
            w == 1200 * m,
            b >= m;
}

} // verus!
