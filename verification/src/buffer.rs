//! Per-process sample history with time-based eviction and a point cap.
//!
//! Each series keeps one point per bucket of `bucket_ms` milliseconds: the
//! memory value is the largest one seen in the bucket, stamped with the time
//! of the sample that carried it, and the CPU value is the last one seen,
//! with its own time. Buckets older than the window, counted back from the
//! newest sample, are dropped, and a series never holds more than
//! `MAX_POINTS` points: at most `MAX_POINTS - 1` closed buckets are kept,
//! which leaves room for the open one.

use vstd::prelude::*;
use std::collections::{HashMap, VecDeque};
use crate::maps::map_keys;
use crate::model::{Sample, VramProcessSample, WindowConfig};

verus! {

broadcast use {vstd::std_specs::vecdeque::group_vec_dequeue_axioms, vstd::std_specs::hash::group_hash_axioms};

/// The largest number of points a series holds, the open bucket included.
pub open spec fn max_points() -> int {
    1200
}

/// The largest number of closed buckets a series keeps: one place is left
/// for the open bucket.
pub open spec fn max_closed() -> int {
    max_points() - 1
}

/// A closed RAM/CPU bucket: `(rss_ts_ms, rss_bytes, cpu_ts_ms, cpu_pct)`.
pub type RamPoint<C> = (u64, u64, u64, C);

/// A closed VRAM bucket: `(ts_ms, used_bytes)`.
pub type VramPoint = (u64, u64);

/// Start of the bucket that holds time `ts`.
pub open spec fn bucket_start(ts: u64, bucket_ms: int) -> int {
    (ts as int / bucket_ms) * bucket_ms
}

/// Oldest time kept after a sample at `ts`: `ts - window_ms`, saturating at 0.
pub open spec fn cutoff(ts: u64, window_ms: int) -> int {
    if ts >= window_ms {
        ts - window_ms
    } else {
        0
    }
}

/// Keeps the last `max_closed()` elements.
pub open spec fn cap_points<T>(h: Seq<T>) -> Seq<T> {
    if h.len() > max_closed() {
        h.subrange(h.len() - max_closed(), h.len() as int)
    } else {
        h
    }
}

/// Drops leading RAM buckets whose memory timestamp is before `cut`.
pub open spec fn drop_stale_ram<C>(h: Seq<RamPoint<C>>, cut: int) -> Seq<RamPoint<C>>
    decreases h.len(),
{
    if h.len() > 0 && (h[0].0 as int) < cut {
        drop_stale_ram(h.drop_first(), cut)
    } else {
        h
    }
}

/// Drops leading VRAM buckets whose timestamp is before `cut`.
pub open spec fn drop_stale_vram(h: Seq<VramPoint>, cut: int) -> Seq<VramPoint>
    decreases h.len(),
{
    if h.len() > 0 && (h[0].0 as int) < cut {
        drop_stale_vram(h.drop_first(), cut)
    } else {
        h
    }
}

pub open spec fn gauge_low(old_min: Option<u64>, x: u64) -> u64 {
    match old_min {
        Some(m) => if m <= x { m } else { x },
        None => x,
    }
}

pub open spec fn gauge_high(old_max: Option<u64>, x: u64) -> u64 {
    match old_max {
        Some(m) => if m >= x { m } else { x },
        None => x,
    }
}

/// The bucket still being filled: its start, the sample with the largest
/// memory value so far, and the last sample.
pub struct OpenBucket<C> {
    pub start: u64,
    pub max: Sample<C>,
    pub last: Sample<C>,
}

/// What a RAM series holds.
#[verifier::ext_equal]
pub struct RingView<C> {
    pub history: Seq<RamPoint<C>>,
    pub open: Option<OpenBucket<C>>,
    pub last_raw: Option<Sample<C>>,
    pub gauge_min: Option<u64>,
    pub gauge_max: Option<u64>,
}

impl<C> RingView<C> {
    pub open spec fn empty() -> Self {
        RingView { history: Seq::empty(), open: None, last_raw: None, gauge_min: None, gauge_max: None }
    }

    /// The history cap holds, and the gauge brackets the last reading.
    pub open spec fn inv(self) -> bool {
        &&& self.history.len() <= max_closed()
        &&& self.gauge_min is Some <==> self.gauge_max is Some
        &&& self.gauge_min is Some ==> self.last_raw is Some
        &&& self.gauge_min matches Some(lo) ==> lo <= self.gauge_max->0
        &&& self.gauge_min matches Some(lo) ==> lo <= self.last_raw->0.rss_bytes
        &&& self.gauge_max matches Some(hi) ==> self.last_raw->0.rss_bytes <= hi
    }

    /// The plotted points: the closed buckets, then the open one.
    pub open spec fn points(self) -> Seq<RamPoint<C>> {
        match self.open {
            Some(o) => self.history.push((o.max.ts_ms, o.max.rss_bytes, o.last.ts_ms, o.last.cpu_pct)),
            None => self.history,
        }
    }

    /// The series after one more sample.
    pub open spec fn pushed(self, s: Sample<C>, cfg: WindowConfig, track: bool) -> Self {
        let gauged = RingView {
            last_raw: Some(s),
            gauge_min: Some(gauge_low(self.gauge_min, s.rss_bytes)),
            gauge_max: Some(gauge_high(self.gauge_max, s.rss_bytes)),
            ..self
        };
        if !track {
            gauged
        } else {
            let b = bucket_start(s.ts_ms, cfg.spec_bucket_ms()) as u64;
            let fresh = OpenBucket { start: b, max: s, last: s };
            let (h1, open1) = match self.open {
                Some(o) => if o.start == b {
                    (
                        self.history,
                        OpenBucket {
                            start: b,
                            max: if s.rss_bytes > o.max.rss_bytes { s } else { o.max },
                            last: s,
                        },
                    )
                } else {
                    (
                        self.history.push(
                            (o.max.ts_ms, o.max.rss_bytes, o.last.ts_ms, o.last.cpu_pct),
                        ),
                        fresh,
                    )
                },
                None => (self.history, fresh),
            };
            RingView {
                history: cap_points(drop_stale_ram(h1, cutoff(s.ts_ms, cfg.window_ms()))),
                open: Some(open1),
                ..gauged
            }
        }
    }
}

/// First-largest memory point of `pts`, scanning in order.
pub open spec fn peak_ram<C>(pts: Seq<RamPoint<C>>) -> Option<(u64, u64)>
    decreases pts.len(),
{
    if pts.len() == 0 {
        None
    } else {
        let l = pts.last();
        match peak_ram(pts.drop_last()) {
            Some((t, r)) => if l.1 > r { Some((l.0, l.1)) } else { Some((t, r)) },
            None => Some((l.0, l.1)),
        }
    }
}

/// Latest point, if any.
pub open spec fn last_point<T>(pts: Seq<T>) -> Option<T> {
    if pts.len() == 0 {
        None
    } else {
        Some(pts.last())
    }
}

proof fn lemma_drop_stale_ram_step<C>(h: Seq<RamPoint<C>>, cut: int)
    requires
        h.len() > 0,
        (h[0].0 as int) < cut,
    ensures
        drop_stale_ram(h, cut) == drop_stale_ram(h.drop_first(), cut),
{
}

proof fn lemma_drop_stale_ram_len<C>(h: Seq<RamPoint<C>>, cut: int)
    ensures
        drop_stale_ram(h, cut).len() <= h.len(),
    decreases h.len(),
{
    if h.len() > 0 && (h[0].0 as int) < cut {
        lemma_drop_stale_ram_len(h.drop_first(), cut);
    }
}

/// Drops stale leading buckets, then the oldest ones beyond the cap.
fn evict_ram<C>(dq: &mut VecDeque<RamPoint<C>>, cut: u64)
    requires
        old(dq)@.len() <= max_points(),
    ensures
        final(dq)@ == cap_points(drop_stale_ram(old(dq)@, cut as int)),
        final(dq)@.len() <= max_closed(),
{
    let ghost h1 = dq@;
    while dq.len() > 0 && dq[0].0 < cut
        invariant
            drop_stale_ram(dq@, cut as int) == drop_stale_ram(h1, cut as int),
            dq@.len() <= max_points(),
        decreases dq@.len(),
    {
        proof {
            lemma_drop_stale_ram_step(dq@, cut as int);
        }
        let ghost prev = dq@;
        dq.pop_front();
        assert(dq@ =~= prev.drop_first());
    }
    let ghost h2 = dq@;
    while dq.len() > WindowConfig::MAX_POINTS - 1
        invariant
            cap_points(dq@) == cap_points(h2),
            dq@.len() <= max_points(),
        decreases dq@.len(),
    {
        dq.pop_front();
    }
}

/// RAM/CPU history of one process.
#[derive(Debug)]
pub struct RingSeries<C> {
    downsampled: VecDeque<RamPoint<C>>,
    current_bucket_start: Option<u64>,
    current_bucket_max_rss: Option<Sample<C>>,
    current_bucket_last_cpu: Option<Sample<C>>,
    last_raw_sample: Option<Sample<C>>,
    gauge_min_rss: Option<u64>,
    gauge_max_rss: Option<u64>,
}

impl<C> View for RingSeries<C> {
    type V = RingView<C>;

    closed spec fn view(&self) -> RingView<C> {
        RingView {
            history: self.downsampled@,
            open: match (self.current_bucket_start, self.current_bucket_max_rss, self.current_bucket_last_cpu) {
                (Some(start), Some(max), Some(last)) => Some(OpenBucket { start, max, last }),
                _ => None,
            },
            last_raw: self.last_raw_sample,
            gauge_min: self.gauge_min_rss,
            gauge_max: self.gauge_max_rss,
        }
    }
}

impl<C: Copy> RingSeries<C> {
    /// The open-bucket fields are set together, and the view invariant holds.
    pub closed spec fn wf(&self) -> bool {
        &&& self.current_bucket_start is Some <==> self.current_bucket_max_rss is Some
        &&& self.current_bucket_start is Some <==> self.current_bucket_last_cpu is Some
        &&& self@.inv()
    }

    /// A well-formed series has a view that keeps the view invariant.
    pub proof fn lemma_view_inv(&self)
        requires
            self.wf(),
        ensures
            self@.inv(),
    {
    }

    pub fn new() -> (r: Self)
        ensures
            r.wf(),
            r@ == RingView::<C>::empty(),
    {
        RingSeries {
            downsampled: VecDeque::new(),
            current_bucket_start: None,
            current_bucket_max_rss: None,
            current_bucket_last_cpu: None,
            last_raw_sample: None,
            gauge_min_rss: None,
            gauge_max_rss: None,
        }
    }

    /// Records a sample. The last reading and the gauge are always updated;
    /// the bucketed history only when `track_history` is set.
    pub fn push(&mut self, sample: Sample<C>, config: &WindowConfig, track_history: bool)
        requires
            old(self).wf(),
            track_history ==> config.wf(),
        ensures
            final(self).wf(),
            final(self)@ == old(self)@.pushed(sample, *config, track_history),
    {
        let ghost v0 = self@;
        self.last_raw_sample = Some(sample);
        let lo = match self.gauge_min_rss {
            Some(m) => if m <= sample.rss_bytes { m } else { sample.rss_bytes },
            None => sample.rss_bytes,
        };
        let hi = match self.gauge_max_rss {
            Some(m) => if m >= sample.rss_bytes { m } else { sample.rss_bytes },
            None => sample.rss_bytes,
        };
        self.gauge_min_rss = Some(lo);
        self.gauge_max_rss = Some(hi);

        if !track_history {
            return;
        }

        let bucket_ms = config.bucket_ms() as u64;
        let window_ms = config.window_secs as u64 * 1000;
        assert((sample.ts_ms / bucket_ms) * bucket_ms <= sample.ts_ms) by (nonlinear_arith)
            requires bucket_ms > 0;
        let bucket_start = (sample.ts_ms / bucket_ms) * bucket_ms;

        match self.current_bucket_start {
            Some(start) if start == bucket_start => {
                match self.current_bucket_max_rss {
                    Some(max) => {
                        if sample.rss_bytes > max.rss_bytes {
                            self.current_bucket_max_rss = Some(sample);
                        }
                    },
                    None => {
                        self.current_bucket_max_rss = Some(sample);
                    },
                }
                self.current_bucket_last_cpu = Some(sample);
            },
            Some(_) => {
                self.flush_bucket();
                self.current_bucket_start = Some(bucket_start);
                self.current_bucket_max_rss = Some(sample);
                self.current_bucket_last_cpu = Some(sample);
            },
            None => {
                self.current_bucket_start = Some(bucket_start);
                self.current_bucket_max_rss = Some(sample);
                self.current_bucket_last_cpu = Some(sample);
            },
        }

        let cut = sample.ts_ms.saturating_sub(window_ms);
        evict_ram(&mut self.downsampled, cut);
        proof {
            let v1 = self@;
            assert(v1.history == v0.pushed(sample, *config, track_history).history);
            assert(v1 =~= v0.pushed(sample, *config, track_history));
        }
    }

    /// Last memory reading with the smallest and largest seen since the
    /// gauge was last reset.
    pub fn gauge(&self) -> (r: Option<(u64, u64, u64)>)
        requires
            self.wf(),
        ensures
            r == (match (self@.last_raw, self@.gauge_min, self@.gauge_max) {
                (Some(s), Some(lo), Some(hi)) => Some((s.rss_bytes, lo, hi)),
                _ => None::<(u64, u64, u64)>,
            }),
            r matches Some((cur, lo, hi)) ==> lo <= cur <= hi,
            r is None <==> self@.gauge_min is None,
            r is None <==> self@.gauge_max is None,
    {
        match (self.last_raw_sample, self.gauge_min_rss, self.gauge_max_rss) {
            (Some(s), Some(lo), Some(hi)) => Some((s.rss_bytes, lo, hi)),
            _ => None,
        }
    }

    /// Forgets the gauge's extremes; the next sample starts them afresh.
    pub fn reset_gauge(&mut self)
        requires
            old(self).wf(),
        ensures
            final(self).wf(),
            final(self)@ == (RingView { gauge_min: None, gauge_max: None, ..old(self)@ }),
    {
        self.gauge_min_rss = None;
        self.gauge_max_rss = None;
        assert(self@ =~= (RingView { gauge_min: None, gauge_max: None, ..old(self)@ }));
    }

    /// The closed buckets followed by the open one.
    pub fn get_points(&self) -> (r: Vec<RamPoint<C>>)
        requires
            self.wf(),
        ensures
            r@ == self@.points(),
            r@.len() <= max_points(),
    {
        let mut points: Vec<RamPoint<C>> = Vec::new();
        let n = self.downsampled.len();
        let mut i: usize = 0;
        while i < n
            invariant
                n == self.downsampled@.len(),
                i <= n,
                points@ == self.downsampled@.subrange(0, i as int),
            decreases n - i,
        {
            points.push(self.downsampled[i]);
            i = i + 1;
            assert(points@ =~= self.downsampled@.subrange(0, i as int));
        }
        assert(points@ =~= self.downsampled@);
        if let (Some(max), Some(cpu)) = (self.current_bucket_max_rss, self.current_bucket_last_cpu) {
            points.push((max.ts_ms, max.rss_bytes, cpu.ts_ms, cpu.cpu_pct));
        }
        points
    }

    /// First point with the largest memory value in the window.
    pub fn peak_rss(&self) -> (r: Option<(u64, u64)>)
        requires
            self.wf(),
        ensures
            r == peak_ram(self@.points()),
    {
        let mut max: Option<(u64, u64)> = None;
        let n = self.downsampled.len();
        let mut i: usize = 0;
        while i < n
            invariant
                n == self.downsampled@.len(),
                i <= n,
                max == peak_ram(self.downsampled@.subrange(0, i as int)),
            decreases n - i,
        {
            let b = self.downsampled[i];
            match max {
                Some((_, rss)) => {
                    if b.1 > rss {
                        max = Some((b.0, b.1));
                    }
                },
                None => {
                    max = Some((b.0, b.1));
                },
            }
            proof {
                let pre = self.downsampled@.subrange(0, i as int);
                let nxt = self.downsampled@.subrange(0, i + 1);
                assert(nxt.drop_last() =~= pre);
                assert(nxt.last() == b);
            }
            i = i + 1;
        }
        assert(self.downsampled@.subrange(0, n as int) =~= self.downsampled@);
        if let Some(s) = self.current_bucket_max_rss {
            proof {
                let pts = self@.points();
                assert(pts.drop_last() =~= self.downsampled@);
            }
            match max {
                Some((_, rss)) => {
                    if s.rss_bytes > rss {
                        max = Some((s.ts_ms, s.rss_bytes));
                    }
                },
                None => {
                    max = Some((s.ts_ms, s.rss_bytes));
                },
            }
        }
        max
    }

    /// The last raw sample, as read (not bucketed).
    pub fn latest_raw(&self) -> (r: Option<&Sample<C>>)
        requires
            self.wf(),
        ensures
            match r {
                Some(s) => self@.last_raw == Some(*s),
                None => self@.last_raw is None,
            },
    {
        self.last_raw_sample.as_ref()
    }

    /// The newest bucketed point: the open bucket if there is one.
    pub fn latest_downsampled(&self) -> (r: Option<RamPoint<C>>)
        requires
            self.wf(),
        ensures
            r == last_point(self@.points()),
    {
        if let (Some(max), Some(cpu)) = (self.current_bucket_max_rss, self.current_bucket_last_cpu) {
            return Some((max.ts_ms, max.rss_bytes, cpu.ts_ms, cpu.cpu_pct));
        }
        let n = self.downsampled.len();
        if n > 0 {
            Some(self.downsampled[n - 1])
        } else {
            None
        }
    }

    /// Number of points: closed buckets plus the open one.
    pub fn count(&self) -> (r: usize)
        requires
            self.wf(),
        ensures
            r == self@.points().len(),
            r <= max_points(),
    {
        self.downsampled.len() + if self.current_bucket_max_rss.is_some() {
            1
        } else {
            0
        }
    }

    /// Empties the series: history, open bucket, last reading and gauge.
    pub fn clear(&mut self)
        requires
            old(self).wf(),
        ensures
            final(self).wf(),
            final(self)@ == RingView::<C>::empty(),
    {
        self.downsampled.clear();
        self.current_bucket_start = None;
        self.current_bucket_max_rss = None;
        self.current_bucket_last_cpu = None;
        self.reset_gauge();
        self.last_raw_sample = None;
        assert(self@ =~= RingView::<C>::empty());
    }

    /// Closes the open bucket into the history; the start is left as is.
    fn flush_bucket(&mut self)
        ensures
            final(self).downsampled@ == (match (old(self).current_bucket_max_rss, old(self).current_bucket_last_cpu) {
                (Some(m), Some(c)) => old(self).downsampled@.push((m.ts_ms, m.rss_bytes, c.ts_ms, c.cpu_pct)),
                _ => old(self).downsampled@,
            }),
            final(self).current_bucket_max_rss is None,
            final(self).current_bucket_last_cpu is None,
            final(self).current_bucket_start == old(self).current_bucket_start,
            final(self).last_raw_sample == old(self).last_raw_sample,
            final(self).gauge_min_rss == old(self).gauge_min_rss,
            final(self).gauge_max_rss == old(self).gauge_max_rss,
    {
        let m = self.current_bucket_max_rss.take();
        let c = self.current_bucket_last_cpu.take();
        if let (Some(max_sample), Some(cpu_sample)) = (m, c) {
            self.downsampled.push_back(
                (max_sample.ts_ms, max_sample.rss_bytes, cpu_sample.ts_ms, cpu_sample.cpu_pct),
            );
        }
    }
}


impl<C: Copy> Default for RingSeries<C> {
    fn default() -> (r: Self)
        ensures
            r.wf(),
            r@ == RingView::<C>::empty(),
    {
        Self::new()
    }
}

/// The VRAM bucket still being filled: its start and its largest sample.
pub struct VramOpenBucket {
    pub start: u64,
    pub max: VramProcessSample,
}

/// What a VRAM series holds.
#[verifier::ext_equal]
pub struct VramView {
    pub history: Seq<VramPoint>,
    pub open: Option<VramOpenBucket>,
    pub last_raw: Option<VramProcessSample>,
    pub gauge_min: Option<u64>,
    pub gauge_max: Option<u64>,
}

impl VramView {
    pub open spec fn empty() -> Self {
        VramView { history: Seq::empty(), open: None, last_raw: None, gauge_min: None, gauge_max: None }
    }

    /// The history cap holds, and the gauge brackets the last reading.
    pub open spec fn inv(self) -> bool {
        &&& self.history.len() <= max_closed()
        &&& self.gauge_min is Some <==> self.gauge_max is Some
        &&& self.gauge_min is Some ==> self.last_raw is Some
        &&& self.gauge_min matches Some(lo) ==> lo <= self.gauge_max->0
        &&& self.gauge_min matches Some(lo) ==> lo <= self.last_raw->0.used_bytes
        &&& self.gauge_max matches Some(hi) ==> self.last_raw->0.used_bytes <= hi
    }

    /// The plotted points: the closed buckets, then the open one.
    pub open spec fn points(self) -> Seq<VramPoint> {
        match self.open {
            Some(o) => self.history.push((o.max.ts_ms, o.max.used_bytes)),
            None => self.history,
        }
    }

    /// The series after one more sample.
    pub open spec fn pushed(self, s: VramProcessSample, cfg: WindowConfig, track: bool) -> Self {
        let gauged = VramView {
            last_raw: Some(s),
            gauge_min: Some(gauge_low(self.gauge_min, s.used_bytes)),
            gauge_max: Some(gauge_high(self.gauge_max, s.used_bytes)),
            ..self
        };
        if !track {
            gauged
        } else {
            let b = bucket_start(s.ts_ms, cfg.spec_bucket_ms()) as u64;
            let fresh = VramOpenBucket { start: b, max: s };
            let (h1, open1) = match self.open {
                Some(o) => if o.start == b {
                    (
                        self.history,
                        VramOpenBucket {
                            start: b,
                            max: if s.used_bytes > o.max.used_bytes { s } else { o.max },
                        },
                    )
                } else {
                    (self.history.push((o.max.ts_ms, o.max.used_bytes)), fresh)
                },
                None => (self.history, fresh),
            };
            VramView {
                history: cap_points(drop_stale_vram(h1, cutoff(s.ts_ms, cfg.window_ms()))),
                open: Some(open1),
                ..gauged
            }
        }
    }
}

/// First-largest point of `pts`, scanning in order.
pub open spec fn peak_vram(pts: Seq<VramPoint>) -> Option<(u64, u64)>
    decreases pts.len(),
{
    if pts.len() == 0 {
        None
    } else {
        let l = pts.last();
        match peak_vram(pts.drop_last()) {
            Some((t, r)) => if l.1 > r { Some((l.0, l.1)) } else { Some((t, r)) },
            None => Some((l.0, l.1)),
        }
    }
}

proof fn lemma_drop_stale_vram_step(h: Seq<VramPoint>, cut: int)
    requires
        h.len() > 0,
        (h[0].0 as int) < cut,
    ensures
        drop_stale_vram(h, cut) == drop_stale_vram(h.drop_first(), cut),
{
}

/// Drops stale leading buckets, then the oldest ones beyond the cap.
fn evict_vram(dq: &mut VecDeque<VramPoint>, cut: u64)
    requires
        old(dq)@.len() <= max_points(),
    ensures
        final(dq)@ == cap_points(drop_stale_vram(old(dq)@, cut as int)),
        final(dq)@.len() <= max_closed(),
{
    let ghost h1 = dq@;
    while dq.len() > 0 && dq[0].0 < cut
        invariant
            drop_stale_vram(dq@, cut as int) == drop_stale_vram(h1, cut as int),
            dq@.len() <= max_points(),
        decreases dq@.len(),
    {
        proof {
            lemma_drop_stale_vram_step(dq@, cut as int);
        }
        let ghost prev = dq@;
        dq.pop_front();
        assert(dq@ =~= prev.drop_first());
    }
    let ghost h2 = dq@;
    while dq.len() > WindowConfig::MAX_POINTS - 1
        invariant
            cap_points(dq@) == cap_points(h2),
            dq@.len() <= max_points(),
        decreases dq@.len(),
    {
        dq.pop_front();
    }
}

/// Per-process VRAM history.
#[derive(Debug)]
pub struct VramRingSeries {
    downsampled: VecDeque<VramPoint>,
    current_bucket_start: Option<u64>,
    current_bucket_max: Option<VramProcessSample>,
    last_raw_sample: Option<VramProcessSample>,
    gauge_min: Option<u64>,
    gauge_max: Option<u64>,
}

impl View for VramRingSeries {
    type V = VramView;

    closed spec fn view(&self) -> VramView {
        VramView {
            history: self.downsampled@,
            open: match (self.current_bucket_start, self.current_bucket_max) {
                (Some(start), Some(max)) => Some(VramOpenBucket { start, max }),
                _ => None,
            },
            last_raw: self.last_raw_sample,
            gauge_min: self.gauge_min,
            gauge_max: self.gauge_max,
        }
    }
}

impl VramRingSeries {
    /// The open-bucket fields are set together, and the view invariant holds.
    pub closed spec fn wf(&self) -> bool {
        &&& self.current_bucket_start is Some <==> self.current_bucket_max is Some
        &&& self@.inv()
    }

    /// A well-formed series has a view that keeps the view invariant.
    pub proof fn lemma_view_inv(&self)
        requires
            self.wf(),
        ensures
            self@.inv(),
    {
    }

    pub fn new() -> (r: Self)
        ensures
            r.wf(),
            r@ == VramView::empty(),
    {
        VramRingSeries {
            downsampled: VecDeque::new(),
            current_bucket_start: None,
            current_bucket_max: None,
            last_raw_sample: None,
            gauge_min: None,
            gauge_max: None,
        }
    }

    /// Records a sample. The last reading and the gauge are always updated;
    /// the bucketed history only when `track_history` is set.
    pub fn push(&mut self, sample: VramProcessSample, config: &WindowConfig, track_history: bool)
        requires
            old(self).wf(),
            track_history ==> config.wf(),
        ensures
            final(self).wf(),
            final(self)@ == old(self)@.pushed(sample, *config, track_history),
    {
        let ghost v0 = self@;
        self.last_raw_sample = Some(sample);
        let lo = match self.gauge_min {
            Some(m) => if m <= sample.used_bytes { m } else { sample.used_bytes },
            None => sample.used_bytes,
        };
        let hi = match self.gauge_max {
            Some(m) => if m >= sample.used_bytes { m } else { sample.used_bytes },
            None => sample.used_bytes,
        };
        self.gauge_min = Some(lo);
        self.gauge_max = Some(hi);

        if !track_history {
            return;
        }

        let bucket_ms = config.bucket_ms() as u64;
        let window_ms = config.window_secs as u64 * 1000;
        assert((sample.ts_ms / bucket_ms) * bucket_ms <= sample.ts_ms) by (nonlinear_arith)
            requires bucket_ms > 0;
        let bucket_start = (sample.ts_ms / bucket_ms) * bucket_ms;

        match self.current_bucket_start {
            Some(start) if start == bucket_start => {
                match self.current_bucket_max {
                    Some(max) => {
                        if sample.used_bytes > max.used_bytes {
                            self.current_bucket_max = Some(sample);
                        }
                    },
                    None => {
                        self.current_bucket_max = Some(sample);
                    },
                }
            },
            Some(_) => {
                self.flush_bucket();
                self.current_bucket_start = Some(bucket_start);
                self.current_bucket_max = Some(sample);
            },
            None => {
                self.current_bucket_start = Some(bucket_start);
                self.current_bucket_max = Some(sample);
            },
        }

        let cut = sample.ts_ms.saturating_sub(window_ms);
        evict_vram(&mut self.downsampled, cut);
        proof {
            let v1 = self@;
            assert(v1.history == v0.pushed(sample, *config, track_history).history);
            assert(v1 =~= v0.pushed(sample, *config, track_history));
        }
    }

    /// Closes the open bucket into the history; the start is left as is.
    fn flush_bucket(&mut self)
        ensures
            final(self).downsampled@ == (match old(self).current_bucket_max {
                Some(m) => old(self).downsampled@.push((m.ts_ms, m.used_bytes)),
                None => old(self).downsampled@,
            }),
            final(self).current_bucket_max is None,
            final(self).current_bucket_start == old(self).current_bucket_start,
            final(self).last_raw_sample == old(self).last_raw_sample,
            final(self).gauge_min == old(self).gauge_min,
            final(self).gauge_max == old(self).gauge_max,
    {
        if let Some(max_sample) = self.current_bucket_max.take() {
            self.downsampled.push_back((max_sample.ts_ms, max_sample.used_bytes));
        }
    }

    /// The closed buckets followed by the open one.
    pub fn get_points(&self) -> (r: Vec<VramPoint>)
        requires
            self.wf(),
        ensures
            r@ == self@.points(),
            r@.len() <= max_points(),
    {
        let mut points: Vec<VramPoint> = Vec::new();
        let n = self.downsampled.len();
        let mut i: usize = 0;
        while i < n
            invariant
                n == self.downsampled@.len(),
                i <= n,
                points@ == self.downsampled@.subrange(0, i as int),
            decreases n - i,
        {
            points.push(self.downsampled[i]);
            i = i + 1;
            assert(points@ =~= self.downsampled@.subrange(0, i as int));
        }
        assert(points@ =~= self.downsampled@);
        if let Some(max) = self.current_bucket_max {
            points.push((max.ts_ms, max.used_bytes));
        }
        points
    }

    /// First point with the largest value in the window.
    pub fn peak(&self) -> (r: Option<(u64, u64)>)
        requires
            self.wf(),
        ensures
            r == peak_vram(self@.points()),
    {
        let mut max: Option<(u64, u64)> = None;
        let n = self.downsampled.len();
        let mut i: usize = 0;
        while i < n
            invariant
                n == self.downsampled@.len(),
                i <= n,
                max == peak_vram(self.downsampled@.subrange(0, i as int)),
            decreases n - i,
        {
            let b = self.downsampled[i];
            match max {
                Some((_, used)) => {
                    if b.1 > used {
                        max = Some((b.0, b.1));
                    }
                },
                None => {
                    max = Some((b.0, b.1));
                },
            }
            proof {
                let pre = self.downsampled@.subrange(0, i as int);
                let nxt = self.downsampled@.subrange(0, i + 1);
                assert(nxt.drop_last() =~= pre);
                assert(nxt.last() == b);
            }
            i = i + 1;
        }
        assert(self.downsampled@.subrange(0, n as int) =~= self.downsampled@);
        if let Some(s) = self.current_bucket_max {
            proof {
                let pts = self@.points();
                assert(pts.drop_last() =~= self.downsampled@);
            }
            match max {
                Some((_, used)) => {
                    if s.used_bytes > used {
                        max = Some((s.ts_ms, s.used_bytes));
                    }
                },
                None => {
                    max = Some((s.ts_ms, s.used_bytes));
                },
            }
        }
        max
    }

    /// The last raw sample, as read (not bucketed).
    pub fn latest_raw(&self) -> (r: Option<&VramProcessSample>)
        requires
            self.wf(),
        ensures
            match r {
                Some(s) => self@.last_raw == Some(*s),
                None => self@.last_raw is None,
            },
    {
        self.last_raw_sample.as_ref()
    }

    /// The newest bucketed point: the open bucket if there is one.
    pub fn latest_downsampled(&self) -> (r: Option<VramPoint>)
        requires
            self.wf(),
        ensures
            r == last_point(self@.points()),
    {
        if let Some(max) = self.current_bucket_max {
            return Some((max.ts_ms, max.used_bytes));
        }
        let n = self.downsampled.len();
        if n > 0 {
            Some(self.downsampled[n - 1])
        } else {
            None
        }
    }

    /// Number of points: closed buckets plus the open one.
    pub fn count(&self) -> (r: usize)
        requires
            self.wf(),
        ensures
            r == self@.points().len(),
            r <= max_points(),
    {
        self.downsampled.len() + if self.current_bucket_max.is_some() {
            1
        } else {
            0
        }
    }

    /// Last value with the smallest and largest seen since the gauge was
    /// last reset.
    pub fn gauge(&self) -> (r: Option<(u64, u64, u64)>)
        requires
            self.wf(),
        ensures
            r == (match (self@.last_raw, self@.gauge_min, self@.gauge_max) {
                (Some(s), Some(lo), Some(hi)) => Some((s.used_bytes, lo, hi)),
                _ => None::<(u64, u64, u64)>,
            }),
            r matches Some((cur, lo, hi)) ==> lo <= cur <= hi,
            r is None <==> self@.gauge_min is None,
            r is None <==> self@.gauge_max is None,
    {
        match (self.last_raw_sample, self.gauge_min, self.gauge_max) {
            (Some(s), Some(lo), Some(hi)) => Some((s.used_bytes, lo, hi)),
            _ => None,
        }
    }

    /// Forgets the gauge's extremes; the next sample starts them afresh.
    pub fn reset_gauge(&mut self)
        requires
            old(self).wf(),
        ensures
            final(self).wf(),
            final(self)@ == (VramView { gauge_min: None, gauge_max: None, ..old(self)@ }),
    {
        self.gauge_min = None;
        self.gauge_max = None;
        assert(self@ =~= (VramView { gauge_min: None, gauge_max: None, ..old(self)@ }));
    }

    /// Empties the series: history, open bucket, last reading and gauge.
    pub fn clear(&mut self)
        requires
            old(self).wf(),
        ensures
            final(self).wf(),
            final(self)@ == VramView::empty(),
    {
        self.downsampled.clear();
        self.current_bucket_start = None;
        self.current_bucket_max = None;
        self.reset_gauge();
        self.last_raw_sample = None;
        assert(self@ =~= VramView::empty());
    }
}

impl Default for VramRingSeries {
    fn default() -> (r: Self)
        ensures
            r.wf(),
            r@ == VramView::empty(),
    {
        Self::new()
    }
}


/// All series, keyed by PID, with the configuration they are pushed under.
#[derive(Debug)]
pub struct BufferManager<C> {
    ram_series: HashMap<u32, RingSeries<C>>,
    vram_series: HashMap<u32, VramRingSeries>,
    config: WindowConfig,
}

impl<C: Copy> BufferManager<C> {
    /// Every stored series is well formed.
    pub closed spec fn wf(&self) -> bool {
        &&& forall|pid: u32| #[trigger] self.ram_series@.contains_key(pid) ==> self.ram_series@[pid].wf()
        &&& forall|pid: u32| #[trigger] self.vram_series@.contains_key(pid) ==> self.vram_series@[pid].wf()
    }

    /// The RAM series by PID, as views.
    pub closed spec fn ram(&self) -> Map<u32, RingView<C>> {
        self.ram_series@.map_values(|s: RingSeries<C>| s@)
    }

    /// The VRAM series by PID, as views.
    pub closed spec fn vram(&self) -> Map<u32, VramView> {
        self.vram_series@.map_values(|s: VramRingSeries| s@)
    }

    pub closed spec fn spec_config(&self) -> WindowConfig {
        self.config
    }

    pub fn new(config: WindowConfig) -> (r: Self)
        ensures
            r.wf(),
            r.ram() == Map::<u32, RingView<C>>::empty(),
            r.vram() == Map::<u32, VramView>::empty(),
            r.spec_config() == config,
    {
        let r = BufferManager { ram_series: HashMap::new(), vram_series: HashMap::new(), config };
        assert(r.ram() =~= Map::<u32, RingView<C>>::empty());
        assert(r.vram() =~= Map::<u32, VramView>::empty());
        r
    }

    /// Replaces the configuration; stored points are kept as they are and
    /// later pushes use the new bucket width and window.
    pub fn set_config(&mut self, config: WindowConfig)
        requires
            old(self).wf(),
        ensures
            final(self).wf(),
            final(self).spec_config() == config,
            final(self).ram() == old(self).ram(),
            final(self).vram() == old(self).vram(),
    {
        self.config = config;
    }

    pub fn config(&self) -> (r: &WindowConfig)
        ensures
            *r == self.spec_config(),
    {
        &self.config
    }

    /// Adds a RAM sample to its PID's series, starting one if needed.
    pub fn push_ram(&mut self, sample: Sample<C>, track_history: bool)
        requires
            old(self).wf(),
            track_history ==> old(self).spec_config().wf(),
        ensures
            final(self).wf(),
            final(self).spec_config() == old(self).spec_config(),
            final(self).vram() == old(self).vram(),
            final(self).ram() == old(self).ram().insert(
                sample.pid,
                (if old(self).ram().contains_key(sample.pid) {
                    old(self).ram()[sample.pid]
                } else {
                    RingView::<C>::empty()
                }).pushed(sample, old(self).spec_config(), track_history),
            ),
    {
        let mut series = match self.ram_series.remove(&sample.pid) {
            Some(s) => s,
            None => RingSeries::new(),
        };
        series.push(sample, &self.config, track_history);
        self.ram_series.insert(sample.pid, series);
        proof {
            assert(self.ram() =~= old(self).ram().insert(
                sample.pid,
                (if old(self).ram().contains_key(sample.pid) {
                    old(self).ram()[sample.pid]
                } else {
                    RingView::<C>::empty()
                }).pushed(sample, old(self).spec_config(), track_history),
            ));
            assert(self.vram() =~= old(self).vram());
        }
    }

    /// Adds a VRAM sample to its PID's series, starting one if needed.
    pub fn push_vram(&mut self, sample: VramProcessSample, track_history: bool)
        requires
            old(self).wf(),
            track_history ==> old(self).spec_config().wf(),
        ensures
            final(self).wf(),
            final(self).spec_config() == old(self).spec_config(),
            final(self).ram() == old(self).ram(),
            final(self).vram() == old(self).vram().insert(
                sample.pid,
                (if old(self).vram().contains_key(sample.pid) {
                    old(self).vram()[sample.pid]
                } else {
                    VramView::empty()
                }).pushed(sample, old(self).spec_config(), track_history),
            ),
    {
        let mut series = match self.vram_series.remove(&sample.pid) {
            Some(s) => s,
            None => VramRingSeries::new(),
        };
        series.push(sample, &self.config, track_history);
        self.vram_series.insert(sample.pid, series);
        proof {
            assert(self.vram() =~= old(self).vram().insert(
                sample.pid,
                (if old(self).vram().contains_key(sample.pid) {
                    old(self).vram()[sample.pid]
                } else {
                    VramView::empty()
                }).pushed(sample, old(self).spec_config(), track_history),
            ));
            assert(self.ram() =~= old(self).ram());
        }
    }

    pub fn get_ram_series(&self, pid: u32) -> (r: Option<&RingSeries<C>>)
        requires
            self.wf(),
        ensures
            match r {
                Some(s) => self.ram().contains_key(pid) && s@ == self.ram()[pid] && s.wf(),
                None => !self.ram().contains_key(pid),
            },
    {
        self.ram_series.get(&pid)
    }

    pub fn get_vram_series(&self, pid: u32) -> (r: Option<&VramRingSeries>)
        requires
            self.wf(),
        ensures
            match r {
                Some(s) => self.vram().contains_key(pid) && s@ == self.vram()[pid] && s.wf(),
                None => !self.vram().contains_key(pid),
            },
    {
        self.vram_series.get(&pid)
    }

    pub fn all_ram_series(&self) -> (r: &HashMap<u32, RingSeries<C>>)
        requires
            self.wf(),
        ensures
            r@.map_values(|s: RingSeries<C>| s@) == self.ram(),
            forall|pid: u32| #[trigger] r@.contains_key(pid) ==> r@[pid].wf(),
    {
        &self.ram_series
    }

    pub fn all_vram_series(&self) -> (r: &HashMap<u32, VramRingSeries>)
        requires
            self.wf(),
        ensures
            r@.map_values(|s: VramRingSeries| s@) == self.vram(),
            forall|pid: u32| #[trigger] r@.contains_key(pid) ==> r@[pid].wf(),
    {
        &self.vram_series
    }

    /// Empties every series; the PIDs stay.
    pub fn clear(&mut self)
        requires
            old(self).wf(),
        ensures
            final(self).wf(),
            final(self).spec_config() == old(self).spec_config(),
            final(self).ram().dom() == old(self).ram().dom(),
            final(self).vram().dom() == old(self).vram().dom(),
            forall|pid: u32| #[trigger] final(self).ram().contains_key(pid) ==> final(self).ram()[pid] == RingView::<C>::empty(),
            forall|pid: u32| #[trigger] final(self).vram().contains_key(pid) ==> final(self).vram()[pid] == VramView::empty(),
    {
        let keys = map_keys(&self.ram_series);
        let ghost dom0 = self.ram_series@.dom();
        let n = keys.len();
        for i in 0..n
            invariant
                n == keys@.len(),
                keys@.no_duplicates(),
                keys@.to_set() == dom0,
                self.ram_series@.dom() == dom0,
                forall|pid: u32| #[trigger] self.ram_series@.contains_key(pid) ==> self.ram_series@[pid].wf(),
                forall|j: int| 0 <= j < i ==> self.ram_series@[#[trigger] keys@[j]]@ == RingView::<C>::empty(),
                self.vram_series == old(self).vram_series,
                self.config == old(self).config,
        {
            let k = keys[i];
            assert(keys@.contains(k));
            let mut s = self.ram_series.remove(&k).unwrap();
            s.clear();
            self.ram_series.insert(k, s);
            proof {
                assert(self.ram_series@.dom() =~= dom0);
                assert forall|j: int| 0 <= j < i + 1 implies self.ram_series@[#[trigger] keys@[j]]@ == RingView::<C>::empty() by {
                    if j < i {
                        assert(keys@[j] != k);
                    }
                }
            }
        }
        let vkeys = map_keys(&self.vram_series);
        let ghost vdom0 = self.vram_series@.dom();
        let vn = vkeys.len();
        for i in 0..vn
            invariant
                vn == vkeys@.len(),
                vkeys@.no_duplicates(),
                vkeys@.to_set() == vdom0,
                self.vram_series@.dom() == vdom0,
                forall|pid: u32| #[trigger] self.vram_series@.contains_key(pid) ==> self.vram_series@[pid].wf(),
                forall|j: int| 0 <= j < i ==> self.vram_series@[#[trigger] vkeys@[j]]@ == VramView::empty(),
                self.ram_series@.dom() == dom0,
                forall|pid: u32| #[trigger] self.ram_series@.contains_key(pid) ==> self.ram_series@[pid].wf(),
                forall|j: int| 0 <= j < n ==> self.ram_series@[#[trigger] keys@[j]]@ == RingView::<C>::empty(),
                n == keys@.len(),
                keys@.to_set() == dom0,
                self.config == old(self).config,
        {
            let k = vkeys[i];
            assert(vkeys@.contains(k));
            let mut s = self.vram_series.remove(&k).unwrap();
            s.clear();
            self.vram_series.insert(k, s);
            proof {
                assert(self.vram_series@.dom() =~= vdom0);
                assert forall|j: int| 0 <= j < i + 1 implies self.vram_series@[#[trigger] vkeys@[j]]@ == VramView::empty() by {
                    if j < i {
                        assert(vkeys@[j] != k);
                    }
                }
            }
        }
        proof {
            assert(self.ram().dom() =~= old(self).ram().dom());
            assert(self.vram().dom() =~= old(self).vram().dom());
            assert forall|pid: u32| #[trigger] self.ram().contains_key(pid) implies self.ram()[pid] == RingView::<C>::empty() by {
                assert(keys@.to_set().contains(pid));
                let j = keys@.index_of(pid);
            }
            assert forall|pid: u32| #[trigger] self.vram().contains_key(pid) implies self.vram()[pid] == VramView::empty() by {
                assert(vkeys@.to_set().contains(pid));
                let j = vkeys@.index_of(pid);
            }
        }
    }

    /// Drops both series of `pid`.
    pub fn remove_target(&mut self, pid: u32)
        requires
            old(self).wf(),
        ensures
            final(self).wf(),
            final(self).spec_config() == old(self).spec_config(),
            final(self).ram() == old(self).ram().remove(pid),
            final(self).vram() == old(self).vram().remove(pid),
    {
        self.ram_series.remove(&pid);
        self.vram_series.remove(&pid);
        assert(self.ram() =~= old(self).ram().remove(pid));
        assert(self.vram() =~= old(self).vram().remove(pid));
    }
}

impl<C: Copy> Default for BufferManager<C> {
    fn default() -> (r: Self)
        ensures
            r.wf(),
            r.ram() == Map::<u32, RingView<C>>::empty(),
            r.vram() == Map::<u32, VramView>::empty(),
            r.spec_config() == (WindowConfig { window_secs: 30, interval_ms: 1000 }),
    {
        Self::new(WindowConfig::default())
    }
}

} // verus!
