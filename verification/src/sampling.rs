//! Turning one round of process readings into samples, and sorting watched
//! PIDs by what became of them.

use vstd::prelude::*;
use crate::model::{Sample, Target, VramProcessSample};
use crate::targets::{PidStatus, TargetManager};

verus! {

/// `m` with target `pid`, if watched, no longer alive.
pub open spec fn mark(m: Map<u32, Target>, pid: u32) -> Map<u32, Target> {
    if m.contains_key(pid) {
        m.insert(pid, Target { alive: false, ..m[pid] })
    } else {
        m
    }
}

/// `m` with every watched PID of `pids` no longer alive.
pub open spec fn mark_all(m: Map<u32, Target>, pids: Seq<u32>) -> Map<u32, Target>
    decreases pids.len(),
{
    if pids.len() == 0 {
        m
    } else {
        mark(mark_all(m, pids.drop_last()), pids.last())
    }
}

/// One process of a sampling round: its PID and, unless it is gone, its
/// resident memory, CPU share and GPU memory (when the GPU reports it).
pub type Reading<C> = (u32, Option<(u64, C, Option<u64>)>);

/// The RAM samples of a round, in reading order, all stamped `ts`.
pub open spec fn ram_samples_of<C>(rs: Seq<Reading<C>>, ts: u64) -> Seq<Sample<C>>
    decreases rs.len(),
{
    if rs.len() == 0 {
        Seq::empty()
    } else {
        let prev = ram_samples_of(rs.drop_last(), ts);
        match rs.last().1 {
            Some((rss, cpu, _)) => prev.push(Sample { ts_ms: ts, pid: rs.last().0, rss_bytes: rss, cpu_pct: cpu }),
            None => prev,
        }
    }
}

/// The VRAM samples of a round: one per present process the GPU reports.
pub open spec fn vram_samples_of<C>(rs: Seq<Reading<C>>, ts: u64) -> Seq<VramProcessSample>
    decreases rs.len(),
{
    if rs.len() == 0 {
        Seq::empty()
    } else {
        let prev = vram_samples_of(rs.drop_last(), ts);
        match rs.last().1 {
            Some((_, _, Some(used))) => prev.push(VramProcessSample { ts_ms: ts, pid: rs.last().0, used_bytes: used }),
            _ => prev,
        }
    }
}

/// The PIDs of a round that are gone, in reading order.
pub open spec fn gone_of<C>(rs: Seq<Reading<C>>) -> Seq<u32>
    decreases rs.len(),
{
    if rs.len() == 0 {
        Seq::empty()
    } else {
        let prev = gone_of(rs.drop_last());
        match rs.last().1 {
            Some(_) => prev,
            None => prev.push(rs.last().0),
        }
    }
}

/// The PIDs whose status is `Alive`, in order.
pub open spec fn alive_of(st: Seq<(u32, PidStatus)>) -> Seq<u32>
    decreases st.len(),
{
    if st.len() == 0 {
        Seq::empty()
    } else {
        let prev = alive_of(st.drop_last());
        if st.last().1 == PidStatus::Alive {
            prev.push(st.last().0)
        } else {
            prev
        }
    }
}

/// The PIDs whose status is `Dead` or `Reused`, in order.
pub open spec fn ended_of(st: Seq<(u32, PidStatus)>) -> Seq<u32>
    decreases st.len(),
{
    if st.len() == 0 {
        Seq::empty()
    } else {
        let prev = ended_of(st.drop_last());
        if st.last().1 == PidStatus::Alive {
            prev
        } else {
            prev.push(st.last().0)
        }
    }
}

/// Turns the readings of one round into samples stamped `ts_ms`; targets
/// whose process is gone are marked as no longer alive.
pub fn collect_samples<C: Copy>(targets: &mut TargetManager, ts_ms: u64, readings: &Vec<Reading<C>>) -> (r: (
    Vec<Sample<C>>,
    Vec<VramProcessSample>,
))
    requires
        old(targets).wf(),
    ensures
        final(targets).wf(),
        r.0@ == ram_samples_of(readings@, ts_ms),
        r.1@ == vram_samples_of(readings@, ts_ms),
        final(targets).spec_targets() == mark_all(old(targets).spec_targets(), gone_of(readings@)),
{
    let mut ram: Vec<Sample<C>> = Vec::new();
    let mut vram: Vec<VramProcessSample> = Vec::new();
    let n = readings.len();
    for i in 0..n
        invariant
            n == readings@.len(),
            targets.wf(),
            ram@ == ram_samples_of(readings@.take(i as int), ts_ms),
            vram@ == vram_samples_of(readings@.take(i as int), ts_ms),
            targets.spec_targets() == mark_all(old(targets).spec_targets(), gone_of(readings@.take(i as int))),
    {
        proof {
            let t = readings@.take(i + 1);
            assert(t.drop_last() =~= readings@.take(i as int));
        }
        let (pid, reading) = readings[i];
        match reading {
            Some((rss_bytes, cpu_pct, used)) => {
                ram.push(Sample { ts_ms, pid, rss_bytes, cpu_pct });
                if let Some(used_bytes) = used {
                    vram.push(VramProcessSample { ts_ms, pid, used_bytes });
                }
            },
            None => {
                targets.mark_dead(pid);
                proof {
                    let g = gone_of(readings@.take(i + 1));
                    assert(g == gone_of(readings@.take(i as int)).push(pid));
                    assert(g.drop_last() =~= gone_of(readings@.take(i as int)));
                }
            },
        }
    }
    assert(readings@.take(n as int) =~= readings@);
    (ram, vram)
}

impl TargetManager {
    /// Applies the status each PID was found in: dead and reused targets
    /// are marked as no longer alive. Returns the PIDs still to sample, in
    /// order.
    pub fn triage(&mut self, statuses: &Vec<(u32, PidStatus)>) -> (r: Vec<u32>)
        requires
            old(self).wf(),
        ensures
            final(self).wf(),
            r@ == alive_of(statuses@),
            final(self).spec_targets() == mark_all(old(self).spec_targets(), ended_of(statuses@)),
    {
        let mut to_sample: Vec<u32> = Vec::new();
        let n = statuses.len();
        for i in 0..n
            invariant
                n == statuses@.len(),
                self.wf(),
                to_sample@ == alive_of(statuses@.take(i as int)),
                self.spec_targets() == mark_all(old(self).spec_targets(), ended_of(statuses@.take(i as int))),
        {
            proof {
                let t = statuses@.take(i + 1);
                assert(t.drop_last() =~= statuses@.take(i as int));
            }
            let (pid, status) = statuses[i];
            match status {
                PidStatus::Dead => self.mark_dead(pid),
                PidStatus::Reused => self.mark_reused(pid),
                PidStatus::Alive => to_sample.push(pid),
            }
            proof {
                if status != PidStatus::Alive {
                    let g = ended_of(statuses@.take(i + 1));
                    assert(g == ended_of(statuses@.take(i as int)).push(pid));
                    assert(g.drop_last() =~= ended_of(statuses@.take(i as int)));
                }
            }
        }
        assert(statuses@.take(n as int) =~= statuses@);
        to_sample
    }
}

} // verus!
