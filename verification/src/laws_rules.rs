//! The rules each operation answers to, stated over its inputs: which
//! configurations are selectable, which targets a round marks, which
//! processes a scan finds, and where a process's GPU memory is read from.

use vstd::prelude::*;
use crate::gpu::{GpuProcess, first_gpu_use, process_vram_spec};
use crate::laws_more::law_marking_keeps_targets;
use crate::matching::{ScanEntry, has_sub, matches_linux, scan_matches};
use crate::model::{AddMode, Sample, Target, VramProcessSample, WindowConfig, is_valid_interval, is_valid_window};
use crate::sampling::{Reading, alive_of, ended_of, gone_of, mark_all, ram_samples_of, vram_samples_of};
use crate::targets::PidStatus;

verus! {

/// The selectable intervals and windows are exactly the documented lists
/// `WindowConfig::VALID_INTERVALS` and `WindowConfig::VALID_WINDOWS`.
pub proof fn law_valid_config_lists(ms: u32, secs: u32)
    ensures
        is_valid_interval(ms) <==> WindowConfig::VALID_INTERVALS@.contains(ms),
        is_valid_window(secs) <==> WindowConfig::VALID_WINDOWS@.contains(secs),
{
    assert(WindowConfig::VALID_INTERVALS@ =~= seq![100u32, 250, 500, 1000, 2000]);
    assert(WindowConfig::VALID_WINDOWS@ =~= seq![30u32, 300, 1800, 3600]);
    if is_valid_interval(ms) {
        assert(WindowConfig::VALID_INTERVALS@[0] == 100);
    }
}

/// What a present reading holds: memory, CPU share and GPU memory.
pub open spec fn read_of<C>(r: Reading<C>) -> (u64, C, Option<u64>) {
    r.1->0
}

/// What a readable scan entry holds: name, command line and start time.
pub open spec fn found_of(e: ScanEntry) -> (String, String, u64) {
    e.1->Ok_0
}

/// A round takes as gone exactly the PIDs read as gone: a PID is in
/// `gone_of(rs)` exactly when one of its readings is `None`. A process that
/// was read is never taken as gone, whether or not the GPU reports it.
pub proof fn law_gone_are_the_unread<C>(rs: Seq<Reading<C>>)
    ensures
        forall|pid: u32| #[trigger] gone_of(rs).contains(pid) <==> exists|i: int| 0 <= i < rs.len() && rs[i].0 == pid && rs[i].1 is None,
    decreases rs.len(),
{
    if rs.len() > 0 {
        let q = rs.drop_last();
        law_gone_are_the_unread(q);
        let l = rs.last();
        assert(rs[rs.len() - 1] == l);
        if l.1 is None {
            assert(gone_of(rs) == gone_of(q).push(l.0));
        } else {
            assert(gone_of(rs) == gone_of(q));
        }
        assert forall|pid: u32| #[trigger] gone_of(rs).contains(pid) <==> exists|i: int| 0 <= i < rs.len() && rs[i].0 == pid && rs[i].1 is None by {
            if gone_of(rs).contains(pid) {
                if gone_of(q).contains(pid) {
                    let i = choose|i: int| 0 <= i < q.len() && q[i].0 == pid && q[i].1 is None;
                    assert(rs[i] == q[i]);
                } else {
                    let k = gone_of(rs).index_of(pid);
                    if k < gone_of(q).len() {
                        assert(gone_of(q)[k] == pid);
                    }
                    assert(pid == l.0);
                }
            }
            if exists|i: int| 0 <= i < rs.len() && rs[i].0 == pid && rs[i].1 is None {
                let i = choose|i: int| 0 <= i < rs.len() && rs[i].0 == pid && rs[i].1 is None;
                if i < q.len() {
                    assert(q[i] == rs[i]);
                    assert(gone_of(q).contains(pid));
                    let k = gone_of(q).index_of(pid);
                    assert(gone_of(rs)[k] == pid);
                } else {
                    assert(gone_of(rs)[gone_of(rs).len() - 1] == pid);
                }
            }
        }
    }
}

/// What a round does to the targets: a target with a `None` reading is
/// marked no longer alive, and a target every reading of which is present
/// (with or without a GPU figure) is left exactly as it was.
pub proof fn law_round_marks_only_unread<C>(m: Map<u32, Target>, rs: Seq<Reading<C>>)
    ensures
        mark_all(m, gone_of(rs)).dom() == m.dom(),
        forall|pid: u32| #[trigger] m.contains_key(pid) && (exists|i: int| 0 <= i < rs.len() && rs[i].0 == pid && rs[i].1 is None) ==> !mark_all(m, gone_of(rs))[pid].alive,
        forall|pid: u32| #[trigger] m.contains_key(pid) && (forall|i: int| 0 <= i < rs.len() && rs[i].0 == pid ==> rs[i].1 is Some) ==> mark_all(m, gone_of(rs))[pid] == m[pid],
{
    law_gone_are_the_unread(rs);
    law_marking_keeps_targets(m, gone_of(rs));
    assert forall|pid: u32| #[trigger] m.contains_key(pid) && (forall|i: int| 0 <= i < rs.len() && rs[i].0 == pid ==> rs[i].1 is Some) implies mark_all(m, gone_of(rs))[pid] == m[pid] by {
        assert(!gone_of(rs).contains(pid));
        lemma_unmarked(m, gone_of(rs), pid);
    }
}

proof fn lemma_unmarked(m: Map<u32, Target>, pids: Seq<u32>, pid: u32)
    requires
        !pids.contains(pid),
    ensures
        mark_all(m, pids).contains_key(pid) == m.contains_key(pid),
        m.contains_key(pid) ==> mark_all(m, pids)[pid] == m[pid],
    decreases pids.len(),
{
    if pids.len() > 0 {
        let q = pids.drop_last();
        assert(!q.contains(pid)) by {
            if q.contains(pid) {
                let k = q.index_of(pid);
                assert(pids[k] == pid);
            }
        }
        lemma_unmarked(m, q, pid);
        assert(pids.last() != pid) by {
            assert(pids[pids.len() - 1] == pids.last());
        }
    }
}

/// Every process read in a round gives one RAM sample with its memory and
/// CPU figures stamped with the round's time, and one VRAM sample exactly
/// when the GPU reported it; every VRAM sample comes from such a reading.
pub proof fn law_round_samples<C>(rs: Seq<Reading<C>>, ts: u64)
    ensures
        forall|i: int| 0 <= i < rs.len() && (#[trigger] rs[i]).1 is Some ==> ram_samples_of(rs, ts).contains(
            Sample { ts_ms: ts, pid: rs[i].0, rss_bytes: read_of(rs[i]).0, cpu_pct: read_of(rs[i]).1 },
        ),
        forall|i: int| 0 <= i < rs.len() && (#[trigger] rs[i]).1 is Some && read_of(rs[i]).2 is Some ==> vram_samples_of(rs, ts).contains(
            VramProcessSample { ts_ms: ts, pid: rs[i].0, used_bytes: read_of(rs[i]).2->0 },
        ),
        forall|x: VramProcessSample| #[trigger] vram_samples_of(rs, ts).contains(x) ==> x.ts_ms == ts && exists|i: int| 0 <= i < rs.len() && rs[i].0 == x.pid && rs[i].1 is Some && read_of(rs[i]).2 == Some(x.used_bytes),
    decreases rs.len(),
{
    if rs.len() > 0 {
        let q = rs.drop_last();
        law_round_samples(q, ts);
        let l = rs.last();
        let n = rs.len() - 1;
        assert(rs[n] == l);
        let pr = ram_samples_of(q, ts);
        let pv = vram_samples_of(q, ts);
        assert forall|i: int| 0 <= i < rs.len() && (#[trigger] rs[i]).1 is Some implies ram_samples_of(rs, ts).contains(
            Sample { ts_ms: ts, pid: rs[i].0, rss_bytes: read_of(rs[i]).0, cpu_pct: read_of(rs[i]).1 },
        ) by {
            let x = Sample { ts_ms: ts, pid: rs[i].0, rss_bytes: read_of(rs[i]).0, cpu_pct: read_of(rs[i]).1 };
            if i < n {
                assert(q[i] == rs[i]);
                assert(pr.contains(x));
                let k = pr.index_of(x);
                assert(ram_samples_of(rs, ts)[k] == x);
            } else {
                let r = ram_samples_of(rs, ts);
                assert(r[r.len() - 1] == x);
            }
        }
        assert forall|i: int| 0 <= i < rs.len() && (#[trigger] rs[i]).1 is Some && read_of(rs[i]).2 is Some implies vram_samples_of(rs, ts).contains(
            VramProcessSample { ts_ms: ts, pid: rs[i].0, used_bytes: read_of(rs[i]).2->0 },
        ) by {
            let x = VramProcessSample { ts_ms: ts, pid: rs[i].0, used_bytes: read_of(rs[i]).2->0 };
            if i < n {
                assert(q[i] == rs[i]);
                assert(pv.contains(x));
                let k = pv.index_of(x);
                assert(vram_samples_of(rs, ts)[k] == x);
            } else {
                let r = vram_samples_of(rs, ts);
                assert(r[r.len() - 1] == x);
            }
        }
        assert forall|x: VramProcessSample| #[trigger] vram_samples_of(rs, ts).contains(x) implies x.ts_ms == ts && exists|i: int| 0 <= i < rs.len() && rs[i].0 == x.pid && rs[i].1 is Some && read_of(rs[i]).2 == Some(x.used_bytes) by {
            let r = vram_samples_of(rs, ts);
            let k = r.index_of(x);
            let is_pushed = match l.1 {
                Some((_, _, Some(_))) => true,
                _ => false,
            };
            if is_pushed {
                let u = read_of(l).2->0;
                assert(r == pv.push(VramProcessSample { ts_ms: ts, pid: l.0, used_bytes: u }));
            } else {
                assert(r == pv);
            }
            if k < pv.len() {
                assert(r[k] == pv[k]);
                assert(pv.contains(x));
                let i = choose|i: int| 0 <= i < q.len() && q[i].0 == x.pid && q[i].1 is Some && read_of(q[i]).2 == Some(x.used_bytes);
                assert(rs[i] == q[i]);
            } else {
                assert(is_pushed);
                assert(rs[n].1 is Some && read_of(rs[n]).2 == Some(x.used_bytes));
            }
        }
    }
}

/// A scan finds exactly the readable processes that answer the Linux rule:
/// every readable entry that matches is in the result, and every result is
/// a readable entry that matches.
pub proof fn law_scan_finds_the_matches(entries: Seq<ScanEntry>, mode: AddMode, query: Seq<char>)
    ensures
        forall|i: int| 0 <= i < entries.len() && (#[trigger] entries[i]).1 is Ok && matches_linux(mode, query, found_of(entries[i]).0@, found_of(entries[i]).1@) ==> scan_matches(entries, mode, query).contains(
            (entries[i].0, found_of(entries[i]).0, found_of(entries[i]).1, found_of(entries[i]).2),
        ),
        forall|k: int| 0 <= k < scan_matches(entries, mode, query).len() ==> {
            let r = #[trigger] scan_matches(entries, mode, query)[k];
            &&& matches_linux(mode, query, r.1@, r.2@)
            &&& exists|i: int| 0 <= i < entries.len() && entries[i].0 == r.0 && entries[i].1 == Ok::<(String, String, u64), crate::targets::TargetError>((r.1, r.2, r.3))
        },
    decreases entries.len(),
{
    if entries.len() > 0 {
        let q = entries.drop_last();
        law_scan_finds_the_matches(q, mode, query);
        let n = entries.len() - 1;
        let l = entries.last();
        assert(entries[n] == l);
        let ps = scan_matches(q, mode, query);
        let s = scan_matches(entries, mode, query);
        assert forall|i: int| 0 <= i < entries.len() && (#[trigger] entries[i]).1 is Ok && matches_linux(mode, query, found_of(entries[i]).0@, found_of(entries[i]).1@) implies s.contains(
            (entries[i].0, found_of(entries[i]).0, found_of(entries[i]).1, found_of(entries[i]).2),
        ) by {
            let x = (entries[i].0, found_of(entries[i]).0, found_of(entries[i]).1, found_of(entries[i]).2);
            if i < n {
                assert(q[i] == entries[i]);
                assert(ps.contains(x));
                let k = ps.index_of(x);
                assert(s[k] == x);
            } else {
                assert(s[s.len() - 1] == x);
            }
        }
        assert forall|k: int| 0 <= k < s.len() implies {
            let r = #[trigger] s[k];
            &&& matches_linux(mode, query, r.1@, r.2@)
            &&& exists|i: int| 0 <= i < entries.len() && entries[i].0 == r.0 && entries[i].1 == Ok::<(String, String, u64), crate::targets::TargetError>((r.1, r.2, r.3))
        } by {
            if k < ps.len() {
                assert(s[k] == ps[k]);
                let r = ps[k];
                let i = choose|i: int| 0 <= i < q.len() && q[i].0 == r.0 && q[i].1 == Ok::<(String, String, u64), crate::targets::TargetError>((r.1, r.2, r.3));
                assert(entries[i] == q[i]);
            } else {
                assert(s[k].0 == l.0);
            }
        }
    }
}

/// A substring search matches only a query that occurs in the command
/// line: a match means the query is found at some position of it.
pub proof fn law_substring_only_inside(query: Seq<char>, name: Seq<char>, cmdline: Seq<char>)
    ensures
        matches_linux(AddMode::Substring, query, name, cmdline) <==> exists|at: int| 0 <= at && at + query.len() <= cmdline.len() && #[trigger] cmdline.subrange(at, at + query.len()) == query,
{
}

/// The entry of the first process with PID `pid` in a GPU process list: the
/// memory field of the first entry with that PID, and none when no entry
/// has it.
pub proof fn law_first_gpu_use(procs: Seq<GpuProcess>, pid: u32)
    ensures
        (forall|i: int| 0 <= i < procs.len() ==> procs[i].0 != pid) ==> first_gpu_use(procs, pid) is None,
        forall|k: int| 0 <= k < procs.len() && (#[trigger] procs[k]).0 == pid && (forall|j: int| 0 <= j < k ==> procs[j].0 != pid) ==> first_gpu_use(procs, pid) == Some(procs[k].1),
    decreases procs.len(),
{
    if procs.len() > 0 {
        let t = procs.drop_first();
        law_first_gpu_use(t, pid);
        assert forall|i: int| 0 <= i < t.len() implies t[i] == procs[i + 1] by {}
        assert forall|k: int| 0 <= k < procs.len() && (#[trigger] procs[k]).0 == pid && (forall|j: int| 0 <= j < k ==> procs[j].0 != pid) implies first_gpu_use(procs, pid) == Some(procs[k].1) by {
            if k > 0 {
                assert(procs[0].0 != pid);
                assert(t[k - 1] == procs[k]);
                assert forall|j: int| 0 <= j < k - 1 implies t[j].0 != pid by {
                    assert(t[j] == procs[j + 1]);
                }
            }
        }
        if forall|i: int| 0 <= i < procs.len() ==> procs[i].0 != pid {
            assert(procs[0].0 != pid);
            assert forall|i: int| 0 <= i < t.len() implies t[i].0 != pid by {
                assert(t[i] == procs[i + 1]);
            }
        }
    }
}

/// Where a process's GPU memory is read from. Nothing when the compute list
/// cannot be read. A process in the compute list gets the figure of its
/// first entry there. A process not in it gets the figure of its first
/// entry in the graphics list, however short the compute list is (empty
/// included), and nothing when the graphics list cannot be read or does
/// not list it either.
pub proof fn law_process_vram_lists(pid: u32, compute: Option<Seq<GpuProcess>>, graphics: Option<Seq<GpuProcess>>)
    ensures
        compute is None ==> process_vram_spec(pid, compute, graphics) is None,
        compute matches Some(c) ==> forall|k: int| 0 <= k < c.len() && (#[trigger] c[k]).0 == pid && (forall|j: int| 0 <= j < k ==> c[j].0 != pid) ==> process_vram_spec(pid, compute, graphics) == c[k].1,
        (compute matches Some(c) && forall|i: int| 0 <= i < c.len() ==> c[i].0 != pid) ==> {
            &&& graphics is None ==> process_vram_spec(pid, compute, graphics) is None
            &&& graphics matches Some(g) ==> forall|k: int| 0 <= k < g.len() && (#[trigger] g[k]).0 == pid && (forall|j: int| 0 <= j < k ==> g[j].0 != pid) ==> process_vram_spec(pid, compute, graphics) == g[k].1
            &&& (graphics matches Some(g) && forall|i: int| 0 <= i < g.len() ==> g[i].0 != pid) ==> process_vram_spec(pid, compute, graphics) is None
        },
{
    if let Some(c) = compute {
        law_first_gpu_use(c, pid);
    }
    if let Some(g) = graphics {
        law_first_gpu_use(g, pid);
    }
}

/// How `triage` sorts the checked PIDs: a PID is kept for sampling exactly
/// when it was found alive, and is marked ended exactly when it was found
/// dead or reused.
pub proof fn law_triage_partition(st: Seq<(u32, PidStatus)>)
    ensures
        forall|p: u32| #[trigger] alive_of(st).contains(p) <==> exists|i: int| 0 <= i < st.len() && st[i] == (p, PidStatus::Alive),
        forall|p: u32| #[trigger] ended_of(st).contains(p) <==> exists|i: int| 0 <= i < st.len() && st[i].0 == p && (st[i].1 == PidStatus::Dead || st[i].1 == PidStatus::Reused),
    decreases st.len(),
{
    if st.len() > 0 {
        let q = st.drop_last();
        law_triage_partition(q);
        let l = st.last();
        let n = st.len() - 1;
        assert(st[n] == l);
        if l.1 == PidStatus::Alive {
            assert(alive_of(st) == alive_of(q).push(l.0));
            assert(ended_of(st) == ended_of(q));
        } else {
            assert(alive_of(st) == alive_of(q));
            assert(ended_of(st) == ended_of(q).push(l.0));
        }
        assert forall|p: u32| #[trigger] alive_of(st).contains(p) <==> exists|i: int| 0 <= i < st.len() && st[i] == (p, PidStatus::Alive) by {
            if alive_of(st).contains(p) {
                let k = alive_of(st).index_of(p);
                if k < alive_of(q).len() {
                    assert(alive_of(q)[k] == p);
                    assert(alive_of(q).contains(p));
                    let i = choose|i: int| 0 <= i < q.len() && q[i] == (p, PidStatus::Alive);
                    assert(st[i] == q[i]);
                } else {
                    assert(st[n] == (p, PidStatus::Alive));
                }
            }
            if exists|i: int| 0 <= i < st.len() && st[i] == (p, PidStatus::Alive) {
                let i = choose|i: int| 0 <= i < st.len() && st[i] == (p, PidStatus::Alive);
                if i < n {
                    assert(q[i] == st[i]);
                    assert(alive_of(q).contains(p));
                    let k = alive_of(q).index_of(p);
                    assert(alive_of(st)[k] == p);
                } else {
                    assert(alive_of(st)[alive_of(st).len() - 1] == p);
                }
            }
        }
        assert forall|p: u32| #[trigger] ended_of(st).contains(p) <==> exists|i: int| 0 <= i < st.len() && st[i].0 == p && (st[i].1 == PidStatus::Dead || st[i].1 == PidStatus::Reused) by {
            if ended_of(st).contains(p) {
                let k = ended_of(st).index_of(p);
                if k < ended_of(q).len() {
                    assert(ended_of(q)[k] == p);
                    assert(ended_of(q).contains(p));
                    let i = choose|i: int| 0 <= i < q.len() && q[i].0 == p && (q[i].1 == PidStatus::Dead || q[i].1 == PidStatus::Reused);
                    assert(st[i] == q[i]);
                } else {
                    assert(st[n].0 == p && (st[n].1 == PidStatus::Dead || st[n].1 == PidStatus::Reused));
                }
            }
            if exists|i: int| 0 <= i < st.len() && st[i].0 == p && (st[i].1 == PidStatus::Dead || st[i].1 == PidStatus::Reused) {
                let i = choose|i: int| 0 <= i < st.len() && st[i].0 == p && (st[i].1 == PidStatus::Dead || st[i].1 == PidStatus::Reused);
                if i < n {
                    assert(q[i] == st[i]);
                    assert(ended_of(q).contains(p));
                    let k = ended_of(q).index_of(p);
                    assert(ended_of(st)[k] == p);
                } else {
                    assert(ended_of(st)[ended_of(st).len() - 1] == p);
                }
            }
        }
    }
}

} // verus!
