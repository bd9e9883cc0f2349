//! Properties of exports, name searches and target bookkeeping.

use vstd::prelude::*;
use crate::buffer::{RamPoint, VramPoint};
use crate::export::{CsvRow, csv_rows_spec, insert_by_time, last_n, merged_rows, sort_by_time};
use crate::matching::{has_sub, matches_linux};
use crate::model::{AddMode, Target};
use crate::sampling::{Reading, alive_of, ended_of, gone_of, mark, mark_all, ram_samples_of, vram_samples_of};
use crate::targets::{PidStatus, fresh_pids, is_fresh};

verus! {

/// Rows in memory-time order.
pub open spec fn rows_sorted<C>(s: Seq<CsvRow<C>>) -> bool {
    forall|i: int, j: int| 0 <= i <= j < s.len() ==> s[i].0 <= s[j].0
}

proof fn lemma_insert_sorted<C>(s: Seq<CsvRow<C>>, x: CsvRow<C>)
    requires
        rows_sorted(s),
    ensures
        rows_sorted(insert_by_time(s, x)),
        insert_by_time(s, x).len() == s.len() + 1,
        forall|i: int| 0 <= i < insert_by_time(s, x).len() ==> #[trigger] insert_by_time(s, x)[i] == x || s.contains(insert_by_time(s, x)[i]),
    decreases s.len(),
{
    let r = insert_by_time(s, x);
    if s.len() == 0 || s.last().0 <= x.0 {
        assert forall|i: int| 0 <= i < r.len() implies #[trigger] r[i] == x || s.contains(r[i]) by {
            if i < s.len() {
                assert(r[i] == s[i]);
            }
        }
    } else {
        let t = s.drop_last();
        lemma_insert_sorted(t, x);
        let q = insert_by_time(t, x);
        assert(r == q.push(s.last()));
        assert forall|i: int| 0 <= i < q.len() implies q[i].0 <= s.last().0 by {
            if q[i] != x {
                let k = t.index_of(q[i]);
                assert(t[k] == s[k]);
            }
        }
        assert forall|i: int| 0 <= i < r.len() implies #[trigger] r[i] == x || s.contains(r[i]) by {
            if i < q.len() {
                assert(r[i] == q[i]);
                if q[i] != x {
                    let k = t.index_of(q[i]);
                    assert(s[k] == t[k]);
                }
            } else {
                assert(r[i] == s[s.len() - 1]);
            }
        }
    }
}

proof fn lemma_sort_sorted<C>(s: Seq<CsvRow<C>>)
    ensures
        rows_sorted(sort_by_time(s)),
        sort_by_time(s).len() == s.len(),
    decreases s.len(),
{
    if s.len() > 0 {
        lemma_sort_sorted(s.drop_last());
        lemma_insert_sorted(sort_by_time(s.drop_last()), s.last());
    }
}

/// An export is replottable as it is: its rows are in memory-time order,
/// there are at most `max` of them, and they are the last `max` of all the
/// target's rows.
pub proof fn law_export_rows_sorted<C>(ram: Seq<RamPoint<C>>, vram: Seq<VramPoint>, zero: C, max: int)
    requires
        max >= 0,
    ensures
        rows_sorted(csv_rows_spec(ram, vram, zero, max)),
        csv_rows_spec(ram, vram, zero, max).len() <= max,
        csv_rows_spec(ram, vram, zero, max).len() == if sort_by_time(merged_rows(ram, vram, zero)).len() > max {
            max
        } else {
            sort_by_time(merged_rows(ram, vram, zero)).len() as int
        },
{
    let s = sort_by_time(merged_rows(ram, vram, zero));
    lemma_sort_sorted(merged_rows(ram, vram, zero));
    let r = last_n(s, max);
    if s.len() > max {
        assert forall|i: int, j: int| 0 <= i <= j < r.len() implies r[i].0 <= r[j].0 by {
            assert(r[i] == s[i + s.len() - max]);
            assert(r[j] == s[j + s.len() - max]);
        }
    }
}

/// An exact search matches the whole short name only: a query that is a
/// proper part of the name does not match.
pub proof fn law_exact_is_whole_name(query: Seq<char>, name: Seq<char>, cmdline: Seq<char>)
    ensures
        matches_linux(AddMode::Exact, query, name, cmdline) <==> name == query,
        query.len() != name.len() ==> !matches_linux(AddMode::Exact, query, name, cmdline),
{
}

/// A substring search looks at the whole command line: a query found at
/// any position of it matches, however far from the start.
pub proof fn law_substring_anywhere(query: Seq<char>, name: Seq<char>, cmdline: Seq<char>, at: int)
    requires
        0 <= at,
        at + query.len() <= cmdline.len(),
        cmdline.subrange(at, at + query.len()) == query,
    ensures
        matches_linux(AddMode::Substring, query, name, cmdline),
{
    assert(has_sub(cmdline, query));
}

/// Marking targets dead never drops one: the same PIDs stay watched, each
/// with its name, command line, start time and mode; only `alive` changes.
pub proof fn law_marking_keeps_targets(m: Map<u32, Target>, pids: Seq<u32>)
    ensures
        mark_all(m, pids).dom() == m.dom(),
        forall|pid: u32| #[trigger] mark_all(m, pids).contains_key(pid) ==> {
            let t = mark_all(m, pids)[pid];
            &&& t.pid == m[pid].pid
            &&& t.name == m[pid].name
            &&& t.cmdline == m[pid].cmdline
            &&& t.starttime == m[pid].starttime
            &&& t.add_mode == m[pid].add_mode
            &&& (pids.contains(pid) ==> !t.alive)
            &&& (!pids.contains(pid) ==> t.alive == m[pid].alive)
        },
    decreases pids.len(),
{
    if pids.len() > 0 {
        let q = pids.drop_last();
        law_marking_keeps_targets(m, q);
        let p = pids.last();
        let prev = mark_all(m, q);
        assert(mark_all(m, pids) == mark(prev, p));
        assert(mark(prev, p).dom() =~= prev.dom());
        assert forall|pid: u32| #[trigger] mark_all(m, pids).contains_key(pid) implies {
            let t = mark_all(m, pids)[pid];
            &&& t.pid == m[pid].pid
            &&& t.name == m[pid].name
            &&& t.cmdline == m[pid].cmdline
            &&& t.starttime == m[pid].starttime
            &&& t.add_mode == m[pid].add_mode
            &&& (pids.contains(pid) ==> !t.alive)
            &&& (!pids.contains(pid) ==> t.alive == m[pid].alive)
        } by {
            assert(prev.contains_key(pid));
            if pids.contains(pid) && pid != p {
                let k = pids.index_of(pid);
                assert(q[k] == pid);
            }
            if q.contains(pid) {
                let k = q.index_of(pid);
                assert(pids[k] == pid);
            }
        }
    } else {
        assert(mark_all(m, pids) == m);
    }
}

/// A name search adds each PID at most once, and never one already
/// watched.
pub proof fn law_name_search_adds_new_pids(ms: Seq<(u32, String, String, u64)>, dom: Set<u32>)
    ensures
        fresh_pids(ms, dom).no_duplicates(),
        forall|i: int| 0 <= i < fresh_pids(ms, dom).len() ==> !dom.contains(#[trigger] fresh_pids(ms, dom)[i]),
        forall|i: int| #![trigger fresh_pids(ms, dom)[i]] 0 <= i < fresh_pids(ms, dom).len() ==> exists|j: int| 0 <= j < ms.len() && ms[j].0 == fresh_pids(ms, dom)[i],
    decreases ms.len(),
{
    if ms.len() > 0 {
        let q = ms.drop_last();
        law_name_search_adds_new_pids(q, dom);
        let prev = fresh_pids(q, dom);
        let n = ms.len() - 1;
        assert(forall|j: int| 0 <= j < q.len() ==> q[j] == ms[j]);
        if is_fresh(ms, dom, n) {
            let r = fresh_pids(ms, dom);
            assert(r == prev.push(ms[n].0));
            assert forall|i: int| 0 <= i < prev.len() implies prev[i] != ms[n].0 by {
                let j = choose|j: int| 0 <= j < q.len() && q[j].0 == prev[i];
                assert(ms[j].0 == prev[i]);
            }
            assert forall|a: int, b: int| 0 <= a < r.len() && 0 <= b < r.len() && a != b implies r[a] != r[b] by {
                if a < prev.len() && b < prev.len() {
                } else if a < prev.len() {
                    assert(r[b] == ms[n].0);
                } else {
                    assert(r[a] == ms[n].0);
                }
            }
            assert forall|i: int| #![trigger r[i]] 0 <= i < r.len() implies exists|j: int| 0 <= j < ms.len() && ms[j].0 == r[i] by {
                if i < prev.len() {
                    let j = choose|j: int| 0 <= j < q.len() && q[j].0 == prev[i];
                    assert(ms[j].0 == r[i]);
                } else {
                    assert(ms[n].0 == r[i]);
                }
            }
        } else {
            assert forall|i: int| #![trigger prev[i]] 0 <= i < prev.len() implies exists|j: int| 0 <= j < ms.len() && ms[j].0 == prev[i] by {
                let j = choose|j: int| 0 <= j < q.len() && q[j].0 == prev[i];
                assert(ms[j].0 == prev[i]);
            }
        }
    }
}

/// Removing undoes adding: watching a PID that was not watched and then
/// removing it leaves the watched targets as they were, and a second
/// removal finds nothing to remove.
pub proof fn law_remove_undoes_add(m: Map<u32, Target>, pid: u32, t: Target)
    requires
        !m.contains_key(pid),
    ensures
        m.insert(pid, t).remove(pid) == m,
        !m.insert(pid, t).remove(pid).contains_key(pid),
{
    assert(m.insert(pid, t).remove(pid) =~= m);
}

proof fn lemma_alive_of_from(st: Seq<(u32, PidStatus)>)
    ensures
        forall|k: int| 0 <= k < alive_of(st).len() ==> exists|i: int| 0 <= i < st.len() && st[i].0 == #[trigger] alive_of(st)[k] && st[i].1 == PidStatus::Alive,
    decreases st.len(),
{
    if st.len() > 0 {
        let q = st.drop_last();
        lemma_alive_of_from(q);
        assert forall|k: int| 0 <= k < alive_of(st).len() implies exists|i: int| 0 <= i < st.len() && st[i].0 == #[trigger] alive_of(st)[k] && st[i].1 == PidStatus::Alive by {
            if k < alive_of(q).len() {
                assert(alive_of(st)[k] == alive_of(q)[k]);
                let i = choose|i: int| 0 <= i < q.len() && q[i].0 == alive_of(q)[k] && q[i].1 == PidStatus::Alive;
                assert(st[i] == q[i]);
            } else {
                assert(st[st.len() - 1] == st.last());
            }
        }
    }
}

proof fn lemma_ended_of_from(st: Seq<(u32, PidStatus)>)
    ensures
        forall|p: u32| #[trigger] ended_of(st).contains(p) ==> exists|i: int| 0 <= i < st.len() && st[i].0 == p && st[i].1 != PidStatus::Alive,
    decreases st.len(),
{
    if st.len() > 0 {
        let q = st.drop_last();
        lemma_ended_of_from(q);
        let l = st.last();
        assert forall|p: u32| #[trigger] ended_of(st).contains(p) implies exists|i: int| 0 <= i < st.len() && st[i].0 == p && st[i].1 != PidStatus::Alive by {
            if ended_of(q).contains(p) {
                let i = choose|i: int| 0 <= i < q.len() && q[i].0 == p && q[i].1 != PidStatus::Alive;
                assert(st[i] == q[i]);
            } else {
                assert(l.1 != PidStatus::Alive);
                assert(ended_of(st) == ended_of(q).push(l.0));
                assert(p == l.0);
                assert(st[st.len() - 1] == l);
            }
        }
    }
}

proof fn lemma_samples_from_readings<C>(rs: Seq<Reading<C>>, ts: u64)
    ensures
        forall|k: int| 0 <= k < ram_samples_of(rs, ts).len() ==> exists|j: int| 0 <= j < rs.len() && rs[j].0 == #[trigger] ram_samples_of(rs, ts)[k].pid,
        forall|k: int| 0 <= k < vram_samples_of(rs, ts).len() ==> exists|j: int| 0 <= j < rs.len() && rs[j].0 == #[trigger] vram_samples_of(rs, ts)[k].pid,
    decreases rs.len(),
{
    if rs.len() > 0 {
        let q = rs.drop_last();
        lemma_samples_from_readings(q, ts);
        assert forall|k: int| 0 <= k < ram_samples_of(rs, ts).len() implies exists|j: int| 0 <= j < rs.len() && rs[j].0 == #[trigger] ram_samples_of(rs, ts)[k].pid by {
            if k < ram_samples_of(q, ts).len() {
                assert(ram_samples_of(rs, ts)[k] == ram_samples_of(q, ts)[k]);
                let j = choose|j: int| 0 <= j < q.len() && q[j].0 == ram_samples_of(q, ts)[k].pid;
                assert(rs[j] == q[j]);
            } else {
                assert(rs[rs.len() - 1] == rs.last());
            }
        }
        assert forall|k: int| 0 <= k < vram_samples_of(rs, ts).len() implies exists|j: int| 0 <= j < rs.len() && rs[j].0 == #[trigger] vram_samples_of(rs, ts)[k].pid by {
            if k < vram_samples_of(q, ts).len() {
                assert(vram_samples_of(rs, ts)[k] == vram_samples_of(q, ts)[k]);
                let j = choose|j: int| 0 <= j < q.len() && q[j].0 == vram_samples_of(q, ts)[k].pid;
                assert(rs[j] == q[j]);
            } else {
                assert(rs[rs.len() - 1] == rs.last());
            }
        }
    }
}

/// A sampling tick. Each watched PID is checked once (`st`, as
/// `check_pid_status` reports it); `triage` marks the dead and reused ones
/// and keeps the alive ones, and one reading is taken for each kept PID, in
/// order (`rs`); `record_round` then marks the processes found gone. After
/// the tick every dead, reused or gone target is no longer alive, no target
/// is dropped, and every RAM or VRAM sample the tick pushes is of a PID
/// found alive, never of a dead or reused one.
pub proof fn law_tick<C>(m: Map<u32, Target>, st: Seq<(u32, PidStatus)>, rs: Seq<Reading<C>>, ts: u64)
    requires
        forall|i: int, j: int| 0 <= i < j < st.len() ==> st[i].0 != st[j].0,
        rs.len() == alive_of(st).len(),
        forall|i: int| 0 <= i < rs.len() ==> #[trigger] rs[i].0 == alive_of(st)[i],
    ensures
        ({
            let after = mark_all(mark_all(m, ended_of(st)), gone_of(rs));
            &&& after.dom() == m.dom()
            &&& forall|p: u32| #[trigger] after.contains_key(p) && (ended_of(st).contains(p) || gone_of(rs).contains(p)) ==> !after[p].alive
            &&& forall|k: int| 0 <= k < ram_samples_of(rs, ts).len() ==> alive_of(st).contains(#[trigger] ram_samples_of(rs, ts)[k].pid) && !ended_of(st).contains(ram_samples_of(rs, ts)[k].pid)
            &&& forall|k: int| 0 <= k < vram_samples_of(rs, ts).len() ==> alive_of(st).contains(#[trigger] vram_samples_of(rs, ts)[k].pid) && !ended_of(st).contains(vram_samples_of(rs, ts)[k].pid)
        }),
{
    let m1 = mark_all(m, ended_of(st));
    law_marking_keeps_targets(m, ended_of(st));
    law_marking_keeps_targets(m1, gone_of(rs));
    let after = mark_all(m1, gone_of(rs));
    assert forall|p: u32| #[trigger] after.contains_key(p) && (ended_of(st).contains(p) || gone_of(rs).contains(p)) implies !after[p].alive by {
        assert(m1.contains_key(p));
    }
    lemma_alive_of_from(st);
    lemma_ended_of_from(st);
    lemma_samples_from_readings(rs, ts);
    assert forall|p: u32| alive_of(st).contains(p) implies !ended_of(st).contains(p) by {
        let a = alive_of(st).index_of(p);
        let i = choose|i: int| 0 <= i < st.len() && st[i].0 == alive_of(st)[a] && st[i].1 == PidStatus::Alive;
        if ended_of(st).contains(p) {
            let i2 = choose|i2: int| 0 <= i2 < st.len() && st[i2].0 == p && st[i2].1 != PidStatus::Alive;
            if i < i2 {
                assert(st[i].0 != st[i2].0);
            } else if i2 < i {
                assert(st[i2].0 != st[i].0);
            }
        }
    }
    assert forall|k: int| 0 <= k < ram_samples_of(rs, ts).len() implies alive_of(st).contains(#[trigger] ram_samples_of(rs, ts)[k].pid) by {
        let j = choose|j: int| 0 <= j < rs.len() && rs[j].0 == ram_samples_of(rs, ts)[k].pid;
        assert(rs[j].0 == alive_of(st)[j]);
    }
    assert forall|k: int| 0 <= k < vram_samples_of(rs, ts).len() implies alive_of(st).contains(#[trigger] vram_samples_of(rs, ts)[k].pid) by {
        let j = choose|j: int| 0 <= j < rs.len() && rs[j].0 == vram_samples_of(rs, ts)[k].pid;
        assert(rs[j].0 == alive_of(st)[j]);
    }
}

} // verus!
