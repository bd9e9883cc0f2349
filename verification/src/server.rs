//! The state the agent tools work on, and what each tool does to it and
//! reports from it. Reading requests and writing replies is the caller's
//! part.

use vstd::prelude::*;
use vstd::std_specs::iter::IteratorSpec;
use crate::buffer::{BufferManager, RamPoint, RingView, VramPoint, VramView};
use crate::export::{CsvRow, csv_rows, csv_rows_spec, last_n, tail};
use crate::model::{AddMode, Sample, Target, VramBoardSample, VramProcessSample, WindowConfig, is_valid_interval, is_valid_window};
use crate::sampling::{Reading, collect_samples, gone_of, mark_all, ram_samples_of, vram_samples_of};
use crate::targets::{FindResult, TargetError, TargetManager, fresh_pids, is_fresh, made_from};
use crate::tools::{
    ERR_GPU_UNAVAILABLE, ERR_INVALID_INTERVAL, ERR_INVALID_WINDOW, ERR_NAME_NO_MATCH,
    ERR_PARTIAL_PERMISSION, ERR_TARGET_NOT_WATCHED, WindowStats, add_name_error_code,
    add_pid_error_code, interval_change, lemma_selected, name_error_code, pid_error_code,
    ram_or_empty, select_targets, selected, vram_or_empty, window_change, window_stats,
};

verus! {

/// Whether a target is one a tool call with PID filter `filter` reports on.
pub open spec fn in_filter(filter: Option<u32>, pid: u32) -> bool {
    match filter {
        Some(p) => p == pid,
        None => true,
    }
}

/// A series map after pushing `ss` in order, into the history when
/// `track` is set.
pub open spec fn push_all_ram_mode<C>(m: Map<u32, RingView<C>>, ss: Seq<Sample<C>>, cfg: WindowConfig, track: bool) -> Map<u32, RingView<C>>
    decreases ss.len(),
{
    if ss.len() == 0 {
        m
    } else {
        let prev = push_all_ram_mode(m, ss.drop_last(), cfg, track);
        let s = ss.last();
        prev.insert(s.pid, ram_or_empty(prev, s.pid).pushed(s, cfg, track))
    }
}

/// A VRAM series map after pushing `ss` in order, into the history when
/// `track` is set.
pub open spec fn push_all_vram_mode(m: Map<u32, VramView>, ss: Seq<VramProcessSample>, cfg: WindowConfig, track: bool) -> Map<u32, VramView>
    decreases ss.len(),
{
    if ss.len() == 0 {
        m
    } else {
        let prev = push_all_vram_mode(m, ss.drop_last(), cfg, track);
        let s = ss.last();
        prev.insert(s.pid, vram_or_empty(prev, s.pid).pushed(s, cfg, track))
    }
}

/// What `get_live` reports of one target.
pub struct LiveRow<C> {
    pub pid: u32,
    pub name: String,
    pub alive: bool,
    pub ram: Option<Sample<C>>,
    pub vram: Option<VramProcessSample>,
}

/// What `window_stats` reports of one target.
pub struct StatsRow<C> {
    pub pid: u32,
    pub name: String,
    pub stats: WindowStats<C>,
}

/// What a CSV export holds of one target.
pub struct CsvTarget<C> {
    pub pid: u32,
    pub name: String,
    pub rows: Vec<CsvRow<C>>,
}

/// What a JSON export holds of one target.
pub struct JsonTarget<C> {
    pub pid: u32,
    pub name: String,
    pub ram: Vec<RamPoint<C>>,
    pub vram: Vec<VramPoint>,
}

/// The PIDs of `keys` that pass `filter`, in order.
pub open spec fn order_pids(keys: Seq<u32>, filter: Option<u32>) -> Seq<u32>
    decreases keys.len(),
{
    if keys.len() == 0 {
        Seq::empty()
    } else {
        let prev = order_pids(keys.drop_last(), filter);
        if in_filter(filter, keys.last()) {
            prev.push(keys.last())
        } else {
            prev
        }
    }
}

/// Selecting from a listing selects the PIDs in the listing's order.
proof fn lemma_selected_order<'a>(list: Seq<&'a Target>, keys: Seq<u32>, filter: Option<u32>)
    requires
        list.len() == keys.len(),
        forall|i: int| 0 <= i < list.len() ==> #[trigger] list[i].pid == keys[i],
    ensures
        selected(list, filter).len() == order_pids(keys, filter).len(),
        forall|j: int| 0 <= j < selected(list, filter).len() ==> #[trigger] selected(list, filter)[j].pid == order_pids(keys, filter)[j],
    decreases list.len(),
{
    if list.len() > 0 {
        let q = list.drop_last();
        let k = keys.drop_last();
        assert forall|i: int| 0 <= i < q.len() implies #[trigger] q[i].pid == k[i] by {
            assert(q[i] == list[i]);
            assert(k[i] == keys[i]);
        }
        lemma_selected_order(q, k, filter);
        assert(list.last().pid == keys.last()) by {
            assert(list[list.len() - 1].pid == keys[keys.len() - 1]);
        }
    }
}

/// A selection from a full listing of the targets holds, each once, the
/// watched targets that pass the filter.
proof fn lemma_selection<'a>(list: Seq<&'a Target>, m: Map<u32, Target>, keys: Seq<u32>, filter: Option<u32>)
    requires
        list.len() == keys.len(),
        forall|i: int| 0 <= i < list.len() ==> #[trigger] list[i].pid == keys[i],
        list.len() == m.dom().len(),
        forall|i: int| 0 <= i < list.len() ==> m.contains_key(#[trigger] list[i].pid) && *list[i] == m[list[i].pid],
        forall|i: int, j: int| 0 <= i < j < list.len() ==> #[trigger] list[i].pid != #[trigger] list[j].pid,
        forall|pid: u32| #[trigger] m.contains_key(pid) ==> exists|i: int| 0 <= i < list.len() && list[i].pid == pid,
    ensures
        ({
            let sel = selected(list, filter);
            &&& forall|j: int| 0 <= j < sel.len() ==> m.contains_key(#[trigger] sel[j].pid) && *sel[j] == m[sel[j].pid] && in_filter(filter, sel[j].pid)
            &&& forall|pid: u32| #[trigger] m.contains_key(pid) && in_filter(filter, pid) ==> exists|j: int| 0 <= j < sel.len() && sel[j].pid == pid
            &&& forall|i: int, j: int| 0 <= i < j < sel.len() ==> sel[i].pid != sel[j].pid
            &&& sel.len() == order_pids(keys, filter).len()
            &&& forall|j: int| 0 <= j < sel.len() ==> #[trigger] sel[j].pid == order_pids(keys, filter)[j]
        }),
{
    let sel = selected(list, filter);
    lemma_selected(list, filter);
    lemma_selected_order(list, keys, filter);
    assert forall|j: int| 0 <= j < sel.len() implies m.contains_key(#[trigger] sel[j].pid) && *sel[j] == m[sel[j].pid] && in_filter(filter, sel[j].pid) by {
        assert(list.contains(sel[j]));
        let k = list.index_of(sel[j]);
        assert(list[k] == sel[j]);
    }
    assert forall|pid: u32| #[trigger] m.contains_key(pid) && in_filter(filter, pid) implies exists|j: int| 0 <= j < sel.len() && sel[j].pid == pid by {
        let i = choose|i: int| 0 <= i < list.len() && list[i].pid == pid;
        assert(sel.contains(list[i]));
        let j = sel.index_of(list[i]);
        assert(sel[j].pid == pid);
    }
}

/// `r` is the CSV export of the watched targets that pass `filter`, each
/// once and in the order of `keys` (the order the targets are listed in):
/// its name and its rows, at most `max` of them.
pub open spec fn csv_export_of<C>(r: Seq<CsvTarget<C>>, m: Map<u32, Target>, keys: Seq<u32>, ram: Map<u32, RingView<C>>, vram: Map<u32, VramView>, filter: Option<u32>, max: int, zero: C) -> bool {
    &&& r.map_values(|t: CsvTarget<C>| t.pid) == order_pids(keys, filter)
    &&& forall|i: int, j: int| 0 <= i < j < r.len() ==> r[i].pid != r[j].pid
    &&& forall|pid: u32| #[trigger] m.contains_key(pid) && in_filter(filter, pid) ==> exists|i: int| 0 <= i < r.len() && r[i].pid == pid
    &&& forall|i: int| 0 <= i < r.len() ==> {
        let t = #[trigger] r[i];
        &&& m.contains_key(t.pid)
        &&& in_filter(filter, t.pid)
        &&& t.name == m[t.pid].name
        &&& t.rows@ == csv_rows_spec(ram_or_empty(ram, t.pid).points(), vram_or_empty(vram, t.pid).points(), zero, max)
    }
}

/// `r` is the JSON export of the watched targets that pass `filter`, each
/// once and in the order of `keys` (the order the targets are listed in):
/// its name and the last `max` points of each of its series.
pub open spec fn json_export_of<C>(r: Seq<JsonTarget<C>>, m: Map<u32, Target>, keys: Seq<u32>, ram: Map<u32, RingView<C>>, vram: Map<u32, VramView>, filter: Option<u32>, max: int) -> bool {
    &&& r.map_values(|t: JsonTarget<C>| t.pid) == order_pids(keys, filter)
    &&& forall|i: int, j: int| 0 <= i < j < r.len() ==> r[i].pid != r[j].pid
    &&& forall|pid: u32| #[trigger] m.contains_key(pid) && in_filter(filter, pid) ==> exists|i: int| 0 <= i < r.len() && r[i].pid == pid
    &&& forall|i: int| 0 <= i < r.len() ==> {
        let t = #[trigger] r[i];
        &&& m.contains_key(t.pid)
        &&& in_filter(filter, t.pid)
        &&& t.name == m[t.pid].name
        &&& t.ram@ == last_n(ram_or_empty(ram, t.pid).points(), max)
        &&& t.vram@ == last_n(vram_or_empty(vram, t.pid).points(), max)
    }
}

/// The CSV export of each selected target: its rows, at most
/// `max_points` of them; `zero` is the CPU value of rows that only carry
/// VRAM.
pub fn export_csv_of<C: Copy>(targets: &TargetManager, buffer: &BufferManager<C>, filter: Option<u32>, max_points: usize, zero: C) -> (r: Vec<CsvTarget<C>>)
    requires
        targets.wf(),
        buffer.wf(),
    ensures
        csv_export_of(r@, targets.spec_targets(), targets.key_walk().remaining().unref(), buffer.ram(), buffer.vram(), filter, max_points as int, zero),
{
    let list = targets.list();
    let sel = select_targets(&list, filter);
    proof {
        lemma_selection(list@, targets.spec_targets(), targets.key_walk().remaining().unref(), filter);
    }
    let mut out: Vec<CsvTarget<C>> = Vec::new();
    let n = sel.len();
    for i in 0..n
        invariant
            n == sel@.len(),
            sel@ == selected(list@, filter),
            targets.wf(),
            buffer.wf(),
            out@.len() == i,
            forall|j: int| 0 <= j < i ==> {
                let t = #[trigger] out@[j];
                &&& t.pid == sel@[j].pid
                &&& t.name == sel@[j].name
                &&& t.rows@ == csv_rows_spec(ram_or_empty(buffer.ram(), t.pid).points(), vram_or_empty(buffer.vram(), t.pid).points(), zero, max_points as int)
            },
    {
        let t = sel[i];
        let ram = match buffer.get_ram_series(t.pid) {
            Some(s) => s.get_points(),
            None => Vec::new(),
        };
        let vram = match buffer.get_vram_series(t.pid) {
            Some(s) => s.get_points(),
            None => Vec::new(),
        };
        let rows = csv_rows(&ram, &vram, zero, max_points);
        out.push(CsvTarget { pid: t.pid, name: t.name.clone(), rows });
    }
    proof {
        let m = targets.spec_targets();
        let order = order_pids(targets.key_walk().remaining().unref(), filter);
        assert(out@.map_values(|t: CsvTarget<C>| t.pid) =~= order);
        assert forall|pid: u32| #[trigger] m.contains_key(pid) && in_filter(filter, pid) implies exists|i: int| 0 <= i < out@.len() && out@[i].pid == pid by {
            let j = choose|j: int| 0 <= j < sel@.len() && sel@[j].pid == pid;
            assert(out@[j].pid == pid);
        }
    }
    out
}

/// The JSON export of each selected target: the last `max_points` RAM
/// points and the last `max_points` VRAM points.
pub fn export_json_of<C: Copy>(targets: &TargetManager, buffer: &BufferManager<C>, filter: Option<u32>, max_points: usize) -> (r: Vec<JsonTarget<C>>)
    requires
        targets.wf(),
        buffer.wf(),
    ensures
        json_export_of(r@, targets.spec_targets(), targets.key_walk().remaining().unref(), buffer.ram(), buffer.vram(), filter, max_points as int),
{
    let list = targets.list();
    let sel = select_targets(&list, filter);
    proof {
        lemma_selection(list@, targets.spec_targets(), targets.key_walk().remaining().unref(), filter);
    }
    let mut out: Vec<JsonTarget<C>> = Vec::new();
    let n = sel.len();
    for i in 0..n
        invariant
            n == sel@.len(),
            sel@ == selected(list@, filter),
            targets.wf(),
            buffer.wf(),
            out@.len() == i,
            forall|j: int| 0 <= j < i ==> {
                let t = #[trigger] out@[j];
                &&& t.pid == sel@[j].pid
                &&& t.name == sel@[j].name
                &&& t.ram@ == last_n(ram_or_empty(buffer.ram(), t.pid).points(), max_points as int)
                &&& t.vram@ == last_n(vram_or_empty(buffer.vram(), t.pid).points(), max_points as int)
            },
    {
        let t = sel[i];
        let ram = match buffer.get_ram_series(t.pid) {
            Some(s) => s.get_points(),
            None => Vec::new(),
        };
        let vram = match buffer.get_vram_series(t.pid) {
            Some(s) => s.get_points(),
            None => Vec::new(),
        };
        let ram_tail = tail(&ram, max_points);
        let vram_tail = tail(&vram, max_points);
        out.push(JsonTarget { pid: t.pid, name: t.name.clone(), ram: ram_tail, vram: vram_tail });
    }
    proof {
        let m = targets.spec_targets();
        let order = order_pids(targets.key_walk().remaining().unref(), filter);
        assert(out@.map_values(|t: JsonTarget<C>| t.pid) =~= order);
        assert forall|pid: u32| #[trigger] m.contains_key(pid) && in_filter(filter, pid) implies exists|i: int| 0 <= i < out@.len() && out@[i].pid == pid by {
            let j = choose|j: int| 0 <= j < sel@.len() && sel@[j].pid == pid;
            assert(out@[j].pid == pid);
        }
    }
    out
}

/// The targets, their sample buffer and the newest board-wide GPU reading.
pub struct ServerState<C> {
    pub targets: TargetManager,
    pub buffer: BufferManager<C>,
    pub last_vram_board: Option<VramBoardSample>,
}

impl<C: Copy> ServerState<C> {
    /// The parts are well formed and the configuration is a selectable one.
    pub open spec fn wf(&self) -> bool {
        &&& self.targets.wf()
        &&& self.buffer.wf()
        &&& is_valid_window(self.buffer.spec_config().window_secs)
        &&& is_valid_interval(self.buffer.spec_config().interval_ms)
    }

    /// No targets, empty buffer, default configuration, no GPU reading.
    pub fn new() -> (r: Self)
        ensures
            r.wf(),
            r.targets.spec_targets() == Map::<u32, Target>::empty(),
            r.buffer.ram() == Map::<u32, RingView<C>>::empty(),
            r.buffer.vram() == Map::<u32, VramView>::empty(),
            r.last_vram_board is None,
    {
        ServerState { targets: TargetManager::new(), buffer: BufferManager::default(), last_vram_board: None }
    }

    /// Records one sampling round: targets whose process is gone are marked
    /// dead, every RAM and VRAM reading is pushed with history, and the
    /// board reading replaces the previous one when there is one.
    pub fn record_round(&mut self, ts_ms: u64, readings: &Vec<Reading<C>>, board: Option<VramBoardSample>)
        requires
            old(self).wf(),
        ensures
            final(self).wf(),
            final(self).targets.spec_targets() == mark_all(old(self).targets.spec_targets(), gone_of(readings@)),
            final(self).buffer.spec_config() == old(self).buffer.spec_config(),
            final(self).buffer.ram() == push_all_ram_mode(old(self).buffer.ram(), ram_samples_of(readings@, ts_ms), old(self).buffer.spec_config(), true),
            final(self).buffer.vram() == push_all_vram_mode(old(self).buffer.vram(), vram_samples_of(readings@, ts_ms), old(self).buffer.spec_config(), true),
            board is Some ==> final(self).last_vram_board == board,
            board is None ==> final(self).last_vram_board == old(self).last_vram_board,
    {
        let (ram, vram) = collect_samples(&mut self.targets, ts_ms, readings);
        let ghost t1 = self.targets;
        let n = ram.len();
        for i in 0..n
            invariant
                n == ram@.len(),
                self.targets == t1,
                t1.wf(),
                self.last_vram_board == old(self).last_vram_board,
                self.buffer.wf(),
                self.buffer.spec_config() == old(self).buffer.spec_config(),
                is_valid_window(self.buffer.spec_config().window_secs),
                is_valid_interval(self.buffer.spec_config().interval_ms),
                self.buffer.vram() == old(self).buffer.vram(),
                self.buffer.ram() == push_all_ram_mode(old(self).buffer.ram(), ram@.take(i as int), old(self).buffer.spec_config(), true),
                ram@ == ram_samples_of(readings@, ts_ms),
        {
            proof {
                assert(ram@.take(i + 1).drop_last() =~= ram@.take(i as int));
            }
            self.buffer.push_ram(ram[i], true);
        }
        assert(ram@.take(n as int) =~= ram@);
        let m = vram.len();
        for i in 0..m
            invariant
                m == vram@.len(),
                self.targets == t1,
                t1.wf(),
                self.last_vram_board == old(self).last_vram_board,
                self.buffer.wf(),
                self.buffer.spec_config() == old(self).buffer.spec_config(),
                is_valid_window(self.buffer.spec_config().window_secs),
                is_valid_interval(self.buffer.spec_config().interval_ms),
                self.buffer.ram() == push_all_ram_mode(old(self).buffer.ram(), ram@, old(self).buffer.spec_config(), true),
                self.buffer.vram() == push_all_vram_mode(old(self).buffer.vram(), vram@.take(i as int), old(self).buffer.spec_config(), true),
        {
            proof {
                assert(vram@.take(i + 1).drop_last() =~= vram@.take(i as int));
            }
            self.buffer.push_vram(vram[i], true);
        }
        assert(vram@.take(m as int) =~= vram@);
        if let Some(b) = board {
            self.last_vram_board = Some(b);
        }
    }

    /// The window, the interval and the effective bucket width in use.
    pub fn health(&self) -> (r: (u32, u32, u32))
        requires
            self.wf(),
        ensures
            r.0 == self.buffer.spec_config().window_secs,
            r.1 == self.buffer.spec_config().interval_ms,
            r.2 == self.buffer.spec_config().spec_bucket_ms(),
    {
        let config = self.buffer.config();
        (config.window_secs, config.interval_ms, config.bucket_ms())
    }

    /// Watches a PID; answers its PID and name, or the error code of why it
    /// could not be read.
    pub fn add_target_pid(&mut self, pid: u32, info: Result<(String, String, u64), TargetError>) -> (r: Result<(u32, String), (i32, TargetError)>)
        requires
            old(self).wf(),
        ensures
            final(self).wf(),
            final(self).buffer == old(self).buffer,
            final(self).last_vram_board == old(self).last_vram_board,
            old(self).targets.spec_targets().contains_key(pid) ==> {
                &&& final(self).targets.spec_targets() == old(self).targets.spec_targets()
                &&& (r matches Ok((p, n)) && p == pid && n == old(self).targets.spec_targets()[pid].name)
            },
            !old(self).targets.spec_targets().contains_key(pid) ==> match info {
                Ok((name, cmdline, starttime)) => {
                    &&& (r matches Ok((p, n)) && p == pid && n == name)
                    &&& final(self).targets.spec_targets().contains_key(pid)
                    &&& made_from(final(self).targets.spec_targets()[pid], (pid, name, cmdline, starttime), AddMode::Pid)
                    &&& final(self).targets.spec_targets() == old(self).targets.spec_targets().insert(pid, final(self).targets.spec_targets()[pid])
                },
                Err(e) => {
                    &&& r == Err::<(u32, String), (i32, TargetError)>((pid_error_code(e), e))
                    &&& final(self).targets.spec_targets() == old(self).targets.spec_targets()
                },
            },
    {
        match self.targets.add_by_pid(pid, info) {
            Ok(target) => Ok((target.pid, target.name.clone())),
            Err(e) => {
                let code = add_pid_error_code(&e);
                Err((code, e))
            },
        }
    }

    /// Watches the processes a name search found; answers the PIDs added,
    /// or the error code when nothing matched.
    pub fn add_target_name(&mut self, name: &str, mode: AddMode, found: FindResult) -> (r: Result<Vec<u32>, (i32, TargetError)>)
        requires
            old(self).wf(),
        ensures
            final(self).wf(),
            final(self).buffer == old(self).buffer,
            final(self).last_vram_board == old(self).last_vram_board,
            found.matches@.len() == 0 ==> {
                &&& final(self).targets.spec_targets() == old(self).targets.spec_targets()
                &&& found.permission_denied_count > 0 ==> r == Err::<Vec<u32>, (i32, TargetError)>((ERR_PARTIAL_PERMISSION, TargetError::PartialPermission { matched: 0, denied: found.permission_denied_count }))
                &&& found.permission_denied_count == 0 ==> (r matches Err((code, TargetError::NameNoMatch(n))) && code == ERR_NAME_NO_MATCH && n@ == name@)
            },
            found.matches@.len() > 0 ==> {
                let ms = found.matches@;
                let dom0 = old(self).targets.spec_targets().dom();
                &&& (r matches Ok(added) && added@ == fresh_pids(ms, dom0))
                &&& forall|pid: u32| #[trigger] final(self).targets.spec_targets().contains_key(pid) <==> dom0.contains(pid) || exists|i: int| 0 <= i < ms.len() && ms[i].0 == pid
                &&& forall|pid: u32| #[trigger] dom0.contains(pid) ==> final(self).targets.spec_targets()[pid] == old(self).targets.spec_targets()[pid]
                &&& forall|i: int| 0 <= i < ms.len() && #[trigger] is_fresh(ms, dom0, i) ==> made_from(final(self).targets.spec_targets()[ms[i].0], ms[i], mode)
            },
    {
        match self.targets.add_by_name(name, mode, found) {
            Ok(pids) => Ok(pids),
            Err(e) => {
                let code = add_name_error_code(&e);
                Err((code, e))
            },
        }
    }

    /// Stops watching a PID and drops its series; unwatched PIDs are an
    /// error.
    pub fn remove_target(&mut self, pid: u32) -> (r: Result<(), (i32, TargetError)>)
        requires
            old(self).wf(),
        ensures
            final(self).wf(),
            final(self).buffer.ram() == old(self).buffer.ram().remove(pid),
            final(self).buffer.vram() == old(self).buffer.vram().remove(pid),
            final(self).buffer.spec_config() == old(self).buffer.spec_config(),
            final(self).targets.spec_targets() == old(self).targets.spec_targets().remove(pid),
            final(self).last_vram_board == old(self).last_vram_board,
            r is Ok <==> old(self).targets.spec_targets().contains_key(pid),
            r is Err ==> r == Err::<(), (i32, TargetError)>((ERR_TARGET_NOT_WATCHED, TargetError::TargetNotWatched(pid))),
    {
        self.buffer.remove_target(pid);
        match self.targets.remove(pid) {
            Ok(()) => Ok(()),
            Err(e) => Err((ERR_TARGET_NOT_WATCHED, e)),
        }
    }

    /// Changes the sampling interval; answers it with the new effective
    /// bucket width, or the error code for an interval that is not
    /// selectable.
    pub fn set_interval(&mut self, ms: u32) -> (r: Result<(u32, u32), i32>)
        requires
            old(self).wf(),
        ensures
            final(self).wf(),
            final(self).targets == old(self).targets,
            final(self).last_vram_board == old(self).last_vram_board,
            final(self).buffer.ram() == old(self).buffer.ram(),
            final(self).buffer.vram() == old(self).buffer.vram(),
            is_valid_interval(ms) ==> {
                let c = WindowConfig { window_secs: old(self).buffer.spec_config().window_secs, interval_ms: ms };
                &&& final(self).buffer.spec_config() == c
                &&& r == Ok::<(u32, u32), i32>((ms, c.spec_bucket_ms() as u32))
            },
            !is_valid_interval(ms) ==> {
                &&& final(self).buffer.spec_config() == old(self).buffer.spec_config()
                &&& r == Err::<(u32, u32), i32>(ERR_INVALID_INTERVAL)
            },
    {
        let current = *self.buffer.config();
        match interval_change(&current, ms) {
            Ok(c) => {
                self.buffer.set_config(c);
                Ok((ms, c.bucket_ms()))
            },
            Err(code) => Err(code),
        }
    }

    /// Changes the history window; answers it with the new effective bucket
    /// width, or the error code for a window that is not selectable.
    pub fn set_window(&mut self, secs: u32) -> (r: Result<(u32, u32), i32>)
        requires
            old(self).wf(),
        ensures
            final(self).wf(),
            final(self).targets == old(self).targets,
            final(self).last_vram_board == old(self).last_vram_board,
            final(self).buffer.ram() == old(self).buffer.ram(),
            final(self).buffer.vram() == old(self).buffer.vram(),
            is_valid_window(secs) ==> {
                let c = WindowConfig { window_secs: secs, interval_ms: old(self).buffer.spec_config().interval_ms };
                &&& final(self).buffer.spec_config() == c
                &&& r == Ok::<(u32, u32), i32>((secs, c.spec_bucket_ms() as u32))
            },
            !is_valid_window(secs) ==> {
                &&& final(self).buffer.spec_config() == old(self).buffer.spec_config()
                &&& r == Err::<(u32, u32), i32>(ERR_INVALID_WINDOW)
            },
    {
        let current = *self.buffer.config();
        match window_change(&current, secs) {
            Ok(c) => {
                self.buffer.set_config(c);
                Ok((secs, c.bucket_ms()))
            },
            Err(code) => Err(code),
        }
    }

    /// Empties every series; the targets stay watched.
    pub fn clear_buffer(&mut self)
        requires
            old(self).wf(),
        ensures
            final(self).wf(),
            final(self).targets == old(self).targets,
            final(self).last_vram_board == old(self).last_vram_board,
            final(self).buffer.spec_config() == old(self).buffer.spec_config(),
            final(self).buffer.ram().dom() == old(self).buffer.ram().dom(),
            final(self).buffer.vram().dom() == old(self).buffer.vram().dom(),
            forall|pid: u32| #[trigger] final(self).buffer.ram().contains_key(pid) ==> final(self).buffer.ram()[pid] == RingView::<C>::empty(),
            forall|pid: u32| #[trigger] final(self).buffer.vram().contains_key(pid) ==> final(self).buffer.vram()[pid] == VramView::empty(),
    {
        self.buffer.clear();
    }

    /// The newest raw readings of each selected target; asking for a PID
    /// that is not watched is an error.
    pub fn get_live(&self, filter: Option<u32>) -> (r: Result<Vec<LiveRow<C>>, i32>)
        requires
            self.wf(),
        ensures
            (filter is Some && !self.targets.spec_targets().contains_key(filter->0)) ==> r == Err::<Vec<LiveRow<C>>, i32>(ERR_TARGET_NOT_WATCHED),
            !(filter is Some && !self.targets.spec_targets().contains_key(filter->0)) ==> (r matches Ok(rows) && {
                let m = self.targets.spec_targets();
                &&& rows@.map_values(|row: LiveRow<C>| row.pid) == order_pids(self.targets.key_walk().remaining().unref(), filter)
                &&& forall|i: int, j: int| 0 <= i < j < rows@.len() ==> rows@[i].pid != rows@[j].pid
                &&& forall|pid: u32| #[trigger] m.contains_key(pid) && in_filter(filter, pid) ==> exists|i: int| 0 <= i < rows@.len() && rows@[i].pid == pid
                &&& forall|i: int| 0 <= i < rows@.len() ==> {
                    let row = #[trigger] rows@[i];
                    &&& m.contains_key(row.pid)
                    &&& in_filter(filter, row.pid)
                    &&& row.name == m[row.pid].name
                    &&& row.alive == m[row.pid].alive
                    &&& row.ram == ram_or_empty(self.buffer.ram(), row.pid).last_raw
                    &&& row.vram == vram_or_empty(self.buffer.vram(), row.pid).last_raw
                }
            }),
    {
        let list = self.targets.list();
        let sel = select_targets(&list, filter);
        proof {
            lemma_selection(list@, self.targets.spec_targets(), self.targets.key_walk().remaining().unref(), filter);
        }
        let mut rows: Vec<LiveRow<C>> = Vec::new();
        let n = sel.len();
        for i in 0..n
            invariant
                n == sel@.len(),
                sel@ == selected(list@, filter),
                self.wf(),
                rows@.len() == i,
                forall|j: int| 0 <= j < i ==> {
                    let row = #[trigger] rows@[j];
                    &&& row.pid == sel@[j].pid
                    &&& row.name == sel@[j].name
                    &&& row.alive == sel@[j].alive
                    &&& row.ram == ram_or_empty(self.buffer.ram(), row.pid).last_raw
                    &&& row.vram == vram_or_empty(self.buffer.vram(), row.pid).last_raw
                },
        {
            let t = sel[i];
            let (ram, vram) = crate::tools::live_readings(&self.buffer, t.pid);
            rows.push(LiveRow { pid: t.pid, name: t.name.clone(), alive: t.alive, ram, vram });
        }
        proof {
            let m = self.targets.spec_targets();
            let order = order_pids(self.targets.key_walk().remaining().unref(), filter);
            assert(rows@.map_values(|row: LiveRow<C>| row.pid) =~= order);
            assert forall|pid: u32| #[trigger] m.contains_key(pid) && in_filter(filter, pid) implies exists|i: int| 0 <= i < rows@.len() && rows@[i].pid == pid by {
                let j = choose|j: int| 0 <= j < sel@.len() && sel@[j].pid == pid;
                assert(rows@[j].pid == pid);
            }
            if filter is Some && m.contains_key(filter->0) {
                let j = choose|j: int| 0 <= j < sel@.len() && sel@[j].pid == filter->0;
                assert(rows@.len() > 0);
            }
            if filter is Some && !m.contains_key(filter->0) && sel@.len() > 0 {
                assert(m.contains_key(sel@[0].pid) && in_filter(filter, sel@[0].pid));
            }
        }
        if filter.is_some() && rows.len() == 0 {
            return Err(ERR_TARGET_NOT_WATCHED);
        }
        Ok(rows)
    }

    /// The window figures of each selected target, with the window length;
    /// asking for a PID that is not watched is an error.
    pub fn window_stats(&self, filter: Option<u32>) -> (r: Result<(u32, Vec<StatsRow<C>>), i32>)
        requires
            self.wf(),
        ensures
            (filter is Some && !self.targets.spec_targets().contains_key(filter->0)) ==> r == Err::<(u32, Vec<StatsRow<C>>), i32>(ERR_TARGET_NOT_WATCHED),
            !(filter is Some && !self.targets.spec_targets().contains_key(filter->0)) ==> (r matches Ok((secs, rows)) && {
                let m = self.targets.spec_targets();
                &&& rows@.map_values(|row: StatsRow<C>| row.pid) == order_pids(self.targets.key_walk().remaining().unref(), filter)
                &&& secs == self.buffer.spec_config().window_secs
                &&& forall|i: int, j: int| 0 <= i < j < rows@.len() ==> rows@[i].pid != rows@[j].pid
                &&& forall|pid: u32| #[trigger] m.contains_key(pid) && in_filter(filter, pid) ==> exists|i: int| 0 <= i < rows@.len() && rows@[i].pid == pid
                &&& forall|i: int| 0 <= i < rows@.len() ==> {
                    let row = #[trigger] rows@[i];
                    &&& m.contains_key(row.pid)
                    &&& in_filter(filter, row.pid)
                    &&& row.name == m[row.pid].name
                    &&& row.stats.ram_peak == crate::buffer::peak_ram(ram_or_empty(self.buffer.ram(), row.pid).points())
                    &&& row.stats.ram_latest == crate::buffer::last_point(ram_or_empty(self.buffer.ram(), row.pid).points())
                    &&& row.stats.ram_count == ram_or_empty(self.buffer.ram(), row.pid).points().len()
                    &&& row.stats.vram_peak == crate::buffer::peak_vram(vram_or_empty(self.buffer.vram(), row.pid).points())
                    &&& row.stats.vram_latest == crate::buffer::last_point(vram_or_empty(self.buffer.vram(), row.pid).points())
                    &&& row.stats.vram_count == vram_or_empty(self.buffer.vram(), row.pid).points().len()
                }
            }),
    {
        let list = self.targets.list();
        let sel = select_targets(&list, filter);
        proof {
            lemma_selection(list@, self.targets.spec_targets(), self.targets.key_walk().remaining().unref(), filter);
        }
        let mut rows: Vec<StatsRow<C>> = Vec::new();
        let n = sel.len();
        for i in 0..n
            invariant
                n == sel@.len(),
                sel@ == selected(list@, filter),
                self.wf(),
                rows@.len() == i,
                forall|j: int| 0 <= j < i ==> {
                    let row = #[trigger] rows@[j];
                    &&& row.pid == sel@[j].pid
                    &&& row.name == sel@[j].name
                    &&& row.stats.ram_peak == crate::buffer::peak_ram(ram_or_empty(self.buffer.ram(), row.pid).points())
                    &&& row.stats.ram_latest == crate::buffer::last_point(ram_or_empty(self.buffer.ram(), row.pid).points())
                    &&& row.stats.ram_count == ram_or_empty(self.buffer.ram(), row.pid).points().len()
                    &&& row.stats.vram_peak == crate::buffer::peak_vram(vram_or_empty(self.buffer.vram(), row.pid).points())
                    &&& row.stats.vram_latest == crate::buffer::last_point(vram_or_empty(self.buffer.vram(), row.pid).points())
                    &&& row.stats.vram_count == vram_or_empty(self.buffer.vram(), row.pid).points().len()
                },
        {
            let t = sel[i];
            let stats = window_stats(&self.buffer, t.pid);
            rows.push(StatsRow { pid: t.pid, name: t.name.clone(), stats });
        }
        proof {
            let m = self.targets.spec_targets();
            let order = order_pids(self.targets.key_walk().remaining().unref(), filter);
            assert(rows@.map_values(|row: StatsRow<C>| row.pid) =~= order);
            assert forall|pid: u32| #[trigger] m.contains_key(pid) && in_filter(filter, pid) implies exists|i: int| 0 <= i < rows@.len() && rows@[i].pid == pid by {
                let j = choose|j: int| 0 <= j < sel@.len() && sel@[j].pid == pid;
                assert(rows@[j].pid == pid);
            }
            if filter is Some && m.contains_key(filter->0) {
                let j = choose|j: int| 0 <= j < sel@.len() && sel@[j].pid == filter->0;
                assert(rows@.len() > 0);
            }
            if filter is Some && !m.contains_key(filter->0) && sel@.len() > 0 {
                assert(m.contains_key(sel@[0].pid) && in_filter(filter, sel@[0].pid));
            }
        }
        if filter.is_some() && rows.len() == 0 {
            return Err(ERR_TARGET_NOT_WATCHED);
        }
        Ok((self.buffer.config().window_secs, rows))
    }

    /// The CSV export of each selected target: its rows, at most
    /// `max_points` of them; `zero` is the CPU value of rows that only carry
    /// VRAM.
    pub fn export_csv(&self, filter: Option<u32>, max_points: usize, zero: C) -> (r: Vec<CsvTarget<C>>)
        requires
            self.wf(),
        ensures
            csv_export_of(r@, self.targets.spec_targets(), self.targets.key_walk().remaining().unref(), self.buffer.ram(), self.buffer.vram(), filter, max_points as int, zero),
    {
        export_csv_of(&self.targets, &self.buffer, filter, max_points, zero)
    }

    /// The JSON export of each selected target: the last `max_points` RAM
    /// points and the last `max_points` VRAM points.
    pub fn export_json(&self, filter: Option<u32>, max_points: usize) -> (r: Vec<JsonTarget<C>>)
        requires
            self.wf(),
        ensures
            json_export_of(r@, self.targets.spec_targets(), self.targets.key_walk().remaining().unref(), self.buffer.ram(), self.buffer.vram(), filter, max_points as int),
    {
        export_json_of(&self.targets, &self.buffer, filter, max_points)
    }

    /// The newest board-wide GPU reading, or the error code when there is
    /// none.
    pub fn get_vram(&self) -> (r: Result<VramBoardSample, i32>)
        ensures
            match self.last_vram_board {
                Some(b) => r == Ok::<VramBoardSample, i32>(b),
                None => r == Err::<VramBoardSample, i32>(ERR_GPU_UNAVAILABLE),
            },
    {
        match self.last_vram_board {
            Some(b) => Ok(b),
            None => Err(ERR_GPU_UNAVAILABLE),
        }
    }
}

} // verus!
