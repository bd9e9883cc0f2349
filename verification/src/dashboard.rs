//! The dashboard's messages and display modes.

use vstd::prelude::*;
use crate::buffer::{BufferManager, RingView, VramView};
use crate::model::{AddMode, Target, VramBoardSample, WindowConfig, is_valid_interval, is_valid_window};
use crate::sampling::{Reading, collect_samples, gone_of, mark_all, ram_samples_of, vram_samples_of};
use crate::server::{push_all_ram_mode, push_all_vram_mode};
use crate::targets::{FindResult, TargetError, TargetManager};
use crate::tools::ExportFormat;

verus! {

/// What the dashboard can be asked to do.
pub enum Message {
    AddTargetPid(u32),
    AddTargetName(String, AddMode),
    RemoveTarget(u32),
    SetInterval(u32),
    SetWindow(u32),
    ClearBuffer,
    ExportCsv,
    ExportJson,
    ToggleViewMode,
    Tick,
}

/// Line charts with history, or gauges of the newest values only.
#[derive(Debug, Clone, Copy, PartialEq, Eq, Structural)]
pub enum ViewMode {
    Line,
    Gauge,
}

impl ViewMode {
    /// The other mode.
    pub fn toggled(self) -> (r: ViewMode)
        ensures
            r == (match self {
                ViewMode::Line => ViewMode::Gauge,
                ViewMode::Gauge => ViewMode::Line,
            }),
            r != self,
    {
        match self {
            ViewMode::Line => ViewMode::Gauge,
            ViewMode::Gauge => ViewMode::Line,
        }
    }

    /// Whether samples taken in this mode go into the bucketed history.
    pub fn tracks_history(self) -> (r: bool)
        ensures
            r == (self == ViewMode::Line),
    {
        match self {
            ViewMode::Line => true,
            ViewMode::Gauge => false,
        }
    }
}


/// The unit a byte count is shown in.
#[derive(Debug, Clone, Copy, PartialEq, Eq, Structural)]
pub enum ByteUnit {
    B,
    KB,
    MB,
    GB,
}

pub const KIB: u64 = 1024;
pub const MIB: u64 = 1024 * 1024;
pub const GIB: u64 = 1024 * 1024 * 1024;

/// The largest binary unit not larger than the count (bytes below 1 KiB).
pub fn byte_unit(bytes: u64) -> (r: ByteUnit)
    ensures
        r == (if bytes >= GIB {
            ByteUnit::GB
        } else if bytes >= MIB {
            ByteUnit::MB
        } else if bytes >= KIB {
            ByteUnit::KB
        } else {
            ByteUnit::B
        }),
{
    if bytes >= GIB {
        ByteUnit::GB
    } else if bytes >= MIB {
        ByteUnit::MB
    } else if bytes >= KIB {
        ByteUnit::KB
    } else {
        ByteUnit::B
    }
}

/// The outside work a message asks for, which the caller performs and then
/// reports back.
pub enum Effect {
    /// Nothing to do.
    Done,
    /// Read the process with this PID, then call `finish_add_pid`.
    ReadProcess(u32),
    /// Scan the process table for this name, then call `finish_add_name`.
    ScanProcesses(String, AddMode),
    /// Write an export of the buffer in this format.
    Export(ExportFormat),
    /// Take a sampling round of the alive targets, then call `finish_tick`.
    Sample,
}

/// The dashboard's state: what is watched, what was sampled, how it is
/// shown.
pub struct Dashboard<C> {
    pub targets: TargetManager,
    pub buffer: BufferManager<C>,
    pub last_vram_board: Option<VramBoardSample>,
    pub config: WindowConfig,
    pub error: Option<TargetError>,
    pub add_mode: AddMode,
    pub view_mode: ViewMode,
}

impl<C: Copy> Dashboard<C> {
    /// The parts are well formed and the buffer uses the shown
    /// configuration, a selectable one.
    pub open spec fn wf(&self) -> bool {
        &&& self.targets.wf()
        &&& self.buffer.wf()
        &&& self.buffer.spec_config() == self.config
        &&& is_valid_window(self.config.window_secs)
        &&& is_valid_interval(self.config.interval_ms)
    }

    /// Nothing watched, empty buffer, default configuration, line charts,
    /// adding by PID.
    pub fn new() -> (r: Self)
        ensures
            r.wf(),
            r.targets.spec_targets() == Map::<u32, Target>::empty(),
            r.buffer.ram() == Map::<u32, RingView<C>>::empty(),
            r.buffer.vram() == Map::<u32, VramView>::empty(),
            r.config == (WindowConfig { window_secs: 30, interval_ms: 1000 }),
            r.last_vram_board is None,
            r.error is None,
            r.add_mode == AddMode::Pid,
            r.view_mode == ViewMode::Line,
    {
        Dashboard {
            targets: TargetManager::new(),
            buffer: BufferManager::default(),
            last_vram_board: None,
            config: WindowConfig::default(),
            error: None,
            add_mode: AddMode::Pid,
            view_mode: ViewMode::Line,
        }
    }

    /// Applies a message. The previous error is cleared first. Messages that
    /// need the system answer the outside work to do.
    pub fn update(&mut self, msg: Message) -> (r: Effect)
        requires
            old(self).wf(),
        ensures
            final(self).wf(),
            final(self).error is None,
            final(self).add_mode == old(self).add_mode,
            final(self).last_vram_board == old(self).last_vram_board,
            match msg {
                Message::AddTargetPid(pid) => r == Effect::ReadProcess(pid) && final(self).targets == old(self).targets && final(self).buffer == old(self).buffer && final(self).config == old(self).config && final(self).view_mode == old(self).view_mode,
                Message::AddTargetName(name, mode) => r == Effect::ScanProcesses(name, mode) && final(self).targets == old(self).targets && final(self).buffer == old(self).buffer && final(self).config == old(self).config && final(self).view_mode == old(self).view_mode,
                Message::RemoveTarget(pid) => {
                    &&& r == Effect::Done
                    &&& final(self).targets.spec_targets() == old(self).targets.spec_targets().remove(pid)
                    &&& final(self).buffer.ram() == old(self).buffer.ram().remove(pid)
                    &&& final(self).buffer.vram() == old(self).buffer.vram().remove(pid)
                    &&& final(self).config == old(self).config
                    &&& final(self).view_mode == old(self).view_mode
                },
                Message::SetInterval(ms) => {
                    &&& r == Effect::Done
                    &&& final(self).targets == old(self).targets
                    &&& final(self).buffer.ram() == old(self).buffer.ram()
                    &&& final(self).buffer.vram() == old(self).buffer.vram()
                    &&& final(self).config == (if is_valid_interval(ms) {
                        WindowConfig { window_secs: old(self).config.window_secs, interval_ms: ms }
                    } else {
                        old(self).config
                    })
                    &&& final(self).view_mode == old(self).view_mode
                },
                Message::SetWindow(secs) => {
                    &&& r == Effect::Done
                    &&& final(self).targets == old(self).targets
                    &&& final(self).buffer.ram() == old(self).buffer.ram()
                    &&& final(self).buffer.vram() == old(self).buffer.vram()
                    &&& final(self).config == (if is_valid_window(secs) {
                        WindowConfig { window_secs: secs, interval_ms: old(self).config.interval_ms }
                    } else {
                        old(self).config
                    })
                    &&& final(self).view_mode == old(self).view_mode
                },
                Message::ClearBuffer => {
                    &&& r == Effect::Done
                    &&& final(self).targets == old(self).targets
                    &&& final(self).config == old(self).config
                    &&& final(self).view_mode == old(self).view_mode
                    &&& final(self).buffer.ram().dom() == old(self).buffer.ram().dom()
                    &&& final(self).buffer.vram().dom() == old(self).buffer.vram().dom()
                    &&& forall|pid: u32| #[trigger] final(self).buffer.ram().contains_key(pid) ==> final(self).buffer.ram()[pid] == RingView::<C>::empty()
                    &&& forall|pid: u32| #[trigger] final(self).buffer.vram().contains_key(pid) ==> final(self).buffer.vram()[pid] == VramView::empty()
                },
                Message::ExportCsv => r == Effect::Export(ExportFormat::Csv) && final(self).targets == old(self).targets && final(self).buffer == old(self).buffer && final(self).config == old(self).config && final(self).view_mode == old(self).view_mode,
                Message::ExportJson => r == Effect::Export(ExportFormat::Json) && final(self).targets == old(self).targets && final(self).buffer == old(self).buffer && final(self).config == old(self).config && final(self).view_mode == old(self).view_mode,
                Message::ToggleViewMode => r == Effect::Done && final(self).targets == old(self).targets && final(self).buffer == old(self).buffer && final(self).config == old(self).config && final(self).view_mode != old(self).view_mode,
                Message::Tick => r == Effect::Sample && final(self).targets == old(self).targets && final(self).buffer == old(self).buffer && final(self).config == old(self).config && final(self).view_mode == old(self).view_mode,
            },
    {
        self.error = None;
        match msg {
            Message::AddTargetPid(pid) => Effect::ReadProcess(pid),
            Message::AddTargetName(name, mode) => Effect::ScanProcesses(name, mode),
            Message::RemoveTarget(pid) => {
                self.buffer.remove_target(pid);
                let _ = self.targets.remove(pid);
                Effect::Done
            },
            Message::SetInterval(ms) => {
                if let Some(new_config) = WindowConfig::new(self.config.window_secs, ms) {
                    self.config = new_config;
                    self.buffer.set_config(new_config);
                }
                Effect::Done
            },
            Message::SetWindow(secs) => {
                if let Some(new_config) = WindowConfig::new(secs, self.config.interval_ms) {
                    self.config = new_config;
                    self.buffer.set_config(new_config);
                }
                Effect::Done
            },
            Message::ClearBuffer => {
                self.buffer.clear();
                Effect::Done
            },
            Message::ExportCsv => Effect::Export(ExportFormat::Csv),
            Message::ExportJson => Effect::Export(ExportFormat::Json),
            Message::ToggleViewMode => {
                self.view_mode = self.view_mode.toggled();
                Effect::Done
            },
            Message::Tick => Effect::Sample,
        }
    }

    /// Completes adding by PID with what reading the process gave; a failure
    /// becomes the shown error.
    pub fn finish_add_pid(&mut self, pid: u32, info: Result<(String, String, u64), TargetError>)
        requires
            old(self).wf(),
        ensures
            final(self).wf(),
            final(self).buffer == old(self).buffer,
            final(self).config == old(self).config,
            final(self).view_mode == old(self).view_mode,
            final(self).add_mode == old(self).add_mode,
            final(self).last_vram_board == old(self).last_vram_board,
            old(self).targets.spec_targets().contains_key(pid) ==> final(self).targets.spec_targets() == old(self).targets.spec_targets() && final(self).error == old(self).error,
            !old(self).targets.spec_targets().contains_key(pid) ==> match info {
                Ok((name, cmdline, starttime)) => {
                    &&& final(self).targets.spec_targets().contains_key(pid)
                    &&& crate::targets::made_from(final(self).targets.spec_targets()[pid], (pid, name, cmdline, starttime), AddMode::Pid)
                    &&& final(self).targets.spec_targets() == old(self).targets.spec_targets().insert(pid, final(self).targets.spec_targets()[pid])
                    &&& final(self).error == old(self).error
                },
                Err(e) => final(self).targets.spec_targets() == old(self).targets.spec_targets() && final(self).error == Some(e),
            },
    {
        let result = self.targets.add_by_pid(pid, info);
        if let Err(e) = result {
            self.error = Some(e);
        }
    }

    /// Completes adding by name with what the process table scan found; a
    /// failure becomes the shown error.
    pub fn finish_add_name(&mut self, name: &str, mode: AddMode, found: FindResult)
        requires
            old(self).wf(),
        ensures
            final(self).wf(),
            final(self).buffer == old(self).buffer,
            final(self).config == old(self).config,
            final(self).view_mode == old(self).view_mode,
            final(self).add_mode == old(self).add_mode,
            final(self).last_vram_board == old(self).last_vram_board,
            found.matches@.len() == 0 ==> {
                &&& final(self).targets.spec_targets() == old(self).targets.spec_targets()
                &&& found.permission_denied_count > 0 ==> final(self).error == Some(TargetError::PartialPermission { matched: 0, denied: found.permission_denied_count })
                &&& found.permission_denied_count == 0 ==> (final(self).error matches Some(TargetError::NameNoMatch(n)) && n@ == name@)
            },
            found.matches@.len() > 0 ==> {
                let ms = found.matches@;
                let dom0 = old(self).targets.spec_targets().dom();
                &&& final(self).error == old(self).error
                &&& forall|pid: u32| #[trigger] final(self).targets.spec_targets().contains_key(pid) <==> dom0.contains(pid) || exists|i: int| 0 <= i < ms.len() && ms[i].0 == pid
                &&& forall|pid: u32| #[trigger] dom0.contains(pid) ==> final(self).targets.spec_targets()[pid] == old(self).targets.spec_targets()[pid]
                &&& forall|i: int| 0 <= i < ms.len() && #[trigger] crate::targets::is_fresh(ms, dom0, i) ==> crate::targets::made_from(final(self).targets.spec_targets()[ms[i].0], ms[i], mode)
            },
    {
        let result = self.targets.add_by_name(name, mode, found);
        if let Err(e) = result {
            self.error = Some(e);
        }
    }

    /// Completes a sampling round: gone targets are marked dead, readings
    /// are pushed (into the history only in line mode), and the board
    /// reading replaces the previous one when there is one.
    pub fn finish_tick(&mut self, ts_ms: u64, readings: &Vec<Reading<C>>, board: Option<VramBoardSample>)
        requires
            old(self).wf(),
        ensures
            final(self).wf(),
            final(self).config == old(self).config,
            final(self).view_mode == old(self).view_mode,
            final(self).add_mode == old(self).add_mode,
            final(self).error == old(self).error,
            final(self).targets.spec_targets() == mark_all(old(self).targets.spec_targets(), gone_of(readings@)),
            final(self).buffer.ram() == push_all_ram_mode(old(self).buffer.ram(), ram_samples_of(readings@, ts_ms), old(self).config, old(self).view_mode == ViewMode::Line),
            final(self).buffer.vram() == push_all_vram_mode(old(self).buffer.vram(), vram_samples_of(readings@, ts_ms), old(self).config, old(self).view_mode == ViewMode::Line),
            board is Some ==> final(self).last_vram_board == board,
            board is None ==> final(self).last_vram_board == old(self).last_vram_board,
    {
        let (ram, vram) = collect_samples(&mut self.targets, ts_ms, readings);
        let track_history = self.view_mode.tracks_history();
        let ghost t1 = self.targets;
        let n = ram.len();
        for i in 0..n
            invariant
                n == ram@.len(),
                ram@ == ram_samples_of(readings@, ts_ms),
                self.targets == t1,
                t1.wf(),
                self.buffer.wf(),
                self.buffer.spec_config() == old(self).config,
                self.config == old(self).config,
                self.view_mode == old(self).view_mode,
                self.add_mode == old(self).add_mode,
                self.error == old(self).error,
                self.last_vram_board == old(self).last_vram_board,
                track_history == (old(self).view_mode == ViewMode::Line),
                is_valid_window(self.config.window_secs),
                is_valid_interval(self.config.interval_ms),
                self.buffer.vram() == old(self).buffer.vram(),
                self.buffer.ram() == push_all_ram_mode(old(self).buffer.ram(), ram@.take(i as int), old(self).config, track_history),
        {
            proof {
                assert(ram@.take(i + 1).drop_last() =~= ram@.take(i as int));
            }
            self.buffer.push_ram(ram[i], track_history);
        }
        assert(ram@.take(n as int) =~= ram@);
        let m = vram.len();
        for i in 0..m
            invariant
                m == vram@.len(),
                self.targets == t1,
                t1.wf(),
                self.buffer.wf(),
                self.buffer.spec_config() == old(self).config,
                self.config == old(self).config,
                self.view_mode == old(self).view_mode,
                self.add_mode == old(self).add_mode,
                self.error == old(self).error,
                self.last_vram_board == old(self).last_vram_board,
                track_history == (old(self).view_mode == ViewMode::Line),
                is_valid_window(self.config.window_secs),
                is_valid_interval(self.config.interval_ms),
                self.buffer.ram() == push_all_ram_mode(old(self).buffer.ram(), ram@, old(self).config, track_history),
                self.buffer.vram() == push_all_vram_mode(old(self).buffer.vram(), vram@.take(i as int), old(self).config, track_history),
        {
            proof {
                assert(vram@.take(i + 1).drop_last() =~= vram@.take(i as int));
            }
            self.buffer.push_vram(vram[i], track_history);
        }
        assert(vram@.take(m as int) =~= vram@);
        if let Some(b) = board {
            self.last_vram_board = Some(b);
        }
    }
}

} // verus!
