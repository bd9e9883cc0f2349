//! Data model: targets, samples and the window configuration.

use vstd::prelude::*;

verus! {

/// The monotonic clock instant that stamps when a target was added.
#[verifier::external_type_specification]
#[verifier::external_body]
pub struct ExInstant(std::time::Instant);

/// Reads the monotonic clock. `std::time::Instant::now`; nothing is claimed
/// of the value, which depends on the moment of the call.
#[verifier::external_body]
fn instant_now() -> std::time::Instant {
    std::time::Instant::now()
}

/// How a target was added.
#[derive(Debug, Clone, Copy, PartialEq, Eq, Structural)]
pub enum AddMode {
    Pid,
    Exact,
    Substring,
}

/// A watched process.
#[derive(Debug)]
pub struct Target {
    pub pid: u32,
    pub name: String,
    pub cmdline: String,
    pub starttime: u64,
    pub alive: bool,
    pub add_mode: AddMode,
    pub added_at: std::time::Instant,
}

impl Clone for Target {
    fn clone(&self) -> (r: Self)
        ensures
            r == *self,
    {
        Target {
            pid: self.pid,
            name: self.name.clone(),
            cmdline: self.cmdline.clone(),
            starttime: self.starttime,
            alive: self.alive,
            add_mode: self.add_mode,
            added_at: self.added_at,
        }
    }
}

impl Target {
    /// A fresh target is alive and carries the identity it was read with.
    pub fn new(pid: u32, name: String, cmdline: String, starttime: u64, add_mode: AddMode) -> (t:
        Self)
        ensures
            t.pid == pid,
            t.name == name,
            t.cmdline == cmdline,
            t.starttime == starttime,
            t.alive,
            t.add_mode == add_mode,
    {
        Target { pid, name, cmdline, starttime, alive: true, add_mode, added_at: instant_now() }
    }
}


/// One RAM/CPU reading of a process. The CPU share is carried as an opaque
/// payload `C`: the ring buffer keeps the last one per bucket and never
/// inspects it.
#[derive(Debug, Clone, Copy)]
pub struct Sample<C> {
    pub ts_ms: u64,
    pub pid: u32,
    pub rss_bytes: u64,
    pub cpu_pct: C,
}

/// Board-wide memory of one GPU at one moment.
#[derive(Debug, Clone, Copy)]
pub struct VramBoardSample {
    pub ts_ms: u64,
    pub gpu_index: u32,
    pub total_bytes: u64,
    pub used_bytes: u64,
    pub free_bytes: u64,
}

/// GPU memory used by one process at one moment.
#[derive(Debug, Clone, Copy)]
pub struct VramProcessSample {
    pub ts_ms: u64,
    pub pid: u32,
    pub used_bytes: u64,
}

/// The history window and the sampling interval.
#[derive(Debug, Clone, Copy, PartialEq, Eq, Structural)]
pub struct WindowConfig {
    pub window_secs: u32,
    pub interval_ms: u32,
}

/// The selectable history windows, in seconds.
pub open spec fn is_valid_window(secs: u32) -> bool {
    secs == 30 || secs == 300 || secs == 1800 || secs == 3600
}

/// The selectable sampling intervals, in milliseconds.
pub open spec fn is_valid_interval(ms: u32) -> bool {
    ms == 100 || ms == 250 || ms == 500 || ms == 1000 || ms == 2000
}

pub open spec fn spec_max(a: int, b: int) -> int {
    if a >= b { a } else { b }
}

impl WindowConfig {
    pub const VALID_WINDOWS: [u32; 4] = [30, 300, 1800, 3600];
    pub const VALID_INTERVALS: [u32; 5] = [100, 250, 500, 1000, 2000];
    pub const MAX_POINTS: usize = 1200;

    /// The window in milliseconds fits the `u32` arithmetic of `bucket_ms`,
    /// and a bucket is never zero wide.
    pub open spec fn wf(self) -> bool {
        &&& self.window_secs * 1000 <= u32::MAX
        &&& self.spec_bucket_ms() > 0
    }

    /// `max(interval_ms, window_ms / 1200)`.
    pub open spec fn spec_bucket_ms(self) -> int {
        spec_max(self.interval_ms as int, (self.window_secs * 1000) / 1200)
    }

    pub open spec fn window_ms(self) -> int {
        self.window_secs * 1000
    }

    /// Builds a configuration when both values are among the selectable ones.
    pub fn new(window_secs: u32, interval_ms: u32) -> (r: Option<Self>)
        ensures
            r is Some <==> is_valid_window(window_secs) && is_valid_interval(interval_ms),
            r is Some <==> Self::VALID_WINDOWS@.contains(window_secs) && Self::VALID_INTERVALS@.contains(interval_ms),
            r matches Some(c) ==> c.window_secs == window_secs && c.interval_ms == interval_ms,
            r matches Some(c) ==> c.wf(),
    {
        proof {
            crate::laws_rules::law_valid_config_lists(interval_ms, window_secs);
        }
        if (window_secs == 30 || window_secs == 300 || window_secs == 1800 || window_secs == 3600)
            && (interval_ms == 100 || interval_ms == 250 || interval_ms == 500 || interval_ms
            == 1000 || interval_ms == 2000) {
            Some(WindowConfig { window_secs, interval_ms })
        } else {
            None
        }
    }

    /// The effective bucket width in milliseconds.
    pub fn bucket_ms(&self) -> (r: u32)
        requires
            self.window_secs * 1000 <= u32::MAX,
        ensures
            r == self.spec_bucket_ms(),
    {
        let min_bucket = (self.window_secs * 1000) / (Self::MAX_POINTS as u32);
        if self.interval_ms >= min_bucket {
            self.interval_ms
        } else {
            min_bucket
        }
    }
}

impl Default for WindowConfig {
    fn default() -> (r: Self)
        ensures
            r.window_secs == 30,
            r.interval_ms == 1000,
    {
        WindowConfig { window_secs: 30, interval_ms: 1000 }
    }
}

} // verus!
