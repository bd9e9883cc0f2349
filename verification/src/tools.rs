//! The request-independent parts of the agent tool protocol: names,
//! error codes, argument checks and the figures each tool reports.

use vstd::prelude::*;
use crate::buffer::{BufferManager, RamPoint, RingView, VramPoint, VramView, last_point, peak_ram, peak_vram};
use crate::model::{AddMode, Sample, Target, VramProcessSample, WindowConfig, is_valid_interval, is_valid_window};
use crate::targets::TargetError;
use crate::text::chars_of;

verus! {

pub const ERR_PID_NOT_FOUND: i32 = -32001;
pub const ERR_PERMISSION_DENIED: i32 = -32002;
pub const ERR_GPU_UNAVAILABLE: i32 = -32003;
pub const ERR_INVALID_INTERVAL: i32 = -32004;
pub const ERR_INVALID_WINDOW: i32 = -32005;
pub const ERR_TARGET_NOT_WATCHED: i32 = -32006;
pub const ERR_NAME_NO_MATCH: i32 = -32007;
pub const ERR_PARTIAL_PERMISSION: i32 = -32008;
pub const ERR_INVALID_PARAMS: i32 = -32602;
pub const ERR_METHOD_NOT_FOUND: i32 = -32601;
pub const ERR_PARSE: i32 = -32700;

/// Whether two strings hold the same characters.
pub fn str_eq(a: &str, b: &str) -> (r: bool)
    ensures
        r == (a@ == b@),
{
    let x = chars_of(a);
    let y = chars_of(b);
    if x.len() != y.len() {
        return false;
    }
    let n = x.len();
    let mut i: usize = 0;
    while i < n
        invariant
            n == x@.len() == y@.len(),
            x@ == a@,
            y@ == b@,
            i <= n,
            forall|j: int| 0 <= j < i ==> x@[j] == y@[j],
        decreases n - i,
    {
        if x[i] != y[i] {
            assert(x@[i as int] != y@[i as int]);
            return false;
        }
        i = i + 1;
    }
    assert(x@ =~= y@);
    true
}

/// The JSON-RPC methods the server answers.
#[derive(Debug, Clone, Copy, PartialEq, Eq, Structural)]
pub enum Method {
    Initialize,
    Initialized,
    ToolsList,
    ToolsCall,
}

pub open spec fn method_spec(name: Seq<char>) -> Option<Method> {
    if name == "initialize"@ {
        Some(Method::Initialize)
    } else if name == "notifications/initialized"@ {
        Some(Method::Initialized)
    } else if name == "tools/list"@ {
        Some(Method::ToolsList)
    } else if name == "tools/call"@ {
        Some(Method::ToolsCall)
    } else {
        None
    }
}

/// The method a request names; `None` for an unknown one.
pub fn method_from_name(name: &str) -> (r: Option<Method>)
    ensures
        r == method_spec(name@),
{
    if str_eq(name, "initialize") {
        Some(Method::Initialize)
    } else if str_eq(name, "notifications/initialized") {
        Some(Method::Initialized)
    } else if str_eq(name, "tools/list") {
        Some(Method::ToolsList)
    } else if str_eq(name, "tools/call") {
        Some(Method::ToolsCall)
    } else {
        None
    }
}

/// The tools the server offers.
#[derive(Debug, Clone, Copy, PartialEq, Eq, Structural)]
pub enum Tool {
    Health,
    ListTargets,
    AddTargetPid,
    AddTargetName,
    RemoveTarget,
    SetIntervalMs,
    SetWindowSecs,
    ClearBuffer,
    GetLive,
    GetVram,
    WindowStats,
    ExportBuffer,
}

pub open spec fn tool_spec(name: Seq<char>) -> Option<Tool> {
    if name == "health"@ {
        Some(Tool::Health)
    } else if name == "list_targets"@ {
        Some(Tool::ListTargets)
    } else if name == "add_target_pid"@ {
        Some(Tool::AddTargetPid)
    } else if name == "add_target_name"@ {
        Some(Tool::AddTargetName)
    } else if name == "remove_target"@ {
        Some(Tool::RemoveTarget)
    } else if name == "set_interval_ms"@ {
        Some(Tool::SetIntervalMs)
    } else if name == "set_window_secs"@ {
        Some(Tool::SetWindowSecs)
    } else if name == "clear_buffer"@ {
        Some(Tool::ClearBuffer)
    } else if name == "get_live"@ {
        Some(Tool::GetLive)
    } else if name == "get_vram"@ {
        Some(Tool::GetVram)
    } else if name == "window_stats"@ {
        Some(Tool::WindowStats)
    } else if name == "export_buffer"@ {
        Some(Tool::ExportBuffer)
    } else {
        None
    }
}

/// The tool a call names; `None` for an unknown one.
pub fn tool_from_name(name: &str) -> (r: Option<Tool>)
    ensures
        r == tool_spec(name@),
{
    if str_eq(name, "health") {
        Some(Tool::Health)
    } else if str_eq(name, "list_targets") {
        Some(Tool::ListTargets)
    } else if str_eq(name, "add_target_pid") {
        Some(Tool::AddTargetPid)
    } else if str_eq(name, "add_target_name") {
        Some(Tool::AddTargetName)
    } else if str_eq(name, "remove_target") {
        Some(Tool::RemoveTarget)
    } else if str_eq(name, "set_interval_ms") {
        Some(Tool::SetIntervalMs)
    } else if str_eq(name, "set_window_secs") {
        Some(Tool::SetWindowSecs)
    } else if str_eq(name, "clear_buffer") {
        Some(Tool::ClearBuffer)
    } else if str_eq(name, "get_live") {
        Some(Tool::GetLive)
    } else if str_eq(name, "get_vram") {
        Some(Tool::GetVram)
    } else if str_eq(name, "window_stats") {
        Some(Tool::WindowStats)
    } else if str_eq(name, "export_buffer") {
        Some(Tool::ExportBuffer)
    } else {
        None
    }
}

/// The search mode a `mode` argument names.
pub fn parse_add_mode(mode: &str) -> (r: Option<AddMode>)
    ensures
        r == (if mode@ == "exact"@ {
            Some(AddMode::Exact)
        } else if mode@ == "substring"@ {
            Some(AddMode::Substring)
        } else {
            None
        }),
{
    if str_eq(mode, "exact") {
        Some(AddMode::Exact)
    } else if str_eq(mode, "substring") {
        Some(AddMode::Substring)
    } else {
        None
    }
}

/// The export formats.
#[derive(Debug, Clone, Copy, PartialEq, Eq, Structural)]
pub enum ExportFormat {
    Csv,
    Json,
}

/// The export format a `format` argument names.
pub fn parse_export_format(format: &str) -> (r: Option<ExportFormat>)
    ensures
        r == (if format@ == "csv"@ {
            Some(ExportFormat::Csv)
        } else if format@ == "json"@ {
            Some(ExportFormat::Json)
        } else {
            None
        }),
{
    if str_eq(format, "csv") {
        Some(ExportFormat::Csv)
    } else if str_eq(format, "json") {
        Some(ExportFormat::Json)
    } else {
        None
    }
}

pub open spec fn pid_error_code(e: TargetError) -> i32 {
    match e {
        TargetError::PidNotFound(_) => ERR_PID_NOT_FOUND,
        TargetError::PermissionDenied(_) => ERR_PERMISSION_DENIED,
        _ => ERR_INVALID_PARAMS,
    }
}

pub open spec fn name_error_code(e: TargetError) -> i32 {
    match e {
        TargetError::NameNoMatch(_) => ERR_NAME_NO_MATCH,
        TargetError::PartialPermission { .. } => ERR_PARTIAL_PERMISSION,
        TargetError::PermissionDenied(_) => ERR_PERMISSION_DENIED,
        _ => ERR_INVALID_PARAMS,
    }
}

/// The error code that adding by PID answers a failure with.
pub fn add_pid_error_code(e: &TargetError) -> (r: i32)
    ensures
        r == pid_error_code(*e),
{
    match e {
        TargetError::PidNotFound(_) => ERR_PID_NOT_FOUND,
        TargetError::PermissionDenied(_) => ERR_PERMISSION_DENIED,
        _ => ERR_INVALID_PARAMS,
    }
}

/// The error code that adding by name answers a failure with.
pub fn add_name_error_code(e: &TargetError) -> (r: i32)
    ensures
        r == name_error_code(*e),
{
    match e {
        TargetError::NameNoMatch(_) => ERR_NAME_NO_MATCH,
        TargetError::PartialPermission { .. } => ERR_PARTIAL_PERMISSION,
        TargetError::PermissionDenied(_) => ERR_PERMISSION_DENIED,
        _ => ERR_INVALID_PARAMS,
    }
}

/// The configuration with a new sampling interval, or the error for an
/// interval that is not selectable.
pub fn interval_change(config: &WindowConfig, ms: u32) -> (r: Result<WindowConfig, i32>)
    requires
        is_valid_window(config.window_secs),
    ensures
        is_valid_interval(ms) ==> r == Ok::<WindowConfig, i32>(WindowConfig { window_secs: config.window_secs, interval_ms: ms }),
        !is_valid_interval(ms) ==> r == Err::<WindowConfig, i32>(ERR_INVALID_INTERVAL),
        r matches Ok(c) ==> c.wf(),
{
    match WindowConfig::new(config.window_secs, ms) {
        Some(c) => Ok(c),
        None => Err(ERR_INVALID_INTERVAL),
    }
}

/// The configuration with a new history window, or the error for a window
/// that is not selectable.
pub fn window_change(config: &WindowConfig, secs: u32) -> (r: Result<WindowConfig, i32>)
    requires
        is_valid_interval(config.interval_ms),
    ensures
        is_valid_window(secs) ==> r == Ok::<WindowConfig, i32>(WindowConfig { window_secs: secs, interval_ms: config.interval_ms }),
        !is_valid_window(secs) ==> r == Err::<WindowConfig, i32>(ERR_INVALID_WINDOW),
        r matches Ok(c) ==> c.wf(),
{
    match WindowConfig::new(secs, config.interval_ms) {
        Some(c) => Ok(c),
        None => Err(ERR_INVALID_WINDOW),
    }
}

/// The targets of `list` a tool reports on: all of them, or those with the
/// PID asked for.
pub open spec fn selected<'a>(list: Seq<&'a Target>, filter: Option<u32>) -> Seq<&'a Target>
    decreases list.len(),
{
    if list.len() == 0 {
        Seq::empty()
    } else {
        let prev = selected(list.drop_last(), filter);
        match filter {
            Some(pid) => if list.last().pid == pid {
                prev.push(list.last())
            } else {
                prev
            },
            None => prev.push(list.last()),
        }
    }
}

/// Which targets a selection keeps: those of `list` that pass the filter,
/// each once.
pub proof fn lemma_selected<'a>(list: Seq<&'a Target>, filter: Option<u32>)
    requires
        forall|i: int, j: int| 0 <= i < j < list.len() ==> list[i].pid != list[j].pid,
    ensures
        forall|i: int| 0 <= i < selected(list, filter).len() ==> list.contains(#[trigger] selected(list, filter)[i]) && (filter matches Some(p) ==> selected(list, filter)[i].pid == p),
        forall|j: int| 0 <= j < list.len() && (filter matches Some(p) ==> list[j].pid == p) ==> selected(list, filter).contains(#[trigger] list[j]),
        forall|i: int, j: int| 0 <= i < j < selected(list, filter).len() ==> selected(list, filter)[i].pid != selected(list, filter)[j].pid,
    decreases list.len(),
{
    if list.len() > 0 {
        let q = list.drop_last();
        lemma_selected(q, filter);
        let s = selected(list, filter);
        let sq = selected(q, filter);
        let l = list.last();
        assert(forall|i: int| 0 <= i < q.len() ==> q[i] == list[i]);
        assert forall|i: int| 0 <= i < sq.len() implies sq[i].pid != l.pid by {
            let k = q.index_of(sq[i]);
            assert(list[k] == sq[i]);
        }
        assert forall|i: int| 0 <= i < s.len() implies list.contains(#[trigger] s[i]) && (filter matches Some(p) ==> s[i].pid == p) by {
            if i < sq.len() {
                assert(s[i] == sq[i]);
                let k = q.index_of(sq[i]);
                assert(list[k] == sq[i]);
            } else {
                assert(list[list.len() - 1] == l);
            }
        }
        assert forall|j: int| 0 <= j < list.len() && (filter matches Some(p) ==> list[j].pid == p) implies s.contains(#[trigger] list[j]) by {
            if j < q.len() {
                assert(q[j] == list[j]);
                assert(sq.contains(q[j]));
                let k = sq.index_of(q[j]);
                assert(s[k] == sq[k]);
            } else {
                assert(s[s.len() - 1] == l);
            }
        }
    }
}

pub fn select_targets<'a>(list: &Vec<&'a Target>, filter: Option<u32>) -> (r: Vec<&'a Target>)
    ensures
        r@ == selected(list@, filter),
{
    let mut out: Vec<&'a Target> = Vec::new();
    let n = list.len();
    for i in 0..n
        invariant
            n == list@.len(),
            out@ == selected(list@.take(i as int), filter),
    {
        proof {
            let t = list@.take(i + 1);
            assert(t.drop_last() =~= list@.take(i as int));
        }
        let t = list[i];
        match filter {
            Some(pid) => {
                if t.pid == pid {
                    out.push(t);
                }
            },
            None => out.push(t),
        }
    }
    assert(list@.take(n as int) =~= list@);
    out
}

/// Like `select_targets`, but asking for a PID that is not watched is an
/// error.
pub fn select_watched<'a>(list: &Vec<&'a Target>, filter: Option<u32>) -> (r: Result<Vec<&'a Target>, i32>)
    ensures
        (filter is Some && selected(list@, filter).len() == 0) ==> r == Err::<Vec<&'a Target>, i32>(ERR_TARGET_NOT_WATCHED),
        !(filter is Some && selected(list@, filter).len() == 0) ==> (r matches Ok(v) && v@ == selected(list@, filter)),
{
    let out = select_targets(list, filter);
    if filter.is_some() && out.len() == 0 {
        Err(ERR_TARGET_NOT_WATCHED)
    } else {
        Ok(out)
    }
}

/// The window figures of one target: peak, newest bucketed point and
/// point count, for RAM and for VRAM.
pub struct WindowStats<C> {
    pub ram_peak: Option<(u64, u64)>,
    pub ram_latest: Option<RamPoint<C>>,
    pub ram_count: usize,
    pub vram_peak: Option<(u64, u64)>,
    pub vram_latest: Option<VramPoint>,
    pub vram_count: usize,
}

/// The RAM view of a PID, empty when it has no series.
pub open spec fn ram_or_empty<C>(m: Map<u32, RingView<C>>, pid: u32) -> RingView<C> {
    if m.contains_key(pid) {
        m[pid]
    } else {
        RingView::empty()
    }
}

/// The VRAM view of a PID, empty when it has no series.
pub open spec fn vram_or_empty(m: Map<u32, VramView>, pid: u32) -> VramView {
    if m.contains_key(pid) {
        m[pid]
    } else {
        VramView::empty()
    }
}

/// The window figures of `pid`.
pub fn window_stats<C: Copy>(buffer: &BufferManager<C>, pid: u32) -> (r: WindowStats<C>)
    requires
        buffer.wf(),
    ensures
        r.ram_peak == peak_ram(ram_or_empty(buffer.ram(), pid).points()),
        r.ram_latest == last_point(ram_or_empty(buffer.ram(), pid).points()),
        r.ram_count == ram_or_empty(buffer.ram(), pid).points().len(),
        r.vram_peak == peak_vram(vram_or_empty(buffer.vram(), pid).points()),
        r.vram_latest == last_point(vram_or_empty(buffer.vram(), pid).points()),
        r.vram_count == vram_or_empty(buffer.vram(), pid).points().len(),
{
    let (ram_peak, ram_latest, ram_count) = match buffer.get_ram_series(pid) {
        Some(s) => (s.peak_rss(), s.latest_downsampled(), s.count()),
        None => (None, None, 0),
    };
    let (vram_peak, vram_latest, vram_count) = match buffer.get_vram_series(pid) {
        Some(s) => (s.peak(), s.latest_downsampled(), s.count()),
        None => (None, None, 0),
    };
    WindowStats { ram_peak, ram_latest, ram_count, vram_peak, vram_latest, vram_count }
}

/// The newest raw readings of `pid`: RAM/CPU and VRAM.
pub fn live_readings<C: Copy>(buffer: &BufferManager<C>, pid: u32) -> (r: (Option<Sample<C>>, Option<VramProcessSample>))
    requires
        buffer.wf(),
    ensures
        r.0 == ram_or_empty(buffer.ram(), pid).last_raw,
        r.1 == vram_or_empty(buffer.vram(), pid).last_raw,
{
    let ram = match buffer.get_ram_series(pid) {
        Some(s) => match s.latest_raw() {
            Some(x) => Some(*x),
            None => None,
        },
        None => None,
    };
    let vram = match buffer.get_vram_series(pid) {
        Some(s) => match s.latest_raw() {
            Some(x) => Some(*x),
            None => None,
        },
        None => None,
    };
    (ram, vram)
}

} // verus!
