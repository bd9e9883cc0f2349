//! Per-process GPU memory as GPU 0 reports it.

use vstd::prelude::*;

verus! {

/// Why the GPU could not be queried.
#[derive(Debug)]
pub enum NvmlError {
    InitFailed(String),
    DeviceNotFound,
    QueryFailed(String),
}

/// A process the GPU lists, with the memory it uses when the driver knows
/// it.
pub type GpuProcess = (u32, Option<u64>);

/// The memory entry of the first listed process with PID `pid`.
pub open spec fn first_gpu_use(procs: Seq<GpuProcess>, pid: u32) -> Option<Option<u64>>
    decreases procs.len(),
{
    if procs.len() == 0 {
        None
    } else if procs[0].0 == pid {
        Some(procs[0].1)
    } else {
        first_gpu_use(procs.drop_first(), pid)
    }
}

/// What GPU memory `pid` uses, from the lists of compute and of graphics
/// processes (`None` where a list could not be read). The compute list is
/// searched first; a process listed without a known amount counts as
/// unknown.
pub open spec fn process_vram_spec(pid: u32, compute: Option<Seq<GpuProcess>>, graphics: Option<Seq<GpuProcess>>) -> Option<u64> {
    match compute {
        None => None,
        Some(c) => match first_gpu_use(c, pid) {
            Some(m) => m,
            None => match graphics {
                None => None,
                Some(g) => match first_gpu_use(g, pid) {
                    Some(m) => m,
                    None => None,
                },
            },
        },
    }
}

pub open spec fn list_view(l: Option<Vec<GpuProcess>>) -> Option<Seq<GpuProcess>> {
    match l {
        Some(v) => Some(v@),
        None => None,
    }
}

fn find_gpu_use(procs: &Vec<GpuProcess>, pid: u32) -> (r: Option<Option<u64>>)
    ensures
        r == first_gpu_use(procs@, pid),
{
    let n = procs.len();
    let mut i: usize = 0;
    assert(procs@.skip(0) =~= procs@);
    while i < n
        invariant
            n == procs@.len(),
            i <= n,
            first_gpu_use(procs@, pid) == first_gpu_use(procs@.skip(i as int), pid),
        decreases n - i,
    {
        assert(procs@.skip(i as int)[0] == procs@[i as int]);
        assert(procs@.skip(i as int).drop_first() =~= procs@.skip(i + 1));
        if procs[i].0 == pid {
            return Some(procs[i].1);
        }
        i = i + 1;
    }
    assert(procs@.skip(n as int).len() == 0);
    None
}

/// The GPU memory used by `pid`, if the GPU reports it.
pub fn process_vram(pid: u32, compute: Option<Vec<GpuProcess>>, graphics: Option<Vec<GpuProcess>>) -> (r: Option<u64>)
    ensures
        r == process_vram_spec(pid, list_view(compute), list_view(graphics)),
{
    let compute = match compute {
        Some(c) => c,
        None => return None,
    };
    if let Some(used) = find_gpu_use(&compute, pid) {
        return used;
    }
    let graphics = match graphics {
        Some(g) => g,
        None => return None,
    };
    match find_gpu_use(&graphics, pid) {
        Some(used) => used,
        None => None,
    }
}

} // verus!
