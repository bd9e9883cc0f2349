//! The set of watched processes.
//!
//! Process information is read from the system by the caller and handed in;
//! this module decides what to record, mark or report from it.

use vstd::prelude::*;
use std::collections::HashMap;
use vstd::std_specs::iter::IteratorSpec;
use crate::maps::map_keys;
use crate::model::{AddMode, Target};
use crate::procfs::{parse_starttime, stat_cut_ok, stat_starttime};

verus! {

broadcast use vstd::std_specs::hash::group_hash_axioms;

/// Why a target operation failed.
#[derive(Debug)]
pub enum TargetError {
    PidNotFound(u32),
    PermissionDenied(u32),
    NameNoMatch(String),
    TargetNotWatched(u32),
    PartialPermission { matched: usize, denied: usize },
}

/// What became of a watched PID since it was added.
#[derive(Debug, Clone, Copy, PartialEq, Eq, Structural)]
pub enum PidStatus {
    Alive,
    Dead,
    Reused,
}

/// What a process table scan found for a name: the matching live processes
/// as `(pid, name, cmdline, starttime)`, and how many processes could not be
/// read for lack of permission.
pub struct FindResult {
    pub matches: Vec<(u32, String, String, u64)>,
    pub permission_denied_count: usize,
}

/// `t` was made from the process information of a match by `mode`.
pub open spec fn made_from(t: Target, m: (u32, String, String, u64), mode: AddMode) -> bool {
    &&& t.pid == m.0
    &&& t.name == m.1
    &&& t.cmdline == m.2
    &&& t.starttime == m.3
    &&& t.alive
    &&& t.add_mode == mode
}

/// Index `i` is the first match of its PID and that PID was not watched.
pub open spec fn is_fresh(ms: Seq<(u32, String, String, u64)>, dom: Set<u32>, i: int) -> bool {
    &&& !dom.contains(ms[i].0)
    &&& forall|j: int| 0 <= j < i ==> ms[j].0 != ms[i].0
}

/// The PIDs that a name search adds, in match order.
pub open spec fn fresh_pids(ms: Seq<(u32, String, String, u64)>, dom: Set<u32>) -> Seq<u32>
    decreases ms.len(),
{
    if ms.len() == 0 {
        Seq::empty()
    } else {
        let prev = fresh_pids(ms.drop_last(), dom);
        if is_fresh(ms, dom, ms.len() - 1) {
            prev.push(ms.last().0)
        } else {
            prev
        }
    }
}

/// The alive ones among `keys`, in order.
pub open spec fn alive_in_order(keys: Seq<u32>, m: Map<u32, Target>) -> Seq<u32>
    decreases keys.len(),
{
    if keys.len() == 0 {
        Seq::empty()
    } else {
        let prev = alive_in_order(keys.drop_last(), m);
        if m[keys.last()].alive {
            prev.push(keys.last())
        } else {
            prev
        }
    }
}

/// The watched targets, keyed by PID.
pub struct TargetManager {
    targets: HashMap<u32, Target>,
}

impl TargetManager {
    pub closed spec fn spec_targets(&self) -> Map<u32, Target> {
        self.targets@
    }

    /// The walk over the watched PIDs; its `remaining()` is the order in
    /// which they are listed, fixed for an unchanged set of targets.
    pub closed spec fn key_walk(&self) -> std::collections::hash_map::Keys<'_, u32, Target> {
        vstd::std_specs::hash::spec_keys_iter(&self.targets)
    }

    /// Every target is stored under its own PID.
    pub open spec fn wf(&self) -> bool {
        forall|pid: u32| #[trigger] self.spec_targets().contains_key(pid) ==> self.spec_targets()[pid].pid == pid
    }

    pub fn new() -> (r: Self)
        ensures
            r.wf(),
            r.spec_targets() == Map::<u32, Target>::empty(),
    {
        TargetManager { targets: HashMap::new() }
    }

    /// Watches `pid`. `info` is what reading the process gave: its name,
    /// command line and start time, or why it could not be read. A PID that
    /// is already watched is returned as it is, whatever `info` holds.
    pub fn add_by_pid(&mut self, pid: u32, info: Result<(String, String, u64), TargetError>) -> (r:
        Result<&Target, TargetError>)
        requires
            old(self).wf(),
        ensures
            final(self).wf(),
            old(self).spec_targets().contains_key(pid) ==> {
                &&& final(self).spec_targets() == old(self).spec_targets()
                &&& (r matches Ok(t) && *t == old(self).spec_targets()[pid])
            },
            !old(self).spec_targets().contains_key(pid) ==> match info {
                Ok((name, cmdline, starttime)) => {
                    &&& r matches Ok(t)
                    &&& made_from(*t, (pid, name, cmdline, starttime), AddMode::Pid)
                    &&& final(self).spec_targets() == old(self).spec_targets().insert(pid, *t)
                },
                Err(e) => {
                    &&& r == Err::<&Target, TargetError>(e)
                    &&& final(self).spec_targets() == old(self).spec_targets()
                },
            },
    {
        if self.targets.contains_key(&pid) {
            return Ok(self.targets.get(&pid).unwrap());
        }
        let (name, cmdline, starttime) = info?;
        let target = Target::new(pid, name, cmdline, starttime, AddMode::Pid);
        self.targets.insert(pid, target);
        Ok(self.targets.get(&pid).unwrap())
    }

    /// Watches every process of a name search that is not watched yet.
    /// Fails when nothing matched: for lack of permission if some processes
    /// could not be read, otherwise because no process has that name.
    /// Returns the PIDs added, in match order.
    pub fn add_by_name(&mut self, name: &str, mode: AddMode, found: FindResult) -> (r: Result<
        Vec<u32>,
        TargetError,
    >)
        requires
            old(self).wf(),
        ensures
            final(self).wf(),
            found.matches@.len() == 0 ==> {
                &&& final(self).spec_targets() == old(self).spec_targets()
                &&& found.permission_denied_count > 0 ==> r == Err::<Vec<u32>, TargetError>(
                    TargetError::PartialPermission {
                        matched: 0,
                        denied: found.permission_denied_count,
                    },
                )
                &&& found.permission_denied_count == 0 ==> (r matches Err(TargetError::NameNoMatch(n)) && n@ == name@)
            },
            found.matches@.len() > 0 ==> {
                let ms = found.matches@;
                let dom0 = old(self).spec_targets().dom();
                &&& (r matches Ok(added) && added@ == fresh_pids(ms, dom0))
                &&& forall|pid: u32| #[trigger] final(self).spec_targets().contains_key(pid) <==> dom0.contains(pid) || exists|i: int| 0 <= i < ms.len() && ms[i].0 == pid
                &&& forall|pid: u32| #[trigger] dom0.contains(pid) ==> final(self).spec_targets()[pid] == old(self).spec_targets()[pid]
                &&& forall|i: int| 0 <= i < ms.len() && #[trigger] is_fresh(ms, dom0, i) ==> made_from(final(self).spec_targets()[ms[i].0], ms[i], mode)
            },
    {
        if found.matches.len() == 0 {
            if found.permission_denied_count > 0 {
                return Err(TargetError::PartialPermission {
                    matched: 0,
                    denied: found.permission_denied_count,
                });
            }
            return Err(TargetError::NameNoMatch(name.to_owned()));
        }
        let ghost ms = found.matches@;
        let ghost dom0 = self.targets@.dom();
        let ghost old_map = self.targets@;
        let mut added: Vec<u32> = Vec::new();
        let n = found.matches.len();
        for i in 0..n
            invariant
                n == ms.len(),
                ms == found.matches@,
                dom0 == old_map.dom(),
                self.wf(),
                added@ == fresh_pids(ms.take(i as int), dom0),
                forall|pid: u32| #[trigger] self.targets@.contains_key(pid) <==> dom0.contains(pid) || exists|j: int| 0 <= j < i && ms[j].0 == pid,
                forall|pid: u32| #[trigger] dom0.contains(pid) ==> self.targets@[pid] == old_map[pid],
                forall|j: int| 0 <= j < i && #[trigger] is_fresh(ms, dom0, j) ==> made_from(self.targets@[ms[j].0], ms[j], mode),
        {
            let pid = found.matches[i].0;
            proof {
                let t = ms.take(i + 1);
                assert(t.drop_last() =~= ms.take(i as int));
                assert(forall|j: int| 0 <= j <= i ==> t[j] == ms[j]);
                assert(is_fresh(t, dom0, i as int) == is_fresh(ms, dom0, i as int));
                assert forall|j: int| 0 <= j < i implies self.targets@.contains_key(#[trigger] ms[j].0) by {}
            }
            if !self.targets.contains_key(&pid) {
                let proc_name = found.matches[i].1.clone();
                let cmdline = found.matches[i].2.clone();
                let starttime = found.matches[i].3;
                let target = Target::new(pid, proc_name, cmdline, starttime, mode);
                self.targets.insert(pid, target);
                added.push(pid);
                proof {
                    assert(is_fresh(ms, dom0, i as int));
                }
            } else {
                proof {
                    assert(!is_fresh(ms, dom0, i as int));
                }
            }
            proof {
                assert forall|j: int| 0 <= j < i + 1 && #[trigger] is_fresh(ms, dom0, j) implies made_from(self.targets@[ms[j].0], ms[j], mode) by {
                    if j < i {
                        assert(ms[j].0 != ms[i as int].0 || !is_fresh(ms, dom0, i as int));
                    }
                }
            }
        }
        assert(ms.take(n as int) =~= ms);
        Ok(added)
    }

    /// Stops watching `pid`; fails when it was not watched.
    pub fn remove(&mut self, pid: u32) -> (r: Result<(), TargetError>)
        requires
            old(self).wf(),
        ensures
            final(self).wf(),
            final(self).spec_targets() == old(self).spec_targets().remove(pid),
            r is Ok <==> old(self).spec_targets().contains_key(pid),
            r matches Err(e) ==> e == TargetError::TargetNotWatched(pid),
    {
        if self.targets.remove(&pid).is_some() {
            Ok(())
        } else {
            Err(TargetError::TargetNotWatched(pid))
        }
    }

    pub fn get(&self, pid: u32) -> (r: Option<&Target>)
        ensures
            match r {
                Some(t) => self.spec_targets().contains_key(pid) && *t == self.spec_targets()[pid],
                None => !self.spec_targets().contains_key(pid),
            },
    {
        self.targets.get(&pid)
    }

    /// Mutable access to a watched target. The map holds whatever the
    /// caller leaves behind the reference.
    pub fn get_mut(&mut self, pid: u32) -> (r: Option<&mut Target>)
        ensures
            match r {
                Some(t) => {
                    &&& old(self).spec_targets().contains_key(pid)
                    &&& *t == old(self).spec_targets()[pid]
                    &&& final(self).spec_targets() == old(self).spec_targets().insert(pid, *final(t))
                },
                None => {
                    &&& !old(self).spec_targets().contains_key(pid)
                    &&& final(self).spec_targets() == old(self).spec_targets()
                },
            },
    {
        match self.targets.entry(pid) {
            std::collections::hash_map::Entry::Occupied(o) => Some(o.into_mut()),
            std::collections::hash_map::Entry::Vacant(_) => None,
        }
    }

    /// Every watched target once, in the map's iteration order.
    pub fn list(&self) -> (r: Vec<&Target>)
        requires
            self.wf(),
        ensures
            r@.len() == self.key_walk().remaining().unref().len(),
            forall|i: int| 0 <= i < r@.len() ==> #[trigger] r@[i].pid == self.key_walk().remaining().unref()[i],
            r@.len() == self.spec_targets().dom().len(),
            forall|i: int| 0 <= i < r@.len() ==> self.spec_targets().contains_key(#[trigger] r@[i].pid) && *r@[i] == self.spec_targets()[r@[i].pid],
            forall|i: int, j: int| 0 <= i < j < r@.len() ==> #[trigger] r@[i].pid != #[trigger] r@[j].pid,
            forall|pid: u32| #[trigger] self.spec_targets().contains_key(pid) ==> exists|i: int| 0 <= i < r@.len() && r@[i].pid == pid,
    {
        let keys = map_keys(&self.targets);
        let mut out: Vec<&Target> = Vec::new();
        let n = keys.len();
        for i in 0..n
            invariant
                n == keys@.len(),
                keys@.no_duplicates(),
                keys@.to_set() == self.spec_targets().dom(),
                self.wf(),
                out@.len() == i,
                forall|j: int| 0 <= j < i ==> out@[j].pid == keys@[j],
                forall|j: int| 0 <= j < i ==> *out@[j] == self.spec_targets()[keys@[j]],
        {
            let k = keys[i];
            assert(keys@.to_set().contains(k));
            assert(self.spec_targets().contains_key(k));
            let t = self.targets.get(&k).unwrap();
            assert(t.pid == k);
            out.push(t);
        }
        proof {
            assert forall|pid: u32| #[trigger] self.spec_targets().contains_key(pid) implies exists|i: int| 0 <= i < out@.len() && out@[i].pid == pid by {
                assert(keys@.to_set().contains(pid));
                let i = keys@.index_of(pid);
                assert(out@[i].pid == pid);
            }
            assert forall|i: int, j: int| 0 <= i < j < out@.len() implies #[trigger] out@[i].pid != #[trigger] out@[j].pid by {
                assert(keys@[i] != keys@[j]);
            }
            keys@.unique_seq_to_set();
        }
        out
    }

    /// The PIDs of the targets still alive, each once.
    pub fn alive_pids(&self) -> (r: Vec<u32>)
        requires
            self.wf(),
        ensures
            r@.no_duplicates(),
            forall|pid: u32| r@.contains(pid) <==> self.spec_targets().contains_key(pid) && self.spec_targets()[pid].alive,
            r@ == alive_in_order(self.key_walk().remaining().unref(), self.spec_targets()),
    {
        let keys = map_keys(&self.targets);
        let mut out: Vec<u32> = Vec::new();
        let n = keys.len();
        for i in 0..n
            invariant
                n == keys@.len(),
                keys@.no_duplicates(),
                keys@.to_set() == self.spec_targets().dom(),
                out@.no_duplicates(),
                forall|pid: u32| out@.contains(pid) <==> exists|j: int| 0 <= j < i && keys@[j] == pid && self.spec_targets()[pid].alive,
                keys@ == self.key_walk().remaining().unref(),
                out@ == alive_in_order(keys@.take(i as int), self.spec_targets()),
        {
            proof {
                assert(keys@.take(i + 1).drop_last() =~= keys@.take(i as int));
            }
            let k = keys[i];
            assert(keys@.to_set().contains(k));
            let t = self.targets.get(&k).unwrap();
            let ghost prev = out@;
            if t.alive {
                proof {
                    assert forall|j: int| 0 <= j < i implies keys@[j] != k by {}
                    assert(!prev.contains(k));
                }
                out.push(k);
                proof {
                    assert forall|pid: u32| out@.contains(pid) <==> (prev.contains(pid) || pid == k) by {
                        if out@.contains(pid) {
                            let x = out@.index_of(pid);
                            if x < prev.len() {
                                assert(prev[x] == pid);
                            }
                        }
                        if prev.contains(pid) {
                            let x = prev.index_of(pid);
                            assert(out@[x] == pid);
                        }
                        if pid == k {
                            assert(out@[prev.len() as int] == k);
                        }
                    }
                    assert forall|a: int, b: int| 0 <= a < out@.len() && 0 <= b < out@.len() && a != b implies out@[a] != out@[b] by {
                        if a < prev.len() && b < prev.len() {
                        } else if a < prev.len() {
                            assert(prev.contains(out@[a]));
                        } else if b < prev.len() {
                            assert(prev.contains(out@[b]));
                        }
                    }
                }
            }
            proof {
                assert(t.alive == self.spec_targets()[k].alive);
                assert forall|pid: u32| out@.contains(pid) <==> exists|j: int| 0 <= j < i + 1 && keys@[j] == pid && self.spec_targets()[pid].alive by {
                    if exists|j: int| 0 <= j < i + 1 && keys@[j] == pid && self.spec_targets()[pid].alive {
                        let j = choose|j: int| 0 <= j < i + 1 && keys@[j] == pid && self.spec_targets()[pid].alive;
                        if j < i {
                            assert(prev.contains(pid));
                        } else {
                            assert(pid == k);
                        }
                    }
                    if prev.contains(pid) {
                        let j = choose|j: int| 0 <= j < i && keys@[j] == pid && self.spec_targets()[pid].alive;
                        assert(0 <= j < i + 1 && keys@[j] == pid);
                    }
                }
            }
        }
        proof {
            assert forall|pid: u32| out@.contains(pid) <==> self.spec_targets().contains_key(pid) && self.spec_targets()[pid].alive by {
                if self.spec_targets().contains_key(pid) {
                    assert(keys@.to_set().contains(pid));
                    let j = keys@.index_of(pid);
                }
            }
            assert(keys@.take(n as int) =~= keys@);
        }
        out
    }

    /// Marks `pid` as no longer alive, if it is watched.
    pub fn mark_dead(&mut self, pid: u32)
        requires
            old(self).wf(),
        ensures
            final(self).wf(),
            final(self).spec_targets() == (if old(self).spec_targets().contains_key(pid) {
                old(self).spec_targets().insert(pid, Target { alive: false, ..old(self).spec_targets()[pid] })
            } else {
                old(self).spec_targets()
            }),
    {
        if let Some(mut target) = self.targets.remove(&pid) {
            target.alive = false;
            self.targets.insert(pid, target);
        }
        assert(self.targets@ =~= (if old(self).spec_targets().contains_key(pid) {
            old(self).spec_targets().insert(pid, Target { alive: false, ..old(self).spec_targets()[pid] })
        } else {
            old(self).spec_targets()
        }));
    }

    /// Compares a watched target with the start time its PID has now
    /// (`None` when the PID no longer exists).
    pub fn check_pid_status(&self, pid: u32, current_starttime: Option<u64>) -> (r: PidStatus)
        ensures
            r == (if !self.spec_targets().contains_key(pid) || !self.spec_targets()[pid].alive {
                PidStatus::Dead
            } else {
                match current_starttime {
                    Some(st) => if st == self.spec_targets()[pid].starttime {
                        PidStatus::Alive
                    } else {
                        PidStatus::Reused
                    },
                    None => PidStatus::Dead,
                }
            }),
    {
        if let Some(target) = self.targets.get(&pid) {
            if !target.alive {
                return PidStatus::Dead;
            }
            match current_starttime {
                Some(starttime) => if starttime == target.starttime {
                    PidStatus::Alive
                } else {
                    PidStatus::Reused
                },
                None => PidStatus::Dead,
            }
        } else {
            PidStatus::Dead
        }
    }

    /// Marks a target whose PID now belongs to another process as no longer
    /// alive, if it is watched.
    pub fn mark_reused(&mut self, pid: u32)
        requires
            old(self).wf(),
        ensures
            final(self).wf(),
            final(self).spec_targets() == (if old(self).spec_targets().contains_key(pid) {
                old(self).spec_targets().insert(pid, Target { alive: false, ..old(self).spec_targets()[pid] })
            } else {
                old(self).spec_targets()
            }),
    {
        if let Some(mut target) = self.targets.remove(&pid) {
            target.alive = false;
            self.targets.insert(pid, target);
        }
        assert(self.targets@ =~= (if old(self).spec_targets().contains_key(pid) {
            old(self).spec_targets().insert(pid, Target { alive: false, ..old(self).spec_targets()[pid] })
        } else {
            old(self).spec_targets()
        }));
    }
}

impl Default for TargetManager {
    fn default() -> (r: Self)
        ensures
            r.wf(),
            r.spec_targets() == Map::<u32, Target>::empty(),
    {
        Self::new()
    }
}

/// The start time of process `pid`, from the text of its `stat` file as the
/// caller read it (`None` when it could not be read: the process is gone or
/// unreadable).
pub fn get_starttime(pid: u32, stat: Option<&str>) -> (r: Option<u64>)
    requires
        stat matches Some(s) ==> stat_cut_ok(s@),
    ensures
        r == (match stat {
            Some(s) => stat_starttime(s@),
            None => None,
        }),
{
    match stat {
        Some(s) => parse_starttime(s),
        None => None,
    }
}

} // verus!
