use beholder_core::model::AddMode;
use beholder_core::sampling::collect_samples;
use beholder_core::targets::{get_starttime, FindResult, PidStatus, TargetError, TargetManager};

fn info(name: &str, cmdline: &str, starttime: u64) -> Result<(String, String, u64), TargetError> {
    Ok((name.to_string(), cmdline.to_string(), starttime))
}

#[test]
fn test_add_invalid_pid() {
    let mut manager = TargetManager::new();
    let result = manager.add_by_pid(999999999, Err(TargetError::PidNotFound(999999999)));
    assert!(matches!(result, Err(TargetError::PidNotFound(_))));
}

#[test]
fn test_remove_nonexistent() {
    let mut manager = TargetManager::new();
    let result = manager.remove(999999999);
    assert!(matches!(result, Err(TargetError::TargetNotWatched(_))));
}

#[test]
fn test_pid_status_dead_for_invalid() {
    let manager = TargetManager::new();
    assert_eq!(manager.check_pid_status(999999999, None), PidStatus::Dead);
}

#[test]
fn test_get_starttime_invalid() {
    // No stat file can be read for a PID that does not exist.
    let starttime = get_starttime(999999999, None);
    assert!(starttime.is_none());
}

#[test]
fn get_starttime_reads_the_stat_text() {
    let stat = "42 (my (odd) proc) S 1 42 42 0 -1 4194560 100 0 0 0 5 3 0 0 20 0 1 0 987654 1000 50";
    assert_eq!(get_starttime(42, Some(stat)), Some(987654));
    assert_eq!(get_starttime(42, Some("42 (x) S 1 2")), None);
}

#[test]
fn add_by_pid_records_process_and_is_idempotent() {
    let mut manager = TargetManager::new();
    {
        let t = manager.add_by_pid(42, info("bash", "/bin/bash -l", 777)).unwrap();
        assert_eq!(t.pid, 42);
        assert_eq!(t.name, "bash");
        assert_eq!(t.cmdline, "/bin/bash -l");
        assert_eq!(t.starttime, 777);
        assert!(t.alive);
        assert_eq!(t.add_mode, AddMode::Pid);
    }
    let again = manager.add_by_pid(42, Err(TargetError::PermissionDenied(42))).unwrap();
    assert_eq!(again.starttime, 777);
    assert_eq!(manager.list().len(), 1);
}

#[test]
fn remove_then_get_is_none() {
    let mut manager = TargetManager::new();
    manager.add_by_pid(5, info("a", "a", 1)).unwrap();
    assert!(manager.remove(5).is_ok());
    assert!(manager.get(5).is_none());
    assert!(manager.remove(5).is_err());
}

#[test]
fn pid_status_alive_dead_reused() {
    let mut manager = TargetManager::new();
    manager.add_by_pid(9, info("x", "x", 100)).unwrap();
    assert_eq!(manager.check_pid_status(9, Some(100)), PidStatus::Alive);
    assert_eq!(manager.check_pid_status(9, Some(101)), PidStatus::Reused);
    assert_eq!(manager.check_pid_status(9, None), PidStatus::Dead);
    manager.mark_dead(9);
    assert_eq!(manager.check_pid_status(9, Some(100)), PidStatus::Dead);
    assert!(!manager.get(9).unwrap().alive);
}

#[test]
fn mark_reused_and_alive_pids() {
    let mut manager = TargetManager::new();
    manager.add_by_pid(1, info("a", "a", 1)).unwrap();
    manager.add_by_pid(2, info("b", "b", 2)).unwrap();
    manager.add_by_pid(3, info("c", "c", 3)).unwrap();
    manager.mark_reused(2);
    let mut alive = manager.alive_pids();
    alive.sort();
    assert_eq!(alive, vec![1, 3]);
    assert!(manager.get(2).is_some());
}

#[test]
fn get_mut_changes_target() {
    let mut manager = TargetManager::new();
    manager.add_by_pid(4, info("a", "a", 1)).unwrap();
    manager.get_mut(4).unwrap().alive = false;
    assert!(!manager.get(4).unwrap().alive);
    assert!(manager.get_mut(5).is_none());
}

#[test]
fn add_by_name_adds_new_matches_only() {
    let mut manager = TargetManager::new();
    manager.add_by_pid(10, info("python3", "python3 a.py", 1)).unwrap();
    let found = FindResult {
        matches: vec![
            (10, "python3".to_string(), "python3 a.py".to_string(), 1),
            (11, "python3".to_string(), "python3 b.py".to_string(), 2),
            (12, "python3".to_string(), "python3 c.py".to_string(), 3),
        ],
        permission_denied_count: 0,
    };
    let added = manager.add_by_name("python3", AddMode::Exact, found).unwrap();
    assert_eq!(added, vec![11, 12]);
    assert_eq!(manager.get(11).unwrap().add_mode, AddMode::Exact);
    assert_eq!(manager.get(10).unwrap().add_mode, AddMode::Pid);
    assert_eq!(manager.list().len(), 3);
}

#[test]
fn add_by_name_errors() {
    let mut manager = TargetManager::new();
    let none = FindResult { matches: vec![], permission_denied_count: 0 };
    match manager.add_by_name("ghost", AddMode::Exact, none) {
        Err(TargetError::NameNoMatch(n)) => assert_eq!(n, "ghost"),
        other => panic!("unexpected {:?}", other),
    }
    let denied = FindResult { matches: vec![], permission_denied_count: 3 };
    match manager.add_by_name("ghost", AddMode::Substring, denied) {
        Err(TargetError::PartialPermission { matched, denied }) => {
            assert_eq!(matched, 0);
            assert_eq!(denied, 3);
        }
        other => panic!("unexpected {:?}", other),
    }
    assert!(manager.list().is_empty());
}

#[test]
fn triage_marks_ended_and_returns_alive() {
    let mut manager = TargetManager::new();
    manager.add_by_pid(1, info("a", "a", 1)).unwrap();
    manager.add_by_pid(2, info("b", "b", 2)).unwrap();
    manager.add_by_pid(3, info("c", "c", 3)).unwrap();
    let to_sample = manager.triage(&vec![(1, PidStatus::Alive), (2, PidStatus::Dead), (3, PidStatus::Reused)]);
    assert_eq!(to_sample, vec![1]);
    assert!(manager.get(1).unwrap().alive);
    assert!(!manager.get(2).unwrap().alive);
    assert!(!manager.get(3).unwrap().alive);
}

#[test]
fn collect_samples_marks_gone_processes() {
    let mut manager = TargetManager::new();
    manager.add_by_pid(1, info("a", "a", 1)).unwrap();
    manager.add_by_pid(2, info("b", "b", 2)).unwrap();
    let readings: Vec<(u32, Option<(u64, f32, Option<u64>)>)> =
        vec![(1, Some((4096, 12.5, Some(1024)))), (2, None)];
    let (ram, vram) = collect_samples(&mut manager, 500, &readings);
    assert_eq!(ram.len(), 1);
    assert_eq!((ram[0].ts_ms, ram[0].pid, ram[0].rss_bytes), (500, 1, 4096));
    assert!((ram[0].cpu_pct - 12.5).abs() < 1e-6);
    assert_eq!(vram.len(), 1);
    assert_eq!((vram[0].ts_ms, vram[0].pid, vram[0].used_bytes), (500, 1, 1024));
    assert!(manager.get(1).unwrap().alive);
    assert!(!manager.get(2).unwrap().alive);
}
