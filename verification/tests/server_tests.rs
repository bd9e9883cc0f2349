use beholder_core::dashboard::{byte_unit, ByteUnit, Dashboard, Effect, Message, ViewMode, GIB, KIB, MIB};
use beholder_core::model::{AddMode, VramBoardSample};
use beholder_core::server::ServerState;
use beholder_core::targets::{FindResult, TargetError};
use beholder_core::tools::{
    ExportFormat, ERR_GPU_UNAVAILABLE, ERR_INVALID_INTERVAL, ERR_INVALID_WINDOW, ERR_NAME_NO_MATCH,
    ERR_PARTIAL_PERMISSION, ERR_PERMISSION_DENIED, ERR_PID_NOT_FOUND, ERR_TARGET_NOT_WATCHED,
};

fn info(name: &str, cmdline: &str, starttime: u64) -> Result<(String, String, u64), TargetError> {
    Ok((name.to_string(), cmdline.to_string(), starttime))
}

fn board(used: u64) -> VramBoardSample {
    VramBoardSample {
        ts_ms: 5,
        gpu_index: 0,
        total_bytes: 8 * GIB,
        used_bytes: used,
        free_bytes: 8 * GIB - used,
    }
}

#[test]
fn server_health_reports_default_configuration() {
    let state: ServerState<f32> = ServerState::new();
    assert_eq!(state.health(), (30, 1000, 1000));
}

#[test]
fn server_interval_and_window_changes() {
    let mut state: ServerState<f32> = ServerState::new();
    assert_eq!(state.set_interval(250), Ok((250, 250)));
    assert_eq!(state.set_interval(7), Err(ERR_INVALID_INTERVAL));
    assert_eq!(state.set_window(3600), Ok((3600, 3000)));
    assert_eq!(state.set_window(31), Err(ERR_INVALID_WINDOW));
    assert_eq!(state.health(), (3600, 250, 3000));
}

#[test]
fn server_add_by_pid_codes() {
    let mut state: ServerState<f32> = ServerState::new();
    assert_eq!(
        state.add_target_pid(10, info("worker", "worker --fast", 5)).unwrap(),
        (10, "worker".to_string())
    );
    // Already watched: what reading the process gave is not looked at.
    assert_eq!(
        state.add_target_pid(10, Err(TargetError::PidNotFound(10))).unwrap(),
        (10, "worker".to_string())
    );
    assert!(matches!(
        state.add_target_pid(11, Err(TargetError::PidNotFound(11))),
        Err((ERR_PID_NOT_FOUND, TargetError::PidNotFound(11)))
    ));
    assert!(matches!(
        state.add_target_pid(12, Err(TargetError::PermissionDenied(12))),
        Err((ERR_PERMISSION_DENIED, TargetError::PermissionDenied(12)))
    ));
    assert_eq!(state.targets.list().len(), 1);
}

#[test]
fn server_add_by_name_codes() {
    let mut state: ServerState<f32> = ServerState::new();
    let found = FindResult {
        matches: vec![
            (20, "py".to_string(), "py a.py".to_string(), 1),
            (21, "py".to_string(), "py b.py".to_string(), 2),
        ],
        permission_denied_count: 0,
    };
    assert_eq!(state.add_target_name("py", AddMode::Exact, found).unwrap(), vec![20, 21]);
    let none = FindResult { matches: vec![], permission_denied_count: 0 };
    match state.add_target_name("zz", AddMode::Substring, none) {
        Err((code, TargetError::NameNoMatch(n))) => {
            assert_eq!(code, ERR_NAME_NO_MATCH);
            assert_eq!(n, "zz");
        }
        _ => panic!("expected name_no_match"),
    }
    let denied = FindResult { matches: vec![], permission_denied_count: 3 };
    assert!(matches!(
        state.add_target_name("zz", AddMode::Exact, denied),
        Err((ERR_PARTIAL_PERMISSION, TargetError::PartialPermission { matched: 0, denied: 3 }))
    ));
}

#[test]
fn server_round_live_and_remove() {
    let mut state: ServerState<f32> = ServerState::new();
    state.add_target_pid(10, info("a", "a", 1)).unwrap();
    state.add_target_pid(11, info("b", "b", 2)).unwrap();
    assert!(matches!(state.get_vram(), Err(ERR_GPU_UNAVAILABLE)));

    state.record_round(1000, &vec![(10, Some((2048, 1.5, Some(4096)))), (11, None)], Some(board(GIB)));
    assert_eq!(state.get_vram().unwrap().used_bytes, GIB);
    assert!(!state.targets.get(11).unwrap().alive);
    assert!(state.targets.get(10).unwrap().alive);

    let rows = state.get_live(Some(10)).unwrap();
    assert_eq!(rows.len(), 1);
    assert_eq!(rows[0].name, "a");
    assert_eq!(rows[0].ram.unwrap().rss_bytes, 2048);
    assert_eq!(rows[0].ram.unwrap().ts_ms, 1000);
    assert_eq!(rows[0].vram.unwrap().used_bytes, 4096);
    assert_eq!(state.get_live(None).unwrap().len(), 2);
    assert!(matches!(state.get_live(Some(99)), Err(ERR_TARGET_NOT_WATCHED)));

    // A round without a board reading keeps the previous one.
    state.record_round(2000, &vec![], None);
    assert_eq!(state.get_vram().unwrap().used_bytes, GIB);

    assert!(state.remove_target(10).is_ok());
    assert!(state.buffer.get_ram_series(10).is_none());
    assert!(matches!(
        state.remove_target(10),
        Err((ERR_TARGET_NOT_WATCHED, TargetError::TargetNotWatched(10)))
    ));
}

#[test]
fn server_window_stats_and_exports() {
    let mut state: ServerState<f32> = ServerState::new();
    state.add_target_pid(10, info("a", "a", 1)).unwrap();
    state.record_round(1000, &vec![(10, Some((300, 1.0, Some(70))))], None);
    state.record_round(1500, &vec![(10, Some((500, 2.0, None)))], None);
    state.record_round(2100, &vec![(10, Some((100, 3.0, Some(90))))], None);

    let (window, rows) = state.window_stats(None).unwrap();
    assert_eq!(window, 30);
    assert_eq!(rows.len(), 1);
    let s = &rows[0].stats;
    assert_eq!(s.ram_peak, Some((1500, 500)));
    assert_eq!(s.ram_count, 2);
    assert_eq!(s.ram_latest, Some((2100, 100, 2100, 3.0)));
    assert_eq!(s.vram_peak, Some((2100, 90)));
    assert_eq!(s.vram_count, 2);
    assert!(matches!(state.window_stats(Some(5)), Err(ERR_TARGET_NOT_WATCHED)));

    let csv = state.export_csv(None, 1200, 0.0);
    assert_eq!(csv.len(), 1);
    assert_eq!(
        csv[0].rows,
        vec![
            (1000, 1000, 0, 0.0, Some((1000, 70))),
            (1500, 1500, 500, 2.0, None),
            (2100, 2100, 100, 3.0, Some((2100, 90)))
        ]
    );
    let capped = state.export_csv(None, 1, 0.0);
    assert_eq!(capped[0].rows, vec![(2100, 2100, 100, 3.0, Some((2100, 90)))]);

    let json = state.export_json(Some(10), 1);
    assert_eq!(json.len(), 1);
    assert_eq!(json[0].ram, vec![(2100, 100, 2100, 3.0)]);
    assert_eq!(json[0].vram, vec![(2100, 90)]);
    assert!(state.export_json(Some(99), 10).is_empty());
}

#[test]
fn server_clear_keeps_targets() {
    let mut state: ServerState<f32> = ServerState::new();
    state.add_target_pid(10, info("a", "a", 1)).unwrap();
    state.record_round(1000, &vec![(10, Some((300, 1.0, Some(70))))], None);
    state.clear_buffer();
    assert_eq!(state.targets.list().len(), 1);
    assert_eq!(state.buffer.get_ram_series(10).unwrap().count(), 0);
    assert!(state.buffer.get_ram_series(10).unwrap().latest_raw().is_none());
    assert_eq!(state.buffer.get_vram_series(10).unwrap().count(), 0);
}

#[test]
fn dashboard_starts_in_defaults() {
    let d: Dashboard<f32> = Dashboard::new();
    assert_eq!(d.config.window_secs, 30);
    assert_eq!(d.config.interval_ms, 1000);
    assert_eq!(d.view_mode, ViewMode::Line);
    assert_eq!(d.add_mode, AddMode::Pid);
    assert!(d.error.is_none());
    assert!(d.last_vram_board.is_none());
}

#[test]
fn dashboard_add_flows_and_error_clearing() {
    let mut d: Dashboard<f32> = Dashboard::new();
    assert!(matches!(d.update(Message::AddTargetPid(5)), Effect::ReadProcess(5)));
    d.finish_add_pid(5, Err(TargetError::PermissionDenied(5)));
    assert!(matches!(d.error, Some(TargetError::PermissionDenied(5))));
    // Any message clears the shown error.
    assert!(matches!(d.update(Message::Tick), Effect::Sample));
    assert!(d.error.is_none());

    d.finish_add_pid(5, info("x", "x -y", 9));
    assert_eq!(d.targets.get(5).unwrap().name, "x");

    match d.update(Message::AddTargetName("py".to_string(), AddMode::Substring)) {
        Effect::ScanProcesses(name, mode) => {
            assert_eq!(name, "py");
            assert_eq!(mode, AddMode::Substring);
        }
        _ => panic!("expected a scan"),
    }
    d.finish_add_name("py", AddMode::Substring, FindResult { matches: vec![], permission_denied_count: 0 });
    assert!(matches!(&d.error, Some(TargetError::NameNoMatch(n)) if n == "py"));
    d.finish_add_name(
        "py",
        AddMode::Substring,
        FindResult { matches: vec![(6, "python".to_string(), "python a.py".to_string(), 3)], permission_denied_count: 1 },
    );
    assert_eq!(d.targets.get(6).unwrap().add_mode, AddMode::Substring);

    assert!(matches!(d.update(Message::RemoveTarget(5)), Effect::Done));
    assert!(d.targets.get(5).is_none());
}

#[test]
fn dashboard_config_and_exports() {
    let mut d: Dashboard<f32> = Dashboard::new();
    assert!(matches!(d.update(Message::SetInterval(250)), Effect::Done));
    assert_eq!(d.config.interval_ms, 250);
    assert_eq!(d.buffer.config().interval_ms, 250);
    d.update(Message::SetInterval(3));
    assert_eq!(d.config.interval_ms, 250);
    d.update(Message::SetWindow(300));
    assert_eq!(d.config.window_secs, 300);
    d.update(Message::SetWindow(301));
    assert_eq!(d.config.window_secs, 300);
    assert!(matches!(d.update(Message::ExportCsv), Effect::Export(ExportFormat::Csv)));
    assert!(matches!(d.update(Message::ExportJson), Effect::Export(ExportFormat::Json)));
}

#[test]
fn dashboard_gauge_mode_keeps_no_history() {
    let mut d: Dashboard<f32> = Dashboard::new();
    d.finish_add_pid(5, info("x", "x", 9));
    d.finish_tick(1000, &vec![(5, Some((100, 1.0, Some(10))))], Some(board(MIB)));
    assert_eq!(d.buffer.get_ram_series(5).unwrap().count(), 1);
    assert_eq!(d.last_vram_board.unwrap().used_bytes, MIB);

    d.update(Message::ToggleViewMode);
    assert_eq!(d.view_mode, ViewMode::Gauge);
    d.finish_tick(5000, &vec![(5, Some((300, 2.0, None)))], None);
    let series = d.buffer.get_ram_series(5).unwrap();
    assert_eq!(series.count(), 1);
    assert_eq!(series.latest_raw().unwrap().rss_bytes, 300);
    assert_eq!(series.gauge(), Some((300, 100, 300)));

    d.finish_tick(6000, &vec![(5, None)], None);
    assert!(!d.targets.get(5).unwrap().alive);
    d.update(Message::ToggleViewMode);
    assert_eq!(d.view_mode, ViewMode::Line);
}

#[test]
fn byte_units() {
    assert_eq!(byte_unit(0), ByteUnit::B);
    assert_eq!(byte_unit(KIB - 1), ByteUnit::B);
    assert_eq!(byte_unit(KIB), ByteUnit::KB);
    assert_eq!(byte_unit(MIB - 1), ByteUnit::KB);
    assert_eq!(byte_unit(MIB), ByteUnit::MB);
    assert_eq!(byte_unit(GIB - 1), ByteUnit::MB);
    assert_eq!(byte_unit(GIB), ByteUnit::GB);
    assert_eq!(byte_unit(u64::MAX), ByteUnit::GB);
}

#[test]
fn server_rows_follow_list_order() {
    let mut state: ServerState<f32> = ServerState::new();
    for pid in [40u32, 7, 1000, 3, 55] {
        state.add_target_pid(pid, info("p", "p", 1)).unwrap();
    }
    let listed: Vec<u32> = state.targets.list().iter().map(|t| t.pid).collect();
    let json: Vec<u32> = state.export_json(None, 10).iter().map(|t| t.pid).collect();
    let csv: Vec<u32> = state.export_csv(None, 10, 0.0).iter().map(|t| t.pid).collect();
    let live: Vec<u32> = state.get_live(None).unwrap().iter().map(|r| r.pid).collect();
    let stats: Vec<u32> = state.window_stats(None).unwrap().1.iter().map(|r| r.pid).collect();
    assert_eq!(json, listed);
    assert_eq!(csv, listed);
    assert_eq!(live, listed);
    assert_eq!(stats, listed);
    let alive = state.targets.alive_pids();
    assert_eq!(alive, listed);
}
