use beholder_core::buffer::BufferManager;
use beholder_core::dashboard::ViewMode;
use beholder_core::export::{csv_rows, export_max_points, tail};
use beholder_core::gpu::process_vram;
use beholder_core::model::{AddMode, Sample, VramProcessSample, WindowConfig};
use beholder_core::targets::{TargetError, TargetManager};
use beholder_core::tools::{
    add_name_error_code, add_pid_error_code, interval_change, live_readings, method_from_name,
    parse_add_mode, parse_export_format, select_targets, select_watched, str_eq, tool_from_name,
    window_change, window_stats, ExportFormat, Method, Tool, ERR_INVALID_INTERVAL,
    ERR_INVALID_PARAMS, ERR_INVALID_WINDOW, ERR_NAME_NO_MATCH, ERR_PARTIAL_PERMISSION,
    ERR_PERMISSION_DENIED, ERR_PID_NOT_FOUND, ERR_TARGET_NOT_WATCHED,
};

#[test]
fn names_of_methods_and_tools() {
    assert_eq!(method_from_name("initialize"), Some(Method::Initialize));
    assert_eq!(method_from_name("notifications/initialized"), Some(Method::Initialized));
    assert_eq!(method_from_name("tools/list"), Some(Method::ToolsList));
    assert_eq!(method_from_name("tools/call"), Some(Method::ToolsCall));
    assert_eq!(method_from_name("tools/cal"), None);
    assert_eq!(tool_from_name("health"), Some(Tool::Health));
    assert_eq!(tool_from_name("export_buffer"), Some(Tool::ExportBuffer));
    assert_eq!(tool_from_name("window_stats"), Some(Tool::WindowStats));
    assert_eq!(tool_from_name("session_stats"), None);
    assert!(str_eq("a", "a"));
    assert!(!str_eq("a", "ab"));
}

#[test]
fn argument_parsing() {
    assert_eq!(parse_add_mode("exact"), Some(AddMode::Exact));
    assert_eq!(parse_add_mode("substring"), Some(AddMode::Substring));
    assert_eq!(parse_add_mode("pid"), None);
    assert_eq!(parse_export_format("csv"), Some(ExportFormat::Csv));
    assert_eq!(parse_export_format("json"), Some(ExportFormat::Json));
    assert_eq!(parse_export_format("xml"), None);
    assert_eq!(export_max_points(None), 1200);
    assert_eq!(export_max_points(Some(5)), 5);
    assert_eq!(export_max_points(Some(99999)), 1200);
}

#[test]
fn error_codes() {
    assert_eq!(add_pid_error_code(&TargetError::PidNotFound(1)), ERR_PID_NOT_FOUND);
    assert_eq!(add_pid_error_code(&TargetError::PermissionDenied(1)), ERR_PERMISSION_DENIED);
    assert_eq!(add_pid_error_code(&TargetError::TargetNotWatched(1)), ERR_INVALID_PARAMS);
    assert_eq!(add_name_error_code(&TargetError::NameNoMatch("x".to_string())), ERR_NAME_NO_MATCH);
    assert_eq!(
        add_name_error_code(&TargetError::PartialPermission { matched: 0, denied: 2 }),
        ERR_PARTIAL_PERMISSION
    );
    assert_eq!(add_name_error_code(&TargetError::PermissionDenied(3)), ERR_PERMISSION_DENIED);
    assert_eq!(add_name_error_code(&TargetError::PidNotFound(3)), ERR_INVALID_PARAMS);
}

#[test]
fn config_changes() {
    let c = WindowConfig::new(30, 1000).unwrap();
    assert_eq!(interval_change(&c, 250).unwrap(), WindowConfig::new(30, 250).unwrap());
    assert_eq!(interval_change(&c, 300), Err(ERR_INVALID_INTERVAL));
    assert_eq!(window_change(&c, 3600).unwrap(), WindowConfig::new(3600, 1000).unwrap());
    assert_eq!(window_change(&c, 60), Err(ERR_INVALID_WINDOW));
}

#[test]
fn csv_rows_merge_sort_and_cap() {
    let ram: Vec<(u64, u64, u64, f32)> = vec![(2000, 20, 2100, 2.0), (1000, 10, 1100, 1.0)];
    let vram: Vec<(u64, u64)> = vec![(1000, 5), (1500, 7), (1000, 6)];
    let rows = csv_rows(&ram, &vram, 0.0f32, 10);
    assert_eq!(rows.len(), 3);
    assert_eq!((rows[0].0, rows[0].1, rows[0].2), (1000, 1100, 10));
    assert_eq!(rows[0].4, Some((1000, 6)));
    assert_eq!((rows[1].0, rows[1].1, rows[1].2), (1500, 1500, 0));
    assert_eq!(rows[1].3, 0.0);
    assert_eq!(rows[1].4, Some((1500, 7)));
    assert_eq!((rows[2].0, rows[2].2), (2000, 20));
    assert_eq!(rows[2].4, None);
    let capped = csv_rows(&ram, &vram, 0.0f32, 2);
    assert_eq!(capped.len(), 2);
    assert_eq!(capped[0].0, 1500);
    assert_eq!(capped[1].0, 2000);
    assert_eq!(tail(&vec![1, 2, 3, 4], 2), vec![3, 4]);
    assert_eq!(tail(&vec![1, 2], 5), vec![1, 2]);
}

#[test]
fn target_selection() {
    let mut manager = TargetManager::new();
    manager.add_by_pid(1, Ok(("a".to_string(), "a".to_string(), 1))).unwrap();
    manager.add_by_pid(2, Ok(("b".to_string(), "b".to_string(), 2))).unwrap();
    let list = manager.list();
    assert_eq!(select_targets(&list, None).len(), 2);
    let one = select_targets(&list, Some(2));
    assert_eq!(one.len(), 1);
    assert_eq!(one[0].pid, 2);
    assert_eq!(select_targets(&list, Some(3)).len(), 0);
    assert!(matches!(select_watched(&list, Some(3)), Err(ERR_TARGET_NOT_WATCHED)));
    assert_eq!(select_watched(&list, Some(1)).unwrap().len(), 1);
}

#[test]
fn window_stats_and_live() {
    let mut buffer: BufferManager<f32> = BufferManager::default();
    buffer.push_ram(Sample { ts_ms: 0, pid: 3, rss_bytes: 100, cpu_pct: 1.0 }, true);
    buffer.push_ram(Sample { ts_ms: 1000, pid: 3, rss_bytes: 300, cpu_pct: 2.0 }, true);
    buffer.push_ram(Sample { ts_ms: 1500, pid: 3, rss_bytes: 200, cpu_pct: 3.0 }, true);
    buffer.push_vram(VramProcessSample { ts_ms: 0, pid: 3, used_bytes: 8 }, true);
    let st = window_stats(&buffer, 3);
    assert_eq!(st.ram_peak, Some((1000, 300)));
    assert_eq!(st.ram_count, 2);
    let latest = st.ram_latest.unwrap();
    assert_eq!((latest.0, latest.1, latest.2), (1000, 300, 1500));
    assert_eq!(st.vram_peak, Some((0, 8)));
    assert_eq!(st.vram_count, 1);
    let empty = window_stats(&buffer, 99);
    assert_eq!(empty.ram_count, 0);
    assert!(empty.ram_peak.is_none());
    let (ram, vram) = live_readings(&buffer, 3);
    assert_eq!(ram.unwrap().rss_bytes, 200);
    assert_eq!(vram.unwrap().used_bytes, 8);
}

#[test]
fn gpu_process_lookup() {
    let compute = vec![(10, Some(100)), (11, None), (10, Some(999))];
    let graphics = vec![(12, Some(50))];
    assert_eq!(process_vram(10, Some(compute.clone()), Some(graphics.clone())), Some(100));
    assert_eq!(process_vram(11, Some(compute.clone()), Some(graphics.clone())), None);
    assert_eq!(process_vram(12, Some(compute.clone()), Some(graphics.clone())), Some(50));
    assert_eq!(process_vram(12, None, Some(graphics.clone())), None);
    assert_eq!(process_vram(13, Some(compute), None), None);
}

#[test]
fn view_mode_toggle() {
    assert_eq!(ViewMode::Line.toggled(), ViewMode::Gauge);
    assert_eq!(ViewMode::Gauge.toggled(), ViewMode::Line);
    assert!(ViewMode::Line.tracks_history());
    assert!(!ViewMode::Gauge.tracks_history());
}
