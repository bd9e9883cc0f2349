use beholder_core::buffer::{BufferManager, RingSeries, VramRingSeries};
use beholder_core::model::{Sample, VramProcessSample, WindowConfig};

fn make_sample(ts_ms: u64, pid: u32, rss_bytes: u64, cpu_pct: f32) -> Sample<f32> {
    Sample {
        ts_ms,
        pid,
        rss_bytes,
        cpu_pct,
    }
}

#[test]
fn test_downsample_max_rss() {
    let config = WindowConfig::new(30, 1000).unwrap();
    let mut series = RingSeries::new();

    series.push(make_sample(0, 1, 100, 10.0), &config, true);
    series.push(make_sample(100, 1, 200, 20.0), &config, true);
    series.push(make_sample(200, 1, 150, 15.0), &config, true);

    let points = series.get_points();
    assert_eq!(points.len(), 1);
    assert_eq!(points[0].1, 200);
}

#[test]
fn test_downsample_last_cpu() {
    let config = WindowConfig::new(30, 1000).unwrap();
    let mut series = RingSeries::new();

    series.push(make_sample(0, 1, 100, 10.0), &config, true);
    series.push(make_sample(100, 1, 200, 20.0), &config, true);
    series.push(make_sample(200, 1, 150, 99.0), &config, true);

    let points = series.get_points();
    assert_eq!(points.len(), 1);
    assert!((points[0].3 - 99.0).abs() < 0.01);
}

#[test]
fn test_cpu_timestamp_separate_from_rss() {
    let config = WindowConfig::new(30, 1000).unwrap();
    let mut series = RingSeries::new();

    series.push(make_sample(100, 1, 500, 10.0), &config, true);
    series.push(make_sample(200, 1, 300, 20.0), &config, true);
    series.push(make_sample(300, 1, 400, 30.0), &config, true);

    let points = series.get_points();
    assert_eq!(points.len(), 1);
    assert_eq!(points[0].0, 100);
    assert_eq!(points[0].1, 500);
    assert_eq!(points[0].2, 300);
    assert!((points[0].3 - 30.0).abs() < 0.01);
}

#[test]
fn test_bucket_boundary() {
    let config = WindowConfig::new(30, 1000).unwrap();
    let mut series = RingSeries::new();

    series.push(make_sample(0, 1, 100, 10.0), &config, true);
    series.push(make_sample(500, 1, 200, 20.0), &config, true);
    series.push(make_sample(1000, 1, 150, 15.0), &config, true);
    series.push(make_sample(1500, 1, 180, 18.0), &config, true);

    let points = series.get_points();
    assert_eq!(points.len(), 2);
    assert_eq!(points[0].1, 200);
    assert_eq!(points[1].1, 180);
}

#[test]
fn test_window_eviction() {
    let config = WindowConfig::new(30, 1000).unwrap();
    let mut series = RingSeries::new();

    for i in 0..40 {
        let ts = i * 1000;
        series.push(make_sample(ts, 1, 100 + i, 10.0), &config, true);
    }

    let points = series.get_points();
    assert!(points.len() <= 31);
    assert!(points[0].0 >= 9000);
}

#[test]
fn test_max_points_cap() {
    let config = WindowConfig::new(3600, 100).unwrap();
    let mut series = RingSeries::new();

    for i in 0..5000 {
        let ts = i * 100;
        series.push(make_sample(ts, 1, 100, 10.0), &config, true);
    }

    assert!(series.count() <= WindowConfig::MAX_POINTS + 1);
}

#[test]
fn test_peak_rss() {
    let config = WindowConfig::new(30, 1000).unwrap();
    let mut series = RingSeries::new();

    series.push(make_sample(0, 1, 100, 10.0), &config, true);
    series.push(make_sample(1000, 1, 500, 20.0), &config, true);
    series.push(make_sample(2000, 1, 300, 15.0), &config, true);

    let peak = series.peak_rss();
    assert_eq!(peak, Some((1000, 500)));
}

#[test]
fn test_clear() {
    let config = WindowConfig::new(30, 1000).unwrap();
    let mut series = RingSeries::new();

    series.push(make_sample(0, 1, 100, 10.0), &config, true);
    series.push(make_sample(1000, 1, 200, 20.0), &config, true);

    series.clear();
    assert_eq!(series.count(), 0);
    assert!(series.peak_rss().is_none());
    assert!(series.latest_raw().is_none());
}

#[test]
fn test_latest_raw_vs_downsampled() {
    let config = WindowConfig::new(30, 1000).unwrap();
    let mut series = RingSeries::new();

    series.push(make_sample(0, 1, 100, 10.0), &config, true);
    series.push(make_sample(100, 1, 500, 20.0), &config, true);
    series.push(make_sample(200, 1, 300, 30.0), &config, true);

    let raw = series.latest_raw().unwrap();
    assert_eq!(raw.ts_ms, 200);
    assert_eq!(raw.rss_bytes, 300);
    assert!((raw.cpu_pct - 30.0).abs() < 0.01);

    let downsampled = series.latest_downsampled().unwrap();
    assert_eq!(downsampled.1, 500);
}

#[test]
fn test_gauge_tracks_min_max_current_without_history() {
    let config = WindowConfig::new(30, 1000).unwrap();
    let mut series = RingSeries::new();

    series.push(make_sample(0, 1, 100, 10.0), &config, false);
    series.push(make_sample(1000, 1, 500, 20.0), &config, false);
    series.push(make_sample(2000, 1, 300, 15.0), &config, false);

    assert_eq!(series.count(), 0);
    assert_eq!(series.gauge(), Some((300, 100, 500)));
}

#[test]
fn test_vram_downsample_max() {
    let config = WindowConfig::new(30, 1000).unwrap();
    let mut series = VramRingSeries::new();

    series.push(VramProcessSample { ts_ms: 0, pid: 1, used_bytes: 100 }, &config, true);
    series.push(VramProcessSample { ts_ms: 100, pid: 1, used_bytes: 500 }, &config, true);
    series.push(VramProcessSample { ts_ms: 200, pid: 1, used_bytes: 300 }, &config, true);

    let points = series.get_points();
    assert_eq!(points.len(), 1);
    assert_eq!(points[0].1, 500);

    let raw = series.latest_raw().unwrap();
    assert_eq!(raw.used_bytes, 300);
}

#[test]
fn bucket_keeps_first_sample_on_equal_max() {
    let config = WindowConfig::new(30, 1000).unwrap();
    let mut series = RingSeries::new();
    series.push(make_sample(100, 1, 400, 1.0), &config, true);
    series.push(make_sample(200, 1, 400, 2.0), &config, true);
    let points = series.get_points();
    assert_eq!(points.len(), 1);
    assert_eq!((points[0].0, points[0].1, points[0].2), (100, 400, 200));
}

#[test]
fn peak_reports_first_of_equal_maxima() {
    let config = WindowConfig::new(30, 1000).unwrap();
    let mut series = RingSeries::new();
    series.push(make_sample(0, 1, 700, 1.0), &config, true);
    series.push(make_sample(1000, 1, 300, 1.0), &config, true);
    series.push(make_sample(2000, 1, 700, 1.0), &config, true);
    assert_eq!(series.peak_rss(), Some((0, 700)));
}

#[test]
fn empty_series_reports_nothing() {
    let series: RingSeries<f32> = RingSeries::new();
    assert_eq!(series.count(), 0);
    assert!(series.peak_rss().is_none());
    assert!(series.latest_downsampled().is_none());
    assert!(series.gauge().is_none());
    assert!(series.get_points().is_empty());
}

#[test]
fn gauge_reset_keeps_last_reading() {
    let config = WindowConfig::new(30, 1000).unwrap();
    let mut series = RingSeries::new();
    series.push(make_sample(0, 1, 100, 1.0), &config, false);
    series.push(make_sample(1000, 1, 900, 1.0), &config, false);
    series.reset_gauge();
    assert!(series.gauge().is_none());
    assert_eq!(series.latest_raw().unwrap().rss_bytes, 900);
    series.push(make_sample(2000, 1, 400, 1.0), &config, false);
    assert_eq!(series.gauge(), Some((400, 400, 400)));
}

#[test]
fn eviction_counts_back_from_newest_sample() {
    let config = WindowConfig::new(30, 1000).unwrap();
    let mut series = RingSeries::new();
    series.push(make_sample(0, 1, 1, 0.0), &config, true);
    series.push(make_sample(1000, 1, 2, 0.0), &config, true);
    series.push(make_sample(31_000, 1, 3, 0.0), &config, true);
    let points = series.get_points();
    assert_eq!(points.len(), 2);
    assert_eq!(points[0].0, 1000);
    assert_eq!(points[1].0, 31_000);
}

#[test]
fn vram_series_peak_gauge_and_clear() {
    let config = WindowConfig::new(30, 1000).unwrap();
    let mut series = VramRingSeries::new();
    series.push(VramProcessSample { ts_ms: 0, pid: 7, used_bytes: 10 }, &config, true);
    series.push(VramProcessSample { ts_ms: 1000, pid: 7, used_bytes: 30 }, &config, true);
    series.push(VramProcessSample { ts_ms: 2000, pid: 7, used_bytes: 20 }, &config, true);
    assert_eq!(series.peak(), Some((1000, 30)));
    assert_eq!(series.count(), 3);
    assert_eq!(series.latest_downsampled(), Some((2000, 20)));
    assert_eq!(series.gauge(), Some((20, 10, 30)));
    series.clear();
    assert_eq!(series.count(), 0);
    assert!(series.peak().is_none());
    assert!(series.latest_raw().is_none());
}

#[test]
fn buffer_manager_clear_keeps_pids() {
    let mut buffer: BufferManager<f32> = BufferManager::default();
    buffer.push_ram(make_sample(0, 11, 100, 1.0), true);
    buffer.push_ram(make_sample(0, 12, 200, 1.0), true);
    buffer.push_vram(VramProcessSample { ts_ms: 0, pid: 11, used_bytes: 5 }, true);
    buffer.clear();
    assert_eq!(buffer.get_ram_series(11).unwrap().count(), 0);
    assert_eq!(buffer.get_ram_series(12).unwrap().count(), 0);
    assert_eq!(buffer.get_vram_series(11).unwrap().count(), 0);
    assert_eq!(buffer.all_ram_series().len(), 2);
    buffer.remove_target(11);
    assert!(buffer.get_ram_series(11).is_none());
    assert!(buffer.get_vram_series(11).is_none());
    assert!(buffer.get_ram_series(12).is_some());
}

#[test]
fn buffer_manager_uses_new_config_forward() {
    let mut buffer: BufferManager<f32> = BufferManager::new(WindowConfig::new(30, 1000).unwrap());
    buffer.push_ram(make_sample(0, 1, 100, 1.0), true);
    buffer.push_ram(make_sample(500, 1, 200, 1.0), true);
    buffer.set_config(WindowConfig::new(3600, 1000).unwrap());
    assert_eq!(buffer.config().window_secs, 3600);
    assert_eq!(buffer.get_ram_series(1).unwrap().count(), 1);
    buffer.push_ram(make_sample(2000, 1, 250, 1.0), true);
    assert_eq!(buffer.get_ram_series(1).unwrap().count(), 1);
    buffer.push_ram(make_sample(4000, 1, 300, 1.0), true);
    let points = buffer.get_ram_series(1).unwrap().get_points();
    assert_eq!(points.len(), 2);
    assert_eq!((points[0].0, points[0].1), (2000, 250));
    assert_eq!((points[1].0, points[1].1), (4000, 300));
}

#[test]
fn window_config_values() {
    assert!(WindowConfig::new(30, 1000).is_some());
    assert!(WindowConfig::new(31, 1000).is_none());
    assert!(WindowConfig::new(30, 999).is_none());
    assert_eq!(WindowConfig::new(30, 1000).unwrap().bucket_ms(), 1000);
    assert_eq!(WindowConfig::new(3600, 100).unwrap().bucket_ms(), 3000);
    assert_eq!(WindowConfig::new(300, 100).unwrap().bucket_ms(), 250);
    assert_eq!(WindowConfig::new(1800, 2000).unwrap().bucket_ms(), 2000);
    let d = WindowConfig::default();
    assert_eq!((d.window_secs, d.interval_ms), (30, 1000));
}

#[test]
fn series_never_holds_more_than_max_points() {
    // Window 3600 s at 100 ms: buckets are 3000 ms wide, so 1201 pushes
    // 3000 ms apart all stay inside the window.
    let config = WindowConfig::new(3600, 100).unwrap();
    let mut series = RingSeries::new();
    let mut vram = VramRingSeries::new();
    for i in 0..=1200u64 {
        series.push(make_sample(i * 3000, 1, 100 + i, 1.0), &config, true);
        vram.push(VramProcessSample { ts_ms: i * 3000, pid: 1, used_bytes: 7 + i }, &config, true);
    }
    assert_eq!(series.count(), WindowConfig::MAX_POINTS);
    assert_eq!(series.get_points().len(), WindowConfig::MAX_POINTS);
    assert_eq!(series.get_points()[0].0, 3000);
    assert_eq!(series.latest_downsampled().unwrap().0, 1200 * 3000);
    assert_eq!(vram.count(), WindowConfig::MAX_POINTS);
    assert_eq!(vram.get_points()[0], (3000, 8));
}

#[test]
fn gauge_from_empty_without_history() {
    let config = WindowConfig::new(30, 1000).unwrap();
    let mut vram = VramRingSeries::new();
    assert_eq!(vram.gauge(), None);
    vram.push(VramProcessSample { ts_ms: 5, pid: 1, used_bytes: 42 }, &config, false);
    assert_eq!(vram.gauge(), Some((42, 42, 42)));
    assert!(vram.get_points().is_empty());
    vram.reset_gauge();
    vram.push(VramProcessSample { ts_ms: 6, pid: 1, used_bytes: 40 }, &config, false);
    vram.push(VramProcessSample { ts_ms: 7, pid: 1, used_bytes: 41 }, &config, false);
    assert_eq!(vram.gauge(), Some((41, 40, 41)));
}
