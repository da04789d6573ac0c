use lumiere_agent::privacy::{
    apply_privacy_blur, black_out_buffer, blur_region, blur_region_with_scratch, hit_regions,
    merge_scan_hits, scan_scope_for_iteration, scan_succeeded, sticky_regions, FrameOutcome,
    PrivacyFilter, ScanScope, ScannerStatus, SensitiveRegion, StickyRegion, UiaHit,
    DEFAULT_BLUR_RADIUS, SCANNER_HEARTBEAT_DEAD_MS,
};
use std::time::{SystemTime, UNIX_EPOCH};

fn now_ms() -> u64 {
    SystemTime::now().duration_since(UNIX_EPOCH).unwrap().as_millis() as u64
}

fn solid_buffer(width: u32, height: u32, color: [u8; 4]) -> Vec<u8> {
    let mut buf = Vec::with_capacity((width * height * 4) as usize);
    for _ in 0..(width * height) {
        buf.extend_from_slice(&color);
    }
    buf
}

fn half_black_half_white(size: usize) -> Vec<u8> {
    let mut buf = vec![0u8; size * size * 4];
    for y in 0..size {
        for x in 0..size {
            let i = (y * size + x) * 4;
            let v = if x < size / 2 { 0 } else { 255 };
            buf[i] = v;
            buf[i + 1] = v;
            buf[i + 2] = v;
            buf[i + 3] = 255;
        }
    }
    buf
}

#[test]
fn blur_noop_outside_buffer() {
    let mut buf = solid_buffer(16, 16, [10, 20, 30, 255]);
    let region = SensitiveRegion { x: 100, y: 100, width: 50, height: 50 };
    blur_region(&mut buf, 16, 16, &region, 5);
    assert_eq!(buf[0..4], [10, 20, 30, 255]);
}

#[test]
fn blur_smooths_step_edge() {
    let w = 32u32;
    let h = 8u32;
    let mut buf = vec![0u8; (w * h * 4) as usize];
    for y in 0..h {
        for x in 0..w {
            let i = ((y * w + x) * 4) as usize;
            let v = if x < w / 2 { 0 } else { 255 };
            buf[i] = v;
            buf[i + 1] = v;
            buf[i + 2] = v;
            buf[i + 3] = 255;
        }
    }
    let region = SensitiveRegion { x: 0, y: 0, width: w as i32, height: h as i32 };
    blur_region(&mut buf, w, h, &region, 4);
    let mid_x = (w / 2) as usize;
    let mid_y = (h / 2) as usize;
    let idx = (mid_y * w as usize + mid_x) * 4;
    let v = buf[idx];
    assert!(v > 30 && v < 225, "boundary pixel still binary: {v}");
}

#[test]
fn disabled_filter_is_noop() {
    let mut filter = PrivacyFilter::new();
    filter.enabled = false;
    filter.set_snapshot(vec![SensitiveRegion { x: 0, y: 0, width: 8, height: 8 }], None);
    let mut buf = solid_buffer(16, 16, [42, 42, 42, 255]);
    let before = buf.clone();
    filter.process_frame(&mut buf, 16, 16);
    assert_eq!(buf, before);
}

#[test]
fn empty_regions_skip_work() {
    let mut filter = PrivacyFilter::new();
    filter.enabled = true;
    filter.record_heartbeat_at(now_ms());
    let mut buf = solid_buffer(16, 16, [42, 42, 42, 255]);
    let before = buf.clone();
    filter.process_frame(&mut buf, 16, 16);
    assert_eq!(buf, before);
}

#[test]
fn snapshot_regions_drive_blur() {
    let mut filter = PrivacyFilter::new();
    filter.enabled = true;
    filter.blur_radius = 4;
    filter.set_snapshot(vec![SensitiveRegion { x: 4, y: 4, width: 8, height: 8 }], Some((16, 16)));
    filter.record_heartbeat_at(now_ms());
    let mut buf = half_black_half_white(16);
    filter.process_frame(&mut buf, 16, 16);
    let idx = (6 * 16 + 7) * 4;
    let v = buf[idx];
    assert!(v > 0 && v < 255, "no blur applied inside region (v={v})");
}

#[test]
fn blur_caps_oversized_region() {
    let mut buf = solid_buffer(16, 16, [10, 20, 30, 255]);
    let before = buf.clone();
    let region = SensitiveRegion { x: 0, y: 0, width: i32::MAX, height: i32::MAX };
    blur_region(&mut buf, 16, 16, &region, 4);
    assert_eq!(buf.len(), before.len());
}

#[test]
fn blur_handles_negative_origin() {
    let mut buf = solid_buffer(16, 16, [200, 200, 200, 255]);
    let region = SensitiveRegion { x: -8, y: -8, width: 16, height: 16 };
    blur_region(&mut buf, 16, 16, &region, 3);
}

#[test]
fn black_out_zeroes_rgb_keeps_alpha() {
    let mut buf = solid_buffer(4, 4, [10, 20, 30, 255]);
    black_out_buffer(&mut buf, 4, 4);
    for px in buf.chunks_exact(4) {
        assert_eq!(px[0], 0);
        assert_eq!(px[1], 0);
        assert_eq!(px[2], 0);
        assert_eq!(px[3], 0xFF);
    }
}

#[test]
fn fail_closed_blacks_out_when_scanner_dead() {
    let mut filter = PrivacyFilter::new();
    filter.enabled = true;
    filter.record_heartbeat_at(now_ms() - (SCANNER_HEARTBEAT_DEAD_MS + 1_000));
    let mut buf = solid_buffer(8, 8, [99, 99, 99, 255]);
    filter.process_frame(&mut buf, 8, 8);
    for px in buf.chunks_exact(4) {
        assert_eq!((px[0], px[1], px[2], px[3]), (0, 0, 0, 0xFF));
    }
}

#[test]
fn fail_closed_when_scanner_never_spawned() {
    let mut filter = PrivacyFilter::new();
    filter.set_scanner_spawned(false);
    filter.enabled = true;
    let mut buf = solid_buffer(8, 8, [7, 8, 9, 255]);
    filter.process_frame(&mut buf, 8, 8);
    for px in buf.chunks_exact(4) {
        assert_eq!((px[0], px[1], px[2], px[3]), (0, 0, 0, 0xFF));
    }
    assert_eq!(filter.stats().scanner_status, ScannerStatus::Failed);
}

#[test]
fn stats_report_regions_count() {
    let mut filter = PrivacyFilter::new();
    filter.set_snapshot(
        vec![
            SensitiveRegion { x: 0, y: 0, width: 4, height: 4 },
            SensitiveRegion { x: 4, y: 4, width: 4, height: 4 },
            SensitiveRegion { x: 8, y: 8, width: 4, height: 4 },
        ],
        None,
    );
    let stats = filter.stats();
    assert_eq!(stats.regions_count, 3);
    assert!(stats.enabled);
}

/// The rescale that the capture loop applies when the scan and the frame
/// differ in size.
fn rescale(regions: &[SensitiveRegion], sw: i32, sh: i32, width: u32, height: u32) -> Vec<SensitiveRegion> {
    let sx = width as f32 / sw as f32;
    let sy = height as f32 / sh as f32;
    regions
        .iter()
        .map(|r| SensitiveRegion {
            x: ((r.x as f32) * sx) as i32,
            y: ((r.y as f32) * sy) as i32,
            width: ((r.width as f32) * sx).ceil() as i32,
            height: ((r.height as f32) * sy).ceil() as i32,
        })
        .collect()
}

#[test]
fn rescale_maps_uia_coords_to_buffer() {
    let mut filter = PrivacyFilter::new();
    filter.enabled = true;
    filter.blur_radius = 3;
    filter.set_snapshot(vec![SensitiveRegion { x: 14, y: 14, width: 8, height: 8 }], Some((32, 32)));
    filter.record_heartbeat_at(now_ms());
    let mut buf = half_black_half_white(16);
    match filter.process_frame(&mut buf, 16, 16) {
        FrameOutcome::RescaleNeeded { regions, scan_width, scan_height } => {
            let scaled = rescale(&regions, scan_width, scan_height, 16, 16);
            filter.blur_regions(&mut buf, 16, 16, &scaled);
        }
        FrameOutcome::Done => panic!("regions scanned at 32x32 must be rescaled for a 16x16 frame"),
    }
    let idx = (9 * 16 + 8) * 4;
    let v = buf[idx];
    assert!(v > 0 && v < 255, "rescaled region not blurred (v={v}) — coord mapping broken");
}

#[test]
fn apply_privacy_blur_skips_empty_regions() {
    let mut buf = solid_buffer(8, 8, [1, 2, 3, 4]);
    let before = buf.clone();
    apply_privacy_blur(&mut buf, 8, 8, &[], 5);
    assert_eq!(buf, before);
}

#[test]
fn apply_privacy_blur_reuses_scratch_across_regions() {
    let mut buf = vec![0u8; 32 * 32 * 4];
    for i in 0..buf.len() {
        buf[i] = (i % 251) as u8;
    }
    let regions = [
        SensitiveRegion { x: 0, y: 0, width: 8, height: 8 },
        SensitiveRegion { x: 10, y: 10, width: 8, height: 8 },
        SensitiveRegion { x: 20, y: 20, width: 8, height: 8 },
    ];
    apply_privacy_blur(&mut buf, 32, 32, &regions, 3);
    for r in &regions {
        let cx = (r.x + r.width / 2) as usize;
        let cy = (r.y + r.height / 2) as usize;
        let idx = (cy * 32 + cx) * 4;
        let unblurred = ((cy * 32 + cx) * 4) % 251;
        assert!(
            (buf[idx] as usize) != unblurred
                || (buf[idx + 1] as usize) != unblurred
                || (buf[idx + 2] as usize) != unblurred,
            "region at ({}, {}) appears unblurred",
            cx,
            cy
        );
    }
}

#[test]
fn blur_exact_box_average_on_one_row() {
    // 3x1 frame, blue values 0, 30, 90: windows [0,1], [0,2], [1,2].
    let mut buf = vec![0, 0, 0, 7, 30, 0, 0, 8, 90, 0, 0, 9];
    let region = SensitiveRegion { x: 0, y: 0, width: 3, height: 1 };
    blur_region(&mut buf, 3, 1, &region, 1);
    assert_eq!(buf, vec![15, 0, 0, 7, 40, 0, 0, 8, 60, 0, 0, 9]);
}

#[test]
fn blur_exact_two_passes_on_column() {
    // 1x3 frame, red values 0, 60, 90 down the column.
    let mut buf = vec![0, 0, 0, 1, 0, 0, 60, 2, 0, 0, 90, 3];
    let region = SensitiveRegion { x: 0, y: 0, width: 1, height: 3 };
    blur_region(&mut buf, 1, 3, &region, 1);
    assert_eq!(buf, vec![0, 0, 30, 1, 0, 0, 50, 2, 0, 0, 75, 3]);
}

#[test]
fn blur_leaves_pixels_outside_region_and_trailing_bytes() {
    let mut buf = half_black_half_white(8);
    buf.extend_from_slice(&[1, 2, 3]);
    let before = buf.clone();
    let region = SensitiveRegion { x: 2, y: 2, width: 4, height: 4 };
    let mut scratch = vec![99u8; 5];
    blur_region_with_scratch(&mut buf, 8, 8, &region, 2, &mut scratch);
    for y in 0..8usize {
        for x in 0..8usize {
            let i = (y * 8 + x) * 4;
            assert_eq!(buf[i + 3], before[i + 3]);
            if !(2..6).contains(&x) || !(2..6).contains(&y) {
                assert_eq!(buf[i..i + 4], before[i..i + 4]);
            }
        }
    }
    assert_eq!(buf[256..], [1, 2, 3]);
    assert_ne!(buf, before);
}

#[test]
fn blur_of_uniform_region_is_identity() {
    let mut buf = solid_buffer(12, 12, [17, 99, 201, 5]);
    let before = buf.clone();
    blur_region(&mut buf, 12, 12, &SensitiveRegion { x: 1, y: 3, width: 9, height: 7 }, 3);
    assert_eq!(buf, before);
}

#[test]
fn blur_zero_radius_or_short_buffer_is_noop() {
    let mut buf = half_black_half_white(8);
    let before = buf.clone();
    let region = SensitiveRegion { x: 0, y: 0, width: 8, height: 8 };
    blur_region(&mut buf, 8, 8, &region, 0);
    assert_eq!(buf, before);
    blur_region(&mut buf, 8, 9, &region, 2);
    assert_eq!(buf, before);
    blur_region(&mut buf, 8, 8, &region, u32::MAX);
    assert_eq!(buf, before);
}

#[test]
fn black_out_stops_at_frame_and_whole_pixels() {
    let mut buf = solid_buffer(2, 2, [5, 6, 7, 8]);
    buf.extend_from_slice(&[9, 9]);
    black_out_buffer(&mut buf, 2, 1);
    assert_eq!(buf, vec![0, 0, 0, 255, 0, 0, 0, 255, 5, 6, 7, 8, 5, 6, 7, 8, 9, 9]);
    let mut short = vec![1u8, 2, 3, 4, 5, 6];
    black_out_buffer(&mut short, 4, 4);
    assert_eq!(short, vec![0, 0, 0, 255, 5, 6]);
    let mut untouched = vec![1u8, 2, 3, 4];
    black_out_buffer(&mut untouched, 0, 4);
    assert_eq!(untouched, vec![1, 2, 3, 4]);
}

#[test]
fn scanner_status_follows_heartbeat_age() {
    let filter = PrivacyFilter::from_initial_scan(Vec::new(), None, 1_000_000, 12, true);
    assert_eq!(filter.scanner_status_at(1_000_000), ScannerStatus::Healthy);
    assert_eq!(filter.scanner_status_at(1_004_999), ScannerStatus::Healthy);
    assert_eq!(filter.scanner_status_at(1_005_000), ScannerStatus::Degraded);
    assert_eq!(filter.scanner_status_at(1_014_999), ScannerStatus::Degraded);
    assert_eq!(filter.scanner_status_at(1_015_000), ScannerStatus::Failed);
    assert_eq!(filter.scanner_status_at(10), ScannerStatus::Healthy);
    let stopped = PrivacyFilter::from_initial_scan(Vec::new(), None, 1_000_000, 12, false);
    assert_eq!(stopped.scanner_status_at(1_000_000), ScannerStatus::Failed);
}

#[test]
fn stats_at_reports_counters_and_age() {
    let mut filter = PrivacyFilter::from_initial_scan(
        vec![SensitiveRegion { x: 1, y: 2, width: 3, height: 4 }],
        Some((1920, 1080)),
        500,
        7,
        true,
    );
    let st = filter.stats_at(800);
    assert_eq!(st.regions_count, 1);
    assert_eq!(st.last_scan_duration_ms, 7);
    assert_eq!(st.last_scan_age_ms, 300);
    assert_eq!((st.scan_count, st.fail_count), (1, 0));
    assert_eq!(filter.blur_radius, DEFAULT_BLUR_RADIUS);
    filter.publish_scan(Vec::new(), None, 900, 3, false);
    filter.publish_scan(Vec::new(), None, 1000, 4, true);
    let st = filter.stats_at(1000);
    assert_eq!((st.scan_count, st.fail_count), (3, 1));
    assert_eq!((st.regions_count, st.last_scan_duration_ms, st.last_scan_age_ms), (0, 4, 0));
}

#[test]
fn process_frame_at_blacks_out_only_when_failed() {
    let mut filter = PrivacyFilter::from_initial_scan(Vec::new(), None, 0, 0, true);
    let mut buf = solid_buffer(2, 2, [9, 9, 9, 9]);
    filter.process_frame_at(&mut buf, 2, 2, 14_999);
    assert_eq!(buf, solid_buffer(2, 2, [9, 9, 9, 9]));
    filter.process_frame_at(&mut buf, 2, 2, 15_000);
    assert_eq!(buf, solid_buffer(2, 2, [0, 0, 0, 255]));
}

#[test]
fn process_frame_with_unknown_scan_size_blurs_directly() {
    let region = SensitiveRegion { x: 0, y: 0, width: 16, height: 16 };
    let mut filter = PrivacyFilter::from_initial_scan(vec![region], None, 0, 0, true);
    filter.blur_radius = 2;
    let mut buf = half_black_half_white(16);
    let mut expected = buf.clone();
    apply_privacy_blur(&mut expected, 16, 16, &[region], 2);
    assert!(matches!(filter.process_frame_at(&mut buf, 16, 16, 1), FrameOutcome::Done));
    assert_eq!(buf, expected);
}

fn hit(id: &[i32], x: i32) -> UiaHit {
    UiaHit { runtime_id: id.to_vec(), region: SensitiveRegion { x, y: 0, width: 10, height: 10 } }
}

#[test]
fn sticky_regions_follow_password_and_edit_hits() {
    let mut sticky: Vec<StickyRegion> = Vec::new();
    merge_scan_hits(&mut sticky, &[hit(&[1, 2], 5), hit(&[3], 6)], &[], 1000, ScanScope::Full);
    assert_eq!(sticky.len(), 2);
    assert_eq!(sticky[0].last_password_seen_ms, 1000);

    // The field stops reporting as a password but is still an edit field: it moves.
    merge_scan_hits(&mut sticky, &[hit(&[3], 7)], &[hit(&[1, 2], 40)], 2000, ScanScope::Full);
    let regions = sticky_regions(&sticky);
    assert_eq!(regions.iter().map(|r| r.x).collect::<Vec<_>>(), vec![40, 7]);
    assert_eq!(sticky[0].last_password_seen_ms, 1000);
    assert_eq!(sticky[1].last_password_seen_ms, 2000);

    // A foreground scan keeps fields it cannot see; a full scan drops them.
    merge_scan_hits(&mut sticky, &[], &[], 3000, ScanScope::Foreground);
    assert_eq!(sticky.len(), 2);
    merge_scan_hits(&mut sticky, &[hit(&[1, 2], 8)], &[], 4000, ScanScope::Full);
    assert_eq!(sticky.len(), 1);
    assert_eq!(sticky[0].runtime_id, vec![1, 2]);
    assert_eq!(sticky[0].region.x, 8);
}

#[test]
fn sticky_region_expires_after_an_hour() {
    let mut sticky: Vec<StickyRegion> = Vec::new();
    merge_scan_hits(&mut sticky, &[hit(&[9], 1)], &[], 0, ScanScope::Full);
    merge_scan_hits(&mut sticky, &[], &[hit(&[9], 2)], 3_600_000, ScanScope::Foreground);
    assert_eq!(sticky.len(), 1);
    merge_scan_hits(&mut sticky, &[], &[hit(&[9], 2)], 3_600_001, ScanScope::Foreground);
    assert!(sticky.is_empty());
}

#[test]
fn scan_scope_and_success_rules() {
    assert_eq!(scan_scope_for_iteration(0), ScanScope::Full);
    assert_eq!(scan_scope_for_iteration(1), ScanScope::Foreground);
    assert_eq!(scan_scope_for_iteration(20), ScanScope::Full);
    assert!(!scan_succeeded(0, 0, ScanScope::Full));
    assert!(scan_succeeded(0, 0, ScanScope::Foreground));
    assert!(scan_succeeded(0, 1, ScanScope::Full));
    let regions = hit_regions(&[hit(&[1], 3), hit(&[2], 4)]);
    assert_eq!(regions.iter().map(|r| r.x).collect::<Vec<_>>(), vec![3, 4]);
}

#[test]
fn blurred_colours_stay_within_region_range() {
    let (w, h) = (10usize, 10usize);
    let mut buf = vec![0u8; w * h * 4];
    for y in 0..h {
        for x in 0..w {
            let i = (y * w + x) * 4;
            buf[i] = if x >= 2 && x < 8 && y >= 1 && y < 9 { 40 + ((x * 7 + y * 3) % 21) as u8 } else { 250 };
            buf[i + 1] = if (x + y) % 2 == 0 { 12 } else { 90 };
            buf[i + 2] = 200;
            buf[i + 3] = 77;
        }
    }
    let before = buf.clone();
    blur_region(&mut buf, w as u32, h as u32, &SensitiveRegion { x: 2, y: 1, width: 6, height: 8 }, 2);
    for y in 0..h {
        for x in 0..w {
            let i = (y * w + x) * 4;
            if x >= 2 && x < 8 && y >= 1 && y < 9 {
                assert!(buf[i] >= 40 && buf[i] <= 60);
                assert!(buf[i + 1] >= 12 && buf[i + 1] <= 90);
                assert_eq!(buf[i + 2], 200);
            } else {
                assert_eq!(buf[i..i + 3], before[i..i + 3]);
            }
            assert_eq!(buf[i + 3], 77);
        }
    }
    assert_ne!(buf, before);
}
