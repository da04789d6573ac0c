use lumiere_agent::frame::{
    bgra_to_nv12, bgra_to_nv12_packed, is_black_frame, normalize_frame_for_stream, scale_request_from,
    select_screen_for_index, CaptureApi, ScreenChoiceError, DesktopFrame,
    Nv12Frame,
};
use std::time::Instant;

#[test]
fn detects_all_zero_buffer_as_black() {
    let buf = vec![0u8; 4 * 4 * 4];
    assert!(is_black_frame(&buf));
}

#[test]
fn detects_all_zero_with_alpha_255_as_black() {
    let mut buf = vec![0u8; 4 * 4 * 4];
    for px in buf.chunks_exact_mut(4) {
        px[3] = 255;
    }
    assert!(is_black_frame(&buf));
}

#[test]
fn rejects_single_white_pixel() {
    let mut buf = vec![0u8; 128 * 128 * 4];
    let center = (64 * 128 + 64) * 4;
    buf[center] = 255;
    buf[center + 1] = 255;
    buf[center + 2] = 255;
    for i in 0..1024 {
        let idx = i * 64 * 4;
        if idx + 2 < buf.len() {
            buf[idx + 2] = 200;
        }
    }
    assert!(!is_black_frame(&buf));
}

#[test]
fn rejects_buffer_with_low_intensity_pixels() {
    let buf = vec![5u8; 64 * 64 * 4];
    assert!(!is_black_frame(&buf));
}

#[test]
fn handles_empty_buffer() {
    assert!(is_black_frame(&[]));
}

#[test]
fn handles_undersized_buffer() {
    assert!(is_black_frame(&[0u8, 0u8, 0u8]));
}

#[test]
fn realistic_1080p_black_frame() {
    let buf = vec![0u8; 1920 * 1080 * 4];
    assert!(is_black_frame(&buf));
}

#[test]
fn realistic_1080p_with_content() {
    let mut buf = vec![0u8; 1920 * 1080 * 4];
    for (i, px) in buf.chunks_exact_mut(4).enumerate() {
        px[2] = ((i / 1920) & 0xff) as u8;
    }
    assert!(!is_black_frame(&buf));
}

#[test]
fn black_frame_ignores_unsampled_pixels() {
    // 1024 pixels: every 4th pixel is sampled, so pixel 1 is never read.
    let mut buf = vec![0u8; 1024 * 4];
    buf[4] = 255;
    assert!(is_black_frame(&buf));
    buf[8 * 4 + 1] = 1;
    assert!(!is_black_frame(&buf));
}

fn frame(width: usize, height: usize, stride: usize, bgra: Vec<u8>) -> DesktopFrame {
    DesktopFrame { width, height, stride, captured_at: Instant::now(), bgra }
}

#[test]
fn into_even_bgra_keeps_even_frames() {
    let bytes: Vec<u8> = (0..32u8).collect();
    let (w, h, out) = frame(2, 4, 8, bytes.clone()).into_even_bgra();
    assert_eq!((w, h), (2, 4));
    assert_eq!(out, bytes);
}

#[test]
fn into_even_bgra_crops_odd_dimensions() {
    // 3x3 frame with a padded stride of 16 bytes.
    let bytes: Vec<u8> = (0..48u8).collect();
    let (w, h, out) = frame(3, 3, 16, bytes).into_even_bgra();
    assert_eq!((w, h), (2, 2));
    let expected: Vec<u8> = (0..8u8).chain(16..24u8).collect();
    assert_eq!(out, expected);
}

#[test]
fn into_even_bgra_single_row_is_empty() {
    let (w, h, out) = frame(5, 1, 20, vec![7u8; 20]).into_even_bgra();
    assert_eq!((w, h), (4, 0));
    assert!(out.is_empty());
}

#[test]
fn resize_same_size_is_a_copy() {
    let bytes: Vec<u8> = (0..16u8).collect();
    let f = frame(2, 2, 8, bytes.clone());
    let r = f.resize_bgra_nearest(2, 2);
    assert_eq!((r.width, r.height, r.stride), (2, 2, 8));
    assert_eq!(r.bgra, bytes);
    assert_eq!(r.captured_at, f.captured_at);
}

#[test]
fn resize_downscale_picks_nearest_pixels() {
    // 4x2 frame, pixel (y, x) has all four bytes equal to 10 * y + x.
    let mut bytes = Vec::new();
    for y in 0..2u8 {
        for x in 0..4u8 {
            bytes.extend_from_slice(&[10 * y + x; 4]);
        }
    }
    let r = frame(4, 2, 16, bytes).resize_bgra_nearest(2, 1);
    assert_eq!((r.width, r.height, r.stride), (2, 1, 8));
    assert_eq!(r.bgra, vec![0, 0, 0, 0, 2, 2, 2, 2]);
}

#[test]
fn resize_upscale_repeats_pixels() {
    let bytes = vec![1, 2, 3, 4, 5, 6, 7, 8];
    let r = frame(2, 1, 8, bytes).resize_bgra_nearest(4, 2);
    assert_eq!(r.stride, 16);
    let row = vec![1, 2, 3, 4, 1, 2, 3, 4, 5, 6, 7, 8, 5, 6, 7, 8];
    let mut expected = row.clone();
    expected.extend_from_slice(&row);
    assert_eq!(r.bgra, expected);
}

fn solid(width: usize, height: usize, b: u8, g: u8, r: u8) -> Vec<u8> {
    let mut out = Vec::new();
    for _ in 0..width * height {
        out.extend_from_slice(&[b, g, r, 255]);
    }
    out
}

#[test]
fn nv12_of_white_black_red_and_blue() {
    let white = bgra_to_nv12(2, 2, 8, &solid(2, 2, 255, 255, 255));
    assert_eq!(white.y_plane, vec![235; 4]);
    assert_eq!(white.uv_plane, vec![128, 128]);

    let black = bgra_to_nv12(2, 2, 8, &solid(2, 2, 0, 0, 0));
    assert_eq!(black.y_plane, vec![16; 4]);
    assert_eq!(black.uv_plane, vec![128, 128]);

    let red = bgra_to_nv12(2, 2, 8, &solid(2, 2, 0, 0, 255));
    assert_eq!(red.y_plane, vec![82; 4]);
    assert_eq!(red.uv_plane, vec![90, 240]);

    let blue = bgra_to_nv12(2, 2, 8, &solid(2, 2, 255, 0, 0));
    assert_eq!(blue.y_plane, vec![41; 4]);
    assert_eq!(blue.uv_plane, vec![240, 110]);
}

#[test]
fn nv12_plane_sizes_and_layout() {
    // 4x2: left block white, right block black.
    let mut bytes = Vec::new();
    for _ in 0..2 {
        bytes.extend_from_slice(&[255, 255, 255, 0, 255, 255, 255, 0, 0, 0, 0, 0, 0, 0, 0, 0]);
    }
    let f = frame(4, 2, 16, bytes);
    let nv12 = f.to_nv12();
    assert_eq!((nv12.width, nv12.height), (4, 2));
    assert_eq!(nv12.y_plane, vec![235, 235, 16, 16, 235, 235, 16, 16]);
    assert_eq!(nv12.uv_plane, vec![128, 128, 128, 128]);
    assert_eq!(nv12.as_bytes(), vec![235, 235, 16, 16, 235, 235, 16, 16, 128, 128, 128, 128]);
}

#[test]
fn nv12_packed_overwrites_previous_content() {
    let mut out = vec![9u8; 100];
    bgra_to_nv12_packed(2, 2, 8, &solid(2, 2, 0, 0, 255), &mut out);
    assert_eq!(out, vec![82, 82, 82, 82, 90, 240]);
    bgra_to_nv12_packed(0, 0, 0, &[], &mut out);
    assert!(out.is_empty());
}

#[test]
fn nv12_as_bytes_concatenates_planes() {
    let f = Nv12Frame { width: 2, height: 2, y_plane: vec![1, 2, 3, 4], uv_plane: vec![5, 6] };
    assert_eq!(f.as_bytes(), vec![1, 2, 3, 4, 5, 6]);
}

#[test]
fn normalize_resizes_then_crops() {
    let f = frame(4, 4, 16, (0..64u8).collect());
    let (w, h, bytes) = normalize_frame_for_stream(f, Some((3, 3))).unwrap();
    assert_eq!((w, h), (2, 2));
    assert_eq!(bytes.len(), 16);
    let f = frame(3, 3, 12, vec![1u8; 36]);
    let (w, h, _) = normalize_frame_for_stream(f, None).unwrap();
    assert_eq!((w, h), (2, 2));
    let tiny = frame(3, 1, 12, vec![0u8; 12]);
    assert!(normalize_frame_for_stream(tiny, None).is_err());
}

#[test]
fn scale_request_needs_minimum_and_rounds_to_even() {
    assert_eq!(scale_request_from(None, None), None);
    assert_eq!(scale_request_from(Some("1281"), Some("721")), Some((1280, 720)));
    assert_eq!(scale_request_from(Some("1280"), None), Some((1280, 0)));
    assert_eq!(scale_request_from(None, Some("181")), Some((0, 180)));
    assert_eq!(scale_request_from(Some("319"), Some("179")), None);
    assert_eq!(scale_request_from(Some(" 1280"), Some("x")), None);
}

#[test]
fn screen_choice_prefers_request_then_primary() {
    assert_eq!(select_screen_for_index(&vec![], None), Err(ScreenChoiceError::NoDisplay));
    assert_eq!(select_screen_for_index(&vec![], Some(0)), Err(ScreenChoiceError::NoDisplay));
    assert_eq!(select_screen_for_index(&vec![false, true, true], None), Ok(1));
    assert_eq!(select_screen_for_index(&vec![false, false], None), Ok(0));
    assert_eq!(select_screen_for_index(&vec![false, true], Some(0)), Ok(0));
    assert_eq!(
        select_screen_for_index(&vec![true], Some(3)),
        Err(ScreenChoiceError::IndexOutOfRange { index: 3, count: 1 })
    );
}

#[test]
fn capture_backend_setting_orders_interfaces() {
    use_capture_order();
}

fn use_capture_order() {
    assert_eq!(lumiere_agent::frame::capture_backend_order(None), vec![CaptureApi::Dxgi, CaptureApi::Wgc]);
    assert_eq!(lumiere_agent::frame::capture_backend_order(Some(" DXGI ")), vec![CaptureApi::Dxgi]);
    assert_eq!(lumiere_agent::frame::capture_backend_order(Some("wgc")), vec![CaptureApi::Wgc]);
    assert_eq!(lumiere_agent::frame::capture_backend_order(Some("")), vec![CaptureApi::Dxgi, CaptureApi::Wgc]);
    assert_eq!(lumiere_agent::frame::capture_backend_order(Some("gdi")), vec![CaptureApi::Dxgi, CaptureApi::Wgc]);
}

#[test]
fn wgc_native_path_only_for_first_monitor() {
    assert!(lumiere_agent::frame::wgc_native_path(None));
    assert!(lumiere_agent::frame::wgc_native_path(Some(0)));
    assert!(!lumiere_agent::frame::wgc_native_path(Some(1)));
    assert_eq!(lumiere_agent::frame::monitor_index_from(Some(" 2 ")), Some(2));
    assert_eq!(lumiere_agent::frame::monitor_index_from(Some("x")), None);
    assert_eq!(lumiere_agent::frame::monitor_index_from(None), None);
}

#[test]
fn dxgi_falls_back_to_gdi() {
    use_dxgi_health();
}

fn use_dxgi_health() {
    use_black_streak();
    let mut h = lumiere_agent::frame::DxgiHealth::new(false);
    for _ in 0..59 {
        assert_eq!(
            lumiere_agent::frame::dxgi_capture_step(&mut h, lumiere_agent::frame::DxgiAttempt::Timeout),
            lumiere_agent::frame::DxgiVerdict::NoNewFrame
        );
    }
    assert_eq!(
        lumiere_agent::frame::dxgi_capture_step(&mut h, lumiere_agent::frame::DxgiAttempt::Timeout),
        lumiere_agent::frame::DxgiVerdict::UseGdi
    );
    assert_eq!(
        lumiere_agent::frame::dxgi_capture_step(&mut h, lumiere_agent::frame::DxgiAttempt::Frame { black: false }),
        lumiere_agent::frame::DxgiVerdict::UseGdi
    );
    let mut e = lumiere_agent::frame::DxgiHealth::new(false);
    assert_eq!(
        lumiere_agent::frame::dxgi_capture_step(&mut e, lumiere_agent::frame::DxgiAttempt::Error),
        lumiere_agent::frame::DxgiVerdict::UseGdi
    );
    assert!(e.force_gdi);
}

fn use_black_streak() {
    let mut h = lumiere_agent::frame::DxgiHealth::new(false);
    let black = lumiere_agent::frame::DxgiAttempt::Frame { black: true };
    assert_eq!(lumiere_agent::frame::dxgi_capture_step(&mut h, black), lumiere_agent::frame::DxgiVerdict::Deliver);
    assert_eq!(lumiere_agent::frame::dxgi_capture_step(&mut h, black), lumiere_agent::frame::DxgiVerdict::Deliver);
    assert_eq!(
        lumiere_agent::frame::dxgi_capture_step(&mut h, lumiere_agent::frame::DxgiAttempt::Frame { black: false }),
        lumiere_agent::frame::DxgiVerdict::Deliver
    );
    assert_eq!(h.consecutive_black_frames, 0);
    assert_eq!(lumiere_agent::frame::dxgi_capture_step(&mut h, black), lumiere_agent::frame::DxgiVerdict::Deliver);
    assert_eq!(lumiere_agent::frame::dxgi_capture_step(&mut h, black), lumiere_agent::frame::DxgiVerdict::Deliver);
    assert_eq!(lumiere_agent::frame::dxgi_capture_step(&mut h, black), lumiere_agent::frame::DxgiVerdict::UseGdi);
}
