use lumiere_agent::encoder::{
    encoder_listed, ffmpeg_backend_args, is_low_power_intel_gpu, parse_requested_backend,
    VideoEncoderBackend, VideoEncoderSelection, ffmpeg_sender_step, FfmpegAction, FfmpegEvent,
    FfmpegSenderState,
};

#[test]
fn detects_intel_uhd_730() {
    assert!(is_low_power_intel_gpu("Intel(R) UHD Graphics 730"));
}

#[test]
fn detects_intel_uhd_770() {
    assert!(is_low_power_intel_gpu("Intel(R) UHD Graphics 770"));
}

#[test]
fn detects_intel_hd_graphics_legacy() {
    assert!(is_low_power_intel_gpu("Intel(R) HD Graphics 620"));
    assert!(is_low_power_intel_gpu("Intel(R) HD Graphics 530"));
}

#[test]
fn detects_iris_xe_integrated() {
    assert!(is_low_power_intel_gpu("Intel(R) Iris(R) Xe Graphics"));
    assert!(is_low_power_intel_gpu("Intel Iris Xe Graphics"));
}

#[test]
fn detects_iris_plus() {
    assert!(is_low_power_intel_gpu("Intel(R) Iris(R) Plus Graphics"));
}

#[test]
fn case_insensitive() {
    assert!(is_low_power_intel_gpu("INTEL(R) UHD GRAPHICS 730"));
    assert!(is_low_power_intel_gpu("intel uhd graphics 730"));
}

#[test]
fn does_not_match_nvidia() {
    assert!(!is_low_power_intel_gpu("NVIDIA GeForce GTX 1650"));
    assert!(!is_low_power_intel_gpu("NVIDIA GeForce RTX 4090"));
}

#[test]
fn does_not_match_amd() {
    assert!(!is_low_power_intel_gpu("AMD Radeon RX 6800"));
    assert!(!is_low_power_intel_gpu("Radeon(TM) Graphics"));
}

#[test]
fn does_not_match_intel_arc_discrete() {
    assert!(!is_low_power_intel_gpu("Intel(R) Arc(TM) A770 Graphics"));
    assert!(!is_low_power_intel_gpu("Intel Arc A750"));
}

#[test]
fn does_not_match_empty_or_unknown() {
    assert!(!is_low_power_intel_gpu(""));
    assert!(!is_low_power_intel_gpu("Unknown GPU"));
}

#[test]
fn open_h264_has_software_label() {
    assert!(VideoEncoderBackend::OpenH264Software.label().contains("software"));
}

#[test]
fn open_h264_preset_is_modest() {
    let preset = VideoEncoderBackend::OpenH264Software.default_preset();
    assert!(preset.target_fps <= 30);
    assert!(preset.bitrate_bps <= 5_000_000);
}

#[test]
fn ffmpeg_encoder_name_is_set_for_hardware_backends() {
    assert_eq!(VideoEncoderBackend::FfmpegNvenc.ffmpeg_encoder_name(), Some("h264_nvenc"));
    assert_eq!(VideoEncoderBackend::FfmpegQsv.ffmpeg_encoder_name(), Some("h264_qsv"));
    assert_eq!(VideoEncoderBackend::FfmpegAmf.ffmpeg_encoder_name(), Some("h264_amf"));
}

#[test]
fn ffmpeg_encoder_name_is_none_for_native_backends() {
    assert_eq!(VideoEncoderBackend::MediaFoundationH264.ffmpeg_encoder_name(), None);
    assert_eq!(VideoEncoderBackend::OpenH264Software.ffmpeg_encoder_name(), None);
}

#[test]
fn parse_backend_handles_aliases() {
    assert_eq!(parse_requested_backend("mf"), Some(VideoEncoderBackend::MediaFoundationH264));
    assert_eq!(parse_requested_backend("MediaFoundation"), Some(VideoEncoderBackend::MediaFoundationH264));
    assert_eq!(parse_requested_backend("nvenc"), Some(VideoEncoderBackend::FfmpegNvenc));
    assert_eq!(parse_requested_backend("openh264"), Some(VideoEncoderBackend::OpenH264Software));
    assert_eq!(parse_requested_backend("software"), Some(VideoEncoderBackend::OpenH264Software));
}

#[test]
fn parse_backend_auto_means_unspecified() {
    assert_eq!(parse_requested_backend("auto"), None);
    assert_eq!(parse_requested_backend("AUTO"), None);
}

#[test]
fn parse_backend_unknown_returns_none() {
    assert_eq!(parse_requested_backend("hevc"), None);
    assert_eq!(parse_requested_backend(""), None);
}

#[test]
fn labels_presets_and_args() {
    assert_eq!(VideoEncoderBackend::MediaFoundationH264.label(), "native:media_foundation_h264");
    assert_eq!(VideoEncoderBackend::FfmpegQsv.label(), "ffmpeg:h264_qsv");
    let p = VideoEncoderBackend::FfmpegAmf.default_preset();
    assert_eq!((p.target_fps, p.bitrate_bps), (60, 8_000_000));
    assert_eq!(ffmpeg_backend_args(VideoEncoderBackend::FfmpegQsv), vec!["-preset", "veryfast"]);
    assert_eq!(ffmpeg_backend_args(VideoEncoderBackend::FfmpegNvenc).len(), 6);
    assert!(ffmpeg_backend_args(VideoEncoderBackend::OpenH264Software).is_empty());
}

#[test]
fn selection_tuning_clamps_and_defaults() {
    let s = VideoEncoderSelection::with_tuning(VideoEncoderBackend::OpenH264Software, Some("100"), Some("1000"));
    assert_eq!(s.preset.target_fps, 60);
    assert_eq!(s.preset.bitrate_bps, 500_000);
    let s = VideoEncoderSelection::with_tuning(VideoEncoderBackend::FfmpegNvenc, Some(" 30"), None);
    assert_eq!(s.preset.target_fps, 60);
    assert_eq!(s.preset.bitrate_bps, 8_000_000);
    let s = VideoEncoderSelection::with_tuning(VideoEncoderBackend::FfmpegNvenc, Some("24"), Some("30000000"));
    assert_eq!(s.preset.target_fps, 24);
    assert_eq!(s.preset.bitrate_bps, 20_000_000);
}

#[test]
fn encoder_listing() {
    let out = "Encoders:\n V....D h264_nvenc  NVIDIA NVENC\r\n V....D libx264\n";
    assert!(encoder_listed(out, "h264_nvenc"));
    assert!(!encoder_listed(out, "h264_qsv"));
}

#[test]
fn ffmpeg_sender_turns() {
    use_ffmpeg_turns();
}

fn use_ffmpeg_turns() {
    let mut s = FfmpegSenderState::new(2);
    assert_eq!(ffmpeg_sender_step(&mut s, FfmpegEvent::Paused), FfmpegAction::WaitPaused);
    assert_eq!(ffmpeg_sender_step(&mut s, FfmpegEvent::NotReady), FfmpegAction::WaitNotReady);
    assert_eq!(
        ffmpeg_sender_step(&mut s, FfmpegEvent::Frame { negotiated_payload_type: None, captured: None }),
        FfmpegAction::WaitForFrame
    );
    assert_eq!(s.frame_counter, 0);
    assert_eq!(
        ffmpeg_sender_step(&mut s, FfmpegEvent::Frame { negotiated_payload_type: Some(102), captured: Some((1280, 720)) }),
        FfmpegAction::Send { width: 1280, height: 720, restart_bridge: true, payload_type: 102, reuse_last: false, log_progress: false }
    );
    assert_eq!(
        ffmpeg_sender_step(&mut s, FfmpegEvent::Frame { negotiated_payload_type: Some(97), captured: None }),
        FfmpegAction::Send { width: 1280, height: 720, restart_bridge: false, payload_type: 102, reuse_last: true, log_progress: true }
    );
    assert_eq!(
        ffmpeg_sender_step(&mut s, FfmpegEvent::Frame { negotiated_payload_type: None, captured: Some((640, 360)) }),
        FfmpegAction::Send { width: 640, height: 360, restart_bridge: true, payload_type: 102, reuse_last: false, log_progress: false }
    );
    assert_eq!(s.frame_counter, 3);
    assert_eq!(ffmpeg_sender_step(&mut s, FfmpegEvent::PeerClosed), FfmpegAction::Stop);
    let mut fresh = FfmpegSenderState::new(30);
    assert!(matches!(
        ffmpeg_sender_step(&mut fresh, FfmpegEvent::Frame { negotiated_payload_type: None, captured: Some((2, 2)) }),
        FfmpegAction::Send { payload_type: 96, .. }
    ));
}
