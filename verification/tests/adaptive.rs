use lumiere_agent::adaptive::{
    auto_fps_tier, rate_step, AdaptiveFeedback, AdaptiveRateController, RateStep,
    encoder_rebuild_needed, feedback_requests_idr, frame_signals_network_pressure,
    apply_external_limits, collect_rtcp_delta_at, profile_target_for_preset, AdaptiveVideoConfig,
    FpsTier, RtcpDelta, RtcpFeedbackSnapshot, RtcpFeedbackState, StreamCounters, stream_log_interval_ms_from, StreamQualityProfile, StreamingActivityState,
};
use lumiere_agent::encoder::VideoEncoderPreset;

#[test]
fn fps_tier_from_payload_idle_aliases() {
    assert_eq!(FpsTier::from_payload("idle"), Some(FpsTier::Idle));
    assert_eq!(FpsTier::from_payload("ECO"), Some(FpsTier::Idle));
    assert_eq!(FpsTier::from_payload("  eco  "), Some(FpsTier::Idle));
}

#[test]
fn fps_tier_from_payload_normal_aliases() {
    assert_eq!(FpsTier::from_payload("normal"), Some(FpsTier::Normal));
    assert_eq!(FpsTier::from_payload("balanced"), Some(FpsTier::Normal));
    assert_eq!(FpsTier::from_payload("equilibre"), Some(FpsTier::Normal));
}

#[test]
fn fps_tier_from_payload_active_aliases() {
    assert_eq!(FpsTier::from_payload("active"), Some(FpsTier::Active));
    assert_eq!(FpsTier::from_payload("performance"), Some(FpsTier::Active));
}

#[test]
fn fps_tier_from_payload_unknown_returns_none() {
    assert_eq!(FpsTier::from_payload("foo"), None);
    assert_eq!(FpsTier::from_payload(""), None);
}

#[test]
fn fps_tier_target_fps_ordering() {
    assert!(FpsTier::Idle.target_fps() < FpsTier::Normal.target_fps());
    assert!(FpsTier::Normal.target_fps() < FpsTier::Active.target_fps());
}

#[test]
fn fps_tier_trims_unicode_whitespace() {
    assert_eq!(FpsTier::from_payload("\u{a0}Reactive\u{3000}"), Some(FpsTier::Active));
    assert_eq!(FpsTier::Idle.target_fps(), 15);
    assert_eq!(FpsTier::Normal.target_fps(), 30);
    assert_eq!(FpsTier::Active.target_fps(), 60);
}

#[test]
fn quality_profile_from_payload_responsive_aliases() {
    assert_eq!(StreamQualityProfile::from_payload("responsive"), Some(StreamQualityProfile::Responsive));
    assert_eq!(StreamQualityProfile::from_payload("reactif"), Some(StreamQualityProfile::Responsive));
    assert_eq!(StreamQualityProfile::from_payload("REACTIVE"), Some(StreamQualityProfile::Responsive));
}

#[test]
fn quality_profile_from_payload_quality_aliases() {
    assert_eq!(StreamQualityProfile::from_payload("quality"), Some(StreamQualityProfile::Quality));
    assert_eq!(StreamQualityProfile::from_payload("qualite"), Some(StreamQualityProfile::Quality));
}

#[test]
fn quality_profile_from_payload_unknown() {
    assert_eq!(StreamQualityProfile::from_payload("blah"), None);
}

#[test]
fn external_limits_caps_fps_by_tier() {
    let base = AdaptiveVideoConfig { target_fps: 60, bitrate_bps: 5_000_000 };
    let capped = apply_external_limits(base, FpsTier::Idle, None);
    assert_eq!(capped.target_fps, FpsTier::Idle.target_fps());
    assert_eq!(capped.bitrate_bps, 5_000_000);
}

#[test]
fn external_limits_caps_bitrate_when_override_lower() {
    let base = AdaptiveVideoConfig { target_fps: 30, bitrate_bps: 5_000_000 };
    let capped = apply_external_limits(base, FpsTier::Normal, Some(2_000_000));
    assert_eq!(capped.bitrate_bps, 2_000_000);
}

#[test]
fn external_limits_keeps_existing_bitrate_when_override_higher() {
    let base = AdaptiveVideoConfig { target_fps: 30, bitrate_bps: 1_500_000 };
    let capped = apply_external_limits(base, FpsTier::Normal, Some(5_000_000));
    assert_eq!(capped.bitrate_bps, 1_500_000);
}

#[test]
fn external_limits_enforces_minimum_bitrate_floor() {
    let base = AdaptiveVideoConfig { target_fps: 30, bitrate_bps: 5_000_000 };
    let capped = apply_external_limits(base, FpsTier::Normal, Some(50_000));
    assert!(capped.bitrate_bps >= 100_000);
    assert_eq!(capped.bitrate_bps, 100_000);
}

#[test]
fn responsive_profile_caps_fps_at_30_and_bitrate_at_4mbps() {
    let preset = VideoEncoderPreset { target_fps: 60, bitrate_bps: 8_000_000 };
    let target = profile_target_for_preset(StreamQualityProfile::Responsive, preset);
    assert!(target.target_fps <= 30);
    assert!(target.bitrate_bps <= 4_000_000);
}

#[test]
fn quality_profile_passes_preset_through() {
    let preset = VideoEncoderPreset { target_fps: 60, bitrate_bps: 8_000_000 };
    let target = profile_target_for_preset(StreamQualityProfile::Quality, preset);
    assert_eq!(target.target_fps, 60);
    assert_eq!(target.bitrate_bps, 8_000_000);
}

#[test]
fn profile_target_treats_zero_fps_as_one() {
    let preset = VideoEncoderPreset { target_fps: 0, bitrate_bps: 1_000_000 };
    let target = profile_target_for_preset(StreamQualityProfile::Quality, preset);
    assert!(target.target_fps >= 1);
}

#[test]
fn rtcp_state_counts_nack() {
    let mut state = RtcpFeedbackState::default();
    state.mark_feedback_from_packet_text("RTCP NACK report");
    let snap = state.snapshot();
    assert_eq!(snap.nack_reports, 1);
    assert_eq!(snap.total_reports, 1);
}

#[test]
fn rtcp_state_counts_pli_variants() {
    let mut state = RtcpFeedbackState::default();
    state.mark_feedback_from_packet_text("PictureLossIndication packet");
    state.mark_feedback_from_packet_text("rtcp pli message");
    let snap = state.snapshot();
    assert_eq!(snap.pli_reports, 2);
    assert_eq!(snap.total_reports, 2);
}

#[test]
fn rtcp_state_counts_fir_variants() {
    let mut state = RtcpFeedbackState::default();
    state.mark_feedback_from_packet_text("FullIntraRequest");
    state.mark_feedback_from_packet_text(" fir trigger");
    let snap = state.snapshot();
    assert_eq!(snap.fir_reports, 2);
}

#[test]
fn rtcp_state_records_timestamp() {
    let mut state = RtcpFeedbackState::default();
    state.mark_feedback_from_packet_text("NACK");
    let snap = state.snapshot();
    assert!(snap.last_feedback_unix_ms > 0);
}

#[test]
fn rtcp_delta_counts_and_staleness() {
    let mut state = RtcpFeedbackState::default();
    state.mark_feedback_at("nack", 1_000);
    state.mark_feedback_at("pli without space", 2_000);
    let mut last = RtcpFeedbackSnapshot {
        total_reports: 0,
        nack_reports: 0,
        pli_reports: 0,
        fir_reports: 0,
        last_feedback_unix_ms: 0,
    };
    let delta = collect_rtcp_delta_at(&state, &mut last, 7_001);
    assert_eq!(delta.total, 2);
    assert_eq!(delta.nack, 1);
    assert_eq!(delta.pli, 0);
    assert!(delta.feedback_stale);
    assert_eq!(last.total_reports, 2);
    let again = collect_rtcp_delta_at(&state, &mut last, 7_000);
    assert_eq!(again.total, 0);
    assert!(!again.feedback_stale);
}

#[test]
fn activity_window() {
    let mut a = StreamingActivityState::default();
    assert!(!a.is_active_recent_at(10, 1_000));
    a.mark_input_activity_at(5_000);
    assert!(a.is_active_recent_at(6_000, 1_000));
    assert!(!a.is_active_recent_at(6_001, 1_000));
    assert!(a.is_active_recent_at(4_000, 0));
    a.mark_input_activity();
    assert!(a.is_active_recent(60_000));
}

#[test]
fn stream_counters_count_frames_and_packets() {
    let mut c = StreamCounters::new();
    c.record_frame(1200);
    c.record_rtp_packet(500, false);
    c.record_rtp_packet(300, true);
    assert_eq!(c.sent_bytes, 2000);
    assert_eq!(c.sent_frames, 2);
    assert_eq!(c.samples, 0);
}

#[test]
fn stream_counters_saturate_pipeline_samples() {
    let mut c = StreamCounters::new();
    c.dropped_before_send = u64::MAX - 1;
    let delta = RtcpDelta { total: 9, nack: 2, pli: 1, fir: 0, feedback_stale: false };
    c.record_pipeline_sample(3, 5, delta);
    c.record_pipeline_sample(0, 0, delta);
    assert_eq!(c.samples, 2);
    assert_eq!(c.dropped_before_encode, 3);
    assert_eq!(c.dropped_before_send, u64::MAX);
    assert_eq!(c.rtcp_nack, 4);
    assert_eq!(c.rtcp_pli, 2);
    assert_eq!(c.rtcp_fir, 0);
}

#[test]
fn stream_log_interval_defaults_and_clamps() {
    assert_eq!(stream_log_interval_ms_from(None), 1000);
    assert_eq!(stream_log_interval_ms_from(Some("100")), 250);
    assert_eq!(stream_log_interval_ms_from(Some(" 2500 ")), 2500);
    assert_eq!(stream_log_interval_ms_from(Some("60000")), 10000);
    assert_eq!(stream_log_interval_ms_from(Some("-5")), 1000);
}

fn delta(nack: u64, pli: u64, fir: u64) -> RtcpDelta {
    RtcpDelta { total: nack + pli + fir, nack, pli, fir, feedback_stale: false }
}

#[test]
fn network_pressure_from_frame_outcome_and_feedback() {
    assert!(!frame_signals_network_pressure(false, 0, &delta(2, 0, 0)));
    assert!(frame_signals_network_pressure(false, 0, &delta(3, 0, 0)));
    assert!(frame_signals_network_pressure(true, 0, &delta(0, 0, 0)));
    assert!(frame_signals_network_pressure(false, 1, &delta(0, 0, 0)));
    assert!(frame_signals_network_pressure(false, 0, &delta(0, 1, 0)));
    assert!(frame_signals_network_pressure(false, 0, &delta(0, 0, 1)));
    assert!(!feedback_requests_idr(&delta(5, 0, 0)));
    assert!(feedback_requests_idr(&delta(0, 1, 0)));
    assert!(feedback_requests_idr(&delta(0, 0, 2)));
}

#[test]
fn encoder_rebuilt_only_on_large_changes() {
    let active = AdaptiveVideoConfig { target_fps: 30, bitrate_bps: 10_000_000 };
    let with = |fps: u32, bps: u32| AdaptiveVideoConfig { target_fps: fps, bitrate_bps: bps };
    assert!(!encoder_rebuild_needed(active, with(30, 7_000_000)));
    assert!(encoder_rebuild_needed(active, with(30, 6_999_999)));
    assert!(!encoder_rebuild_needed(active, with(30, 14_300_000)));
    assert!(encoder_rebuild_needed(active, with(30, 14_300_001)));
    assert!(!encoder_rebuild_needed(active, with(23, 10_000_000)));
    assert!(encoder_rebuild_needed(active, with(22, 10_000_000)));
    assert!(encoder_rebuild_needed(active, with(38, 10_000_000)));
    let zero = AdaptiveVideoConfig { target_fps: 30, bitrate_bps: 0 };
    assert!(!encoder_rebuild_needed(zero, with(30, 1)));
    assert!(encoder_rebuild_needed(zero, with(30, 2)));
}

fn feedback(drop_enc: u64, drop_send: u64, send_error: bool, nack: u64, pli: u64) -> AdaptiveFeedback {
    AdaptiveFeedback {
        dropped_before_encode: drop_enc,
        dropped_before_send: drop_send,
        send_error,
        rtcp_nack_delta: nack,
        rtcp_pli_delta: pli,
        rtcp_fir_delta: 0,
        rtcp_feedback_stale: false,
    }
}

#[test]
fn rate_step_follows_branch_order_and_intervals() {
    let c = AdaptiveRateController::new(AdaptiveVideoConfig { target_fps: 30, bitrate_bps: 10_000_003 }, 1_000);
    assert_eq!(rate_step(&c, &feedback(0, 1, false, 0, 0), false, false, 1_699), RateStep::Hold);
    assert_eq!(
        rate_step(&c, &feedback(0, 1, false, 0, 0), false, false, 1_700),
        RateStep::Down { fps_step: 7, bitrate_bps: 8_000_002 }
    );
    assert_eq!(rate_step(&c, &feedback(3, 0, false, 0, 0), false, false, 2_499), RateStep::Hold);
    assert_eq!(
        rate_step(&c, &feedback(3, 0, false, 0, 0), false, false, 2_500),
        RateStep::Down { fps_step: 2, bitrate_bps: 10_000_003 }
    );
    assert_eq!(
        rate_step(&c, &feedback(0, 0, false, 2, 0), false, false, 2_300),
        RateStep::Down { fps_step: 3, bitrate_bps: 8_900_002 }
    );
    assert_eq!(
        rate_step(&c, &feedback(0, 0, false, 0, 0), true, false, 2_300),
        RateStep::Down { fps_step: 3, bitrate_bps: 8_900_002 }
    );
    assert_eq!(rate_step(&c, &feedback(0, 0, false, 0, 0), false, true, 3_999), RateStep::Hold);
    assert_eq!(rate_step(&c, &feedback(0, 0, false, 0, 0), false, true, 4_000), RateStep::Up);
    assert_eq!(rate_step(&c, &feedback(0, 0, false, 0, 0), false, false, 9_000), RateStep::Hold);
    assert_eq!(rate_step(&c, &feedback(0, 0, false, 0, 0), false, true, 500), RateStep::Hold);
}

#[test]
fn auto_fps_tier_from_load() {
    assert_eq!(auto_fps_tier(true, false, true, true), FpsTier::Idle);
    assert_eq!(auto_fps_tier(false, true, false, true), FpsTier::Idle);
    assert_eq!(auto_fps_tier(false, false, true, true), FpsTier::Active);
    assert_eq!(auto_fps_tier(false, false, false, true), FpsTier::Normal);
    assert_eq!(auto_fps_tier(false, false, true, false), FpsTier::Normal);
}
