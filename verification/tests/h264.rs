use lumiere_agent::h264::{
    capture_loop_step, rtp_sender_step, CaptureAction, CaptureLoopState, CaptureTurn, RtpSendAction,
    RtpSendState,
    parse_first_ssrc_from_sdp, parse_h264_payload_type_from_sdp, reorder_and_cache_sps_pps,
    split_annexb_nalus, summarize_nalus,
};

#[test]
fn parse_payload_type_finds_h264_line() {
    let sdp = "v=0\r\nm=video 9 UDP/TLS/RTP/SAVPF 102\r\na=rtpmap:102 H264/90000\r\n";
    assert_eq!(parse_h264_payload_type_from_sdp(sdp), Some(102));
}

#[test]
fn parse_payload_type_case_insensitive_codec() {
    let sdp = "a=rtpmap:96 h264/90000\r\n";
    assert_eq!(parse_h264_payload_type_from_sdp(sdp), Some(96));
}

#[test]
fn parse_payload_type_ignores_other_codecs() {
    let sdp = "a=rtpmap:111 opus/48000/2\r\na=rtpmap:120 VP8/90000\r\n";
    assert_eq!(parse_h264_payload_type_from_sdp(sdp), None);
}

#[test]
fn parse_payload_type_rejects_wrong_clock_rate() {
    let sdp = "a=rtpmap:99 H264/48000\r\n";
    assert_eq!(parse_h264_payload_type_from_sdp(sdp), None);
}

#[test]
fn parse_payload_type_skips_truncated_rtpmap() {
    let sdp = "a=rtpmap:97\na=rtpmap:98 H264/90000\n";
    assert_eq!(parse_h264_payload_type_from_sdp(sdp), Some(98));
    let sdp = "a=rtpmap:300 H264/90000\na=rtpmap:98 H264/90000\n";
    assert_eq!(parse_h264_payload_type_from_sdp(sdp), Some(98));
}

#[test]
fn parse_first_ssrc_extracts_number() {
    let sdp = "a=ssrc:123456789 cname:abc\r\na=ssrc:987 cname:def\r\n";
    assert_eq!(parse_first_ssrc_from_sdp(sdp), Some(123456789));
}

#[test]
fn parse_first_ssrc_skips_zero() {
    let sdp = "a=ssrc:0 cname:abc\r\na=ssrc:42 cname:def\r\n";
    assert_eq!(parse_first_ssrc_from_sdp(sdp), Some(42));
}

#[test]
fn parse_first_ssrc_returns_none_when_absent() {
    let sdp = "v=0\r\nm=video 9 UDP/TLS/RTP/SAVPF 102\r\n";
    assert_eq!(parse_first_ssrc_from_sdp(sdp), None);
}

#[test]
fn parse_first_ssrc_skips_overflow_and_non_numbers() {
    let sdp = "a=ssrc:x\n  a=ssrc:4294967296\na=ssrc:4294967295\n";
    assert_eq!(parse_first_ssrc_from_sdp(sdp), Some(4294967295));
}

#[test]
fn split_annexb_3byte_start_codes() {
    let data = [0, 0, 1, 0x67, 0x42, 0, 0, 1, 0x68, 0xce];
    let nalus = split_annexb_nalus(&data);
    assert_eq!(nalus.len(), 2);
    assert_eq!(nalus[0], &[0x67, 0x42]);
    assert_eq!(nalus[1], &[0x68, 0xce]);
}

#[test]
fn split_annexb_4byte_start_codes() {
    let data = [0, 0, 0, 1, 0x67, 0x42, 0, 0, 0, 1, 0x65, 0x88];
    let nalus = split_annexb_nalus(&data);
    assert_eq!(nalus.len(), 2);
    assert_eq!(nalus[0], &[0x67, 0x42]);
    assert_eq!(nalus[1], &[0x65, 0x88]);
}

#[test]
fn split_annexb_avcc_fallback() {
    let data = [0, 0, 0, 2, 0x67, 0x42, 0, 0, 0, 2, 0x68, 0xce];
    let nalus = split_annexb_nalus(&data);
    assert_eq!(nalus.len(), 2);
    assert_eq!(nalus[0], &[0x67, 0x42]);
    assert_eq!(nalus[1], &[0x68, 0xce]);
}

#[test]
fn split_annexb_empty_input() {
    let nalus = split_annexb_nalus(&[]);
    assert!(nalus.is_empty());
}

#[test]
fn split_annexb_single_nal_treated_as_one_unit_when_no_marker() {
    let data = [0x65, 0x88, 0x80];
    let nalus = split_annexb_nalus(&data);
    assert_eq!(nalus.len(), 1);
    assert_eq!(nalus[0], &[0x65, 0x88, 0x80]);
}

#[test]
fn split_annexb_bad_avcc_length_falls_back_to_whole_input() {
    let data = [0, 0, 0, 9, 0x67, 0x42];
    let nalus = split_annexb_nalus(&data);
    assert_eq!(nalus, vec![&data[..]]);
    let data = [0, 0, 1, 0x67, 0, 0, 1];
    let nalus = split_annexb_nalus(&data);
    assert_eq!(nalus, vec![&[0x67, 0, 0, 1][..]]);
}

#[test]
fn reorder_puts_sps_pps_before_idr() {
    let idr: &[u8] = &[0x65, 0x88];
    let sps: &[u8] = &[0x67, 0x42];
    let pps: &[u8] = &[0x68, 0xce];
    let mut cached_sps = None;
    let mut cached_pps = None;
    let (ordered, has_idr) =
        reorder_and_cache_sps_pps(vec![idr, sps, pps], &mut cached_sps, &mut cached_pps);
    assert!(has_idr);
    assert_eq!(ordered.len(), 3);
    assert_eq!(ordered[0], sps);
    assert_eq!(ordered[1], pps);
    assert_eq!(ordered[2], idr);
}

#[test]
fn reorder_caches_sps_and_pps_for_next_call() {
    let sps: &[u8] = &[0x67, 0x42, 0x00];
    let pps: &[u8] = &[0x68, 0xce, 0x01];
    let mut cached_sps = None;
    let mut cached_pps = None;
    let _ = reorder_and_cache_sps_pps(vec![sps, pps], &mut cached_sps, &mut cached_pps);
    assert_eq!(cached_sps.as_deref(), Some(sps));
    assert_eq!(cached_pps.as_deref(), Some(pps));
}

#[test]
fn reorder_without_idr_returns_false() {
    let p_frame: &[u8] = &[0x61, 0x9a];
    let mut cached_sps = None;
    let mut cached_pps = None;
    let (_, has_idr) = reorder_and_cache_sps_pps(vec![p_frame], &mut cached_sps, &mut cached_pps);
    assert!(!has_idr);
}

#[test]
fn reorder_drops_empty_and_keeps_old_cache() {
    let empty: &[u8] = &[];
    let p: &[u8] = &[0x41];
    let mut cached_sps = Some(vec![0x67, 1]);
    let mut cached_pps = None;
    let (ordered, has_idr) = reorder_and_cache_sps_pps(vec![p, empty], &mut cached_sps, &mut cached_pps);
    assert_eq!(ordered, vec![p]);
    assert!(!has_idr);
    assert_eq!(cached_sps, Some(vec![0x67, 1]));
    assert_eq!(cached_pps, None);
}

#[test]
fn summarize_nalus_flags_idr_sps_pps() {
    let sps: &[u8] = &[0x67];
    let pps: &[u8] = &[0x68];
    let idr: &[u8] = &[0x65];
    let summary = summarize_nalus(&[sps, pps, idr]);
    assert_eq!(summary.nalus, 3);
    assert!(summary.has_sps);
    assert!(summary.has_pps);
    assert!(summary.has_idr);
}

#[test]
fn summarize_nalus_p_frame_only() {
    let p: &[u8] = &[0x61];
    let summary = summarize_nalus(&[p]);
    assert_eq!(summary.nalus, 1);
    assert!(!summary.has_sps);
    assert!(!summary.has_pps);
    assert!(!summary.has_idr);
}

#[test]
fn summarize_nalus_empty_input() {
    let summary = summarize_nalus(&[]);
    assert_eq!(summary.nalus, 0);
    assert!(!summary.has_sps);
    assert!(!summary.has_pps);
    assert!(!summary.has_idr);
}

#[test]
fn encoded_access_unit_clone_keeps_bytes_and_flag() {
    let unit = lumiere_agent::h264::EncodedAccessUnit { data: vec![0, 0, 1, 0x65], keyframe: true };
    let copy = unit.clone();
    assert_eq!(copy.data, unit.data);
    assert!(copy.keyframe);
}

#[test]
fn rtp_fragments_number_and_mark() {
    let h = lumiere_agent::h264::rtp_fragment_headers(3, true, 65534);
    assert_eq!(h.len(), 3);
    assert_eq!((h[0].sequence_number, h[0].marker), (65534, false));
    assert_eq!((h[1].sequence_number, h[1].marker), (65535, false));
    assert_eq!((h[2].sequence_number, h[2].marker), (0, true));
    let mid = lumiere_agent::h264::rtp_fragment_headers(2, false, 10);
    assert!(!mid[0].marker && !mid[1].marker);
    assert!(lumiere_agent::h264::rtp_fragment_headers(0, true, 5).is_empty());
}

#[test]
fn rtp_timestamp_runs_at_90khz() {
    assert_eq!(lumiere_agent::h264::rtp_timestamp_from_elapsed(0), 0);
    assert_eq!(lumiere_agent::h264::rtp_timestamp_from_elapsed(1_000_000_000), 90_000);
    assert_eq!(lumiere_agent::h264::rtp_timestamp_from_elapsed(33_333_333), 2999);
    let wrapped = (100_000u128 * 1_000_000_000 * 90_000 / 1_000_000_000) as u32;
    assert_eq!(lumiere_agent::h264::rtp_timestamp_from_elapsed(100_000 * 1_000_000_000), wrapped);
    assert_eq!(lumiere_agent::h264::rtp_timestamp_from_elapsed(u128::MAX), (u128::MAX / 1_000_000_000) as u32);
}

#[test]
fn parse_payload_type_skips_short_rtpmap_lines() {
    assert_eq!(
        parse_h264_payload_type_from_sdp("a=rtpmap:97\r\na=rtpmap:96 H264/90000\r\n"),
        Some(96)
    );
}

#[test]
fn keyframes_first_every_two_seconds_and_on_request() {
    use_keyframes();
}

fn use_keyframes() {
    assert!(lumiere_agent::h264::keyframe_due(1, 30, false));
    assert!(!lumiere_agent::h264::keyframe_due(2, 30, false));
    assert!(lumiere_agent::h264::keyframe_due(60, 30, false));
    assert!(lumiere_agent::h264::keyframe_due(7, 30, true));
    assert!(lumiere_agent::h264::keyframe_due(4, 0, false));
    assert!(!lumiere_agent::h264::keyframe_due(0 + 3, 0, false));
}

#[test]
fn frame_timestamps_always_advance() {
    assert_eq!(lumiere_agent::h264::next_frame_timestamp(100, 50), 100);
    assert_eq!(lumiere_agent::h264::next_frame_timestamp(50, 50), 51);
    assert_eq!(lumiere_agent::h264::next_frame_timestamp(10, u32::MAX), 0);
}

#[test]
fn send_plan_prefixes_missing_parameter_sets_on_idr() {
    let idr: &[u8] = &[0x65, 1, 2];
    let p: &[u8] = &[0x41, 9];
    let nalus: Vec<&[u8]> = vec![idr, p];
    let summary = summarize_nalus(&nalus);
    let sps = Some(vec![0x67, 0x42]);
    let pps = Some(vec![0x68, 0xce]);
    let plan = lumiere_agent::h264::frame_send_plan(&nalus, true, &summary, &sps, &pps);
    assert_eq!(
        plan,
        vec![
            (vec![0x67, 0x42], false),
            (vec![0x68, 0xce], false),
            (vec![0x65, 1, 2], false),
            (vec![0x41, 9], true),
        ]
    );
    let plain = lumiere_agent::h264::frame_send_plan(&nalus, false, &summary, &sps, &pps);
    assert_eq!(plain, vec![(vec![0x65, 1, 2], false), (vec![0x41, 9], true)]);
}

#[test]
fn split_recovers_framed_nals_with_inner_zero_runs() {
    let nals: Vec<Vec<u8>> = vec![vec![0x67, 0x00, 0x00, 0x02, 0x1f], vec![0x00, 0x68, 0xce], vec![0x65, 0x88, 0x00, 0x80]];
    let codes: Vec<Vec<u8>> = vec![vec![0, 0, 0, 1], vec![0, 0, 1], vec![0, 0, 0, 1]];
    let mut data = Vec::new();
    for (c, n) in codes.iter().zip(nals.iter()) {
        data.extend_from_slice(c);
        data.extend_from_slice(n);
    }
    let out = split_annexb_nalus(&data);
    assert_eq!(out.len(), 3);
    for (got, want) in out.iter().zip(nals.iter()) {
        assert_eq!(*got, want.as_slice());
    }
}

#[test]
fn rtp_sender_step_negotiates_once() {
    let mut s = RtpSendState::new();
    assert_eq!(rtp_sender_step(&mut s, false, Some(102), Some(7), 99, 10), RtpSendAction::WaitNotReady);
    assert_eq!(s, RtpSendState::new());
    assert_eq!(
        rtp_sender_step(&mut s, true, None, None, 99, 10),
        RtpSendAction::Send { payload_type: 96, ssrc: 99, timestamp: 10 }
    );
    assert_eq!(
        rtp_sender_step(&mut s, true, Some(102), Some(7), 55, 10),
        RtpSendAction::Send { payload_type: 102, ssrc: 7, timestamp: 11 }
    );
    assert_eq!(
        rtp_sender_step(&mut s, true, Some(97), Some(8), 55, 3_000),
        RtpSendAction::Send { payload_type: 102, ssrc: 7, timestamp: 3_000 }
    );
    let mut w = RtpSendState { payload_type: Some(96), negotiated_ssrc: Some(1), stream_ssrc: 1, last_ts: u32::MAX };
    assert_eq!(
        rtp_sender_step(&mut w, true, None, None, 0, 5),
        RtpSendAction::Send { payload_type: 96, ssrc: 1, timestamp: 0 }
    );
}

#[test]
fn capture_loop_reuses_last_frame() {
    let mut s = CaptureLoopState { last_capture: None, frame_counter: 0 };
    assert_eq!(capture_loop_step(&mut s, CaptureTurn::NoFrame), CaptureAction::WaitForFrame);
    assert_eq!(capture_loop_step(&mut s, CaptureTurn::Paused), CaptureAction::WaitPaused);
    assert_eq!(capture_loop_step(&mut s, CaptureTurn::NotReady), CaptureAction::WaitNotReady);
    assert_eq!(capture_loop_step(&mut s, CaptureTurn::Failed), CaptureAction::WaitAfterError);
    assert_eq!(
        capture_loop_step(&mut s, CaptureTurn::Captured { width: 1920, height: 1080 }),
        CaptureAction::Deliver { width: 1920, height: 1080, reused: false, frame_counter: 1 }
    );
    assert_eq!(
        capture_loop_step(&mut s, CaptureTurn::NoFrame),
        CaptureAction::Deliver { width: 1920, height: 1080, reused: true, frame_counter: 2 }
    );
    let mut full = CaptureLoopState { last_capture: Some((2, 2)), frame_counter: u64::MAX };
    assert_eq!(
        capture_loop_step(&mut full, CaptureTurn::NoFrame),
        CaptureAction::Deliver { width: 2, height: 2, reused: true, frame_counter: u64::MAX }
    );
}
