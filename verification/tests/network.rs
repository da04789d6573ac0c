use lumiere_agent::json::JsonValue;
use lumiere_agent::network::{
    candidate_arrived_early, ice_candidate_from_payload, is_retryable_signaling_close_code,
    is_valid_ice_candidate, offer_sdp_from_payload, parse_candidate_address, parse_candidate_type,
    OfferError, force_relay, data_channel_action, DataChannelAction,
};

#[test]
fn blocks_vpn_10_5() {
    let cand = "candidate:1 1 udp 2113937151 10.5.0.2 52582 typ host";
    assert!(!is_valid_ice_candidate(cand));
}

#[test]
fn blocks_virtualbox_host_only() {
    let cand = "candidate:1 1 udp 2113937151 192.168.56.1 54620 typ host";
    assert!(!is_valid_ice_candidate(cand));
}

#[test]
fn blocks_vmware_vmnet1() {
    let cand = "candidate:1 1 udp 2113937151 192.168.30.1 54621 typ host";
    assert!(!is_valid_ice_candidate(cand));
}

#[test]
fn blocks_vmware_vmnet8() {
    let cand = "candidate:1 1 udp 2113937151 192.168.9.1 54622 typ host";
    assert!(!is_valid_ice_candidate(cand));
}

#[test]
fn blocks_apipa() {
    let cand = "candidate:1 1 udp 2113937151 169.254.1.1 54620 typ host";
    assert!(!is_valid_ice_candidate(cand));
}

#[test]
fn blocks_ipv6_link_local() {
    let cand = "candidate:1 1 udp 2113937151 fe80::1 54620 typ host";
    assert!(!is_valid_ice_candidate(cand));
}

#[test]
fn accepts_physical_wifi() {
    let cand = "candidate:1 1 udp 2113937151 192.168.1.179 54622 typ host";
    assert!(is_valid_ice_candidate(cand));
}

#[test]
fn accepts_relay() {
    let cand = "candidate:4 1 udp 41886207 172.232.192.83 48802 typ relay raddr 0.0.0.0 rport 0";
    assert!(is_valid_ice_candidate(cand));
}

#[test]
fn accepts_mdns_unparseable() {
    let cand = "candidate:1 1 udp 2113937151 abc.local 54620 typ host";
    assert!(is_valid_ice_candidate(cand));
}

#[test]
fn blocks_upper_case_link_local_and_short_lines_pass() {
    assert!(!is_valid_ice_candidate("1 1 udp 5 FE80::abcd 9 typ host"));
    assert!(is_valid_ice_candidate("candidate:1 1 udp"));
    assert!(!is_valid_ice_candidate("candidate:1 1 udp 1 10.6.0.1 9"));
}

#[test]
fn parse_host_candidate() {
    let line = "candidate:1 1 udp 2113937151 192.168.1.42 51234 typ host generation 0";
    assert_eq!(parse_candidate_type(line), "host");
    assert_eq!(parse_candidate_address(line), Some(("192.168.1.42".to_string(), 51234)));
}

#[test]
fn parse_srflx_candidate() {
    let line = "candidate:2 1 udp 1677729535 80.50.10.5 41320 typ srflx raddr 192.168.1.42 rport 51234";
    assert_eq!(parse_candidate_type(line), "srflx");
    assert_eq!(parse_candidate_address(line).map(|p| p.0), Some("80.50.10.5".to_string()));
}

#[test]
fn parse_relay_candidate() {
    let line = "candidate:3 1 udp 41819647 51.158.40.10 32000 typ relay raddr 0.0.0.0 rport 0";
    assert_eq!(parse_candidate_type(line), "relay");
}

#[test]
fn parse_prflx_candidate() {
    let line = "candidate:4 1 udp 1845501695 1.2.3.4 5678 typ prflx";
    assert_eq!(parse_candidate_type(line), "prflx");
}

#[test]
fn parse_unknown_when_missing_typ() {
    assert_eq!(parse_candidate_type("garbage"), "unknown");
    assert_eq!(parse_candidate_type(""), "unknown");
}

#[test]
fn parse_ipv6_host_candidate() {
    let line = "candidate:1 1 udp 2113937151 fe80::1 51234 typ host generation 0";
    assert_eq!(parse_candidate_type(line), "host");
    assert_eq!(parse_candidate_address(line).map(|p| p.0), Some("fe80::1".to_string()));
}

#[test]
fn parse_address_returns_none_on_malformed() {
    assert!(parse_candidate_address("only one field").is_none());
    assert!(parse_candidate_address("a b c d e not-a-port").is_none());
}

#[test]
fn parse_address_port_edges() {
    assert_eq!(parse_candidate_address("a b c d 1.1.1.1 +65535"), Some(("1.1.1.1".to_string(), 65535)));
    assert!(parse_candidate_address("a b c d 1.1.1.1 65536").is_none());
    assert!(parse_candidate_address("a b c d 1.1.1.1 -1").is_none());
    assert_eq!(parse_candidate_type("x typ  host"), "unknown");
    assert_eq!(parse_candidate_type("x typ host\tgen"), "unknown");
    assert_eq!(parse_candidate_type("x typ relay"), "relay");
}

#[test]
fn retryable_close_codes() {
    for code in [1000u16, 1006, 1011, 1012, 1013] {
        assert!(is_retryable_signaling_close_code(code));
    }
    for code in [1001u16, 1003, 1005, 1008, 4000] {
        assert!(!is_retryable_signaling_close_code(code));
    }
}

#[test]
fn ice_payload_fields() {
    let payload = JsonValue::Object(vec![
        ("candidate".to_owned(), JsonValue::Str("candidate:1 1 udp 1 1.2.3.4 5 typ host".to_owned())),
        ("sdpMid".to_owned(), JsonValue::Str("0".to_owned())),
        ("sdpMLineIndex".to_owned(), JsonValue::Number(Some(65537))),
    ]);
    let c = ice_candidate_from_payload(&payload).expect("candidate");
    assert_eq!(c.candidate, "candidate:1 1 udp 1 1.2.3.4 5 typ host");
    assert_eq!(c.sdp_mid.as_deref(), Some("0"));
    assert_eq!(c.sdp_mline_index, Some(1));
    let missing = JsonValue::Object(vec![("sdpMid".to_owned(), JsonValue::Str("0".to_owned()))]);
    assert!(ice_candidate_from_payload(&missing).is_none());
}

#[test]
fn early_candidates_are_recognised() {
    assert!(candidate_arrived_early("Remote Description is not set"));
    assert!(!candidate_arrived_early("ICE agent closed"));
}

#[test]
fn offer_payload_needs_offer_type_and_sdp() {
    let ok = JsonValue::Object(vec![
        ("type".to_owned(), JsonValue::Str("OFFER".to_owned())),
        ("sdp".to_owned(), JsonValue::Str("v=0".to_owned())),
    ]);
    assert_eq!(offer_sdp_from_payload(&ok), Ok("v=0".to_owned()));
    let answer = JsonValue::Object(vec![("type".to_owned(), JsonValue::Str("Answer".to_owned()))]);
    assert_eq!(offer_sdp_from_payload(&answer), Err(OfferError::UnexpectedType("answer".to_owned())));
    assert_eq!(offer_sdp_from_payload(&JsonValue::Null), Err(OfferError::UnexpectedType(String::new())));
    let no_sdp = JsonValue::Object(vec![("type".to_owned(), JsonValue::Str("offer".to_owned()))]);
    assert_eq!(offer_sdp_from_payload(&no_sdp), Err(OfferError::MissingSdp));
}

#[test]
fn relay_switch_values() {
    assert!(force_relay(Some(" 1 ")));
    assert!(force_relay(Some("true")));
    assert!(force_relay(Some("yes")));
    assert!(!force_relay(Some("TRUE")));
    assert!(!force_relay(Some("on")));
    assert!(!force_relay(None));
}

fn typed(t: &str) -> JsonValue {
    JsonValue::Object(vec![("type".to_owned(), JsonValue::Str(t.to_owned()))])
}

#[test]
fn data_channel_routing_and_read_only_gate() {
    assert_eq!(data_channel_action(Some(&typed("VIDEO_PAUSE")), false), DataChannelAction::PauseVideo);
    assert_eq!(data_channel_action(Some(&typed("VIDEO_RESUME")), true), DataChannelAction::ResumeVideo);
    assert_eq!(data_channel_action(Some(&typed("AI_PLAN")), true), DataChannelAction::RunAssistant);
    assert_eq!(data_channel_action(Some(&typed("AI_ACTION")), false), DataChannelAction::IgnoreAssistant);
    let shot = JsonValue::Object(vec![
        ("type".to_owned(), JsonValue::Str("request_screenshot".to_owned())),
        ("commandId".to_owned(), JsonValue::Str("c7".to_owned())),
    ]);
    assert_eq!(
        data_channel_action(Some(&shot), false),
        DataChannelAction::Screenshot { command_id: "c7".to_owned() }
    );
    assert_eq!(
        data_channel_action(Some(&typed("request_screenshot")), true),
        DataChannelAction::Screenshot { command_id: String::new() }
    );
    assert_eq!(data_channel_action(Some(&typed("mousemove")), true), DataChannelAction::Input);
    assert_eq!(data_channel_action(Some(&typed("mousemove")), false), DataChannelAction::IgnoreInput);
    assert_eq!(data_channel_action(None, true), DataChannelAction::Input);
}
