use lumiere_agent::adaptive::{FpsTier, StreamQualityProfile};
use lumiere_agent::json::JsonValue;
use lumiere_agent::signaling::{signaling_base_url, signaling_socket_url};
use lumiere_agent::session::{
    flag_value_true, grace_outcome, grace_setting_from_env_local, is_duplicate_offer,
    leave_is_manual, pending_body_is_empty, pending_reply, requested_stream_profile, server_base_url, stream_profile_request, error_signal, leave_payload_is_manual, ErrorSignal, token_from_login_body, PendingReply, StreamProfileRequest, session_log_interval_from, socket_close_action,
    upload_complete, viewer_grace_secs_from, AgentStatus, GraceOutcome, ReconnectBackoff,
    SocketCloseAction,
};

#[test]
fn status_labels() {
    let mut s = AgentStatus::default();
    assert_eq!(s.label(), "Hors ligne");
    s.running = true;
    assert_eq!(s.label(), "Connexion au serveur…");
    s.authenticated = true;
    assert_eq!(s.label(), "Agent actif — En attente");
    s.in_session = true;
    assert_eq!(s.label(), "Session en cours");
    s.technician = Some(String::new());
    assert_eq!(s.label(), "Session en cours");
    s.technician = Some("Alice".to_string());
    assert_eq!(s.label(), "Session en cours avec Alice");
}

#[test]
fn grace_and_log_interval_settings() {
    assert_eq!(viewer_grace_secs_from(None), 180);
    assert_eq!(viewer_grace_secs_from(Some(" 42 ")), 42);
    assert_eq!(viewer_grace_secs_from(Some("1")), 5);
    assert_eq!(viewer_grace_secs_from(Some("100000")), 600);
    assert_eq!(viewer_grace_secs_from(Some("-3")), 180);
    assert_eq!(viewer_grace_secs_from(Some("abc")), 180);
    assert_eq!(session_log_interval_from(None), 10);
    assert_eq!(session_log_interval_from(Some("0")), 1);
    assert_eq!(session_log_interval_from(Some("999")), 300);
    assert_eq!(session_log_interval_from(Some("+20")), 20);
}

#[test]
fn flags_accept_common_truthy_values() {
    for v in ["1", "true", " YES ", "On"] {
        assert!(flag_value_true(v), "{v}");
    }
    for v in ["0", "false", "", "enabled"] {
        assert!(!flag_value_true(v), "{v}");
    }
}

#[test]
fn grace_setting_from_env_local_file() {
    let content = "A=1\n  LUMIERE_VIEWER_GRACE_SECS=90 \nLUMIERE_VIEWER_GRACE_SECS=5\n";
    assert_eq!(grace_setting_from_env_local(content).as_deref(), Some("90"));
    assert_eq!(
        grace_setting_from_env_local("LUMIERE_VIEWER_GRACE_SECS=LUMIERE_VIEWER_GRACE_SECS=7").as_deref(),
        Some("7")
    );
    assert_eq!(grace_setting_from_env_local("OTHER=1"), None);
}

#[test]
fn backoff_doubles_to_thirty_and_resets_after_stable_connection() {
    let mut b = ReconnectBackoff::new();
    let mut delays = Vec::new();
    for _ in 0..7 {
        delays.push(b.delay_secs);
        b.on_connect_error();
        b.grow();
    }
    assert_eq!(delays, vec![1, 2, 4, 8, 16, 30, 30]);
    assert_eq!(b.attempt, 7);
    b.on_disconnect(7_999);
    assert_eq!((b.delay_secs, b.attempt), (30, 8));
    b.on_disconnect(8_000);
    assert_eq!((b.delay_secs, b.attempt), (1, 1));
}

#[test]
fn grace_outcomes() {
    assert_eq!(grace_outcome(true, false, 1, 1, true), GraceOutcome::CancelledByShutdown);
    assert_eq!(grace_outcome(true, true, 1, 2, false), GraceOutcome::ViewerReturned);
    assert_eq!(grace_outcome(false, false, 1, 1, true), GraceOutcome::AlreadyClosed);
    assert_eq!(grace_outcome(false, true, 1, 2, true), GraceOutcome::ActivityDetected);
    assert_eq!(grace_outcome(false, true, 3, 3, true), GraceOutcome::Rearm);
    assert_eq!(grace_outcome(false, true, 3, 3, false), GraceOutcome::EndSession);
}

#[test]
fn socket_close_decisions() {
    assert_eq!(socket_close_action(Some(1003), true, false, 0), SocketCloseAction::GraceThenReconnect);
    assert_eq!(
        socket_close_action(Some(1003), false, true, 0),
        SocketCloseAction::RetryWithinGrace { consecutive_1003: 1 }
    );
    assert_eq!(
        socket_close_action(Some(1003), false, true, 1),
        SocketCloseAction::EndSession { counted_1003: Some(2) }
    );
    assert_eq!(
        socket_close_action(Some(1003), false, false, 5),
        SocketCloseAction::EndSession { counted_1003: None }
    );
    for code in [1000u64, 1006, 1011, 1012, 1013] {
        assert_eq!(socket_close_action(Some(code), false, false, 0), SocketCloseAction::GraceThenReconnect);
    }
    assert_eq!(socket_close_action(None, false, false, 0), SocketCloseAction::GraceThenReconnect);
    assert_eq!(socket_close_action(Some(70_000), false, false, 0), SocketCloseAction::GraceThenReconnect);
    assert_eq!(
        socket_close_action(Some(1008), true, true, 0),
        SocketCloseAction::EndSession { counted_1003: None }
    );
}

#[test]
fn leave_reasons_and_offers() {
    assert!(leave_is_manual(Some("Manual_Disconnect")));
    assert!(leave_is_manual(Some("USER")));
    assert!(!leave_is_manual(Some("peer_disconnected")));
    assert!(!leave_is_manual(None));
    assert!(is_duplicate_offer(Some(7), Some(7)));
    assert!(!is_duplicate_offer(Some(7), Some(8)));
    assert!(!is_duplicate_offer(None, None));
    assert!(upload_complete(2, 3));
    assert!(!upload_complete(0, 3));
    assert!(upload_complete(0, 0));
}

#[test]
fn requested_profile_defaults_to_quality() {
    assert_eq!(requested_stream_profile(Some("responsive")), StreamQualityProfile::Responsive);
    assert_eq!(requested_stream_profile(Some("??")), StreamQualityProfile::Quality);
    assert_eq!(requested_stream_profile(None), StreamQualityProfile::Quality);
}

#[test]
fn server_base_url_drops_trailing_slashes() {
    assert_eq!(server_base_url("http://192.168.218.49:8080/"), "http://192.168.218.49:8080");
    assert_eq!(server_base_url("http://h//"), "http://h");
    assert_eq!(server_base_url("http://h"), "http://h");
    assert_eq!(server_base_url("///"), "");
}

#[test]
fn pending_reply_by_status() {
    assert_eq!(pending_reply(404), PendingReply::NoSession);
    assert_eq!(pending_reply(204), PendingReply::NoSession);
    assert_eq!(pending_reply(500), PendingReply::Failed);
    assert_eq!(pending_reply(302), PendingReply::Failed);
    assert_eq!(pending_reply(200), PendingReply::Body);
}

#[test]
fn pending_body_empty_or_null_means_no_session() {
    assert!(pending_body_is_empty(""));
    assert!(pending_body_is_empty("  null \n"));
    assert!(!pending_body_is_empty("{\"id\":1}"));
    assert!(!pending_body_is_empty("NULL"));
}

#[test]
fn begin_and_end_session() {
    let mut s = AgentStatus::default();
    assert!(s.begin_session(42, "alice".to_owned()));
    assert!(s.in_session);
    assert_eq!(s.session_id, Some(42));
    assert_eq!(s.technician.as_deref(), Some("alice"));
    assert!(!s.begin_session(7, "bob".to_owned()));
    assert_eq!(s.session_id, Some(42));
    s.end_session();
    assert!(!s.in_session);
    assert_eq!(s.session_id, None);
    assert_eq!(s.technician, None);
}

#[test]
fn login_token_is_unquoted_and_trimmed() {
    assert_eq!(token_from_login_body("  \"eyJ.abc\"\n"), Some("eyJ.abc".to_owned()));
    assert_eq!(token_from_login_body("plain"), Some("plain".to_owned()));
    assert_eq!(token_from_login_body("\"\""), None);
    assert_eq!(token_from_login_body("   "), None);
    assert_eq!(token_from_login_body("\"a\"b\""), Some("a\"b".to_owned()));
}

#[test]
fn stream_profile_payload_fields() {
    let payload = JsonValue::Object(vec![
        ("profile".to_owned(), JsonValue::Str("Reactif".to_owned())),
        ("paused".to_owned(), JsonValue::Bool(true)),
        ("bitrateBps".to_owned(), JsonValue::Number(Some(2_500_000))),
        ("fpsTier".to_owned(), JsonValue::Str(" eco ".to_owned())),
    ]);
    assert_eq!(
        stream_profile_request(Some(&payload)),
        StreamProfileRequest {
            profile: StreamQualityProfile::Responsive,
            paused: Some(true),
            bitrate_bps: Some(2_500_000),
            fps_tier: Some(FpsTier::Idle),
        }
    );
}

#[test]
fn stream_profile_defaults_to_quality() {
    let none = StreamProfileRequest {
        profile: StreamQualityProfile::Quality,
        paused: None,
        bitrate_bps: None,
        fps_tier: None,
    };
    assert_eq!(stream_profile_request(None), none);
    let odd = JsonValue::Object(vec![
        ("profile".to_owned(), JsonValue::Str("blah".to_owned())),
        ("paused".to_owned(), JsonValue::Str("yes".to_owned())),
        ("bitrateBps".to_owned(), JsonValue::Number(None)),
        ("fpsTier".to_owned(), JsonValue::Str("turbo".to_owned())),
    ]);
    assert_eq!(stream_profile_request(Some(&odd)), none);
    assert_eq!(stream_profile_request(Some(&JsonValue::Null)), none);
}

#[test]
fn leave_payload_reason_decides() {
    let manual = JsonValue::Object(vec![("reason".to_owned(), JsonValue::Str("Manual_Disconnect".to_owned()))]);
    assert!(leave_payload_is_manual(Some(&manual)));
    let blip = JsonValue::Object(vec![("reason".to_owned(), JsonValue::Str("peer_disconnected".to_owned()))]);
    assert!(!leave_payload_is_manual(Some(&blip)));
    assert!(!leave_payload_is_manual(None));
}

#[test]
fn error_payload_socket_close_codes() {
    let close = JsonValue::Object(vec![
        ("kind".to_owned(), JsonValue::Str("socket-close".to_owned())),
        ("code".to_owned(), JsonValue::Number(Some(1003))),
    ]);
    assert_eq!(error_signal(Some(&close)), ErrorSignal::SocketClose { code: Some(1003) });
    let big = JsonValue::Object(vec![
        ("kind".to_owned(), JsonValue::Str("socket-close".to_owned())),
        ("code".to_owned(), JsonValue::Number(Some(70000))),
    ]);
    assert_eq!(error_signal(Some(&big)), ErrorSignal::SocketClose { code: None });
    let other = JsonValue::Object(vec![("kind".to_owned(), JsonValue::Str("auth".to_owned()))]);
    assert_eq!(error_signal(Some(&other)), ErrorSignal::Other);
    assert_eq!(error_signal(None), ErrorSignal::Other);
}

#[test]
fn signaling_urls() {
    use_signaling_urls();
}

fn use_signaling_urls() {
    assert_eq!(signaling_base_url("https://example.com/"), "wss://example.com");
    assert_eq!(signaling_base_url("http://10.0.0.2:8080"), "ws://10.0.0.2:8080");
    assert_eq!(signaling_base_url("ws://already//"), "ws://already");
    assert_eq!(
        signaling_socket_url("ws://h", "tok", "42"),
        "ws://h/ws/signaling?token=tok&role=agent&sessionId=42"
    );
}

#[test]
fn answer_is_resent_and_sender_started_once() {
    use_answer_state();
}

fn use_answer_state() {
    let mut a = lumiere_agent::session::AnswerState::new(false, false);
    assert!(!a.resend_on_join());
    a.answer_created();
    assert!(!a.answer_sent(false, true));
    assert!(a.resend_on_join());
    assert!(a.answer_sent(true, true));
    assert!(!a.resend_on_join());
    a.answer_created();
    assert!(!a.answer_sent(true, true));
    let reconnected = lumiere_agent::session::AnswerState::new(true, true);
    assert!(reconnected.resend_on_join());
    assert!(reconnected.sender_started);
}

#[test]
fn signaling_upload_appends_until_last_chunk() {
    let mut u = lumiere_agent::session::SignalUpload::new();
    u.start("/tmp/x.bin".to_owned());
    assert!(!u.append);
    u.chunk_saved(0, 3);
    assert!(u.append);
    assert_eq!(u.path.as_deref(), Some("/tmp/x.bin"));
    u.chunk_saved(2, 3);
    assert_eq!(u.path, None);
    assert!(!u.append);
}
