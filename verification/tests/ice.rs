use lumiere_agent::ice::{
    default_ice_servers, env_local_value, ice_servers_from_csv, ice_servers_from_json_value,
    to_rtc_ice_servers, IceCredentialType, IceServerConfig,
};
use lumiere_agent::json::JsonValue;
use lumiere_agent::network::{ice_gather_timeout_secs_from, stream_ssrc_from};

#[test]
fn to_rtc_drops_turns_urls() {
    let input = vec![IceServerConfig {
        urls: vec!["turns:example.com:443".to_owned()],
        username: Some("u".into()),
        credential: Some("p".into()),
    }];
    let out = to_rtc_ice_servers(&input);
    assert!(out.is_empty(), "TURNS should be filtered out");
}

#[test]
fn to_rtc_keeps_stun_and_turn() {
    let input = vec![IceServerConfig {
        urls: vec![
            "stun:stun.example.com:3478".to_owned(),
            "turn:turn.example.com:3478".to_owned(),
            "turns:turns.example.com:5349".to_owned(),
        ],
        username: Some("u".into()),
        credential: Some("p".into()),
    }];
    let out = to_rtc_ice_servers(&input);
    assert_eq!(out.len(), 1);
    assert_eq!(out[0].urls.len(), 2);
    assert!(out[0].urls.iter().any(|u| u.starts_with("stun:")));
    assert!(out[0].urls.iter().any(|u| u.starts_with("turn:")));
    assert!(!out[0].urls.iter().any(|u| u.starts_with("turns:")));
}

#[test]
fn to_rtc_drops_turn_entries_without_credentials() {
    let input = vec![IceServerConfig {
        urls: vec!["turn:turn.example.com:3478".to_owned()],
        username: None,
        credential: None,
    }];
    let out = to_rtc_ice_servers(&input);
    assert!(out.is_empty());
}

#[test]
fn to_rtc_keeps_stun_without_credentials() {
    let input = vec![IceServerConfig {
        urls: vec!["stun:stun.example.com:3478".to_owned()],
        username: None,
        credential: None,
    }];
    let out = to_rtc_ice_servers(&input);
    assert_eq!(out.len(), 1);
}

#[test]
fn to_rtc_trims_whitespace_from_urls() {
    let input = vec![IceServerConfig {
        urls: vec!["  stun:trimmed.example.com  ".to_owned(), "".to_owned()],
        username: None,
        credential: None,
    }];
    let out = to_rtc_ice_servers(&input);
    assert_eq!(out.len(), 1);
    assert_eq!(out[0].urls, vec!["stun:trimmed.example.com"]);
}

#[test]
fn default_servers_include_metered_fallback() {
    let defaults = default_ice_servers();
    assert!(defaults.iter().any(|s| s.urls.iter().any(|u| u.contains("metered.ca"))));
}

#[test]
fn to_rtc_sets_password_type_and_trims_credentials() {
    let input = vec![
        IceServerConfig {
            urls: vec!["turn:relay.example.com:3478".to_owned()],
            username: Some("  alice ".into()),
            credential: Some(" s3cret".into()),
        },
        IceServerConfig { urls: vec!["stun:a".to_owned()], username: Some("  ".into()), credential: None },
        IceServerConfig {
            urls: vec!["turn:b".to_owned()],
            username: Some("bob".into()),
            credential: Some("   ".into()),
        },
    ];
    let out = to_rtc_ice_servers(&input);
    assert_eq!(out.len(), 2);
    assert_eq!(out[0].username, "alice");
    assert_eq!(out[0].credential, "s3cret");
    assert_eq!(out[0].credential_type, IceCredentialType::Password);
    assert_eq!(out[1].urls, vec!["stun:a"]);
    assert_eq!(out[1].username, "");
    assert_eq!(out[1].credential_type, IceCredentialType::Unspecified);
}

#[test]
fn default_servers_convert_without_the_tls_relay() {
    let defaults = default_ice_servers();
    assert_eq!(defaults.len(), 5);
    let out = to_rtc_ice_servers(&defaults);
    assert_eq!(out.len(), 4);
    assert_eq!(out[0].urls, vec!["stun:stun.relay.metered.ca:80"]);
    assert!(out[1..].iter().all(|s| s.credential_type == IceCredentialType::Password));
}

#[test]
fn csv_override_splits_and_trims() {
    let servers = ice_servers_from_csv("stun:stun.l.google.com:19302, turn:turn.example.com:3478,,  ")
        .expect("two URLs");
    assert_eq!(servers.len(), 1);
    assert_eq!(
        servers[0].urls,
        vec!["stun:stun.l.google.com:19302", "turn:turn.example.com:3478"]
    );
    assert!(servers[0].username.is_none() && servers[0].credential.is_none());
    assert!(ice_servers_from_csv(" , ,").is_none());
    assert!(ice_servers_from_csv("").is_none());
}

#[test]
fn env_local_value_reads_first_matching_line() {
    let content = "# comment\nOTHER=1\n  LUMIERE_ICE_SERVERS = 'stun:a,stun:b'  \r\nLUMIERE_ICE_SERVERS=later\n";
    assert_eq!(
        env_local_value(content, "LUMIERE_ICE_SERVERS").as_deref(),
        Some("stun:a,stun:b")
    );
    assert_eq!(env_local_value(content, "OTHER").as_deref(), Some("1"));
    assert_eq!(env_local_value(content, "MISSING"), None);
}

#[test]
fn env_local_value_skips_empty_values_and_strips_double_quotes() {
    let content = "KEY=\"\"\nKEY=\nKEY=\"quoted value\"\n";
    assert_eq!(env_local_value(content, "KEY").as_deref(), Some("quoted value"));
    assert_eq!(env_local_value("KEY='x\"", "KEY").as_deref(), Some("'x\""));
    assert_eq!(env_local_value("#KEY=1", "KEY"), None);
}

fn json_model(v: serde_json::Value) -> JsonValue {
    match v {
        serde_json::Value::Null => JsonValue::Null,
        serde_json::Value::Bool(b) => JsonValue::Bool(b),
        serde_json::Value::Number(n) => JsonValue::Number(n.as_u64()),
        serde_json::Value::String(s) => JsonValue::Str(s),
        serde_json::Value::Array(items) => JsonValue::Array(items.into_iter().map(json_model).collect()),
        serde_json::Value::Object(members) => JsonValue::Object(
            members.into_iter().map(|(k, v)| (k, json_model(v))).collect(),
        ),
    }
}

fn parse_ice_servers_from_json(raw: &str) -> Option<Vec<IceServerConfig>> {
    let value: serde_json::Value = serde_json::from_str(raw).ok()?;
    ice_servers_from_json_value(&json_model(value))
}

#[test]
fn parse_json_accepts_array_of_servers() {
    let raw = r#"[
        {"urls": ["stun:stun.l.google.com:19302"]},
        {"urls": ["turn:turn.example.com:3478"], "username": "u", "credential": "p"}
    ]"#;
    let servers = parse_ice_servers_from_json(raw).expect("should parse");
    assert_eq!(servers.len(), 2);
    assert_eq!(servers[0].urls, vec!["stun:stun.l.google.com:19302"]);
    assert_eq!(servers[1].username.as_deref(), Some("u"));
    assert_eq!(servers[1].credential.as_deref(), Some("p"));
}

#[test]
fn parse_json_accepts_iceservers_wrapper_object() {
    let raw = r#"{"iceServers": [{"urls": ["stun:foo:3478"]}]}"#;
    let servers = parse_ice_servers_from_json(raw).expect("should parse");
    assert_eq!(servers.len(), 1);
}

#[test]
fn parse_json_accepts_single_url_string() {
    let raw = r#"[{"urls": "stun:single.example.com:3478"}]"#;
    let servers = parse_ice_servers_from_json(raw).expect("should parse");
    assert_eq!(servers.len(), 1);
    assert_eq!(servers[0].urls, vec!["stun:single.example.com:3478"]);
}

#[test]
fn parse_json_accepts_legacy_url_key() {
    let raw = r#"[{"url": "stun:legacy.example.com"}]"#;
    let servers = parse_ice_servers_from_json(raw).expect("should parse");
    assert_eq!(servers.len(), 1);
    assert_eq!(servers[0].urls, vec!["stun:legacy.example.com"]);
}

#[test]
fn parse_json_accepts_password_alias_for_credential() {
    let raw = r#"[{"urls": ["turn:x"], "username": "u", "password": "pw"}]"#;
    let servers = parse_ice_servers_from_json(raw).expect("should parse");
    assert_eq!(servers[0].credential.as_deref(), Some("pw"));
}

#[test]
fn parse_json_returns_none_when_array_empty() {
    assert!(parse_ice_servers_from_json("[]").is_none());
}

#[test]
fn parse_json_returns_none_on_invalid_json() {
    assert!(parse_ice_servers_from_json("not json").is_none());
}

#[test]
fn parse_json_skips_entries_without_urls() {
    let raw = r#"[{"username": "u"}, {"urls": ["stun:ok"]}]"#;
    let servers = parse_ice_servers_from_json(raw).expect("should parse");
    assert_eq!(servers.len(), 1);
    assert_eq!(servers[0].urls, vec!["stun:ok"]);
}

#[test]
fn json_credential_member_of_wrong_type_gives_none() {
    let doc = JsonValue::Array(vec![JsonValue::Object(vec![
        ("urls".to_owned(), JsonValue::Array(vec![JsonValue::Str("turn:a".to_owned()), JsonValue::Number(None)])),
        ("credential".to_owned(), JsonValue::Number(Some(7))),
        ("password".to_owned(), JsonValue::Str("pw".to_owned())),
    ])]);
    let servers = ice_servers_from_json_value(&doc).expect("one server");
    assert_eq!(servers.len(), 1);
    assert_eq!(servers[0].urls, vec!["turn:a"]);
    assert_eq!(servers[0].credential, None);
    assert_eq!(servers[0].username, None);
}

#[test]
fn json_urls_array_without_strings_is_skipped() {
    let doc = JsonValue::Array(vec![JsonValue::Object(vec![
        ("urls".to_owned(), JsonValue::Array(vec![JsonValue::Null])),
        ("url".to_owned(), JsonValue::Str("stun:ignored".to_owned())),
    ])]);
    assert!(ice_servers_from_json_value(&doc).is_none());
}

#[test]
fn json_other_documents_give_none() {
    assert!(ice_servers_from_json_value(&JsonValue::Str("x".to_owned())).is_none());
    let wrapped = JsonValue::Object(vec![("iceServers".to_owned(), JsonValue::Bool(true))]);
    assert!(ice_servers_from_json_value(&wrapped).is_none());
}

#[test]
fn ice_gather_timeout_defaults_and_clamps() {
    assert_eq!(ice_gather_timeout_secs_from(None), 3);
    assert_eq!(ice_gather_timeout_secs_from(Some(" 7 ")), 7);
    assert_eq!(ice_gather_timeout_secs_from(Some("0")), 1);
    assert_eq!(ice_gather_timeout_secs_from(Some("99")), 15);
    assert_eq!(ice_gather_timeout_secs_from(Some("abc")), 3);
}

#[test]
fn stream_ssrc_is_odd_mix_of_pid_and_clock() {
    assert_eq!(stream_ssrc_from(0, 0), 1);
    assert_eq!(stream_ssrc_from(1, 0), (1u32 << 13) | 1);
    let pid: u64 = 4242;
    let nanos: u64 = 1_700_000_000_123_456_789;
    let expected = ((nanos ^ pid.rotate_left(13)) as u32) | 1;
    assert_eq!(stream_ssrc_from(pid, nanos), expected);
    assert_eq!(stream_ssrc_from(pid, nanos) % 2, 1);
}
