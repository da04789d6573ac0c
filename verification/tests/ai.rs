use lumiere_agent::ai::{
    action_kind, ai_message_kind, drag_message, key_for_lowercase_name, map_key_name,
    modifier_keys, pointer_button, scroll_amounts, scroll_message, shell_command, shell_outcome,
    success_fields, truncate, wait_message, wait_millis, AiActionKind, AiButton, AiKey,
    AiMessageKind, ai_envelope, empty_actions_error, AiEnvelope,
};
use lumiere_agent::json::JsonValue;

#[test]
fn single_character_names_are_that_character() {
    assert_eq!(map_key_name("a"), Some(AiKey::Unicode('a')));
    assert_eq!(map_key_name("É"), Some(AiKey::Unicode('É')));
    assert_eq!(map_key_name(" "), Some(AiKey::Unicode(' ')));
}

#[test]
fn named_keys_ignore_case() {
    assert_eq!(map_key_name("Enter"), Some(AiKey::Return));
    assert_eq!(map_key_name("RETURN"), Some(AiKey::Return));
    assert_eq!(map_key_name("Esc"), Some(AiKey::Escape));
    assert_eq!(map_key_name("ArrowLeft"), Some(AiKey::LeftArrow));
    assert_eq!(map_key_name("F12"), Some(AiKey::F12));
    assert_eq!(map_key_name("Volume-Up"), Some(AiKey::VolumeUp));
    assert_eq!(map_key_name("play_pause"), Some(AiKey::MediaPlayPause));
    assert_eq!(map_key_name("media-previous"), Some(AiKey::MediaPrevTrack));
    assert_eq!(map_key_name("mute"), Some(AiKey::VolumeMute));
    assert_eq!(map_key_name("super"), Some(AiKey::Meta));
}

#[test]
fn unknown_key_names_are_none() {
    assert_eq!(map_key_name("f13"), None);
    assert_eq!(map_key_name(""), None);
    assert_eq!(key_for_lowercase_name("Enter"), None);
    assert_eq!(key_for_lowercase_name("enter"), Some(AiKey::Return));
}

#[test]
fn modifiers_map_in_order() {
    let mods = vec!["Ctrl".to_owned(), "SHIFT".to_owned(), "win".to_owned(), "alt".to_owned()];
    assert_eq!(
        modifier_keys(&mods),
        Ok(vec![AiKey::Control, AiKey::Shift, AiKey::Meta, AiKey::Alt])
    );
    assert_eq!(modifier_keys(&Vec::new()), Ok(Vec::new()));
}

#[test]
fn unknown_modifier_is_reported_lowercased() {
    let mods = vec!["control".to_owned(), "Hyper".to_owned(), "bogus".to_owned()];
    assert_eq!(modifier_keys(&mods), Err("hyper".to_owned()));
}

#[test]
fn shells_build_their_command_lines() {
    let c = shell_command(Some("CMD"), "dir", true).unwrap();
    assert_eq!(c.program, "cmd");
    assert_eq!(c.args, vec!["/C", "dir"]);
    let p = shell_command(None, "Get-Date", true).unwrap();
    assert_eq!(p.program, "powershell");
    assert_eq!(p.args, vec!["-NoProfile", "-NonInteractive", "-Command", "Get-Date"]);
    let b = shell_command(None, "ls -la", false).unwrap();
    assert_eq!(b.program, "bash");
    assert_eq!(b.args, vec!["-c", "ls -la"]);
}

#[test]
fn unknown_shell_is_reported_lowercased() {
    assert_eq!(shell_command(Some("Zsh"), "ls", false).err(), Some("zsh".to_owned()));
}

#[test]
fn wait_defaults_and_clamps() {
    assert_eq!(wait_millis(None), 500);
    assert_eq!(wait_millis(Some(10)), 50);
    assert_eq!(wait_millis(Some(60_000)), 10_000);
    assert_eq!(wait_millis(Some(1234)), 1234);
    assert_eq!(wait_message(500), "waited 500ms");
    assert_eq!(wait_message(0), "waited 0ms");
}

#[test]
fn truncate_keeps_short_text_trimmed() {
    assert_eq!(truncate("  hello \n", 10), "hello");
    assert_eq!(truncate("", 3), "");
}

#[test]
fn truncate_cuts_and_marks_long_text() {
    assert_eq!(truncate("abcdefgh", 3), "abc\u{2026}");
    assert_eq!(truncate("ab  cdef", 3), "ab \u{2026}");
    assert_eq!(truncate("éèêë", 2), "éè\u{2026}");
}

#[test]
fn shell_outcome_reports_code_and_output() {
    assert_eq!(shell_outcome(true, Some(0), "out\n", ""), Ok("exit=0\nstdout: out".to_owned()));
    assert_eq!(
        shell_outcome(false, Some(2), "", "boom"),
        Err("exit=2\nstderr: boom".to_owned())
    );
    assert_eq!(shell_outcome(false, None, "  ", " "), Err("exit=-1".to_owned()));
    let long = "x".repeat(900);
    let report = shell_outcome(true, Some(-12), &long, "").unwrap();
    assert_eq!(report, format!("exit=-12\nstdout: {}\u{2026}", "x".repeat(800)));
}

#[test]
fn action_kinds_group_action_types() {
    assert_eq!(action_kind("click"), Some(AiActionKind::Pointer));
    assert_eq!(action_kind("double_click"), Some(AiActionKind::Pointer));
    assert_eq!(action_kind("move"), Some(AiActionKind::Pointer));
    assert_eq!(action_kind("type_text"), Some(AiActionKind::TypeText));
    assert_eq!(action_kind("key"), Some(AiActionKind::Key));
    assert_eq!(action_kind("shell"), Some(AiActionKind::Shell));
    assert_eq!(action_kind("wait"), Some(AiActionKind::Wait));
    assert_eq!(action_kind("screenshot"), Some(AiActionKind::Screenshot));
    assert_eq!(action_kind("scroll"), Some(AiActionKind::Scroll));
    assert_eq!(action_kind("drag"), Some(AiActionKind::Drag));
    assert_eq!(action_kind("Click"), None);
    assert_eq!(action_kind("teleport"), None);
}

#[test]
fn pointer_buttons_default_to_left() {
    assert_eq!(pointer_button(None), AiButton::Left);
    assert_eq!(pointer_button(Some("right")), AiButton::Right);
    assert_eq!(pointer_button(Some("middle")), AiButton::Middle);
    assert_eq!(pointer_button(Some("Right")), AiButton::Left);
}

#[test]
fn scroll_needs_some_amount() {
    assert_eq!(scroll_amounts(None, None), None);
    assert_eq!(scroll_amounts(Some(0), Some(0)), None);
    assert_eq!(scroll_amounts(Some(-3), None), Some((-3, 0)));
    assert_eq!(scroll_amounts(None, Some(2)), Some((0, 2)));
    assert_eq!(scroll_message(-3, 0), "scrolled dy=-3 dx=0");
}

#[test]
fn drag_message_names_both_points() {
    assert_eq!(drag_message(10, 20, 300, -4), "dragged (10,20) \u{2192} (300,-4)");
}

#[test]
fn screenshot_output_goes_to_its_own_field() {
    let (shot, msg) = success_fields(Some("screenshot"), Some("QUJD".to_owned()));
    assert_eq!(shot.as_deref(), Some("QUJD"));
    assert_eq!(msg, "screenshot captured");
    let (shot, msg) = success_fields(Some("wait"), Some("waited 50ms".to_owned()));
    assert_eq!(shot, None);
    assert_eq!(msg, "waited 50ms");
    let (shot, msg) = success_fields(None, None);
    assert_eq!(shot, None);
    assert_eq!(msg, "");
}

#[test]
fn message_kinds() {
    assert_eq!(ai_message_kind("AI_ACTION"), AiMessageKind::SingleAction);
    assert_eq!(ai_message_kind("AI_PLAN"), AiMessageKind::Plan);
    assert_eq!(ai_message_kind("ai_plan"), AiMessageKind::Unknown);
}

fn ai_msg(t: Option<&str>, member: Option<&str>) -> JsonValue {
    let mut members = Vec::new();
    if let Some(t) = t {
        members.push(("type".to_string(), JsonValue::Str(t.to_string())));
    }
    if let Some(m) = member {
        members.push((m.to_string(), JsonValue::Null));
    }
    JsonValue::Object(members)
}

#[test]
fn ai_envelope_checks_type_and_member() {
    assert!(matches!(ai_envelope(&ai_msg(Some("AI_ACTION"), Some("action"))), AiEnvelope::SingleAction));
    assert!(matches!(ai_envelope(&ai_msg(Some("AI_PLAN"), Some("actions"))), AiEnvelope::Plan));
    match ai_envelope(&ai_msg(Some("AI_ACTION"), Some("actions"))) {
        AiEnvelope::Rejected { message } => assert_eq!(message, "AI_ACTION missing 'action' field"),
        other => panic!("unexpected {other:?}"),
    }
    match ai_envelope(&ai_msg(Some("AI_PLAN"), None)) {
        AiEnvelope::Rejected { message } => assert_eq!(message, "AI_PLAN missing 'actions' field"),
        other => panic!("unexpected {other:?}"),
    }
    match ai_envelope(&ai_msg(Some("CHAT"), Some("action"))) {
        AiEnvelope::Rejected { message } => assert_eq!(message, "Unknown AI message type: CHAT"),
        other => panic!("unexpected {other:?}"),
    }
    match ai_envelope(&ai_msg(None, Some("action"))) {
        AiEnvelope::Rejected { message } => assert_eq!(message, "Unknown AI message type: "),
        other => panic!("unexpected {other:?}"),
    }
    assert_eq!(empty_actions_error(0), Some("Empty action list".to_string()));
    assert_eq!(empty_actions_error(2), None);
}
