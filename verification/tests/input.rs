use lumiere_agent::input::{
    map_special_key, InputAction, InputEvent, InputHandler, KeyTarget, MouseButton,
};

fn event(kind: &str) -> InputEvent {
    InputEvent { kind: Some(kind.to_string()), ..InputEvent::default() }
}

#[test]
fn mouse_move_and_buttons() {
    let h = InputHandler::new();
    let mut e = event("mouse-move");
    e.x = Some(10);
    e.y = Some(-4);
    assert_eq!(h.handle_input(&e), vec![InputAction::MoveCursor { x: 10, y: -4 }]);

    let mut down = event("mousedown");
    down.button = Some(2);
    assert_eq!(
        h.handle_input(&down),
        vec![
            InputAction::MoveCursor { x: 0, y: 0 },
            InputAction::Button { button: MouseButton::Right, pressed: true },
        ]
    );
    let mut up = event("mouse-up");
    up.button = Some(7);
    assert_eq!(
        h.handle_input(&up)[1],
        InputAction::Button { button: MouseButton::Left, pressed: false }
    );
}

#[test]
fn coordinates_are_truncated_to_32_bits() {
    let mut e = event("mousemove");
    e.x = Some((1i64 << 32) + 5);
    e.y = Some(-1);
    assert_eq!(InputHandler::new().handle_input(&e), vec![InputAction::MoveCursor { x: 5, y: -1 }]);
}

#[test]
fn double_click_is_two_clicks_with_a_pause() {
    let mut e = event("dblclick");
    e.button = Some(1);
    let click = [
        InputAction::MoveCursor { x: 0, y: 0 },
        InputAction::Button { button: MouseButton::Middle, pressed: true },
        InputAction::Button { button: MouseButton::Middle, pressed: false },
    ];
    let mut expected = click.to_vec();
    expected.push(InputAction::Pause { ms: 50 });
    expected.extend_from_slice(&click);
    assert_eq!(InputHandler::new().handle_input(&e), expected);
}

#[test]
fn wheel_direction_follows_delta() {
    let h = InputHandler::new();
    let mut e = event("wheel");
    e.delta_y = Some(3);
    assert_eq!(h.handle_input(&e), vec![InputAction::Wheel { delta: -120 }]);
    e.delta_y = Some(-3);
    assert_eq!(h.handle_input(&e), vec![InputAction::Wheel { delta: 120 }]);
    e.delta_y = None;
    assert_eq!(h.handle_input(&e), vec![InputAction::Wheel { delta: 120 }]);
}

#[test]
fn keys_resolve_code_char_or_name() {
    let h = InputHandler::new();
    let mut e = event("keydown");
    e.key_code = Some(65);
    e.key = Some("Enter".into());
    assert_eq!(
        h.handle_input(&e),
        vec![InputAction::Key { key: KeyTarget::VirtualKey(65), released: false }]
    );
    e.key_code = Some(0);
    assert_eq!(
        h.handle_input(&e),
        vec![InputAction::Key { key: KeyTarget::VirtualKey(0x0D), released: false }]
    );
    let mut up = event("key-up");
    up.key = Some("q".into());
    assert_eq!(
        h.handle_input(&up),
        vec![InputAction::Key { key: KeyTarget::LayoutChar('q'), released: true }]
    );
    up.key = Some("Unknown".into());
    assert!(h.handle_input(&up).is_empty());
}

#[test]
fn unknown_or_missing_type_does_nothing() {
    let h = InputHandler::new();
    assert!(h.handle_input(&event("MOUSEMOVE")).is_empty());
    assert!(h.handle_input(&InputEvent::default()).is_empty());
}

#[test]
fn special_key_names_ignore_case() {
    assert_eq!(map_special_key("ArrowLeft"), Some(0x25));
    assert_eq!(map_special_key("F12"), Some(0x7B));
    assert_eq!(map_special_key("CapsLock"), Some(0x14));
    assert_eq!(map_special_key("space"), Some(0x20));
    assert_eq!(map_special_key("f13"), None);
}
