//! Remote input: a viewer's mouse or keyboard event, decoded from its JSON
//! message, becomes the sequence of actions that the injector performs.
use vstd::prelude::*;
use crate::ice::opt_view;
use crate::text::{chars_of, eq_lit, to_lowercase, unicode_lowercase};

verus! {

broadcast use vstd::string::group_string_axioms;

/// The fields of an input message that the handler reads; each is `None`
/// when the message lacks it or holds another JSON type.
#[derive(Debug, Default)]
pub struct InputEvent {
    pub kind: Option<String>,
    pub x: Option<i64>,
    pub y: Option<i64>,
    pub button: Option<i64>,
    pub delta_y: Option<i64>,
    pub key_code: Option<u64>,
    pub key: Option<String>,
}

/// A mouse button.
#[derive(Clone, Copy, Debug, PartialEq, Eq, Structural)]
pub enum MouseButton {
    Left,
    Middle,
    Right,
}

/// The key a keyboard event acts on.
#[derive(Clone, Copy, Debug, PartialEq, Eq, Structural)]
pub enum KeyTarget {
    /// A Windows virtual-key code.
    VirtualKey(u16),
    /// The key that types this ASCII character in the current keyboard
    /// layout; no key event is sent when the layout has none.
    LayoutChar(char),
}

/// One step of input injection.
#[derive(Clone, Copy, Debug, PartialEq, Eq, Structural)]
pub enum InputAction {
    MoveCursor { x: i32, y: i32 },
    Button { button: MouseButton, pressed: bool },
    Pause { ms: u64 },
    Wheel { delta: i32 },
    Key { key: KeyTarget, released: bool },
}

/// Injects viewer input.
#[derive(Debug, Default)]
pub struct InputHandler;

/// Button number 1 is the middle button, 2 the right one, any other the left.
pub open spec fn button_for(n: i64) -> MouseButton {
    if n == 1 {
        MouseButton::Middle
    } else if n == 2 {
        MouseButton::Right
    } else {
        MouseButton::Left
    }
}

/// The cursor move to the event's position (0 when absent, truncated to
/// `i32`).
pub open spec fn cursor_move(e: InputEvent) -> InputAction {
    InputAction::MoveCursor {
        x: (match e.x {
            Some(v) => v,
            None => 0,
        }) as i32,
        y: (match e.y {
            Some(v) => v,
            None => 0,
        }) as i32,
    }
}

/// The event's button (left when absent).
pub open spec fn event_button(e: InputEvent) -> MouseButton {
    button_for(
        match e.button {
            Some(b) => b,
            None => 0,
        },
    )
}

/// A click: move, press, release.
pub open spec fn click_actions(e: InputEvent) -> Seq<InputAction> {
    seq![
        cursor_move(e),
        InputAction::Button { button: event_button(e), pressed: true },
        InputAction::Button { button: event_button(e), pressed: false },
    ]
}

/// The virtual-key code of a special key name (already lowercased).
pub open spec fn special_key_code(name: Seq<char>) -> Option<u16> {
    if name == "enter"@ {
        Some(0x0Du16)
    } else if name == "tab"@ {
        Some(0x09u16)
    } else if name == "escape"@ {
        Some(0x1Bu16)
    } else if name == "backspace"@ {
        Some(0x08u16)
    } else if name == "delete"@ {
        Some(0x2Eu16)
    } else if name == "insert"@ {
        Some(0x2Du16)
    } else if name == "home"@ {
        Some(0x24u16)
    } else if name == "end"@ {
        Some(0x23u16)
    } else if name == "pageup"@ {
        Some(0x21u16)
    } else if name == "pagedown"@ {
        Some(0x22u16)
    } else if name == "arrowleft"@ {
        Some(0x25u16)
    } else if name == "arrowup"@ {
        Some(0x26u16)
    } else if name == "arrowright"@ {
        Some(0x27u16)
    } else if name == "arrowdown"@ {
        Some(0x28u16)
    } else if name == "shift"@ {
        Some(0x10u16)
    } else if name == "control"@ {
        Some(0x11u16)
    } else if name == "alt"@ {
        Some(0x12u16)
    } else if name == "capslock"@ {
        Some(0x14u16)
    } else if name == "space"@ {
        Some(0x20u16)
    } else if name == "f1"@ {
        Some(0x70u16)
    } else if name == "f2"@ {
        Some(0x71u16)
    } else if name == "f3"@ {
        Some(0x72u16)
    } else if name == "f4"@ {
        Some(0x73u16)
    } else if name == "f5"@ {
        Some(0x74u16)
    } else if name == "f6"@ {
        Some(0x75u16)
    } else if name == "f7"@ {
        Some(0x76u16)
    } else if name == "f8"@ {
        Some(0x77u16)
    } else if name == "f9"@ {
        Some(0x78u16)
    } else if name == "f10"@ {
        Some(0x79u16)
    } else if name == "f11"@ {
        Some(0x7Au16)
    } else if name == "f12"@ {
        Some(0x7Bu16)
    } else {
        None
    }
}

/// A key name of one byte: a single ASCII character.
pub open spec fn is_single_ascii(k: Seq<char>) -> bool {
    k.len() == 1 && (k[0] as u32) < 128
}

/// The key of a keyboard event: a non-zero `keyCode` (truncated to 16 bits);
/// else a one-character `key`, through the keyboard layout; else the code of
/// the special key named by `key`, compared in lowercase.
pub open spec fn event_key(e: InputEvent) -> Option<KeyTarget> {
    if e.key_code matches Some(kc) && kc > 0 {
        Some(KeyTarget::VirtualKey(e.key_code.unwrap() as u16))
    } else {
        match opt_view(e.key) {
            Some(k) => if is_single_ascii(k) {
                Some(KeyTarget::LayoutChar(k[0]))
            } else {
                match special_key_code(unicode_lowercase(k)) {
                    Some(vk) => Some(KeyTarget::VirtualKey(vk)),
                    None => None,
                }
            },
            None => None,
        }
    }
}

/// The actions for an input event, by its type (exact, case-sensitive):
/// moves, presses and releases at the event's position, clicks (a double
/// click is two clicks 50 ms apart), one wheel notch (down for a positive
/// `deltaY`), key presses and releases; nothing for another type.
pub open spec fn input_actions(e: InputEvent) -> Seq<InputAction> {
    let kind = match opt_view(e.kind) {
        Some(k) => k,
        None => ""@,
    };
    if kind == "mousemove"@ || kind == "mouse-move"@ {
        seq![cursor_move(e)]
    } else if kind == "mousedown"@ || kind == "mouse-down"@ {
        seq![cursor_move(e), InputAction::Button { button: event_button(e), pressed: true }]
    } else if kind == "mouseup"@ || kind == "mouse-up"@ {
        seq![cursor_move(e), InputAction::Button { button: event_button(e), pressed: false }]
    } else if kind == "click"@ {
        click_actions(e)
    } else if kind == "dblclick"@ {
        click_actions(e) + seq![InputAction::Pause { ms: 50 }] + click_actions(e)
    } else if kind == "wheel"@ {
        seq![
            InputAction::Wheel {
                delta: if (match e.delta_y {
                    Some(d) => d,
                    None => 0,
                }) > 0 {
                    -120i32
                } else {
                    120i32
                },
            },
        ]
    } else if kind == "keydown"@ || kind == "key-down"@ || kind == "keyup"@ || kind == "key-up"@ {
        match event_key(e) {
            Some(k) => seq![InputAction::Key { key: k, released: kind == "keyup"@ || kind == "key-up"@ }],
            None => seq![],
        }
    } else {
        seq![]
    }
}

/// The virtual-key code of a special key name (compared in lowercase).
pub fn map_special_key(key: &str) -> (r: Option<u16>)
    ensures
        r == special_key_code(unicode_lowercase(key@)),
{
    let lower = to_lowercase(key);
    let l = chars_of(lower.as_str());
    let s = l.as_slice();
    if eq_lit(s, "enter") {
        Some(0x0D)
    } else if eq_lit(s, "tab") {
        Some(0x09)
    } else if eq_lit(s, "escape") {
        Some(0x1B)
    } else if eq_lit(s, "backspace") {
        Some(0x08)
    } else if eq_lit(s, "delete") {
        Some(0x2E)
    } else if eq_lit(s, "insert") {
        Some(0x2D)
    } else if eq_lit(s, "home") {
        Some(0x24)
    } else if eq_lit(s, "end") {
        Some(0x23)
    } else if eq_lit(s, "pageup") {
        Some(0x21)
    } else if eq_lit(s, "pagedown") {
        Some(0x22)
    } else if eq_lit(s, "arrowleft") {
        Some(0x25)
    } else if eq_lit(s, "arrowup") {
        Some(0x26)
    } else if eq_lit(s, "arrowright") {
        Some(0x27)
    } else if eq_lit(s, "arrowdown") {
        Some(0x28)
    } else if eq_lit(s, "shift") {
        Some(0x10)
    } else if eq_lit(s, "control") {
        Some(0x11)
    } else if eq_lit(s, "alt") {
        Some(0x12)
    } else if eq_lit(s, "capslock") {
        Some(0x14)
    } else if eq_lit(s, "space") {
        Some(0x20)
    } else if eq_lit(s, "f1") {
        Some(0x70)
    } else if eq_lit(s, "f2") {
        Some(0x71)
    } else if eq_lit(s, "f3") {
        Some(0x72)
    } else if eq_lit(s, "f4") {
        Some(0x73)
    } else if eq_lit(s, "f5") {
        Some(0x74)
    } else if eq_lit(s, "f6") {
        Some(0x75)
    } else if eq_lit(s, "f7") {
        Some(0x76)
    } else if eq_lit(s, "f8") {
        Some(0x77)
    } else if eq_lit(s, "f9") {
        Some(0x78)
    } else if eq_lit(s, "f10") {
        Some(0x79)
    } else if eq_lit(s, "f11") {
        Some(0x7A)
    } else if eq_lit(s, "f12") {
        Some(0x7B)
    } else {
        None
    }
}

/// The key of a keyboard event (see `event_key`).
fn virtual_key(e: &InputEvent) -> (r: Option<KeyTarget>)
    ensures
        r == event_key(*e),
{
    if let Some(kc) = e.key_code {
        if kc > 0 {
            return Some(KeyTarget::VirtualKey(kc as u16));
        }
    }
    match &e.key {
        Some(k) => {
            let chars = chars_of(k.as_str());
            if chars.len() == 1 && (chars[0] as u32) < 128 {
                Some(KeyTarget::LayoutChar(chars[0]))
            } else {
                match map_special_key(k.as_str()) {
                    Some(vk) => Some(KeyTarget::VirtualKey(vk)),
                    None => None,
                }
            }
        },
        None => None,
    }
}

/// The cursor move of an event.
fn move_of(e: &InputEvent) -> (a: InputAction)
    ensures
        a == cursor_move(*e),
{
    let x = match e.x {
        Some(v) => v,
        None => 0,
    };
    let y = match e.y {
        Some(v) => v,
        None => 0,
    };
    InputAction::MoveCursor { x: x as i32, y: y as i32 }
}

/// The button of an event.
fn button_of(e: &InputEvent) -> (b: MouseButton)
    ensures
        b == event_button(*e),
{
    let n = match e.button {
        Some(b) => b,
        None => 0,
    };
    if n == 1 {
        MouseButton::Middle
    } else if n == 2 {
        MouseButton::Right
    } else {
        MouseButton::Left
    }
}

/// Appends a click.
fn push_click(out: &mut Vec<InputAction>, e: &InputEvent)
    ensures
        final(out)@ == old(out)@ + click_actions(*e),
{
    let b = button_of(e);
    out.push(move_of(e));
    out.push(InputAction::Button { button: b, pressed: true });
    out.push(InputAction::Button { button: b, pressed: false });
    assert(out@ =~= old(out)@ + click_actions(*e));
}

impl InputHandler {
    /// A handler.
    pub fn new() -> Self {
        InputHandler
    }

    /// The actions for one input event (see `input_actions`).
    pub fn handle_input(&self, event: &InputEvent) -> (r: Vec<InputAction>)
        ensures
            r@ == input_actions(*event),
    {
        let kind_chars = match &event.kind {
            Some(k) => chars_of(k.as_str()),
            None => Vec::new(),
        };
        proof {
            reveal_strlit("");
        }
        let kind = kind_chars.as_slice();
        let mut out: Vec<InputAction> = Vec::new();
        let ghost kv = match opt_view(event.kind) {
            Some(k) => k,
            None => ""@,
        };
        assert(kind@ == kv);
        if eq_lit(kind, "mousemove") || eq_lit(kind, "mouse-move") {
            out.push(move_of(event));
            assert(out@ =~= input_actions(*event));
        } else if eq_lit(kind, "mousedown") || eq_lit(kind, "mouse-down") {
            out.push(move_of(event));
            out.push(InputAction::Button { button: button_of(event), pressed: true });
        } else if eq_lit(kind, "mouseup") || eq_lit(kind, "mouse-up") {
            out.push(move_of(event));
            out.push(InputAction::Button { button: button_of(event), pressed: false });
        } else if eq_lit(kind, "click") {
            push_click(&mut out, event);
        } else if eq_lit(kind, "dblclick") {
            push_click(&mut out, event);
            out.push(InputAction::Pause { ms: 50 });
            push_click(&mut out, event);
        } else if eq_lit(kind, "wheel") {
            let d = match event.delta_y {
                Some(d) => d,
                None => 0,
            };
            out.push(InputAction::Wheel { delta: if d > 0 { -120 } else { 120 } });
        } else if eq_lit(kind, "keydown") || eq_lit(kind, "key-down") || eq_lit(kind, "keyup") || eq_lit(
            kind,
            "key-up",
        ) {
            let released = eq_lit(kind, "keyup") || eq_lit(kind, "key-up");
            if let Some(k) = virtual_key(event) {
                out.push(InputAction::Key { key: k, released });
            }
        }
        assert(out@ =~= input_actions(*event));
        out
    }
}


/// A key event's type says whether the key goes down or up: `keyup` and
/// `key-up` release the event's key, `keydown` and `key-down` press it;
/// either way exactly one key action, and none when the event names no key.
pub proof fn law_key_events_press_or_release(e: InputEvent)
    ensures
        opt_view(e.kind) == Some("keyup"@) || opt_view(e.kind) == Some("key-up"@) ==> match event_key(e) {
            Some(k) => input_actions(e) == seq![InputAction::Key { key: k, released: true }],
            None => input_actions(e).len() == 0,
        },
        opt_view(e.kind) == Some("keydown"@) || opt_view(e.kind) == Some("key-down"@) ==> match event_key(e) {
            Some(k) => input_actions(e) == seq![InputAction::Key { key: k, released: false }],
            None => input_actions(e).len() == 0,
        },
{
    reveal_strlit("mousemove");
    reveal_strlit("mouse-move");
    reveal_strlit("mousedown");
    reveal_strlit("mouse-down");
    reveal_strlit("mouseup");
    reveal_strlit("mouse-up");
    reveal_strlit("click");
    reveal_strlit("dblclick");
    reveal_strlit("wheel");
    reveal_strlit("keydown");
    reveal_strlit("key-down");
    reveal_strlit("keyup");
    reveal_strlit("key-up");
    if let Some(kind) = opt_view(e.kind) {
        if kind == "keyup"@ || kind == "key-up"@ || kind == "keydown"@ || kind == "key-down"@ {
            assert(kind[0] == 'k');
            assert("mousemove"@[0] == 'm' && "mouse-move"@[0] == 'm');
            assert("mousedown"@[0] == 'm' && "mouse-down"@[0] == 'm');
            assert(kind != "mousemove"@ && kind != "mouse-move"@);
            assert(kind != "mousedown"@ && kind != "mouse-down"@);
            assert(kind != "mouseup"@ && kind != "mouse-up"@);
            assert(kind != "click"@ && kind != "dblclick"@ && kind != "wheel"@);
            assert("keyup"@[3] == 'u' && "key-up"@[3] == '-' && "key-up"@[4] == 'u');
            assert("keydown"@[3] == 'd' && "key-down"@[3] == '-' && "key-down"@[4] == 'd');
            assert("keyup"@ != "keydown"@ && "keyup"@ != "key-down"@);
            assert("key-up"@ != "keydown"@ && "key-up"@ != "key-down"@);
        }
    }
}


/// Mouse button events move the cursor and then press (`mousedown`,
/// `mouse-down`) or release (`mouseup`, `mouse-up`) the event's button; a
/// `wheel` event turns the wheel one notch, down (-120) for a positive
/// `deltaY` and up (120) otherwise.
pub proof fn law_mouse_events_press_release_and_scroll(e: InputEvent)
    ensures
        opt_view(e.kind) == Some("mousedown"@) || opt_view(e.kind) == Some("mouse-down"@) ==> input_actions(e)
            == seq![cursor_move(e), InputAction::Button { button: event_button(e), pressed: true }],
        opt_view(e.kind) == Some("mouseup"@) || opt_view(e.kind) == Some("mouse-up"@) ==> input_actions(e)
            == seq![cursor_move(e), InputAction::Button { button: event_button(e), pressed: false }],
        opt_view(e.kind) == Some("wheel"@) ==> input_actions(e) == seq![
            InputAction::Wheel {
                delta: if e.delta_y matches Some(d) && d > 0 {
                    -120i32
                } else {
                    120i32
                },
            },
        ],
{
    reveal_strlit("mousemove");
    reveal_strlit("mouse-move");
    reveal_strlit("mousedown");
    reveal_strlit("mouse-down");
    reveal_strlit("mouseup");
    reveal_strlit("mouse-up");
    reveal_strlit("click");
    reveal_strlit("dblclick");
    reveal_strlit("wheel");
    if let Some(kind) = opt_view(e.kind) {
        assert("mousemove"@[5] == 'm' && "mouse-move"@[5] == '-' && "mouse-move"@[6] == 'm');
        assert("mousedown"@[5] == 'd' && "mouse-down"@[5] == '-' && "mouse-down"@[6] == 'd');
        assert("mouseup"@[5] == 'u' && "mouse-up"@[5] == '-' && "mouse-up"@[6] == 'u');
        assert("mousemove"@ != "mousedown"@ && "mousemove"@ != "mouse-down"@);
        assert("mouse-move"@ != "mousedown"@ && "mouse-move"@ != "mouse-down"@);
        assert("mousemove"@ != "mouseup"@ && "mousemove"@ != "mouse-up"@);
        assert("mouse-move"@ != "mouseup"@ && "mouse-move"@ != "mouse-up"@);
        assert("mousedown"@ != "mouseup"@ && "mousedown"@ != "mouse-up"@);
        assert("mouse-down"@ != "mouseup"@ && "mouse-down"@ != "mouse-up"@);
        assert("wheel"@[0] == 'w' && "mousemove"@[0] == 'm' && "mouse-move"@[0] == 'm');
        assert("mousedown"@[0] == 'm' && "mouse-down"@[0] == 'm' && "mouseup"@[0] == 'm' && "mouse-up"@[0] == 'm');
        assert("click"@[0] == 'c' && "dblclick"@[0] == 'd');
        assert("wheel"@ != "mousemove"@ && "wheel"@ != "mouse-move"@ && "wheel"@ != "mousedown"@);
        assert("wheel"@ != "mouse-down"@ && "wheel"@ != "mouseup"@ && "wheel"@ != "mouse-up"@);
        assert("wheel"@ != "click"@ && "wheel"@ != "dblclick"@);
    }
}

} // verus!
