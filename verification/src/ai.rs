//! Decisions of the assistant-driven remote actions: which key a key name
//! means, which modifiers a shortcut holds, which shell runs a command, how
//! long a wait lasts, and the texts reported back to the viewer.
use vstd::prelude::*;
use crate::ice::strings_view;
use crate::json::{json_get, json_text, member_of, JsonValue};
use crate::text::{
    chars_of, copy_range, decimal, eq_lit, push_decimal, push_text, push_signed_decimal,
    signed_decimal, string_from_chars, string_push, to_lowercase, trim, trim_chars,
    unicode_lowercase,
};

verus! {

broadcast use vstd::string::group_string_axioms;

/// A key the assistant can press: a character, or a named key.
#[derive(Clone, Copy, Debug, PartialEq, Eq, Structural)]
pub enum AiKey {
    Unicode(char),
    Return,
    Tab,
    Escape,
    Backspace,
    Delete,
    Insert,
    Home,
    End,
    PageUp,
    PageDown,
    LeftArrow,
    RightArrow,
    UpArrow,
    DownArrow,
    Space,
    Shift,
    Control,
    Alt,
    Meta,
    CapsLock,
    F1,
    F2,
    F3,
    F4,
    F5,
    F6,
    F7,
    F8,
    F9,
    F10,
    F11,
    F12,
    VolumeUp,
    VolumeDown,
    VolumeMute,
    MediaNextTrack,
    MediaPrevTrack,
    MediaPlayPause,
    MediaStop,
}

/// The named key a lowercase key name stands for.
pub open spec fn named_key(name: Seq<char>) -> Option<AiKey> {
    if name == "enter"@ || name == "return"@ {
        Some(AiKey::Return)
    } else if name == "tab"@ {
        Some(AiKey::Tab)
    } else if name == "escape"@ || name == "esc"@ {
        Some(AiKey::Escape)
    } else if name == "backspace"@ {
        Some(AiKey::Backspace)
    } else if name == "delete"@ || name == "del"@ {
        Some(AiKey::Delete)
    } else if name == "insert"@ || name == "ins"@ {
        Some(AiKey::Insert)
    } else if name == "home"@ {
        Some(AiKey::Home)
    } else if name == "end"@ {
        Some(AiKey::End)
    } else if name == "pageup"@ {
        Some(AiKey::PageUp)
    } else if name == "pagedown"@ {
        Some(AiKey::PageDown)
    } else if name == "arrowleft"@ || name == "left"@ {
        Some(AiKey::LeftArrow)
    } else if name == "arrowright"@ || name == "right"@ {
        Some(AiKey::RightArrow)
    } else if name == "arrowup"@ || name == "up"@ {
        Some(AiKey::UpArrow)
    } else if name == "arrowdown"@ || name == "down"@ {
        Some(AiKey::DownArrow)
    } else if name == "space"@ {
        Some(AiKey::Space)
    } else if name == "shift"@ {
        Some(AiKey::Shift)
    } else if name == "control"@ || name == "ctrl"@ {
        Some(AiKey::Control)
    } else if name == "alt"@ {
        Some(AiKey::Alt)
    } else if name == "meta"@ || name == "win"@ || name == "super"@ {
        Some(AiKey::Meta)
    } else if name == "capslock"@ {
        Some(AiKey::CapsLock)
    } else if name == "f1"@ {
        Some(AiKey::F1)
    } else if name == "f2"@ {
        Some(AiKey::F2)
    } else if name == "f3"@ {
        Some(AiKey::F3)
    } else if name == "f4"@ {
        Some(AiKey::F4)
    } else if name == "f5"@ {
        Some(AiKey::F5)
    } else if name == "f6"@ {
        Some(AiKey::F6)
    } else if name == "f7"@ {
        Some(AiKey::F7)
    } else if name == "f8"@ {
        Some(AiKey::F8)
    } else if name == "f9"@ {
        Some(AiKey::F9)
    } else if name == "f10"@ {
        Some(AiKey::F10)
    } else if name == "f11"@ {
        Some(AiKey::F11)
    } else if name == "f12"@ {
        Some(AiKey::F12)
    } else if name == "volumeup"@ || name == "volume_up"@ || name == "volume-up"@ {
        Some(AiKey::VolumeUp)
    } else if name == "volumedown"@ || name == "volume_down"@ || name == "volume-down"@ {
        Some(AiKey::VolumeDown)
    } else if name == "volumemute"@ || name == "volume_mute"@ || name == "volume-mute"@ || name == "mute"@ {
        Some(AiKey::VolumeMute)
    } else if name == "medianext"@ || name == "media_next"@ || name == "media-next"@ {
        Some(AiKey::MediaNextTrack)
    } else if name == "mediaprev"@ || name == "media_prev"@ || name == "media-prev"@ || name == "mediaprevious"@ || name == "media_previous"@ || name == "media-previous"@ {
        Some(AiKey::MediaPrevTrack)
    } else if name == "mediaplay"@ || name == "media_play"@ || name == "media-play"@ || name == "playpause"@ || name == "play_pause"@ || name == "play-pause"@ || name == "mediaplaypause"@ || name == "media_play_pause"@ || name == "media-play-pause"@ {
        Some(AiKey::MediaPlayPause)
    } else if name == "mediastop"@ || name == "media_stop"@ || name == "media-stop"@ {
        Some(AiKey::MediaStop)
    } else {
        None
    }
}

/// The named key a lowercase key name stands for (`enter`, `esc`, `f5`,
/// `volume-up`, ...), or `None` for an unknown name.
pub fn key_for_lowercase_name(name: &str) -> (r: Option<AiKey>)
    ensures
        r == named_key(name@),
{
    let chars = chars_of(name);
    let l = chars.as_slice();
    if eq_lit(l, "enter") || eq_lit(l, "return") {
        return Some(AiKey::Return);
    }
    if eq_lit(l, "tab") {
        return Some(AiKey::Tab);
    }
    if eq_lit(l, "escape") || eq_lit(l, "esc") {
        return Some(AiKey::Escape);
    }
    if eq_lit(l, "backspace") {
        return Some(AiKey::Backspace);
    }
    if eq_lit(l, "delete") || eq_lit(l, "del") {
        return Some(AiKey::Delete);
    }
    if eq_lit(l, "insert") || eq_lit(l, "ins") {
        return Some(AiKey::Insert);
    }
    if eq_lit(l, "home") {
        return Some(AiKey::Home);
    }
    if eq_lit(l, "end") {
        return Some(AiKey::End);
    }
    if eq_lit(l, "pageup") {
        return Some(AiKey::PageUp);
    }
    if eq_lit(l, "pagedown") {
        return Some(AiKey::PageDown);
    }
    if eq_lit(l, "arrowleft") || eq_lit(l, "left") {
        return Some(AiKey::LeftArrow);
    }
    if eq_lit(l, "arrowright") || eq_lit(l, "right") {
        return Some(AiKey::RightArrow);
    }
    if eq_lit(l, "arrowup") || eq_lit(l, "up") {
        return Some(AiKey::UpArrow);
    }
    if eq_lit(l, "arrowdown") || eq_lit(l, "down") {
        return Some(AiKey::DownArrow);
    }
    if eq_lit(l, "space") {
        return Some(AiKey::Space);
    }
    if eq_lit(l, "shift") {
        return Some(AiKey::Shift);
    }
    if eq_lit(l, "control") || eq_lit(l, "ctrl") {
        return Some(AiKey::Control);
    }
    if eq_lit(l, "alt") {
        return Some(AiKey::Alt);
    }
    if eq_lit(l, "meta") || eq_lit(l, "win") || eq_lit(l, "super") {
        return Some(AiKey::Meta);
    }
    if eq_lit(l, "capslock") {
        return Some(AiKey::CapsLock);
    }
    if eq_lit(l, "f1") {
        return Some(AiKey::F1);
    }
    if eq_lit(l, "f2") {
        return Some(AiKey::F2);
    }
    if eq_lit(l, "f3") {
        return Some(AiKey::F3);
    }
    if eq_lit(l, "f4") {
        return Some(AiKey::F4);
    }
    if eq_lit(l, "f5") {
        return Some(AiKey::F5);
    }
    if eq_lit(l, "f6") {
        return Some(AiKey::F6);
    }
    if eq_lit(l, "f7") {
        return Some(AiKey::F7);
    }
    if eq_lit(l, "f8") {
        return Some(AiKey::F8);
    }
    if eq_lit(l, "f9") {
        return Some(AiKey::F9);
    }
    if eq_lit(l, "f10") {
        return Some(AiKey::F10);
    }
    if eq_lit(l, "f11") {
        return Some(AiKey::F11);
    }
    if eq_lit(l, "f12") {
        return Some(AiKey::F12);
    }
    if eq_lit(l, "volumeup") || eq_lit(l, "volume_up") || eq_lit(l, "volume-up") {
        return Some(AiKey::VolumeUp);
    }
    if eq_lit(l, "volumedown") || eq_lit(l, "volume_down") || eq_lit(l, "volume-down") {
        return Some(AiKey::VolumeDown);
    }
    if eq_lit(l, "volumemute") || eq_lit(l, "volume_mute") || eq_lit(l, "volume-mute") || eq_lit(l, "mute") {
        return Some(AiKey::VolumeMute);
    }
    if eq_lit(l, "medianext") || eq_lit(l, "media_next") || eq_lit(l, "media-next") {
        return Some(AiKey::MediaNextTrack);
    }
    if eq_lit(l, "mediaprev") || eq_lit(l, "media_prev") || eq_lit(l, "media-prev") || eq_lit(l, "mediaprevious") || eq_lit(l, "media_previous") || eq_lit(l, "media-previous") {
        return Some(AiKey::MediaPrevTrack);
    }
    if eq_lit(l, "mediaplay") || eq_lit(l, "media_play") || eq_lit(l, "media-play") || eq_lit(l, "playpause") || eq_lit(l, "play_pause") || eq_lit(l, "play-pause") || eq_lit(l, "mediaplaypause") || eq_lit(l, "media_play_pause") || eq_lit(l, "media-play-pause") {
        return Some(AiKey::MediaPlayPause);
    }
    if eq_lit(l, "mediastop") || eq_lit(l, "media_stop") || eq_lit(l, "media-stop") {
        return Some(AiKey::MediaStop);
    }
    None
}

/// The key a key name means: a name of exactly one character is that
/// character; any other name is looked up, lowercased, among the named keys.
pub fn map_key_name(key: &str) -> (r: Option<AiKey>)
    ensures
        key@.len() == 1 ==> r == Some(AiKey::Unicode(key@[0])),
        key@.len() != 1 ==> r == named_key(unicode_lowercase(key@)),
{
    let chars = chars_of(key);
    if chars.len() == 1 {
        return Some(AiKey::Unicode(chars[0]));
    }
    let lower = to_lowercase(key);
    key_for_lowercase_name(lower.as_str())
}

/// The modifier key a lowercase modifier name stands for.
pub open spec fn modifier_for(name: Seq<char>) -> Option<AiKey> {
    if name == "ctrl"@ || name == "control"@ {
        Some(AiKey::Control)
    } else if name == "alt"@ {
        Some(AiKey::Alt)
    } else if name == "shift"@ {
        Some(AiKey::Shift)
    } else if name == "meta"@ || name == "win"@ || name == "super"@ {
        Some(AiKey::Meta)
    } else {
        None
    }
}

/// The modifier keys of a list of lowercase names, in order, or the first
/// name that is no modifier.
pub open spec fn modifier_list(names: Seq<Seq<char>>) -> Result<Seq<AiKey>, Seq<char>>
    decreases names.len(),
{
    if names.len() == 0 {
        Ok(seq![])
    } else {
        match modifier_for(names[0]) {
            None => Err(names[0]),
            Some(k) => match modifier_list(names.drop_first()) {
                Ok(ks) => Ok(seq![k] + ks),
                Err(e) => Err(e),
            },
        }
    }
}

/// The lowercase forms of a list of texts.
pub open spec fn lowercased(v: Seq<String>) -> Seq<Seq<char>> {
    v.map_values(|m: String| unicode_lowercase(m@))
}

/// The modifier keys of a list of lowercase modifier names, or the first
/// name that is none.
pub fn modifier_keys_lowercase(names: &Vec<String>) -> (r: Result<Vec<AiKey>, String>)
    ensures
        match r {
            Ok(v) => modifier_list(strings_view(names@)) == Ok::<Seq<AiKey>, Seq<char>>(v@),
            Err(e) => modifier_list(strings_view(names@)) == Err::<Seq<AiKey>, Seq<char>>(e@),
        },
{
    let n = names.len();
    let ghost all = strings_view(names@);
    let mut out: Vec<AiKey> = Vec::new();
    let mut i: usize = 0;
    assert(all.skip(0) =~= all);
    assert(out@ + seq![] =~= out@);
    while i < n
        invariant
            n == names@.len(),
            all == strings_view(names@),
            i <= n,
            modifier_list(all) == match modifier_list(all.skip(i as int)) {
                Ok(ks) => Ok(out@ + ks),
                Err(e) => Err(e),
            },
        decreases n - i,
    {
        assert(all.skip(i as int).drop_first() =~= all.skip(i + 1));
        assert(all.skip(i as int)[0] == names@[i as int]@);
        let name = names[i].as_str();
        let k = if eq_lit(chars_of(name).as_slice(), "ctrl") || eq_lit(chars_of(name).as_slice(), "control") {
            AiKey::Control
        } else if eq_lit(chars_of(name).as_slice(), "alt") {
            AiKey::Alt
        } else if eq_lit(chars_of(name).as_slice(), "shift") {
            AiKey::Shift
        } else if eq_lit(chars_of(name).as_slice(), "meta") || eq_lit(chars_of(name).as_slice(), "win")
            || eq_lit(chars_of(name).as_slice(), "super") {
            AiKey::Meta
        } else {
            return Err(names[i].clone());
        };
        let ghost before = out@;
        out.push(k);
        proof {
            match modifier_list(all.skip(i + 1)) {
                Ok(ks) => {
                    assert(before + (seq![k] + ks) =~= out@ + ks);
                },
                Err(e) => {},
            }
        }
        i += 1;
    }
    assert(all.skip(n as int) =~= Seq::<Seq<char>>::empty());
    assert(out@ + Seq::<AiKey>::empty() =~= out@);
    Ok(out)
}

/// The modifier keys a shortcut names (`ctrl`, `Shift`, `WIN`, ...), each
/// name lowercased; the first unknown name, lowercased, when one is not a
/// modifier.
pub fn modifier_keys(mods: &Vec<String>) -> (r: Result<Vec<AiKey>, String>)
    ensures
        match r {
            Ok(v) => modifier_list(lowercased(mods@)) == Ok::<Seq<AiKey>, Seq<char>>(v@),
            Err(e) => modifier_list(lowercased(mods@)) == Err::<Seq<AiKey>, Seq<char>>(e@),
        },
{
    let n = mods.len();
    let mut lower: Vec<String> = Vec::new();
    let mut i: usize = 0;
    while i < n
        invariant
            n == mods@.len(),
            i <= n,
            strings_view(lower@) == lowercased(mods@).take(i as int),
        decreases n - i,
    {
        let l = to_lowercase(mods[i].as_str());
        let ghost before = strings_view(lower@);
        let ghost lv = l@;
        lower.push(l);
        assert(strings_view(lower@) =~= before.push(lv));
        assert(lowercased(mods@)[i as int] == unicode_lowercase(mods@[i as int]@));
        assert(strings_view(lower@) =~= lowercased(mods@).take(i + 1));
        i += 1;
    }
    assert(lowercased(mods@).take(n as int) =~= lowercased(mods@));
    modifier_keys_lowercase(&lower)
}

/// A program to run with its arguments.
#[derive(Debug)]
pub struct ShellCommand {
    pub program: String,
    pub args: Vec<String>,
}

/// How a lowercase shell name runs `cmd`: `cmd /C`, `powershell
/// -NoProfile -NonInteractive -Command`, or `bash -c`.
pub open spec fn shell_plan(name: Seq<char>, cmd: Seq<char>) -> Option<(Seq<char>, Seq<Seq<char>>)> {
    if name == "cmd"@ {
        Some(("cmd"@, seq!["/C"@, cmd]))
    } else if name == "powershell"@ {
        Some(("powershell"@, seq!["-NoProfile"@, "-NonInteractive"@, "-Command"@, cmd]))
    } else if name == "bash"@ {
        Some(("bash"@, seq!["-c"@, cmd]))
    } else {
        None
    }
}

/// The shell used when none is named: PowerShell on Windows, bash elsewhere.
pub open spec fn default_shell(windows: bool) -> Seq<char> {
    if windows {
        "powershell"@
    } else {
        "bash"@
    }
}

/// The plain view of a command.
pub open spec fn command_view(c: ShellCommand) -> (Seq<char>, Seq<Seq<char>>) {
    (c.program@, strings_view(c.args@))
}

/// How the shell with a lowercase name runs `cmd`; `None` for an unknown shell.
pub fn shell_for_lowercase(name: &str, cmd: &str) -> (r: Option<ShellCommand>)
    ensures
        match r {
            Some(c) => shell_plan(name@, cmd@) == Some(command_view(c)),
            None => shell_plan(name@, cmd@) is None,
        },
{
    let chars = chars_of(name);
    let l = chars.as_slice();
    let mut args: Vec<String> = Vec::new();
    let program = if eq_lit(l, "cmd") {
        args.push("/C".to_owned());
        "cmd".to_owned()
    } else if eq_lit(l, "powershell") {
        args.push("-NoProfile".to_owned());
        args.push("-NonInteractive".to_owned());
        args.push("-Command".to_owned());
        "powershell".to_owned()
    } else if eq_lit(l, "bash") {
        args.push("-c".to_owned());
        "bash".to_owned()
    } else {
        return None;
    };
    args.push(cmd.to_owned());
    let c = ShellCommand { program, args };
    assert(command_view(c) == shell_plan(name@, cmd@)->0);
    Some(c)
}

/// How the requested shell (lowercased; the platform's default when none
/// is named) runs `cmd`, or the lowercased name of an unknown shell.
pub fn shell_command(shell: Option<&str>, cmd: &str, windows: bool) -> (r: Result<ShellCommand, String>)
    ensures
        ({
            let name = match shell {
                Some(s) => unicode_lowercase(s@),
                None => default_shell(windows),
            };
            match shell_plan(name, cmd@) {
                Some(p) => r matches Ok(c) && command_view(c) == p,
                None => r matches Err(e) && e@ == name,
            }
        }),
{
    let name: String = match shell {
        Some(s) => to_lowercase(s),
        None => if windows {
            "powershell".to_owned()
        } else {
            "bash".to_owned()
        },
    };
    match shell_for_lowercase(name.as_str(), cmd) {
        Some(c) => Ok(c),
        None => Err(name),
    }
}

/// How long a wait lasts, in milliseconds: the requested time (500 when
/// none is given) held within 50 to 10 000.
pub fn wait_millis(ms: Option<u64>) -> (r: u64)
    ensures
        r == ({
            let m = match ms {
                Some(v) => v,
                None => 500,
            };
            if m < 50 {
                50
            } else if m > 10_000 {
                10_000
            } else {
                m
            }
        }),
{
    let m = match ms {
        Some(v) => v,
        None => 500,
    };
    if m < 50 {
        50
    } else if m > 10_000 {
        10_000
    } else {
        m
    }
}

/// The report of a finished wait: `waited <ms>ms`.
pub fn wait_message(ms: u64) -> (r: String)
    ensures
        r@ == "waited "@ + decimal(ms as nat) + "ms"@,
{
    let mut s = String::new();
    push_text(&mut s, "waited ");
    push_decimal(&mut s, ms);
    push_text(&mut s, "ms");
    s
}

/// At most `max` characters of a text, with `…` appended when some were
/// cut, then trimmed.
pub open spec fn shortened(s: Seq<char>, max: nat) -> Seq<char> {
    if s.len() <= max {
        trim(s)
    } else {
        trim(s.take(max as int).push('\u{2026}'))
    }
}

/// At most `max` characters of `s`, marked with `…` when cut, trimmed.
pub fn truncate(s: &str, max: usize) -> (r: String)
    ensures
        r@ == shortened(s@, max as nat),
{
    let chars = chars_of(s);
    if chars.len() <= max {
        let t = trim_chars(chars.as_slice());
        string_from_chars(t.as_slice())
    } else {
        let mut head = copy_range(chars.as_slice(), 0, max);
        head.push('\u{2026}');
        assert(head@ =~= s@.take(max as int).push('\u{2026}'));
        let t = trim_chars(head.as_slice());
        string_from_chars(t.as_slice())
    }
}

/// The report of a shell command: its exit code (`-1` when it has none),
/// then its output and its error output when not empty, shortened to 800
/// and 500 characters.
pub open spec fn shell_report_text(code: Option<i32>, stdout: Seq<char>, stderr: Seq<char>) -> Seq<char> {
    let c: int = match code {
        Some(v) => v as int,
        None => -1,
    };
    let out = shortened(stdout, 800);
    let err = shortened(stderr, 500);
    let head = "exit="@ + signed_decimal(c);
    let with_out = if out.len() > 0 {
        head + "\nstdout: "@ + out
    } else {
        head
    };
    if err.len() > 0 {
        with_out + "\nstderr: "@ + err
    } else {
        with_out
    }
}

/// The outcome of a shell command: its report, as success when the command
/// succeeded and as failure otherwise.
pub fn shell_outcome(success: bool, code: Option<i32>, stdout: &str, stderr: &str) -> (r: Result<String, String>)
    ensures
        success ==> (r matches Ok(m) && m@ == shell_report_text(code, stdout@, stderr@)),
        !success ==> (r matches Err(m) && m@ == shell_report_text(code, stdout@, stderr@)),
{
    let out = truncate(stdout, 800);
    let err = truncate(stderr, 500);
    let c: i64 = match code {
        Some(v) => v as i64,
        None => -1,
    };
    let mut msg = String::new();
    push_text(&mut msg, "exit=");
    push_signed_decimal(&mut msg, c);
    let ghost head = msg@;
    if !out.as_str().is_empty() {
        push_text(&mut msg, "\nstdout: ");
        push_text(&mut msg, out.as_str());
    }
    if !err.as_str().is_empty() {
        push_text(&mut msg, "\nstderr: ");
        push_text(&mut msg, err.as_str());
    }
    if success {
        Ok(msg)
    } else {
        Err(msg)
    }
}

/// The families of remote actions.
#[derive(Clone, Copy, Debug, PartialEq, Eq, Structural)]
pub enum AiActionKind {
    Pointer,
    TypeText,
    Key,
    Shell,
    Wait,
    Screenshot,
    Scroll,
    Drag,
}

/// The family an action type names.
pub open spec fn action_kind_of(t: Seq<char>) -> Option<AiActionKind> {
    if t == "click"@ || t == "double_click"@ || t == "move"@ {
        Some(AiActionKind::Pointer)
    } else if t == "type_text"@ {
        Some(AiActionKind::TypeText)
    } else if t == "key"@ {
        Some(AiActionKind::Key)
    } else if t == "shell"@ {
        Some(AiActionKind::Shell)
    } else if t == "wait"@ {
        Some(AiActionKind::Wait)
    } else if t == "screenshot"@ {
        Some(AiActionKind::Screenshot)
    } else if t == "scroll"@ {
        Some(AiActionKind::Scroll)
    } else if t == "drag"@ {
        Some(AiActionKind::Drag)
    } else {
        None
    }
}

/// The family of an action type (`click`, `shell`, ...); `None` for a type
/// the agent does not support.
pub fn action_kind(t: &str) -> (r: Option<AiActionKind>)
    ensures
        r == action_kind_of(t@),
{
    let chars = chars_of(t);
    let l = chars.as_slice();
    if eq_lit(l, "click") || eq_lit(l, "double_click") || eq_lit(l, "move") {
        Some(AiActionKind::Pointer)
    } else if eq_lit(l, "type_text") {
        Some(AiActionKind::TypeText)
    } else if eq_lit(l, "key") {
        Some(AiActionKind::Key)
    } else if eq_lit(l, "shell") {
        Some(AiActionKind::Shell)
    } else if eq_lit(l, "wait") {
        Some(AiActionKind::Wait)
    } else if eq_lit(l, "screenshot") {
        Some(AiActionKind::Screenshot)
    } else if eq_lit(l, "scroll") {
        Some(AiActionKind::Scroll)
    } else if eq_lit(l, "drag") {
        Some(AiActionKind::Drag)
    } else {
        None
    }
}

/// A mouse button.
#[derive(Clone, Copy, Debug, PartialEq, Eq, Structural)]
pub enum AiButton {
    Left,
    Right,
    Middle,
}

/// The button an action names: `right`, `middle`, and the left button for
/// anything else or nothing.
pub fn pointer_button(name: Option<&str>) -> (r: AiButton)
    ensures
        r == match name {
            Some(n) => if n@ == "right"@ {
                AiButton::Right
            } else if n@ == "middle"@ {
                AiButton::Middle
            } else {
                AiButton::Left
            },
            None => AiButton::Left,
        },
{
    match name {
        Some(n) => {
            let chars = chars_of(n);
            if eq_lit(chars.as_slice(), "right") {
                AiButton::Right
            } else if eq_lit(chars.as_slice(), "middle") {
                AiButton::Middle
            } else {
                AiButton::Left
            }
        },
        None => AiButton::Left,
    }
}

/// The scroll amounts of an action (a missing one counts 0), or `None`
/// when both are 0 and there is nothing to scroll.
pub fn scroll_amounts(dy: Option<i32>, dx: Option<i32>) -> (r: Option<(i32, i32)>)
    ensures
        ({
            let y: i32 = match dy {
                Some(v) => v,
                None => 0,
            };
            let x: i32 = match dx {
                Some(v) => v,
                None => 0,
            };
            if y == 0 && x == 0 {
                r is None
            } else {
                r == Some((y, x))
            }
        }),
{
    let y: i32 = match dy {
        Some(v) => v,
        None => 0,
    };
    let x: i32 = match dx {
        Some(v) => v,
        None => 0,
    };
    if y == 0 && x == 0 {
        None
    } else {
        Some((y, x))
    }
}

/// The report of a scroll: `scrolled dy=<dy> dx=<dx>`.
pub fn scroll_message(dy: i32, dx: i32) -> (r: String)
    ensures
        r@ == "scrolled dy="@ + signed_decimal(dy as int) + " dx="@ + signed_decimal(dx as int),
{
    let mut s = String::new();
    push_text(&mut s, "scrolled dy=");
    push_signed_decimal(&mut s, dy as i64);
    push_text(&mut s, " dx=");
    push_signed_decimal(&mut s, dx as i64);
    s
}

/// The report of a drag: `dragged (<sx>,<sy>) → (<ex>,<ey>)`.
pub fn drag_message(sx: i32, sy: i32, ex: i32, ey: i32) -> (r: String)
    ensures
        r@ == "dragged ("@ + signed_decimal(sx as int) + ","@ + signed_decimal(sy as int)
            + ") \u{2192} ("@ + signed_decimal(ex as int) + ","@ + signed_decimal(ey as int) + ")"@,
{
    let mut s = String::new();
    push_text(&mut s, "dragged (");
    push_signed_decimal(&mut s, sx as i64);
    push_text(&mut s, ",");
    push_signed_decimal(&mut s, sy as i64);
    push_text(&mut s, ") \u{2192} (");
    push_signed_decimal(&mut s, ex as i64);
    push_text(&mut s, ",");
    push_signed_decimal(&mut s, ey as i64);
    push_text(&mut s, ")");
    s
}

/// The fields of a successful result: a screenshot action's output goes in
/// the screenshot field under the message `screenshot captured`; any other
/// action's output is the message (empty when there is none).
pub fn success_fields(action: Option<&str>, output: Option<String>) -> (r: (Option<String>, String))
    ensures
        ({
            let shot = match action {
                Some(a) => a@ == "screenshot"@,
                None => false,
            };
            if shot {
                opt_text(r.0) == opt_text(output) && r.1@ == "screenshot captured"@
            } else {
                r.0 is None && r.1@ == match output {
                    Some(o) => o@,
                    None => Seq::<char>::empty(),
                }
            }
        }),
{
    let shot = match action {
        Some(a) => eq_lit(chars_of(a).as_slice(), "screenshot"),
        None => false,
    };
    if shot {
        (output, "screenshot captured".to_owned())
    } else {
        match output {
            Some(o) => (None, o),
            None => (None, String::new()),
        }
    }
}

/// The text of an optional string.
pub open spec fn opt_text(o: Option<String>) -> Option<Seq<char>> {
    match o {
        Some(s) => Some(s@),
        None => None,
    }
}

/// What an incoming assistant message carries.
#[derive(Clone, Copy, Debug, PartialEq, Eq, Structural)]
pub enum AiMessageKind {
    SingleAction,
    Plan,
    Unknown,
}

/// `AI_ACTION` carries one action, `AI_PLAN` a list; any other type is unknown.
pub fn ai_message_kind(t: &str) -> (r: AiMessageKind)
    ensures
        r == if t@ == "AI_ACTION"@ {
            AiMessageKind::SingleAction
        } else if t@ == "AI_PLAN"@ {
            AiMessageKind::Plan
        } else {
            AiMessageKind::Unknown
        },
{
    let chars = chars_of(t);
    if eq_lit(chars.as_slice(), "AI_ACTION") {
        AiMessageKind::SingleAction
    } else if eq_lit(chars.as_slice(), "AI_PLAN") {
        AiMessageKind::Plan
    } else {
        AiMessageKind::Unknown
    }
}

/// What an assistant message leads to: read its `action` member as one
/// action, read its `actions` member as a list, or report an error.
#[derive(Debug)]
pub enum AiEnvelope {
    SingleAction,
    Plan,
    Rejected { message: String },
}

/// The `type` of an assistant message; empty when it has no string `type`.
pub open spec fn ai_message_type(msg: JsonValue) -> Seq<char> {
    match json_text(json_get(msg, "type"@)) {
        Some(t) => t,
        None => ""@,
    }
}

/// How an assistant message is read: an `AI_ACTION` needs an `action`
/// member, an `AI_PLAN` an `actions` member; any other type is refused
/// with its name.
pub fn ai_envelope(msg: &JsonValue) -> (r: AiEnvelope)
    ensures
        ({
            let t = ai_message_type(*msg);
            if t == "AI_ACTION"@ {
                if json_get(*msg, "action"@) is Some {
                    r is SingleAction
                } else {
                    (r matches AiEnvelope::Rejected { message } && message@ == "AI_ACTION missing 'action' field"@)
                }
            } else if t == "AI_PLAN"@ {
                if json_get(*msg, "actions"@) is Some {
                    r is Plan
                } else {
                    (r matches AiEnvelope::Rejected { message } && message@ == "AI_PLAN missing 'actions' field"@)
                }
            } else {
                (r matches AiEnvelope::Rejected { message } && message@ == "Unknown AI message type: "@ + t)
            }
        }),
{
    let type_chars: Vec<char> = match member_of(msg, "type") {
        Some(JsonValue::Str(s)) => chars_of(s.as_str()),
        _ => Vec::new(),
    };
    proof {
        reveal_strlit("");
        assert(type_chars@ == ai_message_type(*msg));
    }
    if eq_lit(type_chars.as_slice(), "AI_ACTION") {
        match member_of(msg, "action") {
            Some(_) => AiEnvelope::SingleAction,
            None => AiEnvelope::Rejected { message: "AI_ACTION missing 'action' field".to_owned() },
        }
    } else if eq_lit(type_chars.as_slice(), "AI_PLAN") {
        match member_of(msg, "actions") {
            Some(_) => AiEnvelope::Plan,
            None => AiEnvelope::Rejected { message: "AI_PLAN missing 'actions' field".to_owned() },
        }
    } else {
        let mut message = String::new();
        push_text(&mut message, "Unknown AI message type: ");
        let tail = string_from_chars(type_chars.as_slice());
        push_text(&mut message, tail.as_str());
        AiEnvelope::Rejected { message }
    }
}

/// The error for a message that carries no action, `None` otherwise.
pub fn empty_actions_error(count: usize) -> (r: Option<String>)
    ensures
        count == 0 ==> (r matches Some(m) && m@ == "Empty action list"@),
        count > 0 ==> r is None,
{
    if count == 0 {
        Some("Empty action list".to_owned())
    } else {
        None
    }
}

/// A shortened text holds at most `max` characters and the `…` mark.
pub proof fn law_shortened_is_bounded(s: Seq<char>, max: nat)
    ensures
        shortened(s, max).len() <= max + 1,
{
    if s.len() <= max {
        crate::text::lemma_trim_len(s);
    } else {
        crate::text::lemma_trim_len(s.take(max as int).push('\u{2026}'));
    }
}

/// Every wait lasts between 50 ms and 10 s.
pub proof fn law_wait_is_bounded(ms: Option<u64>)
    ensures
        ({
            let m = match ms {
                Some(v) => v,
                None => 500,
            };
            let w = if m < 50 {
                50
            } else if m > 10_000 {
                10_000
            } else {
                m
            };
            50 <= w <= 10_000
        }),
{
}

} // verus!
