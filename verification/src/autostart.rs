//! Starting the agent with the user's session. Registration lives in the
//! Windows registry (`HKCU\...\Run`); builds for other systems have none, so
//! there autostart is never registered and cannot be enabled.
use vstd::prelude::*;

verus! {

broadcast use vstd::string::group_string_axioms;

/// Name of the registry value that registers the agent.
pub const AUTOSTART_VALUE_NAME: &'static str = "LumiereAgent";

/// Argument of the registered command line: start hidden in the tray.
pub const AUTOSTART_FLAG: &'static str = "--minimized";

/// Message of the refusal to enable autostart without a registry.
pub open spec fn unsupported_message() -> Seq<char> {
    "Autostart is only supported on Windows"@
}

/// The command line to register: the executable's path in double quotes,
/// a space, and `--minimized`.
pub fn autostart_command_line(exe: &str) -> (r: String)
    ensures
        r@ == seq!['"'] + exe@ + seq!['"', ' '] + "--minimized"@,
{
    let mut v: Vec<char> = Vec::new();
    v.push('"');
    let e = crate::text::chars_of(exe);
    let mut i: usize = 0;
    while i < e.len()
        invariant
            i <= e@.len(),
            v@ == seq!['"'] + e@.take(i as int),
        decreases e@.len() - i,
    {
        v.push(e[i]);
        assert(v@ =~= seq!['"'] + e@.take(i + 1));
        i += 1;
    }
    assert(e@.take(e@.len() as int) =~= e@);
    v.push('"');
    v.push(' ');
    let flag = crate::text::chars_of(AUTOSTART_FLAG);
    let ghost head = v@;
    let mut j: usize = 0;
    while j < flag.len()
        invariant
            j <= flag@.len(),
            flag@ == "--minimized"@,
            v@ == head + flag@.take(j as int),
        decreases flag@.len() - j,
    {
        v.push(flag[j]);
        assert(v@ =~= head + flag@.take(j + 1));
        j += 1;
    }
    assert(flag@.take(flag@.len() as int) =~= flag@);
    assert(head =~= seq!['"'] + exe@ + seq!['"', ' ']);
    crate::text::string_from_chars(v.as_slice())
}

/// Whether autostart is registered: never, without a registry.
pub fn is_autostart_enabled() -> (r: bool)
    ensures
        !r,
{
    false
}

/// Enabling autostart is refused without a registry.
pub fn enable_autostart() -> (r: Result<(), String>)
    ensures
        r matches Err(m) && m@ == unsupported_message(),
{
    Err("Autostart is only supported on Windows".to_owned())
}

/// Disabling autostart succeeds: nothing is registered.
pub fn disable_autostart() -> (r: Result<(), String>)
    ensures
        r is Ok,
{
    Ok(())
}

/// Flips autostart and returns the new state (`true` when now enabled):
/// disables it when registered, else enables it; an error of either step
/// is returned.
pub fn toggle_autostart() -> (r: Result<bool, String>)
    ensures
        r matches Err(m) && m@ == unsupported_message(),
{
    if is_autostart_enabled() {
        match disable_autostart() {
            Ok(()) => Ok(false),
            Err(e) => Err(e),
        }
    } else {
        match enable_autostart() {
            Ok(()) => Ok(true),
            Err(e) => Err(e),
        }
    }
}

} // verus!
