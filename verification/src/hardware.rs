//! A stable hardware identifier for the machine: the BIOS serial number as
//! reported by the system tools, or the host name when none is usable.
use vstd::prelude::*;
use crate::ice::opt_view;
use crate::scan::{split_lines, text_lines, views};
use crate::text::{chars_of, eq_ignore_case, eq_ignore_case_lit, string_from_chars, trim, trim_chars};

verus! {

broadcast use vstd::string::group_string_axioms;

/// Placeholders that firmware reports when it holds no real serial number
/// (compared ignoring ASCII case), and the empty string.
pub open spec fn is_placeholder_serial(s: Seq<char>) -> bool {
    ||| eq_ignore_case(s, ""@)
    ||| eq_ignore_case(s, "to be filled by o.e.m."@)
    ||| eq_ignore_case(s, "to be filled by oem"@)
    ||| eq_ignore_case(s, "default string"@)
    ||| eq_ignore_case(s, "system serial number"@)
    ||| eq_ignore_case(s, "none"@)
    ||| eq_ignore_case(s, "0"@)
}

/// A reported serial, trimmed, unless it is a placeholder.
pub open spec fn sanitized(raw: Seq<char>) -> Option<Seq<char>> {
    if is_placeholder_serial(trim(raw)) {
        None
    } else {
        Some(trim(raw))
    }
}

/// The value in a tool's `Header / value` listing: the first non-blank line
/// after the (trimmed, case-insensitive) header line whose trimmed text is
/// not a placeholder; `seen` tells whether the header was already passed.
pub open spec fn keyed_value(lines: Seq<Seq<char>>, header: Seq<char>, seen: bool) -> Option<Seq<char>>
    decreases lines.len(),
{
    if lines.len() == 0 {
        None
    } else {
        let t = trim(lines[0]);
        if t.len() == 0 {
            keyed_value(lines.drop_first(), header, seen)
        } else if !seen {
            keyed_value(lines.drop_first(), header, eq_ignore_case(t, header))
        } else {
            match sanitized(t) {
                Some(v) => Some(v),
                None => keyed_value(lines.drop_first(), header, true),
            }
        }
    }
}

/// Whether a trimmed serial is a placeholder.
fn placeholder(s: &[char]) -> (r: bool)
    ensures
        r == is_placeholder_serial(s@),
{
    eq_ignore_case_lit(s, "") || eq_ignore_case_lit(s, "to be filled by o.e.m.") || eq_ignore_case_lit(
        s,
        "to be filled by oem",
    ) || eq_ignore_case_lit(s, "default string") || eq_ignore_case_lit(s, "system serial number")
        || eq_ignore_case_lit(s, "none") || eq_ignore_case_lit(s, "0")
}

/// A reported serial, trimmed, or `None` for a placeholder.
pub fn sanitize(raw: String) -> (r: Option<String>)
    ensures
        opt_view(r) == sanitized(raw@),
{
    let chars = chars_of(raw.as_str());
    let cleaned = trim_chars(chars.as_slice());
    if placeholder(cleaned.as_slice()) {
        None
    } else {
        Some(string_from_chars(cleaned.as_slice()))
    }
}

/// The value under `header` in a tool's output (see `keyed_value`).
pub fn parse_keyed_output(stdout: &str, header: &str) -> (r: Option<String>)
    ensures
        opt_view(r) == keyed_value(text_lines(stdout@), header@, false),
{
    let chars = chars_of(stdout);
    let header_chars = chars_of(header);
    let lines = split_lines(chars.as_slice());
    let ghost all = views(lines@);
    assert(all.skip(0) =~= all);
    let mut header_seen = false;
    let mut i: usize = 0;
    while i < lines.len()
        invariant
            i <= lines@.len(),
            all == views(lines@),
            all == text_lines(stdout@),
            header_chars@ == header@,
            keyed_value(all.skip(i as int), header@, header_seen) == keyed_value(all, header@, false),
        decreases lines@.len() - i,
    {
        proof {
            assert(all.skip(i as int)[0] == lines@[i as int]@);
            assert(all.skip(i as int).drop_first() =~= all.skip(i + 1));
        }
        let trimmed = trim_chars(lines[i].as_slice());
        if trimmed.len() == 0 {
        } else if !header_seen {
            header_seen = crate::text::eq_ignore_case_chars(trimmed.as_slice(), header_chars.as_slice());
        } else {
            let candidate = string_from_chars(trimmed.as_slice());
            proof {
                assert(trim(trimmed@) == trimmed@) by {
                    crate::text::lemma_trim_idempotent(lines@[i as int]@);
                }
            }
            match sanitize(candidate) {
                Some(v) => {
                    return Some(v);
                },
                None => {},
            }
        }
        i += 1;
    }
    None
}

/// The serial from the system tools' outputs: the `SerialNumber` entry of
/// the `wmic` listing, else the trimmed PowerShell output, each unless it is
/// a placeholder; else `host` (the host name), else `"unknown"`.
pub fn choose_hardware_serial(
    wmic_stdout: Option<&str>,
    powershell_stdout: Option<&str>,
    host: Option<String>,
) -> (r: String)
    ensures
        r@ == match (
            match wmic_stdout {
                Some(out) => keyed_value(text_lines(out@), "SerialNumber"@, false),
                None => None,
            },
            match powershell_stdout {
                Some(out) => sanitized(out@),
                None => None,
            },
        ) {
            (Some(w), _) => w,
            (None, Some(p)) => p,
            (None, None) => match host {
                Some(h) => h@,
                None => "unknown"@,
            },
        },
{
    if let Some(out) = wmic_stdout {
        if let Some(serial) = parse_keyed_output(out, "SerialNumber") {
            return serial;
        }
    }
    if let Some(out) = powershell_stdout {
        if let Some(serial) = sanitize(out.to_owned()) {
            return serial;
        }
    }
    match host {
        Some(h) => h,
        None => "unknown".to_owned(),
    }
}

/// The machine's host name (`hostname::get`), lossily converted to UTF-8;
/// `None` when the system call fails. Nothing is stated of the name itself:
/// it is whatever the operating system reports.
#[verifier::external_body]
fn system_hostname() -> Option<String> {
    hostname::get().ok().map(|h| h.to_string_lossy().to_string())
}

/// The host name when one was read, else `"unknown"`.
pub fn host_or_unknown(host: Option<String>) -> (r: String)
    ensures
        r@ == match host {
            Some(h) => h@,
            None => "unknown"@,
        },
{
    match host {
        Some(h) => h,
        None => "unknown".to_owned(),
    }
}

/// The host name, or `"unknown"` when it cannot be read (see
/// `host_or_unknown`; the name itself is whatever the system reports).
pub fn hostname_fallback() -> (r: String) {
    host_or_unknown(system_hostname())
}

/// The serial from the system tools' outputs, falling back to the host name
/// of this machine (see `choose_hardware_serial`).
pub fn hardware_serial_from_probes(wmic_stdout: Option<&str>, powershell_stdout: Option<&str>) -> (r: String)
    ensures
        match wmic_stdout {
            Some(out) => keyed_value(text_lines(out@), "SerialNumber"@, false),
            None => None,
        } matches Some(w) ==> r@ == w,
        match wmic_stdout {
            Some(out) => keyed_value(text_lines(out@), "SerialNumber"@, false),
            None => None,
        } is None ==> (match powershell_stdout {
            Some(out) => sanitized(out@),
            None => None,
        } matches Some(p) ==> r@ == p),
{
    let host = system_hostname();
    choose_hardware_serial(wmic_stdout, powershell_stdout, host)
}

} // verus!
