//! Peer-connection texts: which ICE candidate addresses may be announced,
//! the candidate type and transport address of an SDP `candidate:` line,
//! the viewer's offer and candidate payloads, the signaling close codes
//! worth a retry, and the agent's stream identifiers and ICE timing.
use vstd::prelude::*;

use crate::json::{json_get, json_text, json_u64, member_of, JsonValue};
use crate::scan::{parse_u16, parse_unsigned, split_ws, views, ws_words};
use crate::text::{
    ascii_lower, ascii_lowercase, chars_of, copy_range, eq_lit, find_chars, has_infix, has_prefix,
    occurs_at, starts_with_chars, starts_with_lit, string_from_chars, trim, trim_chars,
};

verus! {

/// Close codes of the signaling socket after which a reconnect is attempted.
pub open spec fn spec_is_retryable_close_code(code: u16) -> bool {
    code == 1000 || code == 1006 || code == 1011 || code == 1012 || code == 1013
}

/// Whether a signaling socket closed with `code` should be reconnected:
/// a normal close (1000) or a transient server-side one (1006, 1011-1013).
pub fn is_retryable_signaling_close_code(code: u16) -> (r: bool)
    ensures
        r == spec_is_retryable_close_code(code),
{
    code == 1000 || code == 1006 || code == 1011 || code == 1012 || code == 1013
}

/// Address prefixes of VPN, virtual-machine, APIPA and IPv6 link-local
/// interfaces, never announced as ICE candidates.
pub open spec fn blocked_prefixes() -> Seq<Seq<char>> {
    seq![
        "10.5."@,
        "10.6."@,
        "192.168.56."@,
        "192.168.30."@,
        "192.168.9."@,
        "169.254."@,
        "fe80:"@,
        "fe80::"@,
    ]
}

fn blocked_prefix(i: usize) -> (p: &'static str)
    requires
        i < 8,
    ensures
        p@ == blocked_prefixes()[i as int],
{
    match i {
        0 => "10.5.",
        1 => "10.6.",
        2 => "192.168.56.",
        3 => "192.168.30.",
        4 => "192.168.9.",
        5 => "169.254.",
        6 => "fe80:",
        _ => "fe80::",
    }
}

/// The part of a candidate line after an optional `candidate:` prefix.
pub open spec fn candidate_body(line: Seq<char>) -> Seq<char> {
    if has_prefix(line, "candidate:"@) {
        line.subrange("candidate:"@.len() as int, line.len() as int)
    } else {
        line
    }
}

/// The connection address of a candidate line: its fifth whitespace-separated
/// field (`foundation component protocol priority address ...`).
pub open spec fn spec_candidate_ip(line: Seq<char>) -> Option<Seq<char>> {
    let words = ws_words(candidate_body(line));
    if words.len() >= 5 {
        Some(words[4])
    } else {
        None
    }
}

/// Whether an address starts with one of the blocked prefixes, ignoring ASCII case.
pub open spec fn is_blocked_address(ip: Seq<char>) -> bool {
    exists|k: int|
        0 <= k < blocked_prefixes().len() && has_prefix(
            ascii_lower(ip),
            ascii_lower(#[trigger] blocked_prefixes()[k]),
        )
}

/// A candidate may be announced unless its address is a blocked one; a line
/// without an address field (an mDNS name is still a field) is let through.
pub open spec fn spec_is_valid_ice_candidate(line: Seq<char>) -> bool {
    match spec_candidate_ip(line) {
        None => true,
        Some(ip) => !is_blocked_address(ip),
    }
}

fn extract_ip_from_candidate(line: &[char]) -> (r: Option<Vec<char>>)
    ensures
        match r {
            Some(ip) => spec_candidate_ip(line@) == Some(ip@),
            None => spec_candidate_ip(line@) is None,
        },
{
    let prefix = chars_of("candidate:");
    let body = if starts_with_chars(line, prefix.as_slice()) {
        copy_range(line, prefix.len(), line.len())
    } else {
        copy_range(line, 0, line.len())
    };
    assert(line@.subrange(0, line@.len() as int) =~= line@);
    let words = split_ws(body.as_slice());
    if words.len() >= 5 {
        let ip = copy_range(words[4].as_slice(), 0, words[4].len());
        assert(views(words@)[4] == words@[4]@);
        assert(words@[4]@.subrange(0, words@[4]@.len() as int) =~= words@[4]@);
        Some(ip)
    } else {
        None
    }
}

/// `false` when the candidate announces a VPN, virtual, APIPA or link-local address.
pub fn is_valid_ice_candidate(candidate_line: &str) -> (r: bool)
    ensures
        r == spec_is_valid_ice_candidate(candidate_line@),
{
    let line = chars_of(candidate_line);
    let ip = match extract_ip_from_candidate(line.as_slice()) {
        Some(ip) => ip,
        None => return true,
    };
    let ip_lower = ascii_lowercase(ip.as_slice());
    let mut k: usize = 0;
    while k < 8
        invariant
            k <= 8,
            spec_candidate_ip(candidate_line@) == Some(ip@),
            ip_lower@ == ascii_lower(ip@),
            forall|j: int|
                0 <= j < k ==> !has_prefix(
                    ascii_lower(ip@),
                    ascii_lower(#[trigger] blocked_prefixes()[j]),
                ),
        decreases 8 - k,
    {
        let p = chars_of(blocked_prefix(k));
        let pl = ascii_lowercase(p.as_slice());
        if starts_with_chars(ip_lower.as_slice(), pl.as_slice()) {
            return false;
        }
        k += 1;
    }
    assert(!is_blocked_address(ip@));
    true
}

/// The literal a candidate-type word is reported as.
pub open spec fn type_label(word: Seq<char>) -> Seq<char> {
    if word == "host"@ {
        "host"@
    } else if word == "srflx"@ {
        "srflx"@
    } else if word == "relay"@ {
        "relay"@
    } else if word == "prflx"@ {
        "prflx"@
    } else {
        "unknown"@
    }
}

/// The first position at which `p` occurs in `a` (meaningful when it occurs).
pub open spec fn first_occurrence(a: Seq<char>, p: Seq<char>) -> int {
    choose|i: int| occurs_at(a, p, i) && forall|j: int| 0 <= j < i ==> !occurs_at(a, p, j)
}

proof fn lemma_first_occurrence(a: Seq<char>, p: Seq<char>, i: int)
    requires
        occurs_at(a, p, i),
        forall|j: int| 0 <= j < i ==> !occurs_at(a, p, j),
    ensures
        first_occurrence(a, p) == i,
{
    let f = first_occurrence(a, p);
    assert(occurs_at(a, p, f) && forall|j: int| 0 <= j < f ==> !occurs_at(a, p, j));
    if f < i {
        assert(!occurs_at(a, p, f));
    }
    if i < f {
        assert(!occurs_at(a, p, i));
    }
}

/// The candidate type after the first `" typ "`: the word up to the next space,
/// trimmed, when it is one of the four ICE types; `"unknown"` otherwise.
pub open spec fn spec_candidate_type(c: Seq<char>) -> Seq<char> {
    if !has_infix(c, " typ "@) {
        "unknown"@
    } else {
        let rest = c.subrange(first_occurrence(c, " typ "@) + " typ "@.len(), c.len() as int);
        let end = if has_infix(rest, " "@) {
            first_occurrence(rest, " "@)
        } else {
            rest.len() as int
        };
        type_label(trim(rest.subrange(0, end)))
    }
}

/// The ICE candidate type (`host`, `srflx`, `relay`, `prflx`) of a candidate
/// line, or `unknown`.
pub fn parse_candidate_type(candidate: &str) -> (r: &'static str)
    ensures
        r@ == spec_candidate_type(candidate@),
{
    let c = chars_of(candidate);
    let needle = chars_of(" typ ");
    let idx = match find_chars(c.as_slice(), needle.as_slice()) {
        Some(i) => i,
        None => return "unknown",
    };
    assert(occurs_at(c@, needle@, idx as int));
    proof {
        lemma_first_occurrence(c@, needle@, idx as int);
    }
    let clen = c.len();
    let nlen = needle.len();
    let rest = copy_range(c.as_slice(), idx + nlen, clen);
    let space = chars_of(" ");
    let end = match find_chars(rest.as_slice(), space.as_slice()) {
        Some(e) => {
            proof {
                lemma_first_occurrence(rest@, space@, e as int);
            }
            e
        },
        None => rest.len(),
    };
    let word = copy_range(rest.as_slice(), 0, end);
    let w = trim_chars(word.as_slice());
    if eq_lit(w.as_slice(), "host") {
        "host"
    } else if eq_lit(w.as_slice(), "srflx") {
        "srflx"
    } else if eq_lit(w.as_slice(), "relay") {
        "relay"
    } else if eq_lit(w.as_slice(), "prflx") {
        "prflx"
    } else {
        "unknown"
    }
}

/// The transport address of a candidate: its fifth and sixth whitespace-separated
/// fields, the sixth read as a port number.
pub open spec fn spec_candidate_address(c: Seq<char>) -> Option<(Seq<char>, u16)> {
    let words = ws_words(c);
    if words.len() >= 6 {
        match parse_unsigned(words[5], u16::MAX as nat) {
            Some(port) => Some((words[4], port as u16)),
            None => None,
        }
    } else {
        None
    }
}

/// The `(address, port)` announced by a candidate line, if it has both fields
/// and the port is a valid number.
pub fn parse_candidate_address(candidate: &str) -> (r: Option<(String, u16)>)
    ensures
        match r {
            Some((ip, port)) => spec_candidate_address(candidate@) == Some((ip@, port)),
            None => spec_candidate_address(candidate@) is None,
        },
{
    let c = chars_of(candidate);
    let words = split_ws(c.as_slice());
    if words.len() < 6 {
        return None;
    }
    assert(views(words@)[4] == words@[4]@);
    assert(views(words@)[5] == words@[5]@);
    let port = match parse_u16(words[5].as_slice()) {
        Some(p) => p,
        None => return None,
    };
    let ip = string_from_chars(words[4].as_slice());
    Some((ip, port))
}

/// How long the agent gathers ICE candidates before answering, in seconds,
/// from its setting: a number, trimmed, held within 1 to 15; 3 when the
/// setting is absent or not a number.
pub fn ice_gather_timeout_secs_from(raw: Option<&str>) -> (r: u64)
    ensures
        r == crate::session::clamped_setting(
            match raw {
                Some(s) => Some(s@),
                None => None,
            },
            1,
            15,
            3,
        ),
{
    crate::session::clamped_setting_of(raw, 1, 15, 3)
}

/// The SSRC of the agent's video stream, mixed from the process id and the
/// clock: the low 32 bits of `nanos ^ pid.rotate_left(13)`, made odd.
pub open spec fn stream_ssrc(pid: u64, nanos: u64) -> u32 {
    ((nanos ^ ((pid << 13u64) | (pid >> 51u64))) as u32) | 1u32
}

/// The SSRC for a process id and a clock reading in nanoseconds; never 0.
pub fn stream_ssrc_from(pid: u64, nanos: u64) -> (r: u32)
    ensures
        r == stream_ssrc(pid, nanos),
        r % 2 == 1,
{
    let rotated: u64 = (pid << 13u64) | (pid >> 51u64);
    let mixed: u64 = nanos ^ rotated;
    let r: u32 = (mixed as u32) | 1u32;
    assert(r % 2 == 1) by (bit_vector)
        requires
            r == (mixed as u32) | 1u32,
    ;
    r
}

/// A remote ICE candidate as the viewer sends it.
#[derive(Debug)]
pub struct IceCandidateInit {
    pub candidate: String,
    pub sdp_mid: Option<String>,
    pub sdp_mline_index: Option<u16>,
}

/// The text of an optional string.
pub open spec fn opt_text(o: Option<String>) -> Option<Seq<char>> {
    match o {
        Some(s) => Some(s@),
        None => None,
    }
}

/// Reads a viewer's ICE payload: its `candidate` line (required), its
/// `sdpMid`, and its `sdpMLineIndex` cut to 16 bits.
pub fn ice_candidate_from_payload(payload: &JsonValue) -> (r: Option<IceCandidateInit>)
    ensures
        match r {
            Some(c) => json_text(json_get(*payload, "candidate"@)) == Some(c.candidate@) && opt_text(c.sdp_mid)
                == json_text(json_get(*payload, "sdpMid"@)) && c.sdp_mline_index == match json_u64(
                json_get(*payload, "sdpMLineIndex"@),
            ) {
                Some(i) => Some(i as u16),
                None => None,
            },
            None => json_text(json_get(*payload, "candidate"@)) is None,
        },
{
    let candidate = match member_of(payload, "candidate") {
        Some(JsonValue::Str(c)) => c.clone(),
        _ => {
            return None;
        },
    };
    let sdp_mid = match member_of(payload, "sdpMid") {
        Some(JsonValue::Str(m)) => Some(m.clone()),
        _ => None,
    };
    let sdp_mline_index = match member_of(payload, "sdpMLineIndex") {
        Some(JsonValue::Number(Some(i))) => Some(*i as u16),
        _ => None,
    };
    Some(IceCandidateInit { candidate, sdp_mid, sdp_mline_index })
}

/// A candidate refused because the offer has not been applied yet: the
/// error message mentions the remote description (in any case). Such a
/// candidate is kept until the offer arrives.
pub fn candidate_arrived_early(error_message: &str) -> (r: bool)
    ensures
        r == has_infix(ascii_lower(error_message@), "remote description"@),
{
    let chars = chars_of(error_message);
    let lower = ascii_lowercase(chars.as_slice());
    crate::text::contains_lit(lower.as_slice(), "remote description")
}

/// Why an offer payload was refused.
#[derive(Debug, PartialEq, Eq)]
pub enum OfferError {
    /// The `type` (lowercased; empty when absent) is not `offer`.
    UnexpectedType(String),
    /// The offer has no `sdp` text.
    MissingSdp,
}

/// The SDP of a viewer's offer payload: its `type`, lowercased, must be
/// `offer` and its `sdp` must be a string.
pub fn offer_sdp_from_payload(payload: &JsonValue) -> (r: Result<String, OfferError>)
    ensures
        ({
            let t = ascii_lower(
                match json_text(json_get(*payload, "type"@)) {
                    Some(x) => x,
                    None => Seq::<char>::empty(),
                },
            );
            if t != "offer"@ {
                r matches Err(OfferError::UnexpectedType(u)) && u@ == t
            } else {
                match json_text(json_get(*payload, "sdp"@)) {
                    Some(sdp) => r matches Ok(x) && x@ == sdp,
                    None => r matches Err(OfferError::MissingSdp),
                }
            }
        }),
{
    let t: Vec<char> = match member_of(payload, "type") {
        Some(JsonValue::Str(x)) => {
            let c = chars_of(x.as_str());
            ascii_lowercase(c.as_slice())
        },
        _ => {
            let e: Vec<char> = Vec::new();
            assert(ascii_lower(Seq::<char>::empty()) =~= e@);
            e
        },
    };
    if !eq_lit(t.as_slice(), "offer") {
        return Err(OfferError::UnexpectedType(string_from_chars(t.as_slice())));
    }
    match member_of(payload, "sdp") {
        Some(JsonValue::Str(sdp)) => Ok(sdp.clone()),
        _ => Err(OfferError::MissingSdp),
    }
}

/// Whether the relay-only setting is on: trimmed, it is exactly `1`,
/// `true` or `yes` (in that case).
pub fn force_relay(v: Option<&str>) -> (r: bool)
    ensures
        r == (v matches Some(s) && (trim(s@) == "1"@ || trim(s@) == "true"@ || trim(s@) == "yes"@)),
{
    match v {
        Some(s) => {
            let c = chars_of(s);
            let t = trim_chars(c.as_slice());
            eq_lit(t.as_slice(), "1") || eq_lit(t.as_slice(), "true") || eq_lit(t.as_slice(), "yes")
        },
        None => false,
    }
}

/// What the agent does with a message on the input data channel.
#[derive(Debug, PartialEq, Eq)]
pub enum DataChannelAction {
    /// `VIDEO_PAUSE`: stop emitting frames.
    PauseVideo,
    /// `VIDEO_RESUME`: emit frames again.
    ResumeVideo,
    /// `AI_ACTION` or `AI_PLAN` with remote input allowed: note viewer
    /// activity and run the assistant's actions.
    RunAssistant,
    /// `AI_ACTION` or `AI_PLAN` in a read-only session: note viewer
    /// activity, run nothing.
    IgnoreAssistant,
    /// `request_screenshot`: capture the screen and answer under this
    /// command id (empty when the message has none).
    Screenshot { command_id: String },
    /// Any other message with remote input allowed: note viewer activity
    /// and inject it as input.
    Input,
    /// Any other message in a read-only session: note viewer activity only.
    IgnoreInput,
}

/// How an input-channel message is handled: by its `type` when it is a
/// JSON object with a string `type` (`msg` is `None` for text that is not
/// JSON), with remote input (AI actions and injected input) allowed only
/// when `allow_remote_input`.
pub fn data_channel_action(msg: Option<&JsonValue>, allow_remote_input: bool) -> (r: DataChannelAction)
    ensures
        ({
            let t = match msg {
                Some(m) => json_text(json_get(*m, "type"@)),
                None => None,
            };
            if t == Some("VIDEO_PAUSE"@) {
                r is PauseVideo
            } else if t == Some("VIDEO_RESUME"@) {
                r is ResumeVideo
            } else if t == Some("AI_ACTION"@) || t == Some("AI_PLAN"@) {
                if allow_remote_input {
                    r is RunAssistant
                } else {
                    r is IgnoreAssistant
                }
            } else if t == Some("request_screenshot"@) {
                r matches DataChannelAction::Screenshot { command_id } && command_id@ == match msg {
                    Some(m) => match json_text(json_get(*m, "commandId"@)) {
                        Some(c) => c,
                        None => Seq::<char>::empty(),
                    },
                    None => Seq::<char>::empty(),
                }
            } else if allow_remote_input {
                r is Input
            } else {
                r is IgnoreInput
            }
        }),
{
    let t: Option<&String> = match msg {
        Some(m) => match member_of(m, "type") {
            Some(JsonValue::Str(s)) => Some(s),
            _ => None,
        },
        None => None,
    };
    if let Some(ty) = t {
        let c = chars_of(ty.as_str());
        let l = c.as_slice();
        if eq_lit(l, "VIDEO_PAUSE") {
            return DataChannelAction::PauseVideo;
        } else if eq_lit(l, "VIDEO_RESUME") {
            return DataChannelAction::ResumeVideo;
        } else if eq_lit(l, "AI_ACTION") || eq_lit(l, "AI_PLAN") {
            return if allow_remote_input {
                DataChannelAction::RunAssistant
            } else {
                DataChannelAction::IgnoreAssistant
            };
        } else if eq_lit(l, "request_screenshot") {
            let command_id = match msg {
                Some(m) => match member_of(m, "commandId") {
                    Some(JsonValue::Str(c)) => c.clone(),
                    _ => String::new(),
                },
                None => String::new(),
            };
            return DataChannelAction::Screenshot { command_id };
        }
    }
    if allow_remote_input {
        DataChannelAction::Input
    } else {
        DataChannelAction::IgnoreInput
    }
}


/// The addresses never announced are exactly those starting, ASCII case
/// ignored, with `10.5.` or `10.6.` (VPN tunnels), `192.168.56.`,
/// `192.168.30.` or `192.168.9.` (virtual-machine host networks), `169.254.`
/// (APIPA) or `fe80:` / `fe80::` (IPv6 link-local); any other address, such
/// as one of an ordinary `10.x` LAN, is announced.
pub proof fn law_blocked_addresses_are_exactly_these(ip: Seq<char>)
    ensures
        is_blocked_address(ip) <==> (
            has_prefix(ascii_lower(ip), "10.5."@) ||
            has_prefix(ascii_lower(ip), "10.6."@) ||
            has_prefix(ascii_lower(ip), "192.168.56."@) ||
            has_prefix(ascii_lower(ip), "192.168.30."@) ||
            has_prefix(ascii_lower(ip), "192.168.9."@) ||
            has_prefix(ascii_lower(ip), "169.254."@) ||
            has_prefix(ascii_lower(ip), "fe80:"@) ||
            has_prefix(ascii_lower(ip), "fe80::"@)
        ),
{
    reveal_strlit("10.5.");
    reveal_strlit("10.6.");
    reveal_strlit("192.168.56.");
    reveal_strlit("192.168.30.");
    reveal_strlit("192.168.9.");
    reveal_strlit("169.254.");
    reveal_strlit("fe80:");
    reveal_strlit("fe80::");
    assert(crate::text::ascii_lower("10.5."@) =~= "10.5."@);
    assert(crate::text::ascii_lower("10.6."@) =~= "10.6."@);
    assert(crate::text::ascii_lower("192.168.56."@) =~= "192.168.56."@);
    assert(crate::text::ascii_lower("192.168.30."@) =~= "192.168.30."@);
    assert(crate::text::ascii_lower("192.168.9."@) =~= "192.168.9."@);
    assert(crate::text::ascii_lower("169.254."@) =~= "169.254."@);
    assert(crate::text::ascii_lower("fe80:"@) =~= "fe80:"@);
    assert(crate::text::ascii_lower("fe80::"@) =~= "fe80::"@);
    let bp = blocked_prefixes();
    if is_blocked_address(ip) {
        let k = choose|k: int| 0 <= k < bp.len() && has_prefix(ascii_lower(ip), ascii_lower(#[trigger] bp[k]));
        assert(0 <= k < 8);
    }
    if has_prefix(ascii_lower(ip), "10.5."@) { assert(has_prefix(ascii_lower(ip), ascii_lower(bp[0]))); }
    if has_prefix(ascii_lower(ip), "10.6."@) { assert(has_prefix(ascii_lower(ip), ascii_lower(bp[1]))); }
    if has_prefix(ascii_lower(ip), "192.168.56."@) { assert(has_prefix(ascii_lower(ip), ascii_lower(bp[2]))); }
    if has_prefix(ascii_lower(ip), "192.168.30."@) { assert(has_prefix(ascii_lower(ip), ascii_lower(bp[3]))); }
    if has_prefix(ascii_lower(ip), "192.168.9."@) { assert(has_prefix(ascii_lower(ip), ascii_lower(bp[4]))); }
    if has_prefix(ascii_lower(ip), "169.254."@) { assert(has_prefix(ascii_lower(ip), ascii_lower(bp[5]))); }
    if has_prefix(ascii_lower(ip), "fe80:"@) { assert(has_prefix(ascii_lower(ip), ascii_lower(bp[6]))); }
    if has_prefix(ascii_lower(ip), "fe80::"@) { assert(has_prefix(ascii_lower(ip), ascii_lower(bp[7]))); }
}

} // verus!
