//! Remote-support session: the agent's status, the tunables read from the
//! environment, and the decisions of the session loop (reconnect back-off,
//! viewer grace period, signaling socket closes, viewer leave).
use vstd::prelude::*;
use crate::adaptive::StreamQualityProfile;
use crate::ice::opt_view;
use crate::json::{json_bool, json_get, json_text, json_u64, member_of, JsonValue};
use crate::network::is_retryable_signaling_close_code;
use crate::scan::{parse_u64, parse_unsigned, split_lines, text_lines, views};
use crate::text::{
    ascii_lower, ascii_lowercase, chars_of, eq_lit, has_prefix, starts_with_lit, string_from_chars,
    trim, trim_chars,
};

verus! {

broadcast use vstd::string::group_string_axioms;

// ---------------------------------------------------------------------------
// Server records
// ---------------------------------------------------------------------------

/// The agent as registered with the server.
#[derive(Debug)]
pub struct Agent {
    pub machine_id: String,
    pub hostname: String,
    pub os: String,
    pub status: String,
}

/// A session that a technician opened for this machine.
#[derive(Debug)]
pub struct PendingSession {
    pub id: i64,
    pub signaling_token: String,
    pub technician_username: String,
    pub allow_remote_input: bool,
    pub allow_file_transfer: bool,
}

// ---------------------------------------------------------------------------
// Status
// ---------------------------------------------------------------------------

/// What the agent is doing, as shown in the UI.
#[derive(Debug)]
pub struct AgentStatus {
    pub running: bool,
    pub authenticated: bool,
    pub in_session: bool,
    pub machine_id: String,
    pub server_url: String,
    pub session_id: Option<i64>,
    pub technician: Option<String>,
}

impl Default for AgentStatus {
    /// Stopped, not authenticated, no session, empty identifiers.
    fn default() -> (s: Self)
        ensures
            !s.running && !s.authenticated && !s.in_session,
            s.machine_id@ == Seq::<char>::empty(),
            s.server_url@ == Seq::<char>::empty(),
            s.session_id is None,
            s.technician is None,
    {
        AgentStatus {
            running: false,
            authenticated: false,
            in_session: false,
            machine_id: String::new(),
            server_url: String::new(),
            session_id: None,
            technician: None,
        }
    }
}

/// The status label: the session (with the technician's name when known
/// and not empty), else waiting when authenticated, else connecting when
/// running, else offline.
pub open spec fn status_label(in_session: bool, technician: Option<Seq<char>>, authenticated: bool, running: bool) -> Seq<char> {
    if in_session {
        match technician {
            Some(name) => if name.len() > 0 {
                "Session en cours avec "@ + name
            } else {
                "Session en cours"@
            },
            None => "Session en cours"@,
        }
    } else if authenticated {
        "Agent actif — En attente"@
    } else if running {
        "Connexion au serveur…"@
    } else {
        "Hors ligne"@
    }
}

/// `a` followed by `b`.
fn concat(a: &str, b: &str) -> (r: String)
    ensures
        r@ == a@ + b@,
{
    let mut v = chars_of(a);
    let w = chars_of(b);
    let mut i: usize = 0;
    while i < w.len()
        invariant
            i <= w@.len(),
            v@ == a@ + w@.take(i as int),
        decreases w@.len() - i,
    {
        v.push(w[i]);
        assert(v@ =~= a@ + w@.take(i + 1));
        i += 1;
    }
    assert(w@.take(w@.len() as int) =~= w@);
    string_from_chars(v.as_slice())
}

/// The status in a session with a technician.
pub open spec fn with_session(s: AgentStatus, session_id: i64, technician: String) -> AgentStatus {
    AgentStatus { in_session: true, session_id: Some(session_id), technician: Some(technician), ..s }
}

/// The status out of any session.
pub open spec fn without_session(s: AgentStatus) -> AgentStatus {
    AgentStatus { in_session: false, session_id: None, technician: None, ..s }
}

/// Leaving a session undoes entering it: from a status out of session,
/// entering one (which marks the status in session) and leaving it gives
/// back the same status.
pub proof fn law_leave_undoes_join(s: AgentStatus, session_id: i64, technician: String)
    requires
        s == without_session(s),
    ensures
        without_session(with_session(s, session_id, technician)) == s,
        with_session(s, session_id, technician).in_session,
{
}

impl AgentStatus {
    /// A short human-readable label of the state (see `status_label`).
    pub fn label(&self) -> (r: String)
        ensures
            r@ == status_label(self.in_session, opt_view(self.technician), self.authenticated, self.running),
    {
        if self.in_session {
            match &self.technician {
                Some(name) => {
                    let chars = chars_of(name.as_str());
                    if chars.len() > 0 {
                        concat("Session en cours avec ", name.as_str())
                    } else {
                        "Session en cours".to_owned()
                    }
                },
                None => "Session en cours".to_owned(),
            }
        } else if self.authenticated {
            "Agent actif — En attente".to_owned()
        } else if self.running {
            "Connexion au serveur…".to_owned()
        } else {
            "Hors ligne".to_owned()
        }
    }

    /// Enters a session with a technician; does nothing, and answers
    /// `false`, when a session is already under way.
    pub fn begin_session(&mut self, session_id: i64, technician: String) -> (started: bool)
        ensures
            started == !old(self).in_session,
            started ==> *final(self) == with_session(*old(self), session_id, technician),
            !started ==> *final(self) == *old(self),
    {
        if self.in_session {
            return false;
        }
        self.in_session = true;
        self.session_id = Some(session_id);
        self.technician = Some(technician);
        true
    }

    /// Starts the agent for a machine and server; does nothing, and answers
    /// `false`, when it is already running.
    pub fn mark_started(&mut self, machine_id: String, server_url: String) -> (started: bool)
        ensures
            started == !old(self).running,
            started ==> *final(self) == (AgentStatus {
                running: true,
                machine_id,
                server_url,
                ..*old(self)
            }),
            !started ==> *final(self) == *old(self),
    {
        if self.running {
            return false;
        }
        self.running = true;
        self.machine_id = machine_id;
        self.server_url = server_url;
        true
    }

    /// Stops the agent: not running, not authenticated, not in session.
    pub fn mark_stopped(&mut self)
        ensures
            *final(self) == (AgentStatus {
                running: false,
                authenticated: false,
                in_session: false,
                ..*old(self)
            }),
    {
        self.running = false;
        self.authenticated = false;
        self.in_session = false;
    }

    /// Leaves the session: no session, no session identifier, no technician.
    pub fn end_session(&mut self)
        ensures
            *final(self) == without_session(*old(self)),
    {
        self.in_session = false;
        self.session_id = None;
        self.technician = None;
    }
}

// ---------------------------------------------------------------------------
// Tunables
// ---------------------------------------------------------------------------

/// `v` clamped to `[lo, hi]`.
pub open spec fn clamp_u64(v: nat, lo: nat, hi: nat) -> nat {
    if v < lo {
        lo
    } else if v > hi {
        hi
    } else {
        v
    }
}

/// An unsigned setting: the trimmed text parsed as a `u64` and clamped to
/// `[lo, hi]`, or `default` when absent or not a number.
pub open spec fn clamped_setting(raw: Option<Seq<char>>, lo: nat, hi: nat, default: nat) -> nat {
    match raw {
        Some(s) => match parse_unsigned(trim(s), u64::MAX as nat) {
            Some(v) => clamp_u64(v, lo, hi),
            None => default,
        },
        None => default,
    }
}

/// An unsigned setting (see `clamped_setting`).
pub(crate) fn clamped_setting_of(raw: Option<&str>, lo: u64, hi: u64, default: u64) -> (r: u64)
    requires
        lo <= hi,
    ensures
        r == clamped_setting(
            match raw {
                Some(s) => Some(s@),
                None => None,
            },
            lo as nat,
            hi as nat,
            default as nat,
        ),
{
    match raw {
        Some(s) => {
            let chars = chars_of(s);
            let t = trim_chars(chars.as_slice());
            match parse_u64(t.as_slice()) {
                Some(v) => if v < lo {
                    lo
                } else if v > hi {
                    hi
                } else {
                    v
                },
                None => default,
            }
        },
        None => default,
    }
}

/// Seconds a session stays open after the viewer left without saying so:
/// the setting clamped to 5..=600, 180 by default.
pub fn viewer_grace_secs_from(raw: Option<&str>) -> (r: u64)
    ensures
        r == clamped_setting(
            match raw {
                Some(s) => Some(s@),
                None => None,
            },
            5,
            600,
            180,
        ),
{
    clamped_setting_of(raw, 5, 600, 180)
}

/// Seconds between two reconnect log records: the setting clamped to
/// 1..=300, 10 by default.
pub fn session_log_interval_from(raw: Option<&str>) -> (r: u64)
    ensures
        r == clamped_setting(
            match raw {
                Some(s) => Some(s@),
                None => None,
            },
            1,
            300,
            10,
        ),
{
    clamped_setting_of(raw, 1, 300, 10)
}

/// A flag is on when its trimmed, ASCII-lowercased value is `1`, `true`,
/// `yes` or `on`.
pub open spec fn flag_on(value: Seq<char>) -> bool {
    let v = ascii_lower(trim(value));
    v == "1"@ || v == "true"@ || v == "yes"@ || v == "on"@
}

/// Whether a flag's value turns it on (see `flag_on`).
pub fn flag_value_true(value: &str) -> (r: bool)
    ensures
        r == flag_on(value@),
{
    let chars = chars_of(value);
    let t = trim_chars(chars.as_slice());
    let l = ascii_lowercase(t.as_slice());
    let s = l.as_slice();
    eq_lit(s, "1") || eq_lit(s, "true") || eq_lit(s, "yes") || eq_lit(s, "on")
}

/// `s` without all the leading repetitions of `p` (`str::trim_start_matches`).
pub open spec fn strip_all_prefix(s: Seq<char>, p: Seq<char>) -> Seq<char>
    decreases s.len(),
{
    if p.len() > 0 && has_prefix(s, p) {
        strip_all_prefix(s.skip(p.len() as int), p)
    } else {
        s
    }
}

/// The grace-period setting in a `.env.local` file: after the first
/// trimmed line that starts with `LUMIERE_VIEWER_GRACE_SECS=`, with every
/// leading repetition of that prefix removed.
pub open spec fn grace_line_value(lines: Seq<Seq<char>>) -> Option<Seq<char>>
    decreases lines.len(),
{
    if lines.len() == 0 {
        None
    } else if has_prefix(trim(lines[0]), "LUMIERE_VIEWER_GRACE_SECS="@) {
        Some(strip_all_prefix(trim(lines[0]), "LUMIERE_VIEWER_GRACE_SECS="@))
    } else {
        grace_line_value(lines.drop_first())
    }
}

/// `s` without all the leading repetitions of `p`.
fn strip_prefix_repeated(s: &Vec<char>, p: &Vec<char>) -> (r: Vec<char>)
    ensures
        r@ == strip_all_prefix(s@, p@),
{
    if p.len() == 0 {
        return copy_all(s);
    }
    let mut rest = copy_all(s);
    while crate::text::starts_with_chars(rest.as_slice(), p.as_slice())
        invariant
            p@.len() > 0,
            strip_all_prefix(rest@, p@) == strip_all_prefix(s@, p@),
        decreases rest@.len(),
    {
        let n = rest.len();
        rest = crate::text::copy_range(rest.as_slice(), p.len(), n);
        assert(rest@ =~= rest@);
    }
    rest
}

/// A copy of a character vector.
fn copy_all(s: &Vec<char>) -> (r: Vec<char>)
    ensures
        r@ == s@,
{
    let r = crate::text::copy_range(s.as_slice(), 0, s.len());
    assert(r@ =~= s@);
    r
}

/// The grace-period setting in the content of a `.env.local` file (see
/// `grace_line_value`).
pub fn grace_setting_from_env_local(content: &str) -> (r: Option<String>)
    ensures
        opt_view(r) == grace_line_value(text_lines(content@)),
{
    let prefix = chars_of("LUMIERE_VIEWER_GRACE_SECS=");
    let chars = chars_of(content);
    let lines = split_lines(chars.as_slice());
    let ghost all = views(lines@);
    assert(all.skip(0) =~= all);
    let mut i: usize = 0;
    while i < lines.len()
        invariant
            i <= lines@.len(),
            all == views(lines@),
            all == text_lines(content@),
            prefix@ == "LUMIERE_VIEWER_GRACE_SECS="@,
            grace_line_value(all.skip(i as int)) == grace_line_value(all),
        decreases lines@.len() - i,
    {
        proof {
            assert(all.skip(i as int)[0] == lines@[i as int]@);
            assert(all.skip(i as int).drop_first() =~= all.skip(i + 1));
        }
        let t = trim_chars(lines[i].as_slice());
        if crate::text::starts_with_chars(t.as_slice(), prefix.as_slice()) {
            let v = strip_prefix_repeated(&t, &prefix);
            return Some(string_from_chars(v.as_slice()));
        }
        i += 1;
    }
    None
}

// ---------------------------------------------------------------------------
// Reconnect back-off
// ---------------------------------------------------------------------------

/// Longest wait between two signaling reconnect attempts, in seconds.
pub const MAX_RECONNECT_DELAY_SECS: u64 = 30;

/// A connection that lasted this long resets the back-off.
pub const STABLE_CONNECTION_MS: u64 = 8000;

/// The signaling reconnect back-off: the wait before the next attempt and
/// the number of attempts since the last stable connection.
#[derive(Clone, Copy, Debug, PartialEq, Eq, Structural)]
pub struct ReconnectBackoff {
    pub delay_secs: u64,
    pub attempt: u64,
}

impl ReconnectBackoff {
    /// The wait is between 1 s and the maximum.
    pub open spec fn well_formed(&self) -> bool {
        1 <= self.delay_secs <= MAX_RECONNECT_DELAY_SECS
    }

    /// One second, no attempt yet.
    pub fn new() -> (b: Self)
        ensures
            b.delay_secs == 1,
            b.attempt == 0,
            b.well_formed(),
    {
        ReconnectBackoff { delay_secs: 1, attempt: 0 }
    }

    /// After a session dispatch ended with the connection lost: a connection
    /// that lasted at least 8 s resets the wait and the count; then the
    /// attempt is counted (saturating).
    pub fn on_disconnect(&mut self, connected_for_ms: u64)
        ensures
            final(self).delay_secs == if connected_for_ms >= STABLE_CONNECTION_MS {
                1
            } else {
                old(self).delay_secs
            },
            final(self).attempt == if connected_for_ms >= STABLE_CONNECTION_MS {
                1
            } else if old(self).attempt == u64::MAX {
                u64::MAX
            } else {
                (old(self).attempt + 1) as u64
            },
            old(self).well_formed() ==> final(self).well_formed(),
    {
        if connected_for_ms >= STABLE_CONNECTION_MS {
            self.delay_secs = 1;
            self.attempt = 0;
        }
        self.attempt = self.attempt.saturating_add(1);
    }

    /// After a failed connection attempt: the attempt is counted (saturating).
    pub fn on_connect_error(&mut self)
        ensures
            final(self).delay_secs == old(self).delay_secs,
            final(self).attempt == if old(self).attempt == u64::MAX {
                u64::MAX
            } else {
                (old(self).attempt + 1) as u64
            },
    {
        self.attempt = self.attempt.saturating_add(1);
    }

    /// After waiting: the wait doubles, up to the maximum.
    pub fn grow(&mut self)
        requires
            old(self).well_formed(),
        ensures
            final(self).delay_secs == if old(self).delay_secs * 2 < MAX_RECONNECT_DELAY_SECS {
                old(self).delay_secs * 2
            } else {
                MAX_RECONNECT_DELAY_SECS as int
            },
            final(self).attempt == old(self).attempt,
            final(self).well_formed(),
    {
        if self.delay_secs < MAX_RECONNECT_DELAY_SECS {
            let doubled = self.delay_secs * 2;
            self.delay_secs = if doubled < MAX_RECONNECT_DELAY_SECS {
                doubled
            } else {
                MAX_RECONNECT_DELAY_SECS
            };
        }
    }
}

// ---------------------------------------------------------------------------
// Viewer grace period
// ---------------------------------------------------------------------------

/// How a grace period ended.
#[derive(Clone, Copy, Debug, PartialEq, Eq, Structural)]
pub enum GraceOutcome {
    /// Cancelled because the session was shut down.
    CancelledByShutdown,
    /// Cancelled because the viewer came back.
    ViewerReturned,
    /// Expired after the session had already ended: nothing to do.
    AlreadyClosed,
    /// Expired, but the viewer was active meanwhile: the session stays.
    ActivityDetected,
    /// Expired while the peer connection is still up: a new grace period
    /// starts.
    Rearm,
    /// Expired without the viewer: the session ends.
    EndSession,
}

/// The end of a grace period, from whether it was cancelled, whether the
/// session is still open, the viewer-activity counter when it started and
/// now, and whether the peer connection is still up.
pub open spec fn grace_outcome_spec(
    cancelled: bool,
    in_session: bool,
    activity_at_start: u64,
    activity_now: u64,
    peer_alive: bool,
) -> GraceOutcome {
    if cancelled {
        if !in_session {
            GraceOutcome::CancelledByShutdown
        } else {
            GraceOutcome::ViewerReturned
        }
    } else if !in_session {
        GraceOutcome::AlreadyClosed
    } else if activity_now != activity_at_start {
        GraceOutcome::ActivityDetected
    } else if peer_alive {
        GraceOutcome::Rearm
    } else {
        GraceOutcome::EndSession
    }
}

/// How a grace period ended (see `grace_outcome_spec`).
pub fn grace_outcome(
    cancelled: bool,
    in_session: bool,
    activity_at_start: u64,
    activity_now: u64,
    peer_alive: bool,
) -> (o: GraceOutcome)
    ensures
        o == grace_outcome_spec(cancelled, in_session, activity_at_start, activity_now, peer_alive),
{
    if cancelled {
        if !in_session {
            GraceOutcome::CancelledByShutdown
        } else {
            GraceOutcome::ViewerReturned
        }
    } else if !in_session {
        GraceOutcome::AlreadyClosed
    } else if activity_now != activity_at_start {
        GraceOutcome::ActivityDetected
    } else if peer_alive {
        GraceOutcome::Rearm
    } else {
        GraceOutcome::EndSession
    }
}

// ---------------------------------------------------------------------------
// Signaling events
// ---------------------------------------------------------------------------

/// Socket closes with code 1003 tolerated during a grace period.
pub const MAX_1003_DURING_GRACE: u64 = 1;

/// What to do when the signaling socket closed.
#[derive(Clone, Copy, Debug, PartialEq, Eq, Structural)]
pub enum SocketCloseAction {
    /// Start a grace period (unless one runs) and reconnect.
    GraceThenReconnect,
    /// Reconnect within the running grace period; carries the new count of
    /// consecutive 1003 closes.
    RetryWithinGrace { consecutive_1003: u64 },
    /// End the session; carries the new count of consecutive 1003 closes
    /// when it was counted.
    EndSession { counted_1003: Option<u64> },
}

/// The decision on a socket close with code `code` (absent, or above
/// `u16::MAX`, counts as a retryable close): a 1003 ("refused") keeps the
/// session when the peer is connected, ends it outside a grace period, and
/// within one counts the close and ends the session from the second one;
/// another code ends the session unless it is retryable, in which case a
/// grace period starts.
pub open spec fn socket_close_action_spec(
    code: Option<u64>,
    peer_connected: bool,
    grace_active: bool,
    consecutive_1003: u64,
) -> SocketCloseAction {
    let close_code: Option<u64> = match code {
        Some(c) => if c <= u16::MAX {
            Some(c)
        } else {
            None
        },
        None => None,
    };
    let count = if consecutive_1003 == u64::MAX {
        0
    } else {
        (consecutive_1003 + 1) as u64
    };
    if close_code == Some(1003u64) {
        if peer_connected {
            SocketCloseAction::GraceThenReconnect
        } else if grace_active {
            if count > MAX_1003_DURING_GRACE {
                SocketCloseAction::EndSession { counted_1003: Some(count) }
            } else {
                SocketCloseAction::RetryWithinGrace { consecutive_1003: count }
            }
        } else {
            SocketCloseAction::EndSession { counted_1003: None }
        }
    } else {
        let retryable = match close_code {
            Some(c) => c == 1000 || c == 1006 || c == 1011 || c == 1012 || c == 1013,
            None => true,
        };
        if retryable {
            SocketCloseAction::GraceThenReconnect
        } else {
            SocketCloseAction::EndSession { counted_1003: None }
        }
    }
}

/// The decision on a signaling socket close (see `socket_close_action_spec`).
pub fn socket_close_action(
    code: Option<u64>,
    peer_connected: bool,
    grace_active: bool,
    consecutive_1003: u64,
) -> (a: SocketCloseAction)
    ensures
        a == socket_close_action_spec(code, peer_connected, grace_active, consecutive_1003),
{
    let close_code: Option<u16> = match code {
        Some(c) => if c <= 65535 {
            Some(c as u16)
        } else {
            None
        },
        None => None,
    };
    if close_code == Some(1003u16) {
        if peer_connected {
            return SocketCloseAction::GraceThenReconnect;
        }
        if grace_active {
            let count = consecutive_1003.wrapping_add(1);
            if count > MAX_1003_DURING_GRACE {
                return SocketCloseAction::EndSession { counted_1003: Some(count) };
            }
            return SocketCloseAction::RetryWithinGrace { consecutive_1003: count };
        }
        return SocketCloseAction::EndSession { counted_1003: None };
    }
    let retryable = match close_code {
        Some(c) => is_retryable_signaling_close_code(c),
        None => true,
    };
    if retryable {
        SocketCloseAction::GraceThenReconnect
    } else {
        SocketCloseAction::EndSession { counted_1003: None }
    }
}

/// A leave is explicit when its reason, ASCII-lowercased, is
/// `manual_disconnect`, `manual`, `user` or `explicit`.
pub open spec fn manual_leave(reason: Option<Seq<char>>) -> bool {
    let r = ascii_lower(
        match reason {
            Some(s) => s,
            None => ""@,
        },
    );
    r == "manual_disconnect"@ || r == "manual"@ || r == "user"@ || r == "explicit"@
}

/// Whether a viewer's leave was explicit (the session then ends at once;
/// otherwise a grace period starts).
pub fn leave_is_manual(reason: Option<&str>) -> (r: bool)
    ensures
        r == manual_leave(
            match reason {
                Some(s) => Some(s@),
                None => None,
            },
        ),
{
    let chars = match reason {
        Some(s) => chars_of(s),
        None => Vec::new(),
    };
    proof {
        reveal_strlit("");
    }
    let ghost rv = match reason {
        Some(s) => s@,
        None => ""@,
    };
    assert(chars@ == rv);
    let l = ascii_lowercase(chars.as_slice());
    let s = l.as_slice();
    eq_lit(s, "manual_disconnect") || eq_lit(s, "manual") || eq_lit(s, "user") || eq_lit(s, "explicit")
}

/// An offer repeats the previous one when both have an SDP fingerprint and
/// they are equal.
pub fn is_duplicate_offer(current: Option<u64>, last: Option<u64>) -> (r: bool)
    ensures
        r == (current is Some && current == last),
{
    match (current, last) {
        (Some(c), Some(l)) => c == l,
        _ => false,
    }
}

/// The profile a viewer asks for: the named one, `Quality` when the name is
/// absent or unknown.
pub fn requested_stream_profile(raw: Option<&str>) -> (p: StreamQualityProfile)
    ensures
        p == match raw {
            Some(s) => match crate::adaptive::spec_quality_profile(s@) {
                Some(q) => q,
                None => StreamQualityProfile::Quality,
            },
            None => StreamQualityProfile::Quality,
        },
{
    match raw {
        Some(s) => match StreamQualityProfile::from_payload(s) {
            Some(q) => q,
            None => StreamQualityProfile::Quality,
        },
        None => StreamQualityProfile::Quality,
    }
}

/// An upload is complete once the chunk with index `total_chunks - 1` (or a
/// later one) is written.
pub fn upload_complete(chunk_index: u64, total_chunks: u64) -> (r: bool)
    requires
        chunk_index < u64::MAX,
    ensures
        r == (chunk_index + 1 >= total_chunks),
{
    chunk_index + 1 >= total_chunks
}

/// Across one signaling connection: whether an SDP answer still waits to
/// reach the viewer, and whether the screen sender was started.
#[derive(Clone, Copy, Debug, PartialEq, Eq, Structural)]
pub struct AnswerState {
    pub answer_pending: bool,
    pub sender_started: bool,
}

impl AnswerState {
    /// At the start of a dispatch: the pending answer kept from before, and
    /// the sender counted as started when a peer connection already exists.
    pub fn new(answer_pending: bool, peer_exists: bool) -> (r: Self)
        ensures
            r == (AnswerState { answer_pending, sender_started: peer_exists }),
    {
        AnswerState { answer_pending, sender_started: peer_exists }
    }

    /// On the viewer's join: whether the pending answer is sent again.
    pub fn resend_on_join(&self) -> (r: bool)
        ensures
            r == self.answer_pending,
    {
        self.answer_pending
    }

    /// An answer to an offer was made; it is pending until delivered.
    pub fn answer_created(&mut self)
        ensures
            *final(self) == (AnswerState { answer_pending: true, ..*old(self) }),
    {
        self.answer_pending = true;
    }

    /// The outcome of sending an answer. Once delivered it is no longer
    /// pending, and the screen sender is started, once, when a peer
    /// connection exists (the result says whether to start it now); a
    /// failed send changes nothing.
    pub fn answer_sent(&mut self, delivered: bool, peer_exists: bool) -> (start_sender: bool)
        ensures
            delivered ==> *final(self) == (AnswerState {
                answer_pending: false,
                sender_started: old(self).sender_started || peer_exists,
            }) && start_sender == (!old(self).sender_started && peer_exists),
            !delivered ==> *final(self) == *old(self) && !start_sender,
    {
        if !delivered {
            return false;
        }
        self.answer_pending = false;
        if !self.sender_started && peer_exists {
            self.sender_started = true;
            true
        } else {
            false
        }
    }
}

/// A file upload over the signaling channel: where it is written, and
/// whether the next chunk is appended.
#[derive(Debug)]
pub struct SignalUpload {
    pub path: Option<String>,
    pub append: bool,
}

impl SignalUpload {
    /// No upload.
    pub fn new() -> (r: Self)
        ensures
            r.path is None && !r.append,
    {
        SignalUpload { path: None, append: false }
    }

    /// An upload to `path` starts: its first chunk replaces the file.
    pub fn start(&mut self, path: String)
        ensures
            opt_view(final(self).path) == Some(path@),
            !final(self).append,
    {
        self.path = Some(path);
        self.append = false;
    }

    /// A chunk was saved: later chunks are appended, and after the last one
    /// (index `total_chunks - 1` or later) the upload is over.
    pub fn chunk_saved(&mut self, chunk_index: u64, total_chunks: u64)
        requires
            chunk_index < u64::MAX,
        ensures
            chunk_index + 1 >= total_chunks ==> final(self).path is None && !final(self).append,
            chunk_index + 1 < total_chunks ==> opt_view(final(self).path) == opt_view(old(self).path)
                && final(self).append,
    {
        self.append = true;
        if upload_complete(chunk_index, total_chunks) {
            self.path = None;
            self.append = false;
        }
    }
}


// ---------------------------------------------------------------------------
// Laws
// ---------------------------------------------------------------------------

/// A refused (1003) close never ends a session whose peer connection is up,
/// and a retryable close never ends a session.
pub proof fn law_closes_that_keep_the_session(code: Option<u64>, peer_connected: bool, grace_active: bool, consecutive_1003: u64)
    requires
        (code == Some(1003u64) && peer_connected) || (code matches Some(c) && (c == 1000 || c == 1006 || c
            == 1011 || c == 1012 || c == 1013)) || code is None,
    ensures
        !(socket_close_action_spec(code, peer_connected, grace_active, consecutive_1003) is EndSession),
{
}

/// Within a grace period, the first 1003 close is retried and the second
/// ends the session.
pub proof fn law_second_refusal_in_grace_ends(peer_connected: bool)
    requires
        !peer_connected,
    ensures
        socket_close_action_spec(Some(1003), peer_connected, true, 0) == (SocketCloseAction::RetryWithinGrace {
            consecutive_1003: 1,
        }),
        socket_close_action_spec(Some(1003), peer_connected, true, 1) == (SocketCloseAction::EndSession {
            counted_1003: Some(2),
        }),
{
}

/// A grace period ends the session only when it expired with the session
/// still open, no viewer activity meanwhile, and the peer connection down.
pub proof fn law_grace_ends_session_only_when_viewer_gone(
    cancelled: bool,
    in_session: bool,
    activity_at_start: u64,
    activity_now: u64,
    peer_alive: bool,
)
    ensures
        grace_outcome_spec(cancelled, in_session, activity_at_start, activity_now, peer_alive)
            == GraceOutcome::EndSession <==> (!cancelled && in_session && activity_now == activity_at_start
            && !peer_alive),
{
}

/// Settings read from the environment always lie within their bounds.
pub proof fn law_clamped_setting_in_bounds(raw: Option<Seq<char>>, lo: nat, hi: nat, default: nat)
    requires
        lo <= default <= hi,
    ensures
        lo <= clamped_setting(raw, lo, hi, default) <= hi,
{
}

/// `s` without all its trailing `c` characters (`str::trim_end_matches`).
pub open spec fn strip_trailing(s: Seq<char>, c: char) -> Seq<char>
    decreases s.len(),
{
    if s.len() > 0 && s.last() == c {
        strip_trailing(s.drop_last(), c)
    } else {
        s
    }
}

/// The base address of the signaling server: the configured URL without
/// its trailing slashes.
pub fn server_base_url(url: &str) -> (r: String)
    ensures
        r@ == strip_trailing(url@, '/'),
{
    let chars = chars_of(url);
    let mut end = chars.len();
    assert(chars@.take(end as int) =~= url@);
    while end > 0 && chars[end - 1] == '/'
        invariant
            end <= chars@.len(),
            chars@ == url@,
            strip_trailing(chars@.take(end as int), '/') == strip_trailing(url@, '/'),
        decreases end,
    {
        assert(chars@.take(end as int).drop_last() =~= chars@.take(end - 1));
        end -= 1;
    }
    let kept = crate::text::copy_range(chars.as_slice(), 0, end);
    assert(kept@ =~= chars@.take(end as int));
    string_from_chars(kept.as_slice())
}

/// `s` without all its leading `c` characters (`str::trim_start_matches`).
pub open spec fn strip_leading(s: Seq<char>, c: char) -> Seq<char>
    decreases s.len(),
{
    if s.len() > 0 && s[0] == c {
        strip_leading(s.drop_first(), c)
    } else {
        s
    }
}

/// The token in a login answer: the body trimmed, with the quotes around it
/// (as a JSON string has them) removed.
pub open spec fn login_token(body: Seq<char>) -> Seq<char> {
    strip_trailing(strip_leading(trim(body), '"'), '"')
}

/// The agent's token from the body of a login answer; `None` when it is
/// empty.
pub fn token_from_login_body(body: &str) -> (r: Option<String>)
    ensures
        match r {
            Some(t) => t@ == login_token(body@) && t@.len() > 0,
            None => login_token(body@).len() == 0,
        },
{
    let chars = chars_of(body);
    let t = trim_chars(chars.as_slice());
    let n = t.len();
    let mut lo: usize = 0;
    assert(t@.skip(0) =~= t@);
    while lo < n && t[lo] == '"'
        invariant
            n == t@.len(),
            lo <= n,
            strip_leading(t@.skip(lo as int), '"') == strip_leading(t@, '"'),
        decreases n - lo,
    {
        assert(t@.skip(lo as int).drop_first() =~= t@.skip(lo + 1));
        lo += 1;
    }
    let mut hi: usize = n;
    assert(t@.subrange(lo as int, hi as int) =~= t@.skip(lo as int));
    while hi > lo && t[hi - 1] == '"'
        invariant
            n == t@.len(),
            lo <= hi <= n,
            strip_trailing(t@.subrange(lo as int, hi as int), '"') == strip_trailing(strip_leading(t@, '"'), '"'),
        decreases hi,
    {
        assert(t@.subrange(lo as int, hi as int).drop_last() =~= t@.subrange(lo as int, hi - 1));
        hi -= 1;
    }
    let kept = crate::text::copy_range(t.as_slice(), lo, hi);
    if kept.len() == 0 {
        None
    } else {
        Some(string_from_chars(kept.as_slice()))
    }
}

/// What a stream-profile signal asks for: a quality profile, and optionally
/// to pause or resume frames, a bitrate, and a frame-rate tier.
#[derive(Clone, Copy, Debug, PartialEq, Eq, Structural)]
pub struct StreamProfileRequest {
    pub profile: StreamQualityProfile,
    pub paused: Option<bool>,
    pub bitrate_bps: Option<u64>,
    pub fps_tier: Option<crate::adaptive::FpsTier>,
}

/// The request a stream-profile payload makes: its `profile` (the quality
/// profile when absent or unknown), `paused`, `bitrateBps`, and `fpsTier`
/// when it names a tier.
pub open spec fn profile_request_of(payload: Option<JsonValue>) -> StreamProfileRequest {
    let get = |k: Seq<char>| match payload {
        Some(p) => json_get(p, k),
        None => None,
    };
    StreamProfileRequest {
        profile: match json_text(get("profile"@)) {
            Some(s) => match crate::adaptive::spec_quality_profile(s) {
                Some(q) => q,
                None => StreamQualityProfile::Quality,
            },
            None => StreamQualityProfile::Quality,
        },
        paused: json_bool(get("paused"@)),
        bitrate_bps: json_u64(get("bitrateBps"@)),
        fps_tier: match json_text(get("fpsTier"@)) {
            Some(s) => crate::adaptive::spec_fps_tier(s),
            None => None,
        },
    }
}

/// Reads a stream-profile signal's payload.
pub fn stream_profile_request(payload: Option<&JsonValue>) -> (r: StreamProfileRequest)
    ensures
        r == profile_request_of(
            match payload {
                Some(p) => Some(*p),
                None => None,
            },
        ),
{
    let (profile_v, paused_v, bitrate_v, tier_v) = match payload {
        Some(p) => (member_of(p, "profile"), member_of(p, "paused"), member_of(p, "bitrateBps"), member_of(p, "fpsTier")),
        None => (None, None, None, None),
    };
    let profile = match profile_v {
        Some(JsonValue::Str(s)) => requested_stream_profile(Some(s.as_str())),
        _ => StreamQualityProfile::Quality,
    };
    let paused = match paused_v {
        Some(JsonValue::Bool(b)) => Some(*b),
        _ => None,
    };
    let bitrate_bps = match bitrate_v {
        Some(JsonValue::Number(n)) => *n,
        _ => None,
    };
    let fps_tier = match tier_v {
        Some(JsonValue::Str(s)) => crate::adaptive::FpsTier::from_payload(s.as_str()),
        _ => None,
    };
    StreamProfileRequest { profile, paused, bitrate_bps, fps_tier }
}

/// Whether a leave signal's payload ends the session at once: its `reason`
/// names a manual leave (see `manual_leave`).
pub fn leave_payload_is_manual(payload: Option<&JsonValue>) -> (r: bool)
    ensures
        r == manual_leave(
            match payload {
                Some(p) => json_text(json_get(*p, "reason"@)),
                None => None,
            },
        ),
{
    let reason = match payload {
        Some(p) => match member_of(p, "reason") {
            Some(JsonValue::Str(s)) => Some(s.as_str()),
            _ => None,
        },
        None => None,
    };
    leave_is_manual(reason)
}

/// What an error signal reports.
#[derive(Clone, Copy, Debug, PartialEq, Eq, Structural)]
pub enum ErrorSignal {
    /// The signaling socket closed, with its close code when the payload
    /// gives one that fits in 16 bits.
    SocketClose { code: Option<u16> },
    /// Any other error.
    Other,
}

/// Reads an error signal's payload: a socket close when its `kind` is
/// `socket-close`, with the `code` member as close code.
pub fn error_signal(payload: Option<&JsonValue>) -> (r: ErrorSignal)
    ensures
        r == match payload {
            Some(p) => if json_text(json_get(*p, "kind"@)) == Some("socket-close"@) {
                ErrorSignal::SocketClose {
                    code: match json_u64(json_get(*p, "code"@)) {
                        Some(c) => if c <= u16::MAX {
                            Some(c as u16)
                        } else {
                            None
                        },
                        None => None,
                    },
                }
            } else {
                ErrorSignal::Other
            },
            None => ErrorSignal::Other,
        },
{
    let p = match payload {
        Some(p) => p,
        None => {
            return ErrorSignal::Other;
        },
    };
    let is_close = match member_of(p, "kind") {
        Some(JsonValue::Str(k)) => crate::json::same_text(k.as_str(), "socket-close"),
        _ => false,
    };
    if !is_close {
        return ErrorSignal::Other;
    }
    let code = match member_of(p, "code") {
        Some(JsonValue::Number(Some(c))) => if *c <= 65535 {
            Some(*c as u16)
        } else {
            None
        },
        _ => None,
    };
    ErrorSignal::SocketClose { code }
}

/// What an answer to the pending-session request means, by its HTTP status.
#[derive(Clone, Copy, Debug, PartialEq, Eq, Structural)]
pub enum PendingReply {
    /// 404 or 204: no session is waiting.
    NoSession,
    /// Any other status outside 200..=299: the request failed.
    Failed,
    /// A success status: the body tells.
    Body,
}

/// How the status of the pending-session answer is read.
pub fn pending_reply(status: u16) -> (r: PendingReply)
    ensures
        r == if status == 404 || status == 204 {
            PendingReply::NoSession
        } else if !(200 <= status <= 299) {
            PendingReply::Failed
        } else {
            PendingReply::Body
        },
{
    if status == 404 || status == 204 {
        PendingReply::NoSession
    } else if !(200 <= status && status <= 299) {
        PendingReply::Failed
    } else {
        PendingReply::Body
    }
}

/// A pending-session body names no session when, trimmed, it is empty or
/// `null`.
pub fn pending_body_is_empty(body: &str) -> (r: bool)
    ensures
        r == (trim(body@).len() == 0 || trim(body@) == "null"@),
{
    let chars = chars_of(body);
    let t = trim_chars(chars.as_slice());
    t.len() == 0 || eq_lit(t.as_slice(), "null")
}

} // verus!
