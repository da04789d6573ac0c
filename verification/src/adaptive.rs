//! Streaming presets and rate adaptation: user-facing FPS tiers and quality
//! profiles, the limits they put on the encoder, RTCP feedback counting and
//! the integer part of the adaptive rate controller.
use vstd::prelude::*;

use crate::encoder::VideoEncoderPreset;
use crate::text::{ascii_lower, ascii_lowercase, chars_of, contains_lit, eq_lit, has_infix, trim,
    trim_chars,
};

verus! {

/// Frame-rate tier requested by the technician (or chosen automatically).
#[derive(Clone, Copy, Debug, PartialEq, Eq, Structural)]
pub enum FpsTier {
    Idle,
    Normal,
    Active,
}

/// The tier a payload names: trimmed, ASCII case ignored, with its aliases.
pub open spec fn spec_fps_tier(value: Seq<char>) -> Option<FpsTier> {
    let n = ascii_lower(trim(value));
    if n == "idle"@ || n == "eco"@ {
        Some(FpsTier::Idle)
    } else if n == "normal"@ || n == "balanced"@ || n == "equilibre"@ {
        Some(FpsTier::Normal)
    } else if n == "active"@ || n == "performance"@ || n == "reactive"@ {
        Some(FpsTier::Active)
    } else {
        None
    }
}

/// Frames per second of each tier.
pub open spec fn spec_tier_fps(tier: FpsTier) -> u32 {
    match tier {
        FpsTier::Idle => 15,
        FpsTier::Normal => 30,
        FpsTier::Active => 60,
    }
}

impl FpsTier {
    /// Reads a tier from a signaling payload (`idle`/`eco`, `normal`/`balanced`/
    /// `equilibre`, `active`/`performance`/`reactive`).
    pub fn from_payload(value: &str) -> (r: Option<Self>)
        ensures
            r == spec_fps_tier(value@),
    {
        let raw = chars_of(value);
        let t = trim_chars(raw.as_slice());
        let n = ascii_lowercase(t.as_slice());
        let n = n.as_slice();
        if eq_lit(n, "idle") || eq_lit(n, "eco") {
            Some(FpsTier::Idle)
        } else if eq_lit(n, "normal") || eq_lit(n, "balanced") || eq_lit(n, "equilibre") {
            Some(FpsTier::Normal)
        } else if eq_lit(n, "active") || eq_lit(n, "performance") || eq_lit(n, "reactive") {
            Some(FpsTier::Active)
        } else {
            None
        }
    }

    /// Target frame rate of the tier.
    pub fn target_fps(self) -> (r: u32)
        ensures
            r == spec_tier_fps(self),
    {
        match self {
            FpsTier::Idle => 15,
            FpsTier::Normal => 30,
            FpsTier::Active => 60,
        }
    }
}

/// Quality profile: favour latency (`Responsive`) or image quality.
#[derive(Clone, Copy, Debug, PartialEq, Eq, Structural)]
pub enum StreamQualityProfile {
    Responsive,
    Quality,
}

/// The profile a payload names: trimmed, ASCII case ignored, with its aliases.
pub open spec fn spec_quality_profile(value: Seq<char>) -> Option<StreamQualityProfile> {
    let n = ascii_lower(trim(value));
    if n == "responsive"@ || n == "reactive"@ || n == "reactif"@ {
        Some(StreamQualityProfile::Responsive)
    } else if n == "quality"@ || n == "qualite"@ {
        Some(StreamQualityProfile::Quality)
    } else {
        None
    }
}

impl StreamQualityProfile {
    /// Reads a profile from a signaling payload (`responsive`/`reactive`/`reactif`,
    /// `quality`/`qualite`).
    pub fn from_payload(value: &str) -> (r: Option<Self>)
        ensures
            r == spec_quality_profile(value@),
    {
        let raw = chars_of(value);
        let t = trim_chars(raw.as_slice());
        let n = ascii_lowercase(t.as_slice());
        let n = n.as_slice();
        if eq_lit(n, "responsive") || eq_lit(n, "reactive") || eq_lit(n, "reactif") {
            Some(StreamQualityProfile::Responsive)
        } else if eq_lit(n, "quality") || eq_lit(n, "qualite") {
            Some(StreamQualityProfile::Quality)
        } else {
            None
        }
    }
}

/// Frame rate and bitrate handed to the encoder.
#[derive(Clone, Copy, Debug, PartialEq, Eq, Structural)]
pub struct AdaptiveVideoConfig {
    pub target_fps: u32,
    pub bitrate_bps: u32,
}

pub open spec fn min_u32(a: u32, b: u32) -> u32 {
    if a <= b {
        a
    } else {
        b
    }
}

pub open spec fn max_u32(a: u32, b: u32) -> u32 {
    if a >= b {
        a
    } else {
        b
    }
}

/// What a profile allows of a preset: the preset itself (at least 1 fps) for
/// `Quality`, capped at 30 fps and 4 Mbps for `Responsive`.
pub open spec fn spec_profile_target(
    profile: StreamQualityProfile,
    preset: VideoEncoderPreset,
) -> AdaptiveVideoConfig {
    let fps = max_u32(preset.target_fps, 1);
    match profile {
        StreamQualityProfile::Quality => AdaptiveVideoConfig {
            target_fps: fps,
            bitrate_bps: preset.bitrate_bps,
        },
        StreamQualityProfile::Responsive => AdaptiveVideoConfig {
            target_fps: min_u32(fps, 30),
            bitrate_bps: min_u32(preset.bitrate_bps, 4_000_000),
        },
    }
}

/// Encoder target for a quality profile applied to an encoder preset.
pub fn profile_target_for_preset(
    profile: StreamQualityProfile,
    preset: VideoEncoderPreset,
) -> (r: AdaptiveVideoConfig)
    ensures
        r == spec_profile_target(profile, preset),
{
    let base = AdaptiveVideoConfig {
        target_fps: if preset.target_fps >= 1 {
            preset.target_fps
        } else {
            1
        },
        bitrate_bps: preset.bitrate_bps,
    };
    match profile {
        StreamQualityProfile::Quality => base,
        StreamQualityProfile::Responsive => AdaptiveVideoConfig {
            target_fps: if base.target_fps <= 30 {
                base.target_fps
            } else {
                30
            },
            bitrate_bps: if base.bitrate_bps <= 4_000_000 {
                base.bitrate_bps
            } else {
                4_000_000
            },
        },
    }
}

/// A limit lowered by the FPS tier and by a bitrate override (an override
/// below 100 kbps counts as 100 kbps); neither raises the limit.
pub open spec fn spec_external_limits(
    limit: AdaptiveVideoConfig,
    tier: FpsTier,
    bitrate_override: Option<u32>,
) -> AdaptiveVideoConfig {
    AdaptiveVideoConfig {
        target_fps: min_u32(limit.target_fps, spec_tier_fps(tier)),
        bitrate_bps: match bitrate_override {
            Some(o) => min_u32(limit.bitrate_bps, max_u32(o, 100_000)),
            None => limit.bitrate_bps,
        },
    }
}

/// Applies the FPS tier and an optional bitrate override to a profile limit.
pub fn apply_external_limits(
    profile_limit: AdaptiveVideoConfig,
    fps_tier: FpsTier,
    bitrate_override: Option<u32>,
) -> (r: AdaptiveVideoConfig)
    ensures
        r == spec_external_limits(profile_limit, fps_tier, bitrate_override),
{
    let mut limit = profile_limit;
    let tier_fps = fps_tier.target_fps();
    if tier_fps < limit.target_fps {
        limit.target_fps = tier_fps;
    }
    if let Some(override_bitrate) = bitrate_override {
        let floor = if override_bitrate >= 100_000 {
            override_bitrate
        } else {
            100_000
        };
        if floor < limit.bitrate_bps {
            limit.bitrate_bps = floor;
        }
    }
    limit
}

/// `std::time::SystemTime`, a reading of the system clock.
#[verifier::external_type_specification]
#[verifier::external_body]
pub struct ExSystemTime(std::time::SystemTime);

/// `SystemTime::now`: the current reading of the system clock; nothing is
/// promised of it.
#[verifier::external_body]
fn system_now() -> std::time::SystemTime {
    std::time::SystemTime::now()
}

/// `SystemTime::duration_since(UNIX_EPOCH)`: the time from the Unix epoch
/// to `t`, `None` when `t` lies before it; nothing more is stated.
#[verifier::external_body]
fn since_unix_epoch(t: std::time::SystemTime) -> Option<std::time::Duration> {
    t.duration_since(std::time::UNIX_EPOCH).ok()
}

/// `Duration::as_millis`: the whole milliseconds of `d`; nothing is stated
/// of the value.
#[verifier::external_body]
fn duration_millis(d: std::time::Duration) -> u128 {
    d.as_millis()
}

/// Milliseconds since the Unix epoch (truncated to 64 bits), 0 when the
/// clock is set before it.
pub(crate) fn unix_time_millis() -> u64 {
    match since_unix_epoch(system_now()) {
        Some(d) => duration_millis(d) as u64,
        None => 0,
    }
}

/// Input last seen at `last_ms` (0: never) counts as recent at `now_ms` when
/// it is at most `window_ms` old (a clock behind `last_ms` counts as no age).
pub open spec fn active_at(last_ms: u64, now_ms: u64, window_ms: u64) -> bool {
    last_ms > 0 && (if now_ms >= last_ms {
        now_ms - last_ms
    } else {
        0
    }) <= window_ms
}

/// Time of the last viewer input, shared by the capture loops.
pub struct StreamingActivityState {
    pub last_input_unix_ms: u64,
}

impl StreamingActivityState {
    /// No input seen yet.
    pub fn new() -> (r: Self)
        ensures
            r.last_input_unix_ms == 0,
    {
        StreamingActivityState { last_input_unix_ms: 0 }
    }

    /// Records viewer input at time `now_ms`.
    pub fn mark_input_activity_at(&mut self, now_ms: u64)
        ensures
            final(self).last_input_unix_ms == now_ms,
    {
        self.last_input_unix_ms = now_ms;
    }

    /// Records viewer input now.
    pub fn mark_input_activity(&mut self) {
        let now = unix_time_millis();
        self.mark_input_activity_at(now);
    }

    /// Whether input was seen at most `window_ms` before `now_ms`.
    pub fn is_active_recent_at(&self, now_ms: u64, window_ms: u64) -> (r: bool)
        ensures
            r == active_at(self.last_input_unix_ms, now_ms, window_ms),
    {
        let last = self.last_input_unix_ms;
        last > 0 && now_ms.saturating_sub(last) <= window_ms
    }

    /// Whether input was seen within the last `window_ms`: the answer of
    /// `is_active_recent_at` at the clock's current reading (milliseconds
    /// since the Unix epoch, which nothing here fixes); never true before any
    /// input was recorded.
    pub fn is_active_recent(&self, window_ms: u64) -> (r: bool)
        ensures
            exists|now_ms: u64| r == active_at(self.last_input_unix_ms, now_ms, window_ms),
            r ==> self.last_input_unix_ms > 0,
    {
        let now = unix_time_millis();
        self.is_active_recent_at(now, window_ms)
    }
}

/// Counters of RTCP feedback reports received from the viewer.
pub struct RtcpFeedbackState {
    pub total_reports: u64,
    pub nack_reports: u64,
    pub pli_reports: u64,
    pub fir_reports: u64,
    pub last_feedback_unix_ms: u64,
}

/// A copy of the counters at one moment.
#[derive(Clone, Copy, Debug, PartialEq, Eq, Structural)]
pub struct RtcpFeedbackSnapshot {
    pub total_reports: u64,
    pub nack_reports: u64,
    pub pli_reports: u64,
    pub fir_reports: u64,
    pub last_feedback_unix_ms: u64,
}

/// Feedback received between two snapshots.
#[derive(Clone, Copy, Debug, PartialEq, Eq, Structural)]
pub struct RtcpDelta {
    pub total: u64,
    pub nack: u64,
    pub pli: u64,
    pub fir: u64,
    pub feedback_stale: bool,
}

/// A report mentions a negative acknowledgement.
pub open spec fn mentions_nack(lower: Seq<char>) -> bool {
    has_infix(lower, "nack"@)
}

/// A report mentions a picture loss indication.
pub open spec fn mentions_pli(lower: Seq<char>) -> bool {
    has_infix(lower, "picturelossindication"@) || has_infix(lower, " pli"@)
}

/// A report mentions a full intra request.
pub open spec fn mentions_fir(lower: Seq<char>) -> bool {
    has_infix(lower, "fullintrarequest"@) || has_infix(lower, " fir"@)
}


/// One report with text `text`, received at `now_ms`, counted: the total
/// and each kind it mentions (ASCII case ignored) go up by one, wrapping as
/// the atomic counters do; the time of the last report becomes `now_ms`.
pub open spec fn feedback_recorded(
    before: RtcpFeedbackSnapshot,
    after: RtcpFeedbackSnapshot,
    text: Seq<char>,
    now_ms: u64,
) -> bool {
    let lower = ascii_lower(text);
    &&& after.total_reports == wrapping_bump(before.total_reports, true)
    &&& after.nack_reports == wrapping_bump(before.nack_reports, mentions_nack(lower))
    &&& after.pli_reports == wrapping_bump(before.pli_reports, mentions_pli(lower))
    &&& after.fir_reports == wrapping_bump(before.fir_reports, mentions_fir(lower))
    &&& after.last_feedback_unix_ms == now_ms
}

/// `count` plus one when `cond` holds, wrapping at `u64::MAX`.
pub open spec fn wrapping_bump(count: u64, cond: bool) -> u64 {
    if !cond {
        count
    } else if count == u64::MAX {
        0
    } else {
        (count + 1) as u64
    }
}

impl Default for RtcpFeedbackState {
    /// No report received.
    fn default() -> (r: Self)
        ensures
            r.total_reports == 0 && r.nack_reports == 0 && r.pli_reports == 0 && r.fir_reports
                == 0 && r.last_feedback_unix_ms == 0,
    {
        RtcpFeedbackState::new()
    }
}

impl Default for StreamingActivityState {
    /// No input seen yet.
    fn default() -> (r: Self)
        ensures
            r.last_input_unix_ms == 0,
    {
        StreamingActivityState::new()
    }
}

impl RtcpFeedbackState {
    /// No report received.
    pub fn new() -> (r: Self)
        ensures
            r.total_reports == 0 && r.nack_reports == 0 && r.pli_reports == 0 && r.fir_reports
                == 0 && r.last_feedback_unix_ms == 0,
    {
        RtcpFeedbackState {
            total_reports: 0,
            nack_reports: 0,
            pli_reports: 0,
            fir_reports: 0,
            last_feedback_unix_ms: 0,
        }
    }

    /// Counts one report received at `now_ms`, classified by what its text
    /// mentions (ASCII case ignored); counters wrap as the atomic counters do.
    pub fn mark_feedback_at(&mut self, packet_text: &str, now_ms: u64)
        ensures
            feedback_recorded(old(self).snapshot_view(), final(self).snapshot_view(), packet_text@, now_ms),
    {
        self.total_reports = self.total_reports.wrapping_add(1);
        let raw = chars_of(packet_text);
        let lower = ascii_lowercase(raw.as_slice());
        let l = lower.as_slice();
        if contains_lit(l, "nack") {
            self.nack_reports = self.nack_reports.wrapping_add(1);
        }
        if contains_lit(l, "picturelossindication") || contains_lit(l, " pli") {
            self.pli_reports = self.pli_reports.wrapping_add(1);
        }
        if contains_lit(l, "fullintrarequest") || contains_lit(l, " fir") {
            self.fir_reports = self.fir_reports.wrapping_add(1);
        }
        self.last_feedback_unix_ms = now_ms;
    }

    /// Counts one report received now.
    pub fn mark_feedback_from_packet_text(&mut self, packet_text: &str)
        ensures
            exists|now_ms: u64| feedback_recorded(old(self).snapshot_view(), final(self).snapshot_view(), packet_text@, now_ms),
    {
        let now = unix_time_millis();
        self.mark_feedback_at(packet_text, now);
    }

    /// The current counters.
    pub fn snapshot(&self) -> (r: RtcpFeedbackSnapshot)
        ensures
            r.total_reports == self.total_reports,
            r.nack_reports == self.nack_reports,
            r.pli_reports == self.pli_reports,
            r.fir_reports == self.fir_reports,
            r.last_feedback_unix_ms == self.last_feedback_unix_ms,
    {
        RtcpFeedbackSnapshot {
            total_reports: self.total_reports,
            nack_reports: self.nack_reports,
            pli_reports: self.pli_reports,
            fir_reports: self.fir_reports,
            last_feedback_unix_ms: self.last_feedback_unix_ms,
        }
    }
}

pub open spec fn sat_sub(a: u64, b: u64) -> u64 {
    if a >= b {
        (a - b) as u64
    } else {
        0
    }
}

/// Feedback between `last` and `current` as seen at `now_ms`: counter
/// differences (never negative) and whether the last report is over 5 s old.
pub open spec fn spec_rtcp_delta(
    current: RtcpFeedbackSnapshot,
    last: RtcpFeedbackSnapshot,
    now_ms: u64,
) -> RtcpDelta {
    RtcpDelta {
        total: sat_sub(current.total_reports, last.total_reports),
        nack: sat_sub(current.nack_reports, last.nack_reports),
        pli: sat_sub(current.pli_reports, last.pli_reports),
        fir: sat_sub(current.fir_reports, last.fir_reports),
        feedback_stale: current.last_feedback_unix_ms > 0 && sat_sub(
            now_ms,
            current.last_feedback_unix_ms,
        ) > 5_000,
    }
}

/// Feedback received since `last_snapshot` as seen at `now_ms`, moving
/// `last_snapshot` to the current counters.
pub fn collect_rtcp_delta_at(
    rtcp_feedback: &RtcpFeedbackState,
    last_snapshot: &mut RtcpFeedbackSnapshot,
    now_ms: u64,
) -> (r: RtcpDelta)
    ensures
        r == spec_rtcp_delta(rtcp_feedback.snapshot_view(), *old(last_snapshot), now_ms),
        *final(last_snapshot) == rtcp_feedback.snapshot_view(),
{
    let current = rtcp_feedback.snapshot();
    let delta = RtcpDelta {
        total: current.total_reports.saturating_sub(last_snapshot.total_reports),
        nack: current.nack_reports.saturating_sub(last_snapshot.nack_reports),
        pli: current.pli_reports.saturating_sub(last_snapshot.pli_reports),
        fir: current.fir_reports.saturating_sub(last_snapshot.fir_reports),
        feedback_stale: current.last_feedback_unix_ms > 0 && now_ms.saturating_sub(
            current.last_feedback_unix_ms,
        ) > 5_000,
    };
    *last_snapshot = current;
    delta
}

/// Feedback received since `last_snapshot`, moving `last_snapshot` to the
/// current counters; staleness is judged against the current time.
pub fn collect_rtcp_delta(
    rtcp_feedback: &RtcpFeedbackState,
    last_snapshot: &mut RtcpFeedbackSnapshot,
) -> (r: RtcpDelta)
    ensures
        exists|now_ms: u64| r == spec_rtcp_delta(rtcp_feedback.snapshot_view(), *old(last_snapshot), now_ms),
        *final(last_snapshot) == rtcp_feedback.snapshot_view(),
{
    let now = unix_time_millis();
    collect_rtcp_delta_at(rtcp_feedback, last_snapshot, now)
}

impl RtcpFeedbackState {
    /// The counters as a snapshot value.
    pub open spec fn snapshot_view(&self) -> RtcpFeedbackSnapshot {
        RtcpFeedbackSnapshot {
            total_reports: self.total_reports,
            nack_reports: self.nack_reports,
            pli_reports: self.pli_reports,
            fir_reports: self.fir_reports,
            last_feedback_unix_ms: self.last_feedback_unix_ms,
        }
    }
}


// ---------------------------------------------------------------------------
// Rate controller
// ---------------------------------------------------------------------------

/// What the sender observed since the last adjustment.
#[derive(Clone, Copy, Debug, Default)]
pub struct AdaptiveFeedback {
    pub dropped_before_encode: u64,
    pub dropped_before_send: u64,
    pub send_error: bool,
    pub rtcp_nack_delta: u64,
    pub rtcp_pli_delta: u64,
    pub rtcp_fir_delta: u64,
    pub rtcp_feedback_stale: bool,
}

impl AdaptiveFeedback {
    /// Hard congestion: a send error, a frame dropped before sending, or a
    /// picture-loss or intra-frame request from the viewer.
    pub open spec fn is_hard_congestion(self) -> bool {
        self.send_error || self.dropped_before_send > 0 || self.rtcp_pli_delta > 0 || self.rtcp_fir_delta > 0
    }

    /// Network congestion: at least two negative acknowledgements.
    pub open spec fn is_network_congestion(self) -> bool {
        self.rtcp_nack_delta >= 2
    }

    /// The encoder falls behind with no network trouble: more than two
    /// frames dropped before encoding and nothing else reported.
    pub open spec fn is_local_encode_pressure(self) -> bool {
        &&& self.dropped_before_encode > 2
        &&& self.dropped_before_send == 0
        &&& !self.send_error
        &&& self.rtcp_nack_delta == 0
        &&& self.rtcp_pli_delta == 0
        &&& self.rtcp_fir_delta == 0
    }

    /// Whether the feedback shows hard congestion.
    pub fn hard_congestion(&self) -> (r: bool)
        ensures
            r == self.is_hard_congestion(),
    {
        self.send_error || self.dropped_before_send > 0 || self.rtcp_pli_delta > 0 || self.rtcp_fir_delta > 0
    }

    /// Whether the feedback shows network congestion.
    pub fn network_congestion(&self) -> (r: bool)
        ensures
            r == self.is_network_congestion(),
    {
        self.rtcp_nack_delta >= 2
    }

    /// Whether the feedback shows the encoder alone falling behind.
    pub fn local_encode_pressure(&self) -> (r: bool)
        ensures
            r == self.is_local_encode_pressure(),
    {
        self.dropped_before_encode > 2 && self.dropped_before_send == 0 && !self.send_error
            && self.rtcp_nack_delta == 0 && self.rtcp_pli_delta == 0 && self.rtcp_fir_delta == 0
    }
}

/// What the rate controller does with one feedback sample.
#[derive(Clone, Copy, Debug, PartialEq, Eq, Structural)]
pub enum RateStep {
    /// Step down: the frame rate by `fps_step`, the bitrate to `bitrate_bps`
    /// (before the floors apply).
    Down { fps_step: u32, bitrate_bps: u32 },
    /// Step up towards the ceiling.
    Up,
    /// Keep the configuration.
    Hold,
}

/// The controller's reaction to feedback at `now_ms`, given whether the
/// smoothed stress is high (3 or more) and low (0.6 or less), first match
/// wins: hard congestion, at least 700 ms after the last adjustment, steps
/// down 7 fps and to 80 % of the bitrate (rounded down); local encode
/// pressure, after 1.5 s, steps down 2 fps; high stress or network
/// congestion, after 1.3 s, steps down 3 fps and to 89 % of the bitrate;
/// low stress without hard congestion, after 3 s, steps up.
pub open spec fn spec_rate_step(
    c: AdaptiveRateController,
    f: AdaptiveFeedback,
    stress_high: bool,
    stress_low: bool,
    now_ms: u64,
) -> RateStep {
    let since = sat_sub(now_ms, c.last_adjust_ms);
    let b = c.current.bitrate_bps as int;
    if f.is_hard_congestion() && since >= 700 {
        RateStep::Down { fps_step: 7, bitrate_bps: (b * 4 / 5) as u32 }
    } else if f.is_local_encode_pressure() && since >= 1500 {
        RateStep::Down { fps_step: 2, bitrate_bps: c.current.bitrate_bps }
    } else if (stress_high || f.is_network_congestion()) && since >= 1300 {
        RateStep::Down { fps_step: 3, bitrate_bps: (b * 89 / 100) as u32 }
    } else if stress_low && !f.is_hard_congestion() && since >= 3000 {
        RateStep::Up
    } else {
        RateStep::Hold
    }
}

/// See `spec_rate_step`.
pub fn rate_step(
    c: &AdaptiveRateController,
    f: &AdaptiveFeedback,
    stress_high: bool,
    stress_low: bool,
    now_ms: u64,
) -> (r: RateStep)
    ensures
        r == spec_rate_step(*c, *f, stress_high, stress_low, now_ms),
{
    let hard = f.hard_congestion();
    let b = c.current.bitrate_bps as u64;
    if hard && c.may_adjust(now_ms, 700) {
        RateStep::Down { fps_step: 7, bitrate_bps: (b * 4 / 5) as u32 }
    } else if f.local_encode_pressure() && c.may_adjust(now_ms, 1500) {
        RateStep::Down { fps_step: 2, bitrate_bps: c.current.bitrate_bps }
    } else if (stress_high || f.network_congestion()) && c.may_adjust(now_ms, 1300) {
        RateStep::Down { fps_step: 3, bitrate_bps: (b * 89 / 100) as u32 }
    } else if stress_low && !hard && c.may_adjust(now_ms, 3000) {
        RateStep::Up
    } else {
        RateStep::Hold
    }
}

/// The frame-rate tier the load calls for, from whether the network is
/// constrained, the CPU load is at 85 % or more, it is below 70 %, and the
/// user is active: idle under network constraint or high load, active for
/// an active user under 70 %, else normal.
pub fn auto_fps_tier(network_constrained: bool, cpu_at_least_85: bool, cpu_below_70: bool, user_active: bool) -> (r: FpsTier)
    ensures
        r == if network_constrained || cpu_at_least_85 {
            FpsTier::Idle
        } else if user_active && cpu_below_70 {
            FpsTier::Active
        } else {
            FpsTier::Normal
        },
{
    if network_constrained || cpu_at_least_85 {
        FpsTier::Idle
    } else if user_active && cpu_below_70 {
        FpsTier::Active
    } else {
        FpsTier::Normal
    }
}

/// After a frame is sent: whether the sender counts the network as
/// constrained for the next moments: a send error, a frame dropped before
/// sending, three or more negative acknowledgements, or a picture-loss or
/// intra-frame request.
pub fn frame_signals_network_pressure(send_error: bool, dropped_before_send: u64, delta: &RtcpDelta) -> (r: bool)
    ensures
        r == (send_error || dropped_before_send > 0 || delta.nack >= 3 || delta.pli > 0 || delta.fir > 0),
{
    send_error || dropped_before_send > 0 || delta.nack >= 3 || delta.pli > 0 || delta.fir > 0
}

/// Whether the viewer's feedback asks for an IDR frame next: a picture-loss
/// or intra-frame request.
pub fn feedback_requests_idr(delta: &RtcpDelta) -> (r: bool)
    ensures
        r == (delta.pli > 0 || delta.fir > 0),
{
    delta.pli > 0 || delta.fir > 0
}

/// Whether a new target calls for rebuilding the hardware encoder: the
/// bitrate falls below 70 % or rises above 143 % of the active one (an
/// active bitrate of 0 counts as 1), or the frame rate moves by 8 or more.
/// Smaller changes keep the running encoder.
pub open spec fn spec_encoder_rebuild_needed(active: AdaptiveVideoConfig, latest: AdaptiveVideoConfig) -> bool {
    let base: int = if active.bitrate_bps == 0 { 1 } else { active.bitrate_bps as int };
    let fps_delta: int = if latest.target_fps >= active.target_fps {
        latest.target_fps - active.target_fps
    } else {
        active.target_fps - latest.target_fps
    };
    ||| 10 * (latest.bitrate_bps as int) < 7 * base
    ||| 100 * (latest.bitrate_bps as int) > 143 * base
    ||| fps_delta >= 8
}

/// See `spec_encoder_rebuild_needed`.
pub fn encoder_rebuild_needed(active: AdaptiveVideoConfig, latest: AdaptiveVideoConfig) -> (r: bool)
    ensures
        r == spec_encoder_rebuild_needed(active, latest),
{
    let base: u64 = if active.bitrate_bps == 0 { 1 } else { active.bitrate_bps as u64 };
    let new_bitrate: u64 = latest.bitrate_bps as u64;
    let fps_delta: u32 = if latest.target_fps >= active.target_fps {
        latest.target_fps - active.target_fps
    } else {
        active.target_fps - latest.target_fps
    };
    10 * new_bitrate < 7 * base || 100 * new_bitrate > 143 * base || fps_delta >= 8
}

/// Lowest frame rate the controller goes down to.
pub const MIN_ADAPTIVE_FPS: u32 = 10;

/// Lowest bitrate the controller goes down to.
pub const MIN_ADAPTIVE_BITRATE_BPS: u32 = 800000;

/// The integer state of the adaptive rate controller: the configuration in
/// force, the ceiling set by the profile, the floors, and when it last
/// adjusted (milliseconds of a monotonic clock).
#[derive(Clone, Copy, Debug)]
pub struct AdaptiveRateController {
    pub current: AdaptiveVideoConfig,
    pub ceiling: AdaptiveVideoConfig,
    pub min_fps: u32,
    pub min_bitrate_bps: u32,
    pub last_adjust_ms: u64,
}

impl AdaptiveRateController {
    /// Starts at `initial`, which is also the ceiling; floors of 10 fps and
    /// 800 kbps.
    pub fn new(initial: AdaptiveVideoConfig, now_ms: u64) -> (c: Self)
        ensures
            c.current == initial,
            c.ceiling == initial,
            c.min_fps == MIN_ADAPTIVE_FPS,
            c.min_bitrate_bps == MIN_ADAPTIVE_BITRATE_BPS,
            c.last_adjust_ms == now_ms,
    {
        AdaptiveRateController {
            current: initial,
            ceiling: initial,
            min_fps: MIN_ADAPTIVE_FPS,
            min_bitrate_bps: MIN_ADAPTIVE_BITRATE_BPS,
            last_adjust_ms: now_ms,
        }
    }

    /// Moves to the given configuration; returns it when it differs from the
    /// current one, `None` when nothing changed.
    pub fn set_if_changed(&mut self, target_fps: u32, bitrate_bps: u32) -> (r: Option<AdaptiveVideoConfig>)
        ensures
            final(self).current == (AdaptiveVideoConfig { target_fps, bitrate_bps }),
            final(self).ceiling == old(self).ceiling,
            final(self).min_fps == old(self).min_fps,
            final(self).min_bitrate_bps == old(self).min_bitrate_bps,
            final(self).last_adjust_ms == old(self).last_adjust_ms,
            r == if old(self).current == (AdaptiveVideoConfig { target_fps, bitrate_bps }) {
                None
            } else {
                Some(AdaptiveVideoConfig { target_fps, bitrate_bps })
            },
    {
        let next = AdaptiveVideoConfig { target_fps, bitrate_bps };
        if next.target_fps == self.current.target_fps && next.bitrate_bps == self.current.bitrate_bps {
            return None;
        }
        self.current = next;
        Some(next)
    }

    /// Sets the ceiling from a profile limit (never below the floors) and
    /// brings the current configuration under it.
    pub fn apply_profile_limit(&mut self, limit: AdaptiveVideoConfig) -> (r: Option<AdaptiveVideoConfig>)
        ensures
            final(self).ceiling == (AdaptiveVideoConfig {
                target_fps: max_u32(limit.target_fps, old(self).min_fps),
                bitrate_bps: max_u32(limit.bitrate_bps, old(self).min_bitrate_bps),
            }),
            final(self).current == (AdaptiveVideoConfig {
                target_fps: min_u32(old(self).current.target_fps, final(self).ceiling.target_fps),
                bitrate_bps: min_u32(old(self).current.bitrate_bps, final(self).ceiling.bitrate_bps),
            }),
            r == if old(self).current == final(self).current {
                None
            } else {
                Some(final(self).current)
            },
            final(self).min_fps == old(self).min_fps,
            final(self).min_bitrate_bps == old(self).min_bitrate_bps,
            final(self).last_adjust_ms == old(self).last_adjust_ms,
    {
        self.ceiling = AdaptiveVideoConfig {
            target_fps: if limit.target_fps >= self.min_fps {
                limit.target_fps
            } else {
                self.min_fps
            },
            bitrate_bps: if limit.bitrate_bps >= self.min_bitrate_bps {
                limit.bitrate_bps
            } else {
                self.min_bitrate_bps
            },
        };
        let clamped_fps = if self.current.target_fps <= self.ceiling.target_fps {
            self.current.target_fps
        } else {
            self.ceiling.target_fps
        };
        let clamped_bitrate = if self.current.bitrate_bps <= self.ceiling.bitrate_bps {
            self.current.bitrate_bps
        } else {
            self.ceiling.bitrate_bps
        };
        self.set_if_changed(clamped_fps, clamped_bitrate)
    }

    /// Whether at least `min_interval_ms` passed since the last adjustment
    /// (a clock before it counts as no time passed).
    pub fn may_adjust(&self, now_ms: u64, min_interval_ms: u64) -> (r: bool)
        ensures
            r == (sat_sub(now_ms, self.last_adjust_ms) >= min_interval_ms),
    {
        now_ms.saturating_sub(self.last_adjust_ms) >= min_interval_ms
    }

    /// Steps down at `now_ms`: the frame rate by `fps_step` and the bitrate
    /// to `scaled_bitrate_bps`, neither below its floor.
    pub fn step_down(&mut self, fps_step: u32, scaled_bitrate_bps: u32, now_ms: u64) -> (r: Option<AdaptiveVideoConfig>)
        ensures
            final(self).current == (AdaptiveVideoConfig {
                target_fps: max_u32(
                    (if old(self).current.target_fps >= fps_step {
                        old(self).current.target_fps - fps_step
                    } else {
                        0
                    }) as u32,
                    old(self).min_fps,
                ),
                bitrate_bps: max_u32(scaled_bitrate_bps, old(self).min_bitrate_bps),
            }),
            final(self).current.target_fps >= old(self).min_fps,
            final(self).current.bitrate_bps >= old(self).min_bitrate_bps,
            r == if old(self).current == final(self).current {
                None
            } else {
                Some(final(self).current)
            },
            final(self).ceiling == old(self).ceiling,
            final(self).min_fps == old(self).min_fps,
            final(self).min_bitrate_bps == old(self).min_bitrate_bps,
            final(self).last_adjust_ms == now_ms,
    {
        self.last_adjust_ms = now_ms;
        let lowered = self.current.target_fps.saturating_sub(fps_step);
        let next_fps = if lowered >= self.min_fps {
            lowered
        } else {
            self.min_fps
        };
        let next_bitrate = if scaled_bitrate_bps >= self.min_bitrate_bps {
            scaled_bitrate_bps
        } else {
            self.min_bitrate_bps
        };
        self.set_if_changed(next_fps, next_bitrate)
    }

    /// Steps up at `now_ms`: 2 fps and 500 kbps more, up to the ceiling (the
    /// frame rate up to the ceiling or the floor, whichever is higher).
    pub fn step_up(&mut self, now_ms: u64) -> (r: Option<AdaptiveVideoConfig>)
        requires
            old(self).current.target_fps + 2 <= u32::MAX,
            old(self).current.bitrate_bps + 500_000 <= u32::MAX,
        ensures
            final(self).current == (AdaptiveVideoConfig {
                target_fps: min_u32(
                    (old(self).current.target_fps + 2) as u32,
                    max_u32(old(self).ceiling.target_fps, old(self).min_fps),
                ),
                bitrate_bps: min_u32((old(self).current.bitrate_bps + 500_000) as u32, old(self).ceiling.bitrate_bps),
            }),
            final(self).current.bitrate_bps <= old(self).ceiling.bitrate_bps,
            r == if old(self).current == final(self).current {
                None
            } else {
                Some(final(self).current)
            },
            final(self).ceiling == old(self).ceiling,
            final(self).min_fps == old(self).min_fps,
            final(self).min_bitrate_bps == old(self).min_bitrate_bps,
            final(self).last_adjust_ms == now_ms,
    {
        self.last_adjust_ms = now_ms;
        let cap = if self.ceiling.target_fps >= self.min_fps {
            self.ceiling.target_fps
        } else {
            self.min_fps
        };
        let raised = self.current.target_fps + 2;
        let next_fps = if raised <= cap {
            raised
        } else {
            cap
        };
        let more = self.current.bitrate_bps + 500_000;
        let next_bitrate = if more <= self.ceiling.bitrate_bps {
            more
        } else {
            self.ceiling.bitrate_bps
        };
        self.set_if_changed(next_fps, next_bitrate)
    }
}

// ---------------------------------------------------------------------------
// Laws
// ---------------------------------------------------------------------------

/// The tier and a bitrate override never raise a limit, and applying them a
/// second time changes nothing.
pub proof fn law_external_limits_only_lower(limit: AdaptiveVideoConfig, tier: FpsTier, bitrate_override: Option<u32>)
    ensures
        spec_external_limits(limit, tier, bitrate_override).target_fps <= limit.target_fps,
        spec_external_limits(limit, tier, bitrate_override).bitrate_bps <= limit.bitrate_bps,
        spec_external_limits(spec_external_limits(limit, tier, bitrate_override), tier, bitrate_override)
            == spec_external_limits(limit, tier, bitrate_override),
{
}

/// A profile never asks for more than its preset's bitrate, nor for more
/// frames than the preset (counted as at least one).
pub proof fn law_profile_target_within_preset(profile: StreamQualityProfile, preset: VideoEncoderPreset)
    ensures
        spec_profile_target(profile, preset).bitrate_bps <= preset.bitrate_bps,
        1 <= spec_profile_target(profile, preset).target_fps <= max_u32(preset.target_fps, 1),
{
}

/// The tiers are ordered by frame rate: idle below normal below active.
pub proof fn law_tier_fps_ordering()
    ensures
        spec_tier_fps(FpsTier::Idle) < spec_tier_fps(FpsTier::Normal) < spec_tier_fps(FpsTier::Active),
{
}

/// A tier or profile name is read the same with surrounding whitespace or
/// another ASCII case.
pub proof fn law_payload_names_are_normalized(value: Seq<char>)
    ensures
        spec_fps_tier(value) == spec_fps_tier(ascii_lower(trim(value))),
        spec_quality_profile(value) == spec_quality_profile(ascii_lower(trim(value))),
{
    crate::text::lemma_lower_trim_normal(value);
}

/// Right after a collection, the snapshot matches the counters, so a second
/// collection with no report in between finds no new feedback.
pub proof fn law_rtcp_collection_settles(state: RtcpFeedbackState, now_ms: u64)
    ensures
        spec_rtcp_delta(state.snapshot_view(), state.snapshot_view(), now_ms).total == 0,
        spec_rtcp_delta(state.snapshot_view(), state.snapshot_view(), now_ms).nack == 0,
        spec_rtcp_delta(state.snapshot_view(), state.snapshot_view(), now_ms).pli == 0,
        spec_rtcp_delta(state.snapshot_view(), state.snapshot_view(), now_ms).fir == 0,
{
}

/// Each RTCP report is counted exactly once in the total, and once more in
/// each kind (NACK, PLI, FIR) its text mentions, ASCII case ignored, as long
/// as no counter is at its limit; the time of the report is recorded.
pub proof fn law_feedback_counts_one_report(
    before: RtcpFeedbackSnapshot,
    after: RtcpFeedbackSnapshot,
    text: Seq<char>,
    now_ms: u64,
)
    requires
        feedback_recorded(before, after, text, now_ms),
        before.total_reports < u64::MAX,
        before.nack_reports < u64::MAX,
        before.pli_reports < u64::MAX,
        before.fir_reports < u64::MAX,
    ensures
        after.total_reports == before.total_reports + 1,
        after.nack_reports == before.nack_reports + if mentions_nack(ascii_lower(text)) { 1int } else { 0int },
        after.pli_reports == before.pli_reports + if mentions_pli(ascii_lower(text)) { 1int } else { 0int },
        after.fir_reports == before.fir_reports + if mentions_fir(ascii_lower(text)) { 1int } else { 0int },
        after.last_feedback_unix_ms == now_ms,
{
}

/// After a profile limit is applied, the configuration in force is within
/// the ceiling and the ceiling is at or above the floors.
pub proof fn law_profile_limit_bounds(before: AdaptiveRateController, limit: AdaptiveVideoConfig)
    ensures
        ({
            let ceiling = AdaptiveVideoConfig {
                target_fps: max_u32(limit.target_fps, before.min_fps),
                bitrate_bps: max_u32(limit.bitrate_bps, before.min_bitrate_bps),
            };
            &&& min_u32(before.current.target_fps, ceiling.target_fps) <= ceiling.target_fps
            &&& min_u32(before.current.bitrate_bps, ceiling.bitrate_bps) <= ceiling.bitrate_bps
            &&& ceiling.target_fps >= before.min_fps
            &&& ceiling.bitrate_bps >= before.min_bitrate_bps
        }),
{
}

/// The interval between two stream statistics reports, in milliseconds,
/// from its setting: a number, trimmed, held within 250 to 10 000; 1 000
/// when the setting is absent or not a number.
pub fn stream_log_interval_ms_from(raw: Option<&str>) -> (r: u64)
    ensures
        r == crate::session::clamped_setting(
            match raw {
                Some(s) => Some(s@),
                None => None,
            },
            250,
            10_000,
            1_000,
        ),
{
    crate::session::clamped_setting_of(raw, 250, 10_000, 1_000)
}

/// The integer counters of one stream statistics window: what was sent, how
/// many pipeline samples were taken, what was dropped and what feedback came.
#[derive(Clone, Copy, Debug, PartialEq, Eq, Structural)]
pub struct StreamCounters {
    pub sent_bytes: usize,
    pub sent_frames: usize,
    pub samples: u64,
    pub dropped_before_encode: u64,
    pub dropped_before_send: u64,
    pub rtcp_nack: u64,
    pub rtcp_pli: u64,
    pub rtcp_fir: u64,
}

/// `a + b`, held at `u64::MAX`.
pub open spec fn sat_add(a: u64, b: u64) -> u64 {
    if a + b > u64::MAX {
        u64::MAX
    } else {
        (a + b) as u64
    }
}

impl StreamCounters {
    /// A window with nothing counted.
    pub fn new() -> (r: Self)
        ensures
            r == (StreamCounters {
                sent_bytes: 0,
                sent_frames: 0,
                samples: 0,
                dropped_before_encode: 0,
                dropped_before_send: 0,
                rtcp_nack: 0,
                rtcp_pli: 0,
                rtcp_fir: 0,
            }),
    {
        StreamCounters {
            sent_bytes: 0,
            sent_frames: 0,
            samples: 0,
            dropped_before_encode: 0,
            dropped_before_send: 0,
            rtcp_nack: 0,
            rtcp_pli: 0,
            rtcp_fir: 0,
        }
    }

    /// Counts one sent frame of `frame_bytes` bytes.
    pub fn record_frame(&mut self, frame_bytes: usize)
        requires
            old(self).sent_bytes + frame_bytes <= usize::MAX,
            old(self).sent_frames < usize::MAX,
        ensures
            *final(self) == (StreamCounters {
                sent_bytes: (old(self).sent_bytes + frame_bytes) as usize,
                sent_frames: (old(self).sent_frames + 1) as usize,
                ..*old(self)
            }),
    {
        self.sent_bytes += frame_bytes;
        self.sent_frames += 1;
    }

    /// Counts one sent RTP packet with `payload_len` payload bytes; the
    /// packet that carries the marker bit ends a frame.
    pub fn record_rtp_packet(&mut self, payload_len: usize, marker: bool)
        requires
            old(self).sent_bytes + payload_len <= usize::MAX,
            marker ==> old(self).sent_frames < usize::MAX,
        ensures
            *final(self) == (StreamCounters {
                sent_bytes: (old(self).sent_bytes + payload_len) as usize,
                sent_frames: if marker {
                    (old(self).sent_frames + 1) as usize
                } else {
                    old(self).sent_frames
                },
                ..*old(self)
            }),
    {
        self.sent_bytes += payload_len;
        if marker {
            self.sent_frames += 1;
        }
    }

    /// Counts one pipeline sample with its drops and feedback, each counter
    /// held at `u64::MAX`.
    pub fn record_pipeline_sample(
        &mut self,
        dropped_before_encode: u64,
        dropped_before_send: u64,
        rtcp_delta: RtcpDelta,
    )
        ensures
            *final(self) == (StreamCounters {
                samples: sat_add(old(self).samples, 1),
                dropped_before_encode: sat_add(old(self).dropped_before_encode, dropped_before_encode),
                dropped_before_send: sat_add(old(self).dropped_before_send, dropped_before_send),
                rtcp_nack: sat_add(old(self).rtcp_nack, rtcp_delta.nack),
                rtcp_pli: sat_add(old(self).rtcp_pli, rtcp_delta.pli),
                rtcp_fir: sat_add(old(self).rtcp_fir, rtcp_delta.fir),
                ..*old(self)
            }),
    {
        self.samples = self.samples.saturating_add(1);
        self.dropped_before_encode = self.dropped_before_encode.saturating_add(dropped_before_encode);
        self.dropped_before_send = self.dropped_before_send.saturating_add(dropped_before_send);
        self.rtcp_nack = self.rtcp_nack.saturating_add(rtcp_delta.nack);
        self.rtcp_pli = self.rtcp_pli.saturating_add(rtcp_delta.pli);
        self.rtcp_fir = self.rtcp_fir.saturating_add(rtcp_delta.fir);
    }
}


/// Signs of lost or broken video count as hard congestion and make the
/// controller back off hardest: a send error, a frame dropped before
/// sending, a picture-loss indication or a full-intra request, once 700 ms
/// have passed since the last adjustment, step down 7 fps and to 80 % of
/// the bitrate (rounded down), whatever else the feedback says. Without any
/// of them the controller never takes that step.
pub proof fn law_loss_signals_back_off_hardest(
    c: AdaptiveRateController,
    f: AdaptiveFeedback,
    stress_high: bool,
    stress_low: bool,
    now_ms: u64,
)
    ensures
        (f.send_error || f.dropped_before_send > 0 || f.rtcp_pli_delta > 0 || f.rtcp_fir_delta > 0) && now_ms
            >= c.last_adjust_ms + 700 ==> spec_rate_step(c, f, stress_high, stress_low, now_ms) == (RateStep::Down {
            fps_step: 7,
            bitrate_bps: (c.current.bitrate_bps * 4 / 5) as u32,
        }),
        !(f.send_error || f.dropped_before_send > 0 || f.rtcp_pli_delta > 0 || f.rtcp_fir_delta > 0) ==> !(
        spec_rate_step(c, f, stress_high, stress_low, now_ms) matches RateStep::Down { fps_step: 7, .. }),
{
}


/// The whole decision on a feedback sample, from its fields: first, a send
/// error, a frame dropped before sending, a picture-loss indication or a
/// full-intra request, 700 ms after the last adjustment, step down 7 fps and
/// to 4/5 of the bitrate; else more than two frames dropped before encoding
/// with no other trouble reported, after 1.5 s, step down 2 fps keeping the
/// bitrate; else high stress or two or more negative acknowledgements, after
/// 1.3 s, step down 3 fps and to 89/100 of the bitrate; else low stress with
/// none of the first signals, after 3 s, step up; otherwise hold. A clock
/// behind the last adjustment counts as no time passed.
pub proof fn law_rate_step_decision(
    c: AdaptiveRateController,
    f: AdaptiveFeedback,
    stress_high: bool,
    stress_low: bool,
    now_ms: u64,
)
    ensures
        ({
            let since: int = if now_ms >= c.last_adjust_ms { now_ms - c.last_adjust_ms } else { 0 };
            let loss = f.send_error || f.dropped_before_send > 0 || f.rtcp_pli_delta > 0 || f.rtcp_fir_delta > 0;
            let encode_only = f.dropped_before_encode > 2 && f.dropped_before_send == 0 && !f.send_error
                && f.rtcp_nack_delta == 0 && f.rtcp_pli_delta == 0 && f.rtcp_fir_delta == 0;
            spec_rate_step(c, f, stress_high, stress_low, now_ms) == if loss && since >= 700 {
                RateStep::Down { fps_step: 7, bitrate_bps: (c.current.bitrate_bps * 4 / 5) as u32 }
            } else if encode_only && since >= 1500 {
                RateStep::Down { fps_step: 2, bitrate_bps: c.current.bitrate_bps }
            } else if (stress_high || f.rtcp_nack_delta >= 2) && since >= 1300 {
                RateStep::Down { fps_step: 3, bitrate_bps: (c.current.bitrate_bps * 89 / 100) as u32 }
            } else if stress_low && !loss && since >= 3000 {
                RateStep::Up
            } else {
                RateStep::Hold
            }
        }),
{
}

} // verus!
