//! Video encoder backends: their labels, FFmpeg encoder names and arguments,
//! default presets, and how a backend request and the tuning variables are read.
use vstd::prelude::*;

use crate::scan::{parse_u32, parse_unsigned, split_lines, text_lines, views};
use crate::text::{
    ascii_lower, ascii_lowercase, chars_of, contains_lit, eq_lit, find_chars, has_infix, trim,
    trim_chars,
};

verus! {

/// The H.264 encoder implementations the agent can drive.
#[derive(Clone, Copy, Debug, PartialEq, Eq, Structural)]
pub enum VideoEncoderBackend {
    MediaFoundationH264,
    FfmpegNvenc,
    FfmpegQsv,
    FfmpegAmf,
    OpenH264Software,
}

/// Target frame rate and bitrate of an encoder.
#[derive(Clone, Copy, Debug)]
pub struct VideoEncoderPreset {
    pub target_fps: u32,
    pub bitrate_bps: u32,
}

/// The backend in use and its preset.
#[derive(Clone, Copy, Debug)]
pub struct VideoEncoderSelection {
    pub backend: VideoEncoderBackend,
    pub preset: VideoEncoderPreset,
}

pub open spec fn spec_label(b: VideoEncoderBackend) -> Seq<char> {
    match b {
        VideoEncoderBackend::MediaFoundationH264 => "native:media_foundation_h264"@,
        VideoEncoderBackend::FfmpegNvenc => "ffmpeg:h264_nvenc"@,
        VideoEncoderBackend::FfmpegQsv => "ffmpeg:h264_qsv"@,
        VideoEncoderBackend::FfmpegAmf => "ffmpeg:h264_amf"@,
        VideoEncoderBackend::OpenH264Software => "software:openh264"@,
    }
}

pub open spec fn spec_ffmpeg_name(b: VideoEncoderBackend) -> Option<Seq<char>> {
    match b {
        VideoEncoderBackend::MediaFoundationH264 => None,
        VideoEncoderBackend::FfmpegNvenc => Some("h264_nvenc"@),
        VideoEncoderBackend::FfmpegQsv => Some("h264_qsv"@),
        VideoEncoderBackend::FfmpegAmf => Some("h264_amf"@),
        VideoEncoderBackend::OpenH264Software => None,
    }
}

/// 60 fps at 8 Mbps for the hardware backends, 20 fps at 3 Mbps for OpenH264.
pub open spec fn spec_default_preset(b: VideoEncoderBackend) -> (u32, u32) {
    match b {
        VideoEncoderBackend::OpenH264Software => (20, 3_000_000),
        _ => (60, 8_000_000),
    }
}

impl VideoEncoderBackend {
    /// Short name of the backend for logs and the UI.
    pub fn label(self) -> (r: &'static str)
        ensures
            r@ == spec_label(self),
    {
        match self {
            VideoEncoderBackend::MediaFoundationH264 => "native:media_foundation_h264",
            VideoEncoderBackend::FfmpegNvenc => "ffmpeg:h264_nvenc",
            VideoEncoderBackend::FfmpegQsv => "ffmpeg:h264_qsv",
            VideoEncoderBackend::FfmpegAmf => "ffmpeg:h264_amf",
            VideoEncoderBackend::OpenH264Software => "software:openh264",
        }
    }

    /// FFmpeg encoder of the backend; `None` for the in-process encoders.
    pub fn ffmpeg_encoder_name(self) -> (r: Option<&'static str>)
        ensures
            match r {
                Some(n) => spec_ffmpeg_name(self) == Some(n@),
                None => spec_ffmpeg_name(self) is None,
            },
    {
        match self {
            VideoEncoderBackend::MediaFoundationH264 => None,
            VideoEncoderBackend::FfmpegNvenc => Some("h264_nvenc"),
            VideoEncoderBackend::FfmpegQsv => Some("h264_qsv"),
            VideoEncoderBackend::FfmpegAmf => Some("h264_amf"),
            VideoEncoderBackend::OpenH264Software => None,
        }
    }

    /// Default frame rate and bitrate of the backend.
    pub fn default_preset(self) -> (r: VideoEncoderPreset)
        ensures
            (r.target_fps, r.bitrate_bps) == spec_default_preset(self),
    {
        match self {
            VideoEncoderBackend::OpenH264Software => VideoEncoderPreset {
                target_fps: 20,
                bitrate_bps: 3_000_000,
            },
            _ => VideoEncoderPreset { target_fps: 60, bitrate_bps: 8_000_000 },
        }
    }
}

/// The backend a `LUMIERE_VIDEO_ENCODER` value asks for (trimmed, ASCII case
/// ignored); `auto` and unknown names ask for none.
pub open spec fn spec_requested_backend(raw: Seq<char>) -> Option<VideoEncoderBackend> {
    let n = ascii_lower(trim(raw));
    if n == "mf"@ || n == "mediafoundation"@ || n == "media_foundation"@ || n == "native_h264"@ {
        Some(VideoEncoderBackend::MediaFoundationH264)
    } else if n == "nvenc"@ || n == "h264_nvenc"@ {
        Some(VideoEncoderBackend::FfmpegNvenc)
    } else if n == "qsv"@ || n == "h264_qsv"@ {
        Some(VideoEncoderBackend::FfmpegQsv)
    } else if n == "amf"@ || n == "h264_amf"@ {
        Some(VideoEncoderBackend::FfmpegAmf)
    } else if n == "software"@ || n == "openh264"@ {
        Some(VideoEncoderBackend::OpenH264Software)
    } else {
        None
    }
}

/// Reads a requested encoder backend.
pub fn parse_requested_backend(raw: &str) -> (r: Option<VideoEncoderBackend>)
    ensures
        r == spec_requested_backend(raw@),
{
    let c = chars_of(raw);
    let t = trim_chars(c.as_slice());
    let n = ascii_lowercase(t.as_slice());
    let n = n.as_slice();
    if eq_lit(n, "auto") {
        proof {
            reveal_strlit("auto");
            reveal_strlit("mf");
            reveal_strlit("mediafoundation");
            reveal_strlit("media_foundation");
            reveal_strlit("native_h264");
            reveal_strlit("nvenc");
            reveal_strlit("h264_nvenc");
            reveal_strlit("qsv");
            reveal_strlit("h264_qsv");
            reveal_strlit("amf");
            reveal_strlit("h264_amf");
            reveal_strlit("software");
            reveal_strlit("openh264");
            assert(n@ == "auto"@);
            assert(n@.len() == 4);
            assert(n@ != "mf"@);
            assert(spec_requested_backend(raw@) is None);
        }
        None
    } else if eq_lit(n, "mf") || eq_lit(n, "mediafoundation") || eq_lit(n, "media_foundation")
        || eq_lit(n, "native_h264") {
        Some(VideoEncoderBackend::MediaFoundationH264)
    } else if eq_lit(n, "nvenc") || eq_lit(n, "h264_nvenc") {
        Some(VideoEncoderBackend::FfmpegNvenc)
    } else if eq_lit(n, "qsv") || eq_lit(n, "h264_qsv") {
        Some(VideoEncoderBackend::FfmpegQsv)
    } else if eq_lit(n, "amf") || eq_lit(n, "h264_amf") {
        Some(VideoEncoderBackend::FfmpegAmf)
    } else if eq_lit(n, "software") || eq_lit(n, "openh264") {
        Some(VideoEncoderBackend::OpenH264Software)
    } else {
        None
    }
}

/// Integrated Intel GPUs (UHD, HD, Iris Plus, Iris Xe) on which Media
/// Foundation H.264 is unreliable; ASCII case ignored.
pub open spec fn spec_is_low_power_intel(name: Seq<char>) -> bool {
    let l = ascii_lower(name);
    has_infix(l, "intel"@) && (has_infix(l, "uhd graphics"@) || has_infix(l, "hd graphics"@)
        || has_infix(l, "iris plus"@) || has_infix(l, "iris xe graphics"@) || has_infix(
        l,
        "iris(r) plus"@,
    ) || has_infix(l, "iris(r) xe graphics"@))
}

/// Whether a display adapter name is one of the low-power integrated Intel GPUs.
pub fn is_low_power_intel_gpu(adapter_name: &str) -> (r: bool)
    ensures
        r == spec_is_low_power_intel(adapter_name@),
{
    let c = chars_of(adapter_name);
    let lower = ascii_lowercase(c.as_slice());
    let l = lower.as_slice();
    if !contains_lit(l, "intel") {
        return false;
    }
    contains_lit(l, "uhd graphics") || contains_lit(l, "hd graphics") || contains_lit(
        l,
        "iris plus",
    ) || contains_lit(l, "iris xe graphics") || contains_lit(l, "iris(r) plus") || contains_lit(
        l,
        "iris(r) xe graphics",
    )
}

/// Whether `ffmpeg -encoders` output lists an encoder: some line contains its name.
pub open spec fn spec_encoder_listed(stdout: Seq<char>, encoder: Seq<char>) -> bool {
    exists|i: int| 0 <= i < text_lines(stdout).len() && has_infix(#[trigger] text_lines(stdout)[i], encoder)
}

/// Whether an `ffmpeg -encoders` listing names the given encoder.
pub fn encoder_listed(stdout: &str, encoder_name: &str) -> (r: bool)
    ensures
        r == spec_encoder_listed(stdout@, encoder_name@),
{
    let out = chars_of(stdout);
    let name = chars_of(encoder_name);
    let lines = split_lines(out.as_slice());
    let mut i: usize = 0;
    while i < lines.len()
        invariant
            i <= lines@.len(),
            views(lines@) == text_lines(stdout@),
            name@ == encoder_name@,
            forall|j: int| 0 <= j < i ==> !has_infix(#[trigger] text_lines(stdout@)[j], name@),
        decreases lines@.len() - i,
    {
        assert(views(lines@)[i as int] == lines@[i as int]@);
        if find_chars(lines[i].as_slice(), name.as_slice()).is_some() {
            return true;
        }
        i += 1;
    }
    false
}

/// Extra FFmpeg arguments of a backend.
pub open spec fn spec_backend_args(b: VideoEncoderBackend) -> Seq<Seq<char>> {
    match b {
        VideoEncoderBackend::FfmpegNvenc => seq!["-preset"@, "p4"@, "-tune"@, "ll"@, "-rc"@, "cbr_ld_hq"@],
        VideoEncoderBackend::FfmpegQsv => seq!["-preset"@, "veryfast"@],
        VideoEncoderBackend::FfmpegAmf => seq!["-usage"@, "ultralowlatency"@, "-quality"@, "speed"@],
        _ => seq![],
    }
}

/// The FFmpeg arguments tuning each hardware encoder for low latency.
pub fn ffmpeg_backend_args(backend: VideoEncoderBackend) -> (r: Vec<&'static str>)
    ensures
        r@.len() == spec_backend_args(backend).len(),
        forall|i: int| 0 <= i < r@.len() ==> #[trigger] r@[i]@ == spec_backend_args(backend)[i],
{
    let mut v: Vec<&'static str> = Vec::new();
    match backend {
        VideoEncoderBackend::FfmpegNvenc => {
            v.push("-preset");
            v.push("p4");
            v.push("-tune");
            v.push("ll");
            v.push("-rc");
            v.push("cbr_ld_hq");
        },
        VideoEncoderBackend::FfmpegQsv => {
            v.push("-preset");
            v.push("veryfast");
        },
        VideoEncoderBackend::FfmpegAmf => {
            v.push("-usage");
            v.push("ultralowlatency");
            v.push("-quality");
            v.push("speed");
        },
        _ => {},
    }
    v
}

pub open spec fn clamp_nat(v: nat, lo: nat, hi: nat) -> nat {
    if v < lo {
        lo
    } else if v > hi {
        hi
    } else {
        v
    }
}

/// A tuning value read as `u32` and clamped to `[lo, hi]`, or the default when
/// absent or not a number.
pub open spec fn spec_tuned_u32(raw: Option<Seq<char>>, lo: nat, hi: nat, default: u32) -> u32 {
    match raw {
        Some(r) => match parse_unsigned(r, u32::MAX as nat) {
            Some(v) => clamp_nat(v, lo, hi) as u32,
            None => default,
        },
        None => default,
    }
}

fn tuned_u32(raw: Option<&str>, lo: u32, hi: u32, default: u32) -> (r: u32)
    requires
        lo <= hi,
    ensures
        r == spec_tuned_u32(
            match raw {
                Some(s) => Some(s@),
                None => None,
            },
            lo as nat,
            hi as nat,
            default,
        ),
{
    match raw {
        Some(s) => {
            let c = chars_of(s);
            match parse_u32(c.as_slice()) {
                Some(v) => if v < lo {
                    lo
                } else if v > hi {
                    hi
                } else {
                    v
                },
                None => default,
            }
        },
        None => default,
    }
}

impl VideoEncoderSelection {
    /// The selection for a chosen backend: its default preset, overridden by
    /// `LUMIERE_TARGET_FPS` (clamped to 5..=60) and `LUMIERE_TARGET_BITRATE`
    /// (clamped to 500 kbps..=20 Mbps) when they hold numbers.
    pub fn with_tuning(
        backend: VideoEncoderBackend,
        target_fps_raw: Option<&str>,
        bitrate_raw: Option<&str>,
    ) -> (r: Self)
        ensures
            r.backend == backend,
            r.preset.target_fps == spec_tuned_u32(
                match target_fps_raw {
                    Some(s) => Some(s@),
                    None => None,
                },
                5,
                60,
                spec_default_preset(backend).0,
            ),
            r.preset.bitrate_bps == spec_tuned_u32(
                match bitrate_raw {
                    Some(s) => Some(s@),
                    None => None,
                },
                500_000,
                20_000_000,
                spec_default_preset(backend).1,
            ),
    {
        let default_preset = backend.default_preset();
        let target_fps = tuned_u32(target_fps_raw, 5, 60, default_preset.target_fps);
        let bitrate_bps = tuned_u32(bitrate_raw, 500_000, 20_000_000, default_preset.bitrate_bps);
        VideoEncoderSelection { backend, preset: VideoEncoderPreset { target_fps, bitrate_bps } }
    }
}


/// The backend chosen for a request: the software and Media Foundation
/// encoders whenever requested, an FFmpeg encoder when requested and
/// available, otherwise the detected backend.
pub open spec fn spec_resolved_backend(
    requested: Option<VideoEncoderBackend>,
    requested_available: bool,
    detected: VideoEncoderBackend,
) -> VideoEncoderBackend {
    match requested {
        Some(VideoEncoderBackend::OpenH264Software) => VideoEncoderBackend::OpenH264Software,
        Some(VideoEncoderBackend::MediaFoundationH264) => VideoEncoderBackend::MediaFoundationH264,
        Some(b) => if requested_available {
            b
        } else {
            detected
        },
        None => detected,
    }
}

/// The backend to use (see `spec_resolved_backend`); `requested_available`
/// tells whether FFmpeg lists the requested encoder.
pub fn resolve_backend(
    requested: Option<VideoEncoderBackend>,
    requested_available: bool,
    detected: VideoEncoderBackend,
) -> (b: VideoEncoderBackend)
    ensures
        b == spec_resolved_backend(requested, requested_available, detected),
{
    match requested {
        Some(VideoEncoderBackend::OpenH264Software) => VideoEncoderBackend::OpenH264Software,
        Some(VideoEncoderBackend::MediaFoundationH264) => VideoEncoderBackend::MediaFoundationH264,
        Some(b) => if requested_available {
            b
        } else {
            detected
        },
        None => detected,
    }
}

/// The best backend off Windows: the first of NVENC, QSV and AMF that FFmpeg
/// lists, else the software encoder.
pub fn best_ffmpeg_backend(nvenc: bool, qsv: bool, amf: bool) -> (b: VideoEncoderBackend)
    ensures
        b == if nvenc {
            VideoEncoderBackend::FfmpegNvenc
        } else if qsv {
            VideoEncoderBackend::FfmpegQsv
        } else if amf {
            VideoEncoderBackend::FfmpegAmf
        } else {
            VideoEncoderBackend::OpenH264Software
        },
{
    if nvenc {
        VideoEncoderBackend::FfmpegNvenc
    } else if qsv {
        VideoEncoderBackend::FfmpegQsv
    } else if amf {
        VideoEncoderBackend::FfmpegAmf
    } else {
        VideoEncoderBackend::OpenH264Software
    }
}

/// The best backend on Windows: the software encoder on a low-power Intel
/// adapter; Media Foundation when enabled for automatic choice; else the
/// software encoder.
pub fn best_windows_backend(adapter_name: Option<&str>, media_foundation_enabled: bool) -> (b: VideoEncoderBackend)
    ensures
        b == if adapter_name matches Some(n) && spec_is_low_power_intel(n@) {
            VideoEncoderBackend::OpenH264Software
        } else if media_foundation_enabled {
            VideoEncoderBackend::MediaFoundationH264
        } else {
            VideoEncoderBackend::OpenH264Software
        },
{
    if let Some(name) = adapter_name {
        if is_low_power_intel_gpu(name) {
            return VideoEncoderBackend::OpenH264Software;
        }
    }
    if media_foundation_enabled {
        VideoEncoderBackend::MediaFoundationH264
    } else {
        VideoEncoderBackend::OpenH264Software
    }
}

/// A tuned preset is always within 5..=60 fps and 500 kbps..=20 Mbps,
/// whatever the variables hold.
pub proof fn law_tuned_preset_in_bounds(backend: VideoEncoderBackend, fps_raw: Option<Seq<char>>, bitrate_raw: Option<Seq<char>>)
    ensures
        5 <= spec_tuned_u32(fps_raw, 5, 60, spec_default_preset(backend).0) <= 60,
        500_000 <= spec_tuned_u32(bitrate_raw, 500_000, 20_000_000, spec_default_preset(backend).1) <= 20_000_000,
{
}

/// The FFmpeg sender's state between loop turns.
#[derive(Clone, Copy, Debug, PartialEq, Eq)]
pub struct FfmpegSenderState {
    /// Target frame rate (progress is logged once per this many frames).
    pub target_fps: u32,
    /// The frame size the running FFmpeg bridge was started for.
    pub active_dimensions: Option<(usize, usize)>,
    /// The size of the last captured frame, which is sent again when no new
    /// frame arrives.
    pub last_capture: Option<(usize, usize)>,
    /// Frames sent so far.
    pub frame_counter: u64,
    /// The negotiated H.264 payload type, once known.
    pub payload_type: Option<u8>,
}

/// What happened on one turn of the FFmpeg sender.
#[derive(Clone, Copy, Debug, PartialEq, Eq)]
pub enum FfmpegEvent {
    /// The peer connection closed or failed.
    PeerClosed,
    /// The viewer paused the frames.
    Paused,
    /// The connection or track is not ready yet.
    NotReady,
    /// A turn with the stream ready: the payload type the SDP negotiates
    /// (if any), and the size of a newly captured frame (`None`: no frame).
    Frame { negotiated_payload_type: Option<u8>, captured: Option<(usize, usize)> },
}

/// What the FFmpeg sender does on a turn.
#[derive(Clone, Copy, Debug, PartialEq, Eq, Structural)]
pub enum FfmpegAction {
    /// Shut the bridge down and end the sender.
    Stop,
    /// Sleep 150 ms and restart the capture pacing.
    WaitPaused,
    /// Sleep 80 ms.
    WaitNotReady,
    /// No frame has been captured yet: sleep 4 ms.
    WaitForFrame,
    /// Send a frame of this size (the last one again when `reuse_last`),
    /// restarting the bridge first when the size changed, with this payload
    /// type; `log_progress` on every `target_fps`-th frame.
    Send { width: usize, height: usize, restart_bridge: bool, payload_type: u8, reuse_last: bool, log_progress: bool },
}

/// One turn of the FFmpeg sender: the new state and the action.
pub open spec fn ffmpeg_step(s: FfmpegSenderState, e: FfmpegEvent) -> (FfmpegSenderState, FfmpegAction) {
    match e {
        FfmpegEvent::PeerClosed => (s, FfmpegAction::Stop),
        FfmpegEvent::Paused => (s, FfmpegAction::WaitPaused),
        FfmpegEvent::NotReady => (s, FfmpegAction::WaitNotReady),
        FfmpegEvent::Frame { negotiated_payload_type, captured } => {
            let pt = if s.payload_type is Some {
                s.payload_type
            } else {
                negotiated_payload_type
            };
            let dims = if captured is Some {
                captured
            } else {
                s.last_capture
            };
            match dims {
                None => (FfmpegSenderState { payload_type: pt, ..s }, FfmpegAction::WaitForFrame),
                Some((w, h)) => {
                    let count = (s.frame_counter + 1) as u64;
                    let fps: int = if s.target_fps == 0 {
                        1
                    } else {
                        s.target_fps as int
                    };
                    (
                        FfmpegSenderState {
                            payload_type: pt,
                            last_capture: dims,
                            active_dimensions: Some((w, h)),
                            frame_counter: count,
                            ..s
                        },
                        FfmpegAction::Send {
                            width: w,
                            height: h,
                            restart_bridge: s.active_dimensions != Some((w, h)),
                            payload_type: match pt {
                                Some(p) => p,
                                None => 96,
                            },
                            reuse_last: captured is None,
                            log_progress: (count as int) % fps == 0,
                        },
                    )
                },
            }
        },
    }
}

impl FfmpegSenderState {
    /// A sender that has sent nothing, with no bridge and no payload type.
    pub fn new(target_fps: u32) -> (r: Self)
        ensures
            r == (FfmpegSenderState {
                target_fps,
                active_dimensions: None,
                last_capture: None,
                frame_counter: 0,
                payload_type: None,
            }),
    {
        FfmpegSenderState { target_fps, active_dimensions: None, last_capture: None, frame_counter: 0, payload_type: None }
    }
}

/// Decides one turn of the FFmpeg sender (see `ffmpeg_step`): stop on a
/// closed peer, wait while paused or not ready, else send the new frame or
/// the last one again, restarting the bridge when the frame size changed,
/// with the negotiated payload type or 96.
pub fn ffmpeg_sender_step(s: &mut FfmpegSenderState, e: FfmpegEvent) -> (a: FfmpegAction)
    requires
        old(s).frame_counter < u64::MAX,
    ensures
        (*final(s), a) == ffmpeg_step(*old(s), e),
{
    match e {
        FfmpegEvent::PeerClosed => FfmpegAction::Stop,
        FfmpegEvent::Paused => FfmpegAction::WaitPaused,
        FfmpegEvent::NotReady => FfmpegAction::WaitNotReady,
        FfmpegEvent::Frame { negotiated_payload_type, captured } => {
            if s.payload_type.is_none() {
                s.payload_type = negotiated_payload_type;
            }
            let reuse_last = captured.is_none();
            let dims = match captured {
                Some(d) => Some(d),
                None => s.last_capture,
            };
            match dims {
                None => FfmpegAction::WaitForFrame,
                Some((w, h)) => {
                    s.last_capture = dims;
                    s.frame_counter = s.frame_counter + 1;
                    let restart_bridge = match s.active_dimensions {
                        Some((aw, ah)) => !(aw == w && ah == h),
                        None => true,
                    };
                    s.active_dimensions = Some((w, h));
                    let fps: u64 = if s.target_fps == 0 {
                        1
                    } else {
                        s.target_fps as u64
                    };
                    let payload_type = match s.payload_type {
                        Some(p) => p,
                        None => 96,
                    };
                    FfmpegAction::Send {
                        width: w,
                        height: h,
                        restart_bridge,
                        payload_type,
                        reuse_last,
                        log_progress: s.frame_counter % fps == 0,
                    }
                },
            }
        },
    }
}


/// Once the FFmpeg sender knows the negotiated payload type it keeps it,
/// whatever happens next.
pub proof fn law_ffmpeg_payload_type_sticks(s: FfmpegSenderState, e: FfmpegEvent)
    requires
        s.payload_type is Some,
    ensures
        ffmpeg_step(s, e).0.payload_type == s.payload_type,
{
}

/// A frame is sent through a bridge started for its size: the bridge is
/// restarted exactly when the frame size differs from the running one, and
/// afterwards the running size is the frame's; the frame counter goes up by
/// one per frame sent and is unchanged on every other turn.
pub proof fn law_ffmpeg_bridge_follows_frame_size(s: FfmpegSenderState, e: FfmpegEvent)
    requires
        s.frame_counter < u64::MAX,
    ensures
        match ffmpeg_step(s, e).1 {
            FfmpegAction::Send { width, height, restart_bridge, .. } => {
                &&& restart_bridge == (s.active_dimensions != Some((width, height)))
                &&& ffmpeg_step(s, e).0.active_dimensions == Some((width, height))
                &&& ffmpeg_step(s, e).0.frame_counter == s.frame_counter + 1
            },
            _ => {
                &&& ffmpeg_step(s, e).0.active_dimensions == s.active_dimensions
                &&& ffmpeg_step(s, e).0.frame_counter == s.frame_counter
            },
        },
{
}

} // verus!
