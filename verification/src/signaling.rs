//! Messages of the signaling channel between agent, server and viewer.
use vstd::prelude::*;
use crate::text::{push_text, replace_all, replace_text};

verus! {

/// The type of a signaling message.
#[derive(Clone, Copy, Debug, PartialEq, Eq, Structural)]
pub enum SignalType {
    Join,
    Offer,
    Answer,
    Ice,
    Leave,
    Chat,
    StreamStats,
    Error,
    FileListRequest,
    FileList,
    FileDownloadRequest,
    FileUploadRequest,
    FileData,
    FileComplete,
    FileError,
    Unknown,
}

/// Signals from the viewer that show it is present (they cancel a grace
/// period): joining, an SDP offer, an ICE candidate.
pub open spec fn is_viewer_activity(t: SignalType) -> bool {
    t == SignalType::Join || t == SignalType::Offer || t == SignalType::Ice
}

/// File-transfer requests, which need the user's permission.
pub open spec fn is_file_request(t: SignalType) -> bool {
    t == SignalType::FileListRequest || t == SignalType::FileDownloadRequest || t
        == SignalType::FileUploadRequest
}

impl SignalType {
    /// Whether the signal shows viewer activity (see `is_viewer_activity`).
    pub fn marks_viewer_activity(&self) -> (r: bool)
        ensures
            r == is_viewer_activity(*self),
    {
        match self {
            SignalType::Join | SignalType::Offer | SignalType::Ice => true,
            _ => false,
        }
    }

    /// Whether the signal is a file-transfer request (see `is_file_request`).
    pub fn is_file_transfer_request(&self) -> (r: bool)
        ensures
            r == is_file_request(*self),
    {
        match self {
            SignalType::FileListRequest | SignalType::FileDownloadRequest | SignalType::FileUploadRequest => true,
            _ => false,
        }
    }
}

/// The signaling socket's base address for a server URL: trailing slashes
/// removed, then `https://` turned into `wss://` and `http://` into `ws://`.
pub open spec fn socket_base(url: Seq<char>) -> Seq<char> {
    replace_all(
        replace_all(crate::session::strip_trailing(url, '/'), "https://"@, "wss://"@),
        "http://"@,
        "ws://"@,
    )
}

/// The signaling socket's base address (see `socket_base`).
pub fn signaling_base_url(server_url: &str) -> (r: String)
    ensures
        r@ == socket_base(server_url@),
{
    let trimmed = crate::session::server_base_url(server_url);
    proof {
        reveal_strlit("https://");
        reveal_strlit("http://");
    }
    let secure = replace_text(trimmed.as_str(), "https://", "wss://");
    replace_text(secure.as_str(), "http://", "ws://")
}

/// The address the agent opens its signaling socket on for a session.
pub fn signaling_socket_url(base: &str, token: &str, session_id: &str) -> (r: String)
    ensures
        r@ == base@ + "/ws/signaling?token="@ + token@ + "&role=agent&sessionId="@ + session_id@,
{
    let mut s = String::new();
    push_text(&mut s, base);
    push_text(&mut s, "/ws/signaling?token=");
    push_text(&mut s, token);
    push_text(&mut s, "&role=agent&sessionId=");
    push_text(&mut s, session_id);
    s
}

} // verus!
