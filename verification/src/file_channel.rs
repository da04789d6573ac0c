//! The file data channel's protocol decisions: which request a control
//! message makes, whether an upload may start, whether a binary chunk still
//! fits under the upload cap, which upload a completion closes, and how a
//! screenshot text is cut into messages.
use vstd::prelude::*;
use crate::json::same_text;
use crate::text::{chars_of, copy_range, eq_lit, push_text, string_from_chars};

verus! {

broadcast use vstd::string::group_string_axioms;

/// The largest upload accepted, in bytes (512 MiB).
pub const MAX_UPLOAD_BYTES: usize = 536870912;

/// The number of 64 KiB chunks that fill the upload cap.
pub const MAX_UPLOAD_CHUNKS: usize = 8192;

/// The characters of a screenshot sent per message (14 KiB).
pub const SCREENSHOT_CHUNK_SIZE: usize = 14336;

/// What a control message on the file channel asks for.
#[derive(Clone, Copy, Debug, PartialEq, Eq, Structural)]
pub enum FileChannelCommand {
    ListRequest,
    DownloadRequest,
    UploadStart,
    Complete,
    Ignored,
}

/// The request a control message's `type` names.
pub open spec fn command_of(t: Option<Seq<char>>) -> FileChannelCommand {
    match t {
        Some(s) => if s == "FILE_LIST_REQUEST"@ {
            FileChannelCommand::ListRequest
        } else if s == "FILE_DOWNLOAD_REQUEST"@ {
            FileChannelCommand::DownloadRequest
        } else if s == "FILE_UPLOAD_START"@ {
            FileChannelCommand::UploadStart
        } else if s == "FILE_COMPLETE"@ {
            FileChannelCommand::Complete
        } else {
            FileChannelCommand::Ignored
        },
        None => FileChannelCommand::Ignored,
    }
}

/// The request a control message makes, by its `type` (absent when the
/// message has no string `type`).
pub fn file_channel_command(t: Option<&str>) -> (r: FileChannelCommand)
    ensures
        r == command_of(
            match t {
                Some(s) => Some(s@),
                None => None,
            },
        ),
{
    match t {
        Some(s) => {
            let chars = chars_of(s);
            let l = chars.as_slice();
            if eq_lit(l, "FILE_LIST_REQUEST") {
                FileChannelCommand::ListRequest
            } else if eq_lit(l, "FILE_DOWNLOAD_REQUEST") {
                FileChannelCommand::DownloadRequest
            } else if eq_lit(l, "FILE_UPLOAD_START") {
                FileChannelCommand::UploadStart
            } else if eq_lit(l, "FILE_COMPLETE") {
                FileChannelCommand::Complete
            } else {
                FileChannelCommand::Ignored
            }
        },
        None => FileChannelCommand::Ignored,
    }
}

/// The number of 64 KiB messages a download of `total_size` bytes is
/// announced with; at least one.
pub fn download_chunk_count(total_size: u64) -> (r: u64)
    requires
        total_size + 65535 <= u64::MAX,
    ensures
        r == if total_size == 0 {
            1
        } else {
            (total_size + 65535) / 65536
        },
        r >= 1,
{
    let n = (total_size + 65535) / 65536;
    if n < 1 {
        1
    } else {
        n
    }
}

/// An upload may start when the announced number of chunks does not exceed
/// `MAX_UPLOAD_CHUNKS`.
pub fn upload_start_allowed(total_chunks: u64) -> (r: bool)
    ensures
        r == ((total_chunks as usize) <= MAX_UPLOAD_CHUNKS),
{
    (total_chunks as usize) <= MAX_UPLOAD_CHUNKS
}

/// An upload in progress: the transfer it belongs to, the chunks and bytes
/// written so far. The bytes written never exceed `MAX_UPLOAD_BYTES`.
pub struct UploadProgress {
    transfer_id: String,
    received_chunks: usize,
    bytes_written: usize,
}

impl UploadProgress {
    /// The transfer's identifier.
    pub closed spec fn spec_transfer_id(&self) -> Seq<char> {
        self.transfer_id@
    }

    /// The chunks written so far.
    pub closed spec fn spec_received_chunks(&self) -> nat {
        self.received_chunks as nat
    }

    /// The bytes written so far.
    pub closed spec fn spec_bytes_written(&self) -> nat {
        self.bytes_written as nat
    }

    /// Well-formed: under the cap.
    pub closed spec fn wf(&self) -> bool {
        self.bytes_written <= MAX_UPLOAD_BYTES
    }

    /// A new upload for a transfer, with nothing written.
    pub fn start(transfer_id: String) -> (r: Self)
        ensures
            r.wf(),
            r.spec_transfer_id() == transfer_id@,
            r.spec_received_chunks() == 0,
            r.spec_bytes_written() == 0,
    {
        UploadProgress { transfer_id, received_chunks: 0, bytes_written: 0 }
    }

    /// The chunks written so far.
    pub fn received_chunks(&self) -> (r: usize)
        ensures
            r == self.spec_received_chunks(),
    {
        self.received_chunks
    }

    /// The bytes written so far.
    pub fn bytes_written(&self) -> (r: usize)
        ensures
            r == self.spec_bytes_written(),
    {
        self.bytes_written
    }

    /// The transfer's identifier.
    pub fn transfer_id(&self) -> (r: String)
        ensures
            r@ == self.spec_transfer_id(),
    {
        self.transfer_id.clone()
    }

    /// Whether a completion for `transfer_id` closes this upload.
    pub fn is_transfer(&self, transfer_id: &str) -> (r: bool)
        ensures
            r == (self.spec_transfer_id() == transfer_id@),
    {
        same_text(self.transfer_id.as_str(), transfer_id)
    }

    /// Whether a binary chunk of `len` bytes still fits under the cap.
    pub fn accepts(&self, len: usize) -> (r: bool)
        ensures
            r == (self.spec_bytes_written() + len <= MAX_UPLOAD_BYTES),
    {
        self.bytes_written.saturating_add(len) <= MAX_UPLOAD_BYTES
    }

    /// Counts a chunk of `len` bytes that was written.
    pub fn record_chunk(&mut self, len: usize)
        requires
            old(self).spec_bytes_written() + len <= MAX_UPLOAD_BYTES,
            old(self).spec_received_chunks() < usize::MAX,
        ensures
            final(self).wf(),
            final(self).spec_transfer_id() == old(self).spec_transfer_id(),
            final(self).spec_received_chunks() == old(self).spec_received_chunks() + 1,
            final(self).spec_bytes_written() == old(self).spec_bytes_written() + len,
    {
        self.bytes_written = self.bytes_written + len;
        self.received_chunks = self.received_chunks + 1;
    }
}

/// The number of messages a screenshot text of `len` characters takes.
pub open spec fn screenshot_chunk_count(len: nat) -> nat {
    (len + SCREENSHOT_CHUNK_SIZE - 1) as nat / (SCREENSHOT_CHUNK_SIZE as nat)
}

/// The characters of message `i`.
pub open spec fn screenshot_chunk(s: Seq<char>, i: int) -> Seq<char> {
    let hi = if (i + 1) * SCREENSHOT_CHUNK_SIZE < s.len() {
        (i + 1) * SCREENSHOT_CHUNK_SIZE
    } else {
        s.len() as int
    };
    s.subrange(i * SCREENSHOT_CHUNK_SIZE, hi)
}

/// A screenshot's base64 text cut into messages of `SCREENSHOT_CHUNK_SIZE`
/// characters, in order, the last one shorter. The text is ASCII, so its
/// characters are its bytes.
pub fn screenshot_chunks(text: &str) -> (r: Vec<String>)
    requires
        forall|i: int| 0 <= i < text@.len() ==> (text@[i] as u32) < 128,
    ensures
        r@.len() == screenshot_chunk_count(text@.len()),
        forall|i: int| 0 <= i < r@.len() ==> (#[trigger] r@[i])@ == screenshot_chunk(text@, i),
{
    let chars = chars_of(text);
    let len = chars.len();
    let total = len / SCREENSHOT_CHUNK_SIZE + if len % SCREENSHOT_CHUNK_SIZE > 0 {
        1
    } else {
        0
    };
    assert(total == screenshot_chunk_count(len as nat));
    let mut out: Vec<String> = Vec::new();
    let mut i: usize = 0;
    while i < total
        invariant
            i <= total,
            total == screenshot_chunk_count(len as nat),
            len == chars@.len(),
            chars@ == text@,
            out@.len() == i,
            forall|j: int| 0 <= j < i ==> (#[trigger] out@[j])@ == screenshot_chunk(text@, j),
        decreases total - i,
    {
        proof {
            assert(i * SCREENSHOT_CHUNK_SIZE < len) by (nonlinear_arith)
                requires
                    i < total,
                    total == (len + SCREENSHOT_CHUNK_SIZE - 1) / (SCREENSHOT_CHUNK_SIZE as int),
            ;
        }
        let lo = i * SCREENSHOT_CHUNK_SIZE;
        let hi = if len - lo > SCREENSHOT_CHUNK_SIZE {
            lo + SCREENSHOT_CHUNK_SIZE
        } else {
            len
        };
        let piece = copy_range(chars.as_slice(), lo, hi);
        assert(piece@ == screenshot_chunk(text@, i as int));
        out.push(string_from_chars(piece.as_slice()));
        i += 1;
    }
    out
}

/// The first `n` messages of a screenshot text, joined.
pub open spec fn joined_chunks(s: Seq<char>, n: nat) -> Seq<char>
    decreases n,
{
    if n == 0 {
        seq![]
    } else {
        joined_chunks(s, (n - 1) as nat) + screenshot_chunk(s, n - 1)
    }
}

proof fn lemma_joined_prefix(s: Seq<char>, n: nat)
    requires
        n <= screenshot_chunk_count(s.len()),
    ensures
        joined_chunks(s, n) == s.take(
            if n * SCREENSHOT_CHUNK_SIZE < s.len() {
                n * SCREENSHOT_CHUNK_SIZE
            } else {
                s.len() as int
            },
        ),
    decreases n,
{
    if n == 0 {
        assert(s.take(0) =~= Seq::<char>::empty());
    } else {
        let k = (n - 1) as nat;
        lemma_joined_prefix(s, k);
        assert(k * SCREENSHOT_CHUNK_SIZE < s.len()) by (nonlinear_arith)
            requires
                k < (s.len() + SCREENSHOT_CHUNK_SIZE - 1) / (SCREENSHOT_CHUNK_SIZE as int),
        ;
        assert(n * SCREENSHOT_CHUNK_SIZE == k * SCREENSHOT_CHUNK_SIZE + SCREENSHOT_CHUNK_SIZE) by (nonlinear_arith)
            requires
                n == k + 1,
        ;
        let hi = if n * SCREENSHOT_CHUNK_SIZE < s.len() {
            n * SCREENSHOT_CHUNK_SIZE
        } else {
            s.len() as int
        };
        assert(joined_chunks(s, n) =~= s.take(hi));
    }
}

/// Joining a screenshot's messages in order gives back its text, and each
/// holds at most `SCREENSHOT_CHUNK_SIZE` characters.
pub proof fn law_screenshot_chunks_rejoin(s: Seq<char>)
    ensures
        joined_chunks(s, screenshot_chunk_count(s.len())) == s,
        forall|i: int|
            0 <= i < screenshot_chunk_count(s.len()) ==> (#[trigger] screenshot_chunk(s, i)).len()
                <= SCREENSHOT_CHUNK_SIZE,
{
    let n = screenshot_chunk_count(s.len());
    lemma_joined_prefix(s, n);
    assert(n * SCREENSHOT_CHUNK_SIZE >= s.len()) by (nonlinear_arith)
        requires
            n == (s.len() + SCREENSHOT_CHUNK_SIZE - 1) / (SCREENSHOT_CHUNK_SIZE as int),
    ;
    assert(s.take(s.len() as int) =~= s);
    assert forall|i: int| 0 <= i < n implies (#[trigger] screenshot_chunk(s, i)).len() <= SCREENSHOT_CHUNK_SIZE by {
        assert(i * SCREENSHOT_CHUNK_SIZE < s.len()) by (nonlinear_arith)
            requires
                0 <= i,
                i < (s.len() + SCREENSHOT_CHUNK_SIZE - 1) / (SCREENSHOT_CHUNK_SIZE as int),
        ;
    }
}

/// An upload never holds more than `MAX_UPLOAD_BYTES`: starting one and
/// counting accepted chunks keep it well-formed, and a well-formed upload
/// is under the cap.
pub proof fn law_upload_within_cap(p: UploadProgress)
    requires
        p.wf(),
    ensures
        p.spec_bytes_written() <= MAX_UPLOAD_BYTES,
{
}


/// `std::path::Path::file_name` of `path`, converted lossily to text: the
/// final normal component of the path, `None` when it has none (for
/// example when the path is empty, a root, or ends in `..`). A normal
/// component is never empty, `.` or `..`, and lossy conversion keeps it so. Which characters separate components depends on the platform
/// (`/`, and on Windows also `\\` and drive prefixes), so the component
/// itself is not stated.
#[verifier::external_body]
fn path_file_name(path: &str) -> (r: Option<String>)
    ensures
        r matches Some(n) ==> n@.len() > 0 && n@ != "."@ && n@ != ".."@,
{
    std::path::Path::new(path).file_name().map(|n| n.to_string_lossy().to_string())
}

/// The name found in an uploaded path, or `fallback` when there is none.
pub fn name_or(found: Option<String>, fallback: String) -> (r: String)
    ensures
        r@ == match found {
            Some(n) => n@,
            None => fallback@,
        },
{
    match found {
        Some(n) => n,
        None => fallback,
    }
}

/// The name an upload is saved under: the last component of the name the
/// viewer sent (its directories dropped, so it stays in the target folder),
/// or `fallback` when the name has no final component (empty, a root, or
/// ending in `..`). Whatever the platform's path rules give, the result is
/// `fallback` or a non-empty name other than `.` and `..`.
pub fn upload_file_name(raw: &str, fallback: String) -> (r: String)
    ensures
        r@ == fallback@ || (r@.len() > 0 && r@ != "."@ && r@ != ".."@),
{
    let found = path_file_name(raw);
    name_or(found, fallback)
}

/// The temporary file an upload is written to before it is renamed:
/// the final name followed by `.part`.
pub fn part_file_name(name: &str) -> (r: String)
    ensures
        r@ == name@ + ".part"@,
{
    let mut r = String::new();
    push_text(&mut r, name);
    push_text(&mut r, ".part");
    r
}

} // verus!
