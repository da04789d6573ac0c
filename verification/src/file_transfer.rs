//! File transfer with the technician: directory listings (path resolution
//! and the order of entries) and downloads cut into base64 chunks.
use vstd::prelude::*;
use base64::Engine;
use crate::text::{chars_of, string_from_chars, to_lowercase, unicode_lowercase};

verus! {

broadcast use vstd::string::group_string_axioms;

/// Bytes of file data per download chunk.
pub const CHUNK_SIZE: usize = 65536;

/// One entry of a directory listing.
#[derive(Debug)]
pub struct FileEntry {
    pub name: String,
    pub path: String,
    pub is_directory: bool,
    pub size: u64,
    pub last_modified: i64,
}

/// A directory listing, or the reason it could not be made.
#[derive(Debug)]
pub struct FileListResponse {
    pub path: String,
    pub files: Vec<FileEntry>,
    pub error: Option<String>,
}

/// One chunk of a file being downloaded.
#[derive(Debug)]
pub struct FileDataChunk {
    pub file_name: String,
    pub file_path: String,
    pub chunk_index: usize,
    pub total_chunks: usize,
    pub data: String,
    pub total_size: u64,
}

/// The file transfer service.
#[derive(Debug, Default)]
pub struct FileTransferService;

impl FileTransferService {
    /// The service.
    pub fn new() -> Self {
        FileTransferService
    }
}

// ---------------------------------------------------------------------------
// Listing
// ---------------------------------------------------------------------------

/// Which directory a listing request designates.
#[derive(Debug)]
pub enum ListingTarget {
    /// The user's home directory.
    Home,
    /// The given path.
    Path(String),
}

/// The directory a request designates: the home directory for `""` and
/// `"/"`; a drive root for a drive letter and colon (`"C:"` becomes
/// `"C:\"`); else the path as given.
pub open spec fn listing_target(path: Seq<char>) -> Option<Seq<char>> {
    if path.len() == 0 || path == "/"@ {
        None
    } else if path.len() == 2 && (path[0] as u32) < 128 && path[1] == ':' {
        Some(path.push('\\'))
    } else {
        Some(path)
    }
}

/// The directory a listing request designates (see `listing_target`).
pub fn resolve_listing_target(path: &str) -> (t: ListingTarget)
    ensures
        match t {
            ListingTarget::Home => listing_target(path@) is None,
            ListingTarget::Path(p) => listing_target(path@) == Some(p@),
        },
{
    let chars = chars_of(path);
    if chars.len() == 0 || crate::text::eq_lit(chars.as_slice(), "/") {
        return ListingTarget::Home;
    }
    if chars.len() == 2 && (chars[0] as u32) < 128 && chars[1] == ':' {
        let mut v = chars;
        v.push('\\');
        return ListingTarget::Path(string_from_chars(v.as_slice()));
    }
    ListingTarget::Path(string_from_chars(chars.as_slice()))
}

/// `a` comes before `b` or equals it, comparing code points in order (the
/// order of `String`, since UTF-8 preserves it).
pub open spec fn chars_le(a: Seq<char>, b: Seq<char>) -> bool
    decreases a.len(),
{
    if a.len() == 0 {
        true
    } else if b.len() == 0 {
        false
    } else if a[0] != b[0] {
        (a[0] as u32) < (b[0] as u32)
    } else {
        chars_le(a.drop_first(), b.drop_first())
    }
}

/// The sort key of an entry: its name in lowercase.
pub open spec fn entry_key(e: FileEntry) -> Seq<char> {
    unicode_lowercase(e.name@)
}

/// `e` inserted into `s` after every trailing entry whose key does not
/// exceed its own.
pub open spec fn insert_by_name(s: Seq<FileEntry>, e: FileEntry) -> Seq<FileEntry>
    decreases s.len(),
{
    if s.len() == 0 {
        seq![e]
    } else if chars_le(entry_key(s.last()), entry_key(e)) {
        s.push(e)
    } else {
        insert_by_name(s.drop_last(), e).push(s.last())
    }
}

/// The entries in the order of a stable sort by lowercase name: insertion,
/// one entry after another, after all entries with a key not above it.
pub open spec fn sorted_by_name(s: Seq<FileEntry>) -> Seq<FileEntry>
    decreases s.len(),
{
    if s.len() == 0 {
        s
    } else {
        insert_by_name(sorted_by_name(s.drop_last()), s.last())
    }
}

/// Whether `a` comes before `b` or equals it (see `chars_le`).
fn le_chars(a: &Vec<char>, b: &Vec<char>) -> (r: bool)
    ensures
        r == chars_le(a@, b@),
{
    let mut i: usize = 0;
    assert(a@.skip(0) =~= a@);
    assert(b@.skip(0) =~= b@);
    while i < a.len() && i < b.len() && a[i] == b[i]
        invariant
            i <= a@.len(),
            i <= b@.len(),
            a@.take(i as int) == b@.take(i as int),
            chars_le(a@, b@) == chars_le(a@.skip(i as int), b@.skip(i as int)),
        decreases a@.len() - i,
    {
        proof {
            assert(a@.skip(i as int).drop_first() =~= a@.skip(i + 1));
            assert(b@.skip(i as int).drop_first() =~= b@.skip(i + 1));
            assert(a@.take(i + 1) =~= a@.take(i as int).push(a@[i as int]));
            assert(b@.take(i + 1) =~= b@.take(i as int).push(b@[i as int]));
        }
        i += 1;
    }
    if i == a.len() {
        assert(a@.skip(i as int).len() == 0);
        true
    } else if i == b.len() {
        false
    } else {
        assert(a@.skip(i as int)[0] == a@[i as int]);
        assert(b@.skip(i as int)[0] == b@[i as int]);
        (a[i] as u32) < (b[i] as u32)
    }
}

/// The sort key of a name.
fn name_key(name: &String) -> (k: Vec<char>)
    ensures
        k@ == unicode_lowercase(name@),
{
    let lower = to_lowercase(name.as_str());
    chars_of(lower.as_str())
}

/// The entries sorted by lowercase name, stably (see `sorted_by_name`).
pub fn sort_by_name(entries: Vec<FileEntry>) -> (r: Vec<FileEntry>)
    ensures
        r@ == sorted_by_name(entries@),
{
    let ghost orig = entries@;
    let n = entries.len();
    let mut input = entries;
    let mut out: Vec<FileEntry> = Vec::new();
    let mut keys: Vec<Vec<char>> = Vec::new();
    let mut k: usize = 0;
    assert(orig.take(0) =~= Seq::<FileEntry>::empty());
    while input.len() > 0
        invariant
            k <= orig.len(),
            orig.len() == n,
            input@ == orig.skip(k as int),
            out@ == sorted_by_name(orig.take(k as int)),
            keys@.len() == out@.len(),
            forall|j: int| 0 <= j < out@.len() ==> #[trigger] keys@[j]@ == entry_key(out@[j]),
        decreases input@.len(),
    {
        let e = input.remove(0);
        let ek = name_key(&e.name);
        let ghost before = out@;
        proof {
            assert(orig.take(k + 1).drop_last() =~= orig.take(k as int));
            assert(orig.take(k + 1).last() == e);
        }
        let mut j: usize = out.len();
        assert(before.take(j as int) =~= before);
        assert(before.skip(j as int) =~= Seq::<FileEntry>::empty());
        assert(insert_by_name(before, e) =~= insert_by_name(before.take(j as int), e) + before.skip(j as int));
        while j > 0 && !le_chars(&keys[j - 1], &ek)
            invariant
                j <= before.len(),
                out@ == before,
                keys@.len() == out@.len(),
                forall|i: int| 0 <= i < out@.len() ==> #[trigger] keys@[i]@ == entry_key(out@[i]),
                ek@ == entry_key(e),
                insert_by_name(before, e) == insert_by_name(before.take(j as int), e) + before.skip(j as int),
            decreases j,
        {
            proof {
                let t = before.take(j as int);
                assert(t.last() == before[j - 1]);
                assert(!chars_le(entry_key(t.last()), entry_key(e)));
                assert(t.drop_last() =~= before.take(j - 1));
                assert(insert_by_name(t, e) == insert_by_name(before.take(j - 1), e).push(t.last()));
                assert(insert_by_name(before.take(j - 1), e).push(t.last()) + before.skip(j as int)
                    =~= insert_by_name(before.take(j - 1), e) + before.skip(j - 1));
            }
            j -= 1;
        }
        proof {
            let t = before.take(j as int);
            if j > 0 {
                assert(t.last() == before[j - 1]);
                assert(insert_by_name(t, e) == t.push(e));
            } else {
                assert(insert_by_name(t, e) == seq![e]);
            }
        }
        out.insert(j, e);
        keys.insert(j, ek);
        proof {
            let t = before.take(j as int);
            assert(out@ =~= t.push(e) + before.skip(j as int));
            assert forall|i: int| 0 <= i < out@.len() implies #[trigger] keys@[i]@ == entry_key(out@[i]) by {
                if i < j {
                } else if i == j {
                } else {
                    assert(out@[i] == before[i - 1]);
                }
            }
        }
        k += 1;
        proof {
            assert(input@ =~= orig.skip(k as int));
        }
    }
    assert(orig.take(orig.len() as int) =~= orig);
    out
}

/// The parent entry, when there is one, as a sequence.
pub open spec fn parent_entries(parent: Option<FileEntry>) -> Seq<FileEntry> {
    match parent {
        Some(p) => seq![p],
        None => Seq::<FileEntry>::empty(),
    }
}

/// A listing of `path`: the parent entry when there is one, then the
/// directories, then the files, each group sorted by lowercase name.
pub fn assemble_listing(
    path: String,
    parent: Option<FileEntry>,
    dirs: Vec<FileEntry>,
    files: Vec<FileEntry>,
) -> (r: FileListResponse)
    ensures
        r.path@ == path@,
        r.error is None,
        r.files@ == parent_entries(parent) + sorted_by_name(dirs@) + sorted_by_name(files@),
{
    let ghost parent_part = parent_entries(parent);
    let mut out: Vec<FileEntry> = Vec::new();
    if let Some(p) = parent {
        out.push(p);
    }
    assert(out@ =~= parent_part);
    let mut sd = sort_by_name(dirs);
    let mut sf = sort_by_name(files);
    out.append(&mut sd);
    out.append(&mut sf);
    FileListResponse { path, files: out, error: None }
}

/// The `..` entry of a listing, leading to the parent directory `path`.
pub fn parent_entry(path: String) -> (e: FileEntry)
    ensures
        e.name@ == ".."@,
        e.path@ == path@,
        e.is_directory,
        e.size == 0,
        e.last_modified == 0,
{
    FileEntry { name: "..".to_owned(), path, is_directory: true, size: 0, last_modified: 0 }
}

/// The entry of a drive root (such as `C:\`) in the listing of the top of
/// the file system: a directory whose name and path are both the root.
pub fn drive_entry(letter: char) -> (e: FileEntry)
    ensures
        e.name@ == seq![letter, ':', '\\'],
        e.path@ == seq![letter, ':', '\\'],
        e.is_directory,
        e.size == 0,
        e.last_modified == 0,
{
    let mut name = String::new();
    crate::text::string_push(&mut name, letter);
    crate::text::string_push(&mut name, ':');
    crate::text::string_push(&mut name, '\\');
    let path = name.clone();
    FileEntry { name, path, is_directory: true, size: 0, last_modified: 0 }
}

/// The listing of `path` when it is not a directory.
pub fn missing_directory_listing(path: String) -> (r: FileListResponse)
    ensures
        r.path@ == path@,
        r.files@.len() == 0,
        r.error matches Some(m) && m@ == "Directory not found"@,
{
    listing_error(path, "Directory not found".to_owned())
}

/// A listing of `path` that failed with `message`.
pub fn listing_error(path: String, message: String) -> (r: FileListResponse)
    ensures
        r.path@ == path@,
        r.files@.len() == 0,
        r.error matches Some(m) && m@ == message@,
{
    FileListResponse { path, files: Vec::new(), error: Some(message) }
}

// ---------------------------------------------------------------------------
// Download chunks
// ---------------------------------------------------------------------------

/// Character `v` (0 to 63) of the standard base64 alphabet of RFC 4648:
/// `A`-`Z`, `a`-`z`, `0`-`9`, `+`, `/`.
pub open spec fn base64_digit(v: int) -> char {
    if v < 26 {
        (65 + v) as char
    } else if v < 52 {
        (97 + v - 26) as char
    } else if v < 62 {
        (48 + v - 52) as char
    } else if v == 62 {
        '+'
    } else {
        '/'
    }
}

/// Standard base64 (RFC 4648 alphabet, `=` padding) of a byte sequence:
/// each group of three bytes gives four characters of six bits each, most
/// significant first; a last group of one or two bytes is padded with zero
/// bits and completed with `=` to four characters.
pub open spec fn base64_standard(bytes: Seq<u8>) -> Seq<char>
    decreases bytes.len(),
{
    if bytes.len() == 0 {
        seq![]
    } else if bytes.len() == 1 {
        let b0 = bytes[0] as int;
        seq![base64_digit(b0 / 4), base64_digit((b0 % 4) * 16), '=', '=']
    } else if bytes.len() == 2 {
        let b0 = bytes[0] as int;
        let b1 = bytes[1] as int;
        seq![base64_digit(b0 / 4), base64_digit((b0 % 4) * 16 + b1 / 16), base64_digit((b1 % 16) * 4), '=']
    } else {
        let b0 = bytes[0] as int;
        let b1 = bytes[1] as int;
        let b2 = bytes[2] as int;
        seq![
            base64_digit(b0 / 4),
            base64_digit((b0 % 4) * 16 + b1 / 16),
            base64_digit((b1 % 16) * 4 + b2 / 64),
            base64_digit(b2 % 64),
        ] + base64_standard(bytes.subrange(3, bytes.len() as int))
    }
}


proof fn lemma_base64_digit_injective(u: int, v: int)
    requires
        0 <= u < 64,
        0 <= v < 64,
        base64_digit(u) == base64_digit(v),
    ensures
        u == v,
{
    assert(base64_digit(u) as int == if u < 26 {
        65 + u
    } else if u < 52 {
        97 + u - 26
    } else if u < 62 {
        48 + u - 52
    } else if u == 62 {
        43
    } else {
        47
    });
    assert(base64_digit(v) as int == if v < 26 {
        65 + v
    } else if v < 52 {
        97 + v - 26
    } else if v < 62 {
        48 + v - 52
    } else if v == 62 {
        43
    } else {
        47
    });
}

proof fn lemma_base64_digit_not_pad(u: int)
    requires
        0 <= u < 64,
    ensures
        base64_digit(u) != '=',
{
    assert(base64_digit(u) as int != 61);
}

proof fn lemma_base64_group(a0: u8, a1: u8, a2: u8, b0: u8, b1: u8, b2: u8)
    requires
        a0 / 4 == b0 / 4,
        (a0 % 4) * 16 + a1 / 16 == (b0 % 4) * 16 + b1 / 16,
        (a1 % 16) * 4 + a2 / 64 == (b1 % 16) * 4 + b2 / 64,
        a2 % 64 == b2 % 64,
    ensures
        a0 == b0 && a1 == b1 && a2 == b2,
{
    assert(a0 == b0 && a1 == b1 && a2 == b2) by (bit_vector)
        requires
            a0 / 4 == b0 / 4,
            (a0 % 4) * 16 + a1 / 16 == (b0 % 4) * 16 + b1 / 16,
            (a1 % 16) * 4 + a2 / 64 == (b1 % 16) * 4 + b2 / 64,
            a2 % 64 == b2 % 64,
    ;
}

proof fn lemma_base64_shape(a: Seq<u8>)
    ensures
        a.len() == 0 <==> base64_standard(a).len() == 0,
        a.len() == 1 ==> base64_standard(a).len() == 4 && base64_standard(a)[2] == '=',
        a.len() == 2 ==> base64_standard(a).len() == 4 && base64_standard(a)[2] != '=' && base64_standard(a)[3]
            == '=',
        a.len() >= 3 ==> base64_standard(a).len() >= 4 && base64_standard(a)[2] != '=' && base64_standard(a)[3]
            != '=',
{
    if a.len() == 2 {
        lemma_base64_digit_not_pad((a[1] as int % 16) * 4);
    } else if a.len() >= 3 {
        lemma_base64_digit_not_pad((a[1] as int % 16) * 4 + a[2] as int / 64);
        lemma_base64_digit_not_pad(a[2] as int % 64);
    }
}

/// Different byte sequences have different standard base64 texts.
proof fn lemma_base64_injective(a: Seq<u8>, b: Seq<u8>)
    requires
        base64_standard(a) == base64_standard(b),
    ensures
        a == b,
    decreases a.len(),
{
    let ea = base64_standard(a);
    let eb = base64_standard(b);
    lemma_base64_shape(a);
    lemma_base64_shape(b);
    if a.len() == 0 {
        assert(a =~= b);
    } else {
        assert(ea[0] == eb[0] && ea[1] == eb[1]);
        lemma_base64_digit_injective(a[0] as int / 4, b[0] as int / 4);
        if a.len() == 1 {
            assert(b.len() == 1);
            lemma_base64_digit_injective((a[0] as int % 4) * 16, (b[0] as int % 4) * 16);
            lemma_base64_group(a[0], 0, 0, b[0], 0, 0);
            assert(a =~= b);
        } else if a.len() == 2 {
            assert(b.len() == 2);
            assert(ea[2] == eb[2]);
            lemma_base64_digit_injective(
                (a[0] as int % 4) * 16 + a[1] as int / 16,
                (b[0] as int % 4) * 16 + b[1] as int / 16,
            );
            lemma_base64_digit_injective((a[1] as int % 16) * 4, (b[1] as int % 16) * 4);
            lemma_base64_group(a[0], a[1], 0, b[0], b[1], 0);
            assert(a =~= b);
        } else {
            assert(b.len() >= 3);
            assert(ea[2] == eb[2] && ea[3] == eb[3]);
            lemma_base64_digit_injective(
                (a[0] as int % 4) * 16 + a[1] as int / 16,
                (b[0] as int % 4) * 16 + b[1] as int / 16,
            );
            lemma_base64_digit_injective(
                (a[1] as int % 16) * 4 + a[2] as int / 64,
                (b[1] as int % 16) * 4 + b[2] as int / 64,
            );
            lemma_base64_digit_injective(a[2] as int % 64, b[2] as int % 64);
            lemma_base64_group(a[0], a[1], a[2], b[0], b[1], b[2]);
            let ra = a.subrange(3, a.len() as int);
            let rb = b.subrange(3, b.len() as int);
            assert(base64_standard(ra) =~= ea.subrange(4, ea.len() as int));
            assert(base64_standard(rb) =~= eb.subrange(4, eb.len() as int));
            lemma_base64_injective(ra, rb);
            assert(a =~= seq![a[0], a[1], a[2]] + ra);
            assert(b =~= seq![b[0], b[1], b[2]] + rb);
        }
    }
}

/// A standard base64 text decodes back to the bytes it encodes.
pub proof fn law_base64_decodes_encoding(bytes: Seq<u8>)
    ensures
        base64_standard_decoded(base64_standard(bytes)) == Some(bytes),
{
    let t = base64_standard(bytes);
    assert(exists|b: Seq<u8>| base64_standard(b) == t);
    let c = choose|b: Seq<u8>| base64_standard(b) == t;
    lemma_base64_injective(c, bytes);
}

/// `base64::engine::general_purpose::STANDARD.encode`: the standard base64
/// text of `bytes` (`base64_standard`), which the same engine decodes back
/// to `bytes`. `requires` keeps the length that `encoded_len` computes
/// (four characters per started group of three bytes) from overflowing,
/// where the engine would panic.
#[verifier::external_body]
fn encode_base64(bytes: &[u8]) -> (r: String)
    requires
        (bytes@.len() / 3) * 4 + 4 <= usize::MAX,
    ensures
        r@ == base64_standard(bytes@),
{
    base64::engine::general_purpose::STANDARD.encode(bytes)
}

/// Number of chunks of a file of `len` bytes.
pub open spec fn chunk_count(len: nat) -> nat {
    (len + CHUNK_SIZE - 1) as nat / (CHUNK_SIZE as nat)
}

/// Bytes of chunk `i`.
pub open spec fn chunk_bytes(data: Seq<u8>, i: int) -> Seq<u8> {
    let hi = if (i + 1) * CHUNK_SIZE < data.len() {
        (i + 1) * CHUNK_SIZE
    } else {
        data.len() as int
    };
    data.subrange(i * CHUNK_SIZE, hi)
}

/// The chunks of a file's content, in order: 64 KiB each but the last,
/// each numbered, carrying the count, the total size, the file's name and
/// path, and its bytes in standard base64. An empty file has no chunk.
pub fn file_chunks(file_name: &str, file_path: &str, data: &[u8]) -> (r: Vec<FileDataChunk>)
    ensures
        r@.len() == chunk_count(data@.len()),
        forall|i: int|
            0 <= i < r@.len() ==> {
                let c = #[trigger] r@[i];
                &&& c.file_name@ == file_name@
                &&& c.file_path@ == file_path@
                &&& c.chunk_index == i
                &&& c.total_chunks == r@.len()
                &&& c.total_size == data@.len()
                &&& c.data@ == base64_standard(chunk_bytes(data@, i))
                &&& base64_standard_decoded(c.data@) == Some(chunk_bytes(data@, i))
            },
{
    let len = data.len();
    let total = len / CHUNK_SIZE + if len % CHUNK_SIZE > 0 {
        1
    } else {
        0
    };
    assert(total == chunk_count(len as nat));
    let mut out: Vec<FileDataChunk> = Vec::new();
    let mut i: usize = 0;
    while i < total
        invariant
            i <= total,
            total == chunk_count(len as nat),
            len == data@.len(),
            out@.len() == i,
            forall|j: int|
                0 <= j < i ==> {
                    let c = #[trigger] out@[j];
                    &&& c.file_name@ == file_name@
                    &&& c.file_path@ == file_path@
                    &&& c.chunk_index == j
                    &&& c.total_chunks == total
                    &&& c.total_size == data@.len()
                    &&& c.data@ == base64_standard(chunk_bytes(data@, j))
                    &&& base64_standard_decoded(c.data@) == Some(chunk_bytes(data@, j))
                },
        decreases total - i,
    {
        proof {
            assert(i * CHUNK_SIZE < len) by (nonlinear_arith)
                requires
                    i < total,
                    total == (len + CHUNK_SIZE - 1) / (CHUNK_SIZE as int),
            ;
        }
        let lo = i * CHUNK_SIZE;
        let hi = if len - lo > CHUNK_SIZE {
            lo + CHUNK_SIZE
        } else {
            len
        };
        let bytes = crate::file_transfer::slice_bytes(data, lo, hi);
        assert(bytes@ == chunk_bytes(data@, i as int));
        proof {
            law_base64_decodes_encoding(bytes@);
        }
        let chunk = FileDataChunk {
            file_name: file_name.to_owned(),
            file_path: file_path.to_owned(),
            chunk_index: i,
            total_chunks: total,
            data: encode_base64(bytes.as_slice()),
            total_size: len as u64,
        };
        out.push(chunk);
        i += 1;
    }
    out
}

/// A copy of `data[lo..hi]`.
fn slice_bytes(data: &[u8], lo: usize, hi: usize) -> (r: Vec<u8>)
    requires
        lo <= hi <= data@.len(),
    ensures
        r@ == data@.subrange(lo as int, hi as int),
{
    let mut r: Vec<u8> = Vec::new();
    let mut i: usize = lo;
    while i < hi
        invariant
            lo <= i <= hi,
            hi <= data@.len(),
            r@ == data@.subrange(lo as int, i as int),
        decreases hi - i,
    {
        r.push(data[i]);
        assert(r@ =~= data@.subrange(lo as int, i + 1));
        i += 1;
    }
    r
}


// ---------------------------------------------------------------------------
// Laws
// ---------------------------------------------------------------------------

/// Each entry's key is at most the next one's.
pub open spec fn keys_sorted(s: Seq<FileEntry>) -> bool {
    forall|i: int| 0 <= i < s.len() - 1 ==> chars_le(entry_key(s[i]), entry_key(#[trigger] s[i + 1]))
}

proof fn lemma_chars_le_total(a: Seq<char>, b: Seq<char>)
    ensures
        chars_le(a, b) || chars_le(b, a),
    decreases a.len(),
{
    if a.len() > 0 && b.len() > 0 {
        if a[0] == b[0] {
            lemma_chars_le_total(a.drop_first(), b.drop_first());
        } else {
            vstd::utf8::char_u32_cast(a[0], a[0] as u32);
            vstd::utf8::char_u32_cast(b[0], b[0] as u32);
            assert((a[0] as u32) != (b[0] as u32));
        }
    }
}

proof fn lemma_insert_by_name(s: Seq<FileEntry>, e: FileEntry)
    requires
        keys_sorted(s),
    ensures
        keys_sorted(insert_by_name(s, e)),
        insert_by_name(s, e).to_multiset() == s.to_multiset().insert(e),
        insert_by_name(s, e).len() == s.len() + 1,
        insert_by_name(s, e).last() == e || (s.len() > 0 && insert_by_name(s, e).last() == s.last()),
    decreases s.len(),
{
    broadcast use vstd::seq_lib::group_to_multiset_ensures;

    if s.len() == 0 {
        assert(seq![e] =~= Seq::<FileEntry>::empty().push(e));
        assert(Seq::<FileEntry>::empty().to_multiset() =~= vstd::multiset::Multiset::<FileEntry>::empty());
    } else if chars_le(entry_key(s.last()), entry_key(e)) {
        let t = s.push(e);
        assert forall|i: int| 0 <= i < t.len() - 1 implies chars_le(entry_key(t[i]), entry_key(#[trigger] t[i + 1])) by {
            if i < s.len() - 1 {
                assert(t[i] == s[i] && t[i + 1] == s[i + 1]);
            }
        }
    } else {
        let d = s.drop_last();
        assert forall|i: int| 0 <= i < d.len() - 1 implies chars_le(entry_key(d[i]), entry_key(#[trigger] d[i + 1])) by {
            assert(d[i] == s[i] && d[i + 1] == s[i + 1]);
        }
        lemma_insert_by_name(d, e);
        let t = insert_by_name(d, e);
        lemma_chars_le_total(entry_key(s.last()), entry_key(e));
        if t.last() != e {
            assert(d.len() > 0 && t.last() == d.last());
            assert(d.last() == s[s.len() - 2]);
            let k = s.len() - 2;
            assert(s[k + 1] == s.last());
            assert(chars_le(entry_key(s[k]), entry_key(s[k + 1])));
        }
        assert(chars_le(entry_key(t.last()), entry_key(s.last())));
        let u = t.push(s.last());
        assert forall|i: int| 0 <= i < u.len() - 1 implies chars_le(entry_key(u[i]), entry_key(#[trigger] u[i + 1])) by {
            if i < t.len() - 1 {
                assert(u[i] == t[i] && u[i + 1] == t[i + 1]);
            }
        }
        assert(s =~= d.push(s.last()));
    }
}

/// Ordering by name sorts the entries by lowercase name and keeps every
/// entry, each as many times as it occurs.
pub proof fn law_sort_by_name_sorts_and_keeps(s: Seq<FileEntry>)
    ensures
        keys_sorted(sorted_by_name(s)),
        sorted_by_name(s).to_multiset() == s.to_multiset(),
        sorted_by_name(s).len() == s.len(),
    decreases s.len(),
{
    broadcast use vstd::seq_lib::group_to_multiset_ensures;

    if s.len() > 0 {
        law_sort_by_name_sorts_and_keeps(s.drop_last());
        lemma_insert_by_name(sorted_by_name(s.drop_last()), s.last());
        assert(s =~= s.drop_last().push(s.last()));
    }
}

/// Every chunk but the last holds exactly 64 KiB, the last at most that,
/// and the chunks together hold the whole file in order.
pub proof fn law_chunks_cover_file(data: Seq<u8>, i: int)
    requires
        0 <= i < chunk_count(data.len()),
    ensures
        i * CHUNK_SIZE < data.len(),
        chunk_bytes(data, i).len() <= CHUNK_SIZE,
        i < chunk_count(data.len()) - 1 ==> chunk_bytes(data, i).len() == CHUNK_SIZE,
        i == chunk_count(data.len()) - 1 ==> (i + 1) * CHUNK_SIZE >= data.len(),
{
    assert(i * CHUNK_SIZE < data.len()) by (nonlinear_arith)
        requires
            0 <= i,
            i < (data.len() + CHUNK_SIZE - 1) / (CHUNK_SIZE as int),
    ;
    if i < chunk_count(data.len()) - 1 {
        assert((i + 1) * CHUNK_SIZE < data.len()) by (nonlinear_arith)
            requires
                0 <= i,
                i + 1 < (data.len() + CHUNK_SIZE - 1) / (CHUNK_SIZE as int),
        ;
    }
    if i == chunk_count(data.len()) - 1 {
        assert((i + 1) * CHUNK_SIZE >= data.len()) by (nonlinear_arith)
            requires
                i + 1 == (data.len() + CHUNK_SIZE - 1) / (CHUNK_SIZE as int),
        ;
    }
}

/// The bytes a standard base64 text decodes to: the bytes whose standard
/// base64 text it is, `None` when it is the text of no byte sequence (bad
/// character, length or padding, or non-zero bits in the padding).
pub open spec fn base64_standard_decoded(text: Seq<char>) -> Option<Seq<u8>> {
    if exists|b: Seq<u8>| base64_standard(b) == text {
        Some(choose|b: Seq<u8>| base64_standard(b) == text)
    } else {
        None
    }
}

/// `base64::engine::general_purpose::STANDARD.decode`: the engine requires
/// canonical padding and zero trailing bits, so it accepts exactly the texts
/// that it encodes, and gives back the bytes of such a text; on failure the
/// error's message. What the message says is not stated.
#[verifier::external_body]
fn decode_base64(text: &str) -> (r: Result<Vec<u8>, String>)
    ensures
        match r {
            Ok(v) => base64_standard(v@) == text@,
            Err(_) => forall|b: Seq<u8>| base64_standard(b) != text@,
        },
{
    base64::engine::general_purpose::STANDARD.decode(text).map_err(|e| e.to_string())
}

/// The bytes of an uploaded base64 chunk, or the decoder's message when the
/// chunk is not standard base64.
pub fn decode_upload(base64_data: &str) -> (r: Result<Vec<u8>, String>)
    ensures
        match r {
            Ok(v) => base64_standard_decoded(base64_data@) == Some(v@),
            Err(_) => base64_standard_decoded(base64_data@) is None,
        },
{
    let r = decode_base64(base64_data);
    proof {
        if let Ok(v) = &r {
            law_base64_decodes_encoding(v@);
        }
    }
    r
}

} // verus!
