//! Captured desktop frames (BGRA, 4 bytes per pixel, rows `stride` bytes
//! apart): cropping to even dimensions, nearest-neighbour resizing,
//! conversion to NV12 with BT.601 integer coefficients, and black-frame
//! detection.
use vstd::prelude::*;
use vstd::arithmetic::div_mod::lemma_fundamental_div_mod_converse;

verus! {

/// `std::time::Instant`, carried through unchanged as a frame's capture time.
#[verifier::external_type_specification]
#[verifier::external_body]
pub struct ExInstant(std::time::Instant);

/// A captured frame.
#[derive(Debug)]
pub struct DesktopFrame {
    pub width: usize,
    pub height: usize,
    pub stride: usize,
    pub captured_at: std::time::Instant,
    pub bgra: Vec<u8>,
}

/// A frame in NV12: a full-resolution luma plane, then interleaved U/V at
/// half resolution in both directions.
#[derive(Clone, Debug)]
pub struct Nv12Frame {
    pub width: usize,
    pub height: usize,
    pub y_plane: Vec<u8>,
    pub uv_plane: Vec<u8>,
}

/// The capture path in use.
#[derive(Clone, Copy, Debug, PartialEq, Eq, Structural)]
pub enum CaptureBackend {
    Dxgi,
    Screenshots,
    Gdi,
}

/// The first `rows` rows of a frame, `row_bytes` bytes each, packed together.
pub open spec fn packed_rows(b: Seq<u8>, stride: nat, row_bytes: nat, rows: nat) -> Seq<u8>
    decreases rows,
{
    if rows == 0 {
        seq![]
    } else {
        let y = (rows - 1) as nat;
        packed_rows(b, stride, row_bytes, y) + b.subrange(
            (y * stride) as int,
            (y * stride + row_bytes) as int,
        )
    }
}

/// Every one of the first `rows` rows (`row_bytes` from its start) lies in `b`.
pub open spec fn rows_fit(len: nat, stride: nat, row_bytes: nat, rows: nat) -> bool {
    rows == 0 || ((rows - 1) as nat) * stride + row_bytes <= len
}

proof fn lemma_row_fits(len: nat, stride: nat, row_bytes: nat, rows: nat, y: nat)
    requires
        rows_fit(len, stride, row_bytes, rows),
        y < rows,
    ensures
        y * stride + row_bytes <= len,
{
    assert(y * stride <= ((rows - 1) as nat) * stride) by (nonlinear_arith)
        requires
            y <= (rows - 1) as nat,
    ;
}

/// `n` rounded down to an even number.
pub open spec fn even(n: nat) -> nat {
    (n - n % 2) as nat
}

/// What cropping to even dimensions needs when a dimension is odd: the
/// packed result fits in memory and the rows it copies lie in the buffer.
pub open spec fn even_input_ok(len: nat, width: nat, height: nat, stride: nat) -> bool {
    width % 2 == 1 || height % 2 == 1 ==> {
        &&& even(width) * even(height) * 4 <= usize::MAX
        &&& rows_fit(len, stride, even(width) * 4, even(height))
    }
}

impl Clone for DesktopFrame {
    /// A copy with the same dimensions, timestamp and pixels.
    fn clone(&self) -> (r: Self)
        ensures
            r.width == self.width,
            r.height == self.height,
            r.stride == self.stride,
            r.captured_at == self.captured_at,
            r.bgra@ == self.bgra@,
    {
        DesktopFrame {
            width: self.width,
            height: self.height,
            stride: self.stride,
            captured_at: self.captured_at,
            bgra: self.bgra.clone(),
        }
    }
}

impl DesktopFrame {
    /// The frame cropped to even width and height (encoders need them),
    /// packed without row padding; returned unchanged when already even.
    pub fn into_even_bgra(self) -> (r: (usize, usize, Vec<u8>))
        requires
            even_input_ok(self.bgra@.len(), self.width as nat, self.height as nat, self.stride as nat),
        ensures
            r.0 == even(self.width as nat),
            r.1 == even(self.height as nat),
            self.width % 2 == 0 && self.height % 2 == 0 ==> r.2@ == self.bgra@,
            self.width % 2 == 1 || self.height % 2 == 1 ==> r.2@ == packed_rows(
                self.bgra@,
                self.stride as nat,
                even(self.width as nat) * 4,
                even(self.height as nat),
            ),
    {
        let even_width = self.width - self.width % 2;
        let even_height = self.height - self.height % 2;
        if even_width == self.width && even_height == self.height {
            return (self.width, self.height, self.bgra);
        }
        if even_height == 0 {
            return (even_width, 0, Vec::new());
        }
        proof {
            assert(even_width * 4 <= even_width * even_height * 4) by (nonlinear_arith)
                requires
                    even_height >= 1,
            ;
        }
        let row_bytes = even_width * 4;
        let out = pack_rows(&self.bgra, self.stride, row_bytes, even_height);
        (even_width, even_height, out)
    }
}

/// The first `rows` rows of `b`, `row_bytes` bytes each, packed.
pub fn pack_rows(b: &Vec<u8>, stride: usize, row_bytes: usize, rows: usize) -> (r: Vec<u8>)
    requires
        rows_fit(b@.len(), stride as nat, row_bytes as nat, rows as nat),
    ensures
        r@ == packed_rows(b@, stride as nat, row_bytes as nat, rows as nat),
{
    let mut out: Vec<u8> = Vec::new();
    let mut y: usize = 0;
    while y < rows
        invariant
            y <= rows,
            rows_fit(b@.len(), stride as nat, row_bytes as nat, rows as nat),
            out@ == packed_rows(b@, stride as nat, row_bytes as nat, y as nat),
        decreases rows - y,
    {
        proof {
            lemma_row_fits(b@.len(), stride as nat, row_bytes as nat, rows as nat, y as nat);
            assert(b@.len() == b.len());
        }
        let start = y * stride;
        let mut k: usize = 0;
        let ghost before = out@;
        while k < row_bytes
            invariant
                k <= row_bytes,
                start == y * stride,
                start + row_bytes <= b@.len(),
                start + row_bytes <= b.len(),
                out@ == before + b@.subrange(start as int, (start + k) as int),
            decreases row_bytes - k,
        {
            out.push(b[start + k]);
            assert(out@ =~= before + b@.subrange(start as int, (start + k + 1) as int));
            k += 1;
        }
        y += 1;
    }
    out
}

impl Nv12Frame {
    /// The luma plane followed by the chroma plane.
    pub fn as_bytes(&self) -> (r: Vec<u8>)
        ensures
            r@ == self.y_plane@ + self.uv_plane@,
    {
        let mut out: Vec<u8> = Vec::new();
        let mut i: usize = 0;
        while i < self.y_plane.len()
            invariant
                i <= self.y_plane@.len(),
                out@ == self.y_plane@.subrange(0, i as int),
            decreases self.y_plane@.len() - i,
        {
            out.push(self.y_plane[i]);
            assert(out@ =~= self.y_plane@.subrange(0, i + 1));
            i += 1;
        }
        let mut j: usize = 0;
        while j < self.uv_plane.len()
            invariant
                j <= self.uv_plane@.len(),
                out@ == self.y_plane@ + self.uv_plane@.subrange(0, j as int),
            decreases self.uv_plane@.len() - j,
        {
            out.push(self.uv_plane[j]);
            assert(out@ =~= self.y_plane@ + self.uv_plane@.subrange(0, j + 1));
            j += 1;
        }
        assert(self.y_plane@.subrange(0, self.y_plane@.len() as int) =~= self.y_plane@);
        assert(self.uv_plane@.subrange(0, self.uv_plane@.len() as int) =~= self.uv_plane@);
        out
    }
}

/// Distance in pixels between two sampled pixels: 1/256 of the pixels, at least 1.
pub open spec fn sample_step(len: nat) -> nat {
    if (len / 4) / 256 >= 1 {
        (len / 4) / 256
    } else {
        1
    }
}

/// The colour bytes (B, G, R) of pixel `p` are all zero; alpha is ignored.
pub open spec fn pixel_is_black(b: Seq<u8>, p: int) -> bool {
    b[4 * p] == 0 && b[4 * p + 1] == 0 && b[4 * p + 2] == 0
}

/// A frame is black when each of its first 256 sampled pixels (every
/// `sample_step`-th pixel) is black; a buffer without a whole pixel is black.
pub open spec fn spec_is_black_frame(b: Seq<u8>) -> bool {
    forall|k: int|
        0 <= k < 256 && k * sample_step(b.len()) < b.len() / 4 ==> #[trigger] pixel_is_black(
            b,
            k * sample_step(b.len()),
        )
}

/// Whether a BGRA frame looks fully black, sampling at most 256 pixels spread
/// over the frame.
pub fn is_black_frame(bgra: &[u8]) -> (r: bool)
    ensures
        r == spec_is_black_frame(bgra@),
{
    let len = bgra.len();
    let pixel_count = len / 4;
    if pixel_count == 0 {
        return true;
    }
    let step = if pixel_count / 256 >= 1 {
        pixel_count / 256
    } else {
        1
    };
    let mut k: usize = 0;
    let mut px: usize = 0;
    while k < 256 && px < pixel_count
        invariant
            k <= 256,
            len == bgra@.len(),
            pixel_count == len / 4,
            step == sample_step(len as nat),
            step >= 1,
            px == k * step,
            forall|j: int|
                0 <= j < k && j * step < pixel_count ==> #[trigger] pixel_is_black(bgra@, j * step),
        decreases 256 - k,
    {
        let byte_index = px * 4;
        if bgra[byte_index] != 0 || bgra[byte_index + 1] != 0 || bgra[byte_index + 2] != 0 {
            assert(!pixel_is_black(bgra@, k * step));
            return false;
        }
        assert(pixel_is_black(bgra@, k * step));
        k += 1;
        assert(k * step == px + step) by (nonlinear_arith)
            requires
                px == (k - 1) * step,
        ;
        if px > pixel_count - step {
            px = pixel_count;
            assert forall|j: int| 0 <= j < 256 && j * step < pixel_count implies #[trigger] pixel_is_black(bgra@, j * step) by {
                if j >= k {
                    assert(j * step >= k * step) by (nonlinear_arith)
                        requires
                            j >= k,
                            step >= 1,
                    ;
                }
            }
            return true;
        }
        px = px + step;
    }
    assert forall|j: int| 0 <= j < 256 && j * step < pixel_count implies #[trigger] pixel_is_black(bgra@, j * step) by {
        if j >= k {
            assert(j * step >= k * step) by (nonlinear_arith)
                requires
                    j >= k,
                    step >= 1,
            ;
        }
    }
    true
}


// ---------------------------------------------------------------------------
// BGRA -> NV12 (BT.601, studio swing, coefficients scaled by 256)
// ---------------------------------------------------------------------------

/// Byte offset of pixel (`py`, `px`) in a BGRA buffer with rows `stride` apart.
pub open spec fn pixel_offset(stride: nat, py: int, px: int) -> int {
    py * stride + px * 4
}

/// Luma of one pixel: `((66 R + 129 G + 25 B + 128) >> 8) + 16`.
pub open spec fn luma(b: int, g: int, r: int) -> int {
    (66 * r + 129 * g + 25 * b + 128) / 256 + 16
}

/// The U contribution of one pixel, before averaging.
pub open spec fn u_term(b: int, g: int, r: int) -> int {
    -38 * r - 74 * g + 112 * b
}

/// The V contribution of one pixel, before averaging.
pub open spec fn v_term(b: int, g: int, r: int) -> int {
    112 * r - 94 * g - 18 * b
}

/// A chroma byte from the sum of four contributions: `((acc + 512) >> 10) + 128`
/// (an arithmetic shift, so a floor division).
pub open spec fn chroma(acc: int) -> int {
    (acc + 512) / 1024 + 128
}

/// Luma byte of pixel (`py`, `px`).
pub open spec fn luma_at(bgra: Seq<u8>, stride: nat, py: int, px: int) -> u8 {
    let o = pixel_offset(stride, py, px);
    luma(bgra[o] as int, bgra[o + 1] as int, bgra[o + 2] as int) as u8
}

/// U contribution of pixel (`py`, `px`).
pub open spec fn u_at(bgra: Seq<u8>, stride: nat, py: int, px: int) -> int {
    let o = pixel_offset(stride, py, px);
    u_term(bgra[o] as int, bgra[o + 1] as int, bgra[o + 2] as int)
}

/// V contribution of pixel (`py`, `px`).
pub open spec fn v_at(bgra: Seq<u8>, stride: nat, py: int, px: int) -> int {
    let o = pixel_offset(stride, py, px);
    v_term(bgra[o] as int, bgra[o + 1] as int, bgra[o + 2] as int)
}

/// U byte of the 2x2 block whose top-left pixel is (`row`, `col`).
pub open spec fn block_u(bgra: Seq<u8>, stride: nat, row: int, col: int) -> u8 {
    chroma(
        u_at(bgra, stride, row, col) + u_at(bgra, stride, row, col + 1) + u_at(bgra, stride, row + 1, col)
            + u_at(bgra, stride, row + 1, col + 1),
    ) as u8
}

/// V byte of the 2x2 block whose top-left pixel is (`row`, `col`).
pub open spec fn block_v(bgra: Seq<u8>, stride: nat, row: int, col: int) -> u8 {
    chroma(
        v_at(bgra, stride, row, col) + v_at(bgra, stride, row, col + 1) + v_at(bgra, stride, row + 1, col)
            + v_at(bgra, stride, row + 1, col + 1),
    ) as u8
}

/// Luma row `py`: one byte per pixel.
pub open spec fn luma_row(bgra: Seq<u8>, stride: nat, width: nat, py: int) -> Seq<u8> {
    Seq::new(width, |px: int| luma_at(bgra, stride, py, px))
}

/// The luma plane of the first `rows` rows.
pub open spec fn luma_plane(bgra: Seq<u8>, stride: nat, width: nat, rows: nat) -> Seq<u8>
    decreases rows,
{
    if rows == 0 {
        seq![]
    } else {
        luma_plane(bgra, stride, width, (rows - 1) as nat) + luma_row(
            bgra,
            stride,
            width,
            rows - 1,
        )
    }
}

/// Chroma row `k` (pixel rows `2k` and `2k + 1`): U and V interleaved, one
/// pair per 2x2 block.
#[verifier::opaque]
pub open spec fn chroma_row(bgra: Seq<u8>, stride: nat, width: nat, k: int) -> Seq<u8> {
    Seq::new(
        width,
        |c: int|
            if c % 2 == 0 {
                block_u(bgra, stride, 2 * k, c)
            } else {
                block_v(bgra, stride, 2 * k, c - 1)
            },
    )
}

/// The chroma plane of the first `pairs` row pairs.
pub open spec fn chroma_plane(bgra: Seq<u8>, stride: nat, width: nat, pairs: nat) -> Seq<u8>
    decreases pairs,
{
    if pairs == 0 {
        seq![]
    } else {
        chroma_plane(bgra, stride, width, (pairs - 1) as nat) + chroma_row(
            bgra,
            stride,
            width,
            pairs - 1,
        )
    }
}

/// Every pixel of a `width` x `height` frame lies in a buffer of `len` bytes.
pub open spec fn frame_fits(len: nat, width: nat, height: nat, stride: nat) -> bool {
    width == 0 || height == 0 || ((height - 1) as nat) * stride + ((width - 1) as nat) * 4 + 4 <= len
}

/// What the conversion accepts: the pixels lie in the buffer, 2x2 blocks
/// cover the frame, and both planes fit in memory.
pub open spec fn nv12_input_ok(len: nat, width: nat, height: nat, stride: nat) -> bool {
    &&& frame_fits(len, width, height, stride)
    &&& (height == 0 || width % 2 == 0)
    &&& (width == 0 || height % 2 == 0)
    &&& width * height + width * (height / 2) <= usize::MAX
}

proof fn lemma_pixel_in_frame(len: nat, width: nat, height: nat, stride: nat, py: int, px: int)
    requires
        frame_fits(len, width, height, stride),
        0 <= py < height,
        0 <= px < width,
    ensures
        py * stride + px * 4 + 4 <= len,
{
    assert(py * stride <= (height - 1) * stride) by (nonlinear_arith)
        requires
            py <= height - 1,
            stride >= 0,
    ;
}

/// Luma byte of one pixel, computed as the spec states it.
fn luma_byte(bgra: &[u8], offset: usize) -> (r: u8)
    requires
        offset + 2 < bgra@.len(),
    ensures
        r == luma(bgra@[offset as int] as int, bgra@[offset + 1] as int, bgra@[offset + 2] as int),
{
    let b = bgra[offset] as u32;
    let g = bgra[offset + 1] as u32;
    let r = bgra[offset + 2] as u32;
    let y = (66 * r + 129 * g + 25 * b + 128) / 256 + 16;
    y as u8
}

/// U and V contributions of one pixel.
fn chroma_terms(bgra: &[u8], offset: usize) -> (r: (i32, i32))
    requires
        offset + 2 < bgra@.len(),
    ensures
        r.0 == u_term(bgra@[offset as int] as int, bgra@[offset + 1] as int, bgra@[offset + 2] as int),
        r.1 == v_term(bgra@[offset as int] as int, bgra@[offset + 1] as int, bgra@[offset + 2] as int),
        -38 * 255 - 74 * 255 <= r.0 <= 112 * 255,
        -94 * 255 - 18 * 255 <= r.1 <= 112 * 255,
{
    let b = bgra[offset] as i32;
    let g = bgra[offset + 1] as i32;
    let r = bgra[offset + 2] as i32;
    (-38 * r - 74 * g + 112 * b, 112 * r - 94 * g - 18 * b)
}

/// A chroma byte from a block's summed contributions.
fn chroma_byte(acc: i32) -> (r: u8)
    requires
        -4 * 112 * 255 <= acc <= 4 * 112 * 255,
    ensures
        r == chroma(acc as int),
{
    // (acc + 512) >> 10, shifted by 128 * 1024 so the division is on a
    // non-negative number.
    let shifted = (acc + 512 + 131072) as u32;
    assert((acc + 512 + 131072) / 1024 == (acc + 512) / 1024 + 128);
    (shifted / 1024) as u8
}

proof fn lemma_chroma_row_step(bgra: Seq<u8>, stride: nat, width: nat, k: int, col: int)
    requires
        0 <= col,
        col + 2 <= width,
        col % 2 == 0,
    ensures
        chroma_row(bgra, stride, width, k).take(col + 2) == chroma_row(bgra, stride, width, k).take(col)
            + seq![block_u(bgra, stride, 2 * k, col), block_v(bgra, stride, 2 * k, col)],
{
    reveal(chroma_row);
    let cr = chroma_row(bgra, stride, width, k);
    assert((col + 1) % 2 == 1);
    assert(cr[col] == block_u(bgra, stride, 2 * k, col));
    assert(cr[col + 1] == block_v(bgra, stride, 2 * k, col));
    assert(cr.take(col + 2) =~= cr.take(col) + seq![cr[col], cr[col + 1]]);
}

/// U and V bytes of the 2x2 block whose top-left pixel is (`row`, `col`).
fn block_chroma(bgra: &[u8], stride: usize, row: usize, col: usize) -> (r: (u8, u8))
    requires
        (row + 1) * stride + (col + 1) * 4 + 4 <= bgra@.len(),
    ensures
        r.0 == block_u(bgra@, stride as nat, row as int, col as int),
        r.1 == block_v(bgra@, stride as nat, row as int, col as int),
{
    let n = bgra.len();
    proof {
        assert(row * stride <= (row + 1) * stride) by (nonlinear_arith);
        assert((row + 1) * stride == row * stride + stride) by (nonlinear_arith);
    }
    let top = row * stride;
    let bottom = top + stride;
    let (u0, v0) = chroma_terms(bgra, top + col * 4);
    let (u1, v1) = chroma_terms(bgra, top + (col + 1) * 4);
    let (u2, v2) = chroma_terms(bgra, bottom + col * 4);
    let (u3, v3) = chroma_terms(bgra, bottom + (col + 1) * 4);
    let ub = chroma_byte(u0 + u1 + u2 + u3);
    let vb = chroma_byte(v0 + v1 + v2 + v3);
    (ub, vb)
}

/// Appends chroma row `k` (pixel rows `2k` and `2k + 1`) to `out`.
fn push_chroma_row(bgra: &[u8], stride: usize, width: usize, height: usize, k: usize, out: &mut Vec<u8>)
    requires
        frame_fits(bgra@.len(), width as nat, height as nat, stride as nat),
        width % 2 == 0,
        2 * k + 1 < height,
    ensures
        final(out)@ == old(out)@ + chroma_row(bgra@, stride as nat, width as nat, k as int),
        final(out)@.len() == old(out)@.len() + width,
{
    let row = 2 * k;
    let half = width / 2;
    let mut j: usize = 0;
    while j < half
        invariant
            j <= half,
            width == 2 * half,
            row == 2 * k,
            row + 1 < height,
            frame_fits(bgra@.len(), width as nat, height as nat, stride as nat),
            out@ == old(out)@ + chroma_row(bgra@, stride as nat, width as nat, k as int).take(2 * j),
        decreases half - j,
    {
        let col = 2 * j;
        proof {
            lemma_pixel_in_frame(bgra@.len(), width as nat, height as nat, stride as nat, row + 1, col + 1);
            lemma_chroma_row_step(bgra@, stride as nat, width as nat, k as int, col as int);
        }
        let (ub, vb) = block_chroma(bgra, stride, row, col);
        out.push(ub);
        out.push(vb);
        assert(out@ =~= old(out)@ + chroma_row(bgra@, stride as nat, width as nat, k as int).take(2 * j + 2));
        j += 1;
    }
    proof {
        reveal(chroma_row);
        assert(chroma_row(bgra@, stride as nat, width as nat, k as int).take(width as int)
            =~= chroma_row(bgra@, stride as nat, width as nat, k as int));
    }
}

/// Converts a BGRA frame to NV12 into `out`: the luma plane (`width * height`
/// bytes, row-major), then the chroma plane (`width * (height / 2)` bytes, U
/// and V interleaved per 2x2 block). `out` is resized to fit and overwritten.
pub fn bgra_to_nv12_packed(width: usize, height: usize, stride: usize, bgra: &[u8], out: &mut Vec<u8>)
    requires
        nv12_input_ok(bgra@.len(), width as nat, height as nat, stride as nat),
    ensures
        final(out)@ == luma_plane(bgra@, stride as nat, width as nat, height as nat) + chroma_plane(
            bgra@,
            stride as nat,
            width as nat,
            (height / 2) as nat,
        ),
        final(out)@.len() == width * height + width * (height / 2),
{
    let blen = bgra.len();
    out.clear();
    let mut py: usize = 0;
    while py < height
        invariant
            py <= height,
            nv12_input_ok(bgra@.len(), width as nat, height as nat, stride as nat),
            blen == bgra@.len(),
            out@ == luma_plane(bgra@, stride as nat, width as nat, py as nat),
            out@.len() == py * width,
        decreases height - py,
    {
        let ghost before = out@;
        let mut px: usize = 0;
        while px < width
            invariant
                px <= width,
                py < height,
                nv12_input_ok(bgra@.len(), width as nat, height as nat, stride as nat),
                blen == bgra@.len(),
            blen == bgra@.len(),
                out@ == before + luma_row(bgra@, stride as nat, width as nat, py as int).take(px as int),
            decreases width - px,
        {
            proof {
                lemma_pixel_in_frame(bgra@.len(), width as nat, height as nat, stride as nat, py as int, px as int);
            }
            let offset = py * stride + px * 4;
            let y = luma_byte(bgra, offset);
            out.push(y);
            assert(out@ =~= before + luma_row(bgra@, stride as nat, width as nat, py as int).take(px + 1));
            px += 1;
        }
        assert(luma_row(bgra@, stride as nat, width as nat, py as int).take(width as int)
            =~= luma_row(bgra@, stride as nat, width as nat, py as int));
        proof {
            assert((py + 1) * width == py * width + width) by (nonlinear_arith);
        }
        py += 1;
    }
    let ghost luma_part = out@;
    let pairs = height / 2;
    let mut k: usize = 0;
    while k < pairs
        invariant
            k <= pairs,
            pairs == height / 2,
            nv12_input_ok(bgra@.len(), width as nat, height as nat, stride as nat),
            blen == bgra@.len(),
            luma_part.len() == height * width,
            out@ == luma_part + chroma_plane(bgra@, stride as nat, width as nat, k as nat),
            out@.len() == height * width + k * width,
        decreases pairs - k,
    {
        push_chroma_row(bgra, stride, width, height, k, out);
        proof {
            assert((k + 1) * width == k * width + width) by (nonlinear_arith);
        }
        k += 1;
    }
    proof {
        assert(height * width == width * height) by (nonlinear_arith);
        assert(pairs * width == width * (height / 2)) by (nonlinear_arith)
            requires pairs == height / 2;
    }
}


proof fn lemma_luma_plane_len(bgra: Seq<u8>, stride: nat, width: nat, rows: nat)
    ensures
        luma_plane(bgra, stride, width, rows).len() == rows * width,
    decreases rows,
{
    if rows > 0 {
        let prev = (rows - 1) as nat;
        lemma_luma_plane_len(bgra, stride, width, prev);
        assert(luma_row(bgra, stride, width, rows - 1).len() == width);
        assert(luma_plane(bgra, stride, width, rows) == luma_plane(bgra, stride, width, prev) + luma_row(
            bgra,
            stride,
            width,
            rows - 1,
        ));
        assert(rows * width == prev * width + width) by (nonlinear_arith)
            requires
                prev == rows - 1,
        ;
    } else {
        assert(rows * width == 0) by (nonlinear_arith)
            requires
                rows == 0,
        ;
    }
}

/// Converts a BGRA frame to an NV12 frame of the same dimensions.
pub fn bgra_to_nv12(width: usize, height: usize, stride: usize, bgra: &[u8]) -> (r: Nv12Frame)
    requires
        nv12_input_ok(bgra@.len(), width as nat, height as nat, stride as nat),
    ensures
        r.width == width,
        r.height == height,
        r.y_plane@ == luma_plane(bgra@, stride as nat, width as nat, height as nat),
        r.uv_plane@ == chroma_plane(bgra@, stride as nat, width as nat, (height / 2) as nat),
{
    let mut packed: Vec<u8> = Vec::new();
    bgra_to_nv12_packed(width, height, stride, bgra, &mut packed);
    proof {
        lemma_luma_plane_len(bgra@, stride as nat, width as nat, height as nat);
        assert(height * width == width * height) by (nonlinear_arith);
    }
    let y_len = width * height;
    let uv_plane = packed.split_off(y_len);
    let ghost luma = luma_plane(bgra@, stride as nat, width as nat, height as nat);
    let ghost chroma = chroma_plane(bgra@, stride as nat, width as nat, (height / 2) as nat);
    assert((luma + chroma).subrange(0, y_len as int) =~= luma);
    assert((luma + chroma).subrange(y_len as int, (luma + chroma).len() as int) =~= chroma);
    Nv12Frame { width, height, y_plane: packed, uv_plane }
}

impl DesktopFrame {
    /// The frame in NV12.
    pub fn to_nv12(&self) -> (r: Nv12Frame)
        requires
            nv12_input_ok(self.bgra@.len(), self.width as nat, self.height as nat, self.stride as nat),
        ensures
            r.width == self.width,
            r.height == self.height,
            r.y_plane@ == luma_plane(self.bgra@, self.stride as nat, self.width as nat, self.height as nat),
            r.uv_plane@ == chroma_plane(
                self.bgra@,
                self.stride as nat,
                self.width as nat,
                (self.height / 2) as nat,
            ),
    {
        bgra_to_nv12(self.width, self.height, self.stride, self.bgra.as_slice())
    }
}


// ---------------------------------------------------------------------------
// Nearest-neighbour resize
// ---------------------------------------------------------------------------

/// `a * b`, saturated at `usize::MAX`.
pub open spec fn sat_mul(a: int, b: int) -> int {
    if a * b > usize::MAX {
        usize::MAX as int
    } else {
        a * b
    }
}

/// `a + b`, saturated at `usize::MAX`.
pub open spec fn sat_add(a: int, b: int) -> int {
    if a + b > usize::MAX {
        usize::MAX as int
    } else {
        a + b
    }
}

/// `n`, or 1 when `n` is 0.
pub open spec fn at_least_one(n: int) -> int {
    if n >= 1 {
        n
    } else {
        1
    }
}

/// Byte offset in the source of the pixel that target pixel (`y`, `x`) copies:
/// row `y * height / target_height`, column `x * width / target_width`, with
/// the products saturating as in `usize` arithmetic.
pub open spec fn nearest_source(
    width: nat,
    height: nat,
    stride: nat,
    target_width: nat,
    target_height: nat,
    y: int,
    x: int,
) -> int {
    let src_y = sat_mul(y, height as int) / at_least_one(target_height as int);
    let src_x = sat_mul(x, width as int) / at_least_one(target_width as int);
    sat_add(sat_mul(src_y, stride as int), sat_mul(src_x, 4))
}

/// Every source pixel that the resize reads lies in a buffer of `len` bytes.
pub open spec fn resize_sources_fit(
    len: nat,
    width: nat,
    height: nat,
    stride: nat,
    target_width: nat,
    target_height: nat,
) -> bool {
    forall|y: int, x: int|
        0 <= y < target_height && 0 <= x < target_width ==> #[trigger] nearest_source(
            width,
            height,
            stride,
            target_width,
            target_height,
            y,
            x,
        ) + 4 <= len
}

/// Row `y` of the resized frame: for each target pixel, the 4 bytes of its
/// source pixel.
pub open spec fn resized_row(
    bgra: Seq<u8>,
    width: nat,
    height: nat,
    stride: nat,
    target_width: nat,
    target_height: nat,
    y: int,
) -> Seq<u8> {
    Seq::new(
        target_width * 4,
        |i: int|
            bgra[nearest_source(width, height, stride, target_width, target_height, y, i / 4) + i % 4],
    )
}

/// The first `rows` rows of the resized frame, packed.
pub open spec fn resized_rows(
    bgra: Seq<u8>,
    width: nat,
    height: nat,
    stride: nat,
    target_width: nat,
    target_height: nat,
    rows: nat,
) -> Seq<u8>
    decreases rows,
{
    if rows == 0 {
        seq![]
    } else {
        resized_rows(bgra, width, height, stride, target_width, target_height, (rows - 1) as nat)
            + resized_row(bgra, width, height, stride, target_width, target_height, rows - 1)
    }
}

/// `a * b` saturated at `usize::MAX`.
fn saturating_mul_usize(a: usize, b: usize) -> (r: usize)
    ensures
        r == sat_mul(a as int, b as int),
{
    match a.checked_mul(b) {
        Some(p) => p,
        None => usize::MAX,
    }
}

impl DesktopFrame {
    /// The frame resized to `target_width` x `target_height` by nearest
    /// neighbour, packed (stride `target_width * 4`), same capture time; a
    /// copy when the size is unchanged.
    pub fn resize_bgra_nearest(&self, target_width: usize, target_height: usize) -> (r: Self)
        requires
            !(target_width == self.width && target_height == self.height) ==> {
                &&& target_width * target_height * 4 <= usize::MAX
                &&& target_width * 4 <= usize::MAX
                &&& resize_sources_fit(
                    self.bgra@.len(),
                    self.width as nat,
                    self.height as nat,
                    self.stride as nat,
                    target_width as nat,
                    target_height as nat,
                )
            },
        ensures
            r.width == target_width,
            r.height == target_height,
            r.captured_at == self.captured_at,
            target_width == self.width && target_height == self.height ==> r.stride == self.stride
                && r.bgra@ == self.bgra@,
            !(target_width == self.width && target_height == self.height) ==> r.stride == target_width
                * 4 && r.bgra@ == resized_rows(
                self.bgra@,
                self.width as nat,
                self.height as nat,
                self.stride as nat,
                target_width as nat,
                target_height as nat,
                target_height as nat,
            ),
    {
        if target_width == self.width && target_height == self.height {
            return self.clone();
        }
        let ghost b = self.bgra@;
        let ghost (w, h, s, tw, th) = (
            self.width as nat,
            self.height as nat,
            self.stride as nat,
            target_width as nat,
            target_height as nat,
        );
        let height_div = if target_height >= 1 {
            target_height
        } else {
            1
        };
        let width_div = if target_width >= 1 {
            target_width
        } else {
            1
        };
        let blen = self.bgra.len();
        let mut out: Vec<u8> = Vec::new();
        let mut y: usize = 0;
        while y < target_height
            invariant
                y <= target_height,
                blen == b.len(),
                b == self.bgra@,
                w == self.width,
                h == self.height,
                s == self.stride,
                tw == target_width,
                th == target_height,
                height_div == at_least_one(th as int),
                width_div == at_least_one(tw as int),
                resize_sources_fit(b.len(), w, h, s, tw, th),
                out@ == resized_rows(b, w, h, s, tw, th, y as nat),
            decreases target_height - y,
        {
            let src_y = saturating_mul_usize(y, self.height) / height_div;
            let ghost before = out@;
            let mut x: usize = 0;
            while x < target_width
                invariant
                    x <= target_width,
                    y < target_height,
                    blen == b.len(),
                    b == self.bgra@,
                    w == self.width,
                    h == self.height,
                    s == self.stride,
                    tw == target_width,
                    th == target_height,
                    height_div == at_least_one(th as int),
                    width_div == at_least_one(tw as int),
                    src_y == sat_mul(y as int, h as int) / at_least_one(th as int),
                    resize_sources_fit(b.len(), w, h, s, tw, th),
                    out@ == before + resized_row(b, w, h, s, tw, th, y as int).take(4 * x),
                decreases target_width - x,
            {
                let src_x = saturating_mul_usize(x, self.width) / width_div;
                let src_index = saturating_mul_usize(src_y, self.stride).saturating_add(
                    saturating_mul_usize(src_x, 4),
                );
                assert(src_index == nearest_source(w, h, s, tw, th, y as int, x as int));
                assert(src_index + 4 <= b.len());
                let ghost row = resized_row(b, w, h, s, tw, th, y as int);
                let mut k: usize = 0;
                while k < 4
                    invariant
                        k <= 4,
                        x < target_width,
                        blen == b.len(),
                        tw == target_width,
                        b == self.bgra@,
                        src_index == nearest_source(w, h, s, tw, th, y as int, x as int),
                        src_index + 4 <= b.len(),
                        row == resized_row(b, w, h, s, tw, th, y as int),
                        out@ == before + row.take(4 * x + k),
                    decreases 4 - k,
                {
                    out.push(self.bgra[src_index + k]);
                    assert(row[4 * x + k] == b[src_index + k]);
                    assert(out@ =~= before + row.take(4 * x + k + 1));
                    k += 1;
                }
                x += 1;
            }
            assert(resized_row(b, w, h, s, tw, th, y as int).take(4 * tw as int) =~= resized_row(
                b,
                w,
                h,
                s,
                tw,
                th,
                y as int,
            ));
            y += 1;
        }
        DesktopFrame {
            width: target_width,
            height: target_height,
            stride: target_width * 4,
            captured_at: self.captured_at,
            bgra: out,
        }
    }
}


// ---------------------------------------------------------------------------
// Capture pipeline
// ---------------------------------------------------------------------------

/// A source of desktop frames.
pub trait ScreenCapturer {
    /// The next frame, `None` when none arrived within `timeout_ms`.
    fn capture_next_frame(&mut self, timeout_ms: u32) -> Result<Option<DesktopFrame>, String>;
}

/// Width, height, stride and pixels of a frame after
/// `resize_bgra_nearest(target_width, target_height)`.
pub open spec fn resized_frame(
    width: nat,
    height: nat,
    stride: nat,
    bgra: Seq<u8>,
    target_width: nat,
    target_height: nat,
) -> (nat, nat, nat, Seq<u8>) {
    if target_width == width && target_height == height {
        (width, height, stride, bgra)
    } else {
        (
            target_width,
            target_height,
            target_width * 4,
            resized_rows(bgra, width, height, stride, target_width, target_height, target_height),
        )
    }
}

/// Width, height and packed pixels of a frame after `into_even_bgra`.
pub open spec fn even_frame(width: nat, height: nat, stride: nat, bgra: Seq<u8>) -> (nat, nat, Seq<u8>) {
    if width % 2 == 0 && height % 2 == 0 {
        (width, height, bgra)
    } else {
        (even(width), even(height), packed_rows(bgra, stride, even(width) * 4, even(height)))
    }
}

/// What resizing needs when the size changes.
pub open spec fn resize_input_ok(
    len: nat,
    width: nat,
    height: nat,
    stride: nat,
    target_width: nat,
    target_height: nat,
) -> bool {
    !(target_width == width && target_height == height) ==> {
        &&& target_width * target_height * 4 <= usize::MAX
        &&& target_width * 4 <= usize::MAX
        &&& resize_sources_fit(len, width, height, stride, target_width, target_height)
    }
}

/// A frame as the stream takes it after an optional resize: the resized (or
/// unchanged) frame, cropped to even dimensions and packed.
pub open spec fn normalized(f: DesktopFrame, resize_to: Option<(usize, usize)>) -> (nat, nat, Seq<u8>) {
    let (w, h, s, b) = match resize_to {
        Some((tw, th)) => resized_frame(f.width as nat, f.height as nat, f.stride as nat, f.bgra@, tw as nat, th as nat),
        None => (f.width as nat, f.height as nat, f.stride as nat, f.bgra@),
    };
    even_frame(w, h, s, b)
}

proof fn lemma_packed_frame_crops(width: nat, height: nat)
    requires
        width * height * 4 <= usize::MAX,
    ensures
        even(width) * even(height) * 4 <= usize::MAX,
        rows_fit(width * height * 4, width * 4, even(width) * 4, even(height)),
{
    assert(even(width) * even(height) * 4 <= width * height * 4) by (nonlinear_arith)
        requires
            even(width) <= width,
            even(height) <= height,
    ;
    if even(height) > 0 {
        assert(((even(height) - 1) as nat) * (width * 4) + even(width) * 4 <= width * height * 4) by (nonlinear_arith)
            requires
                even(width) <= width,
                1 <= even(height) <= height,
        ;
    }
}

/// Prepares a captured frame for the stream: resized to `resize_to` when
/// given, then cropped to even dimensions and packed; a frame smaller than
/// 2x2 after that is refused.
pub fn normalize_frame_for_stream(frame: DesktopFrame, resize_to: Option<(usize, usize)>) -> (r: Result<(usize, usize, Vec<u8>), String>)
    requires
        match resize_to {
            Some((tw, th)) => resize_input_ok(
                frame.bgra@.len(),
                frame.width as nat,
                frame.height as nat,
                frame.stride as nat,
                tw as nat,
                th as nat,
            ) && (tw == frame.width && th == frame.height ==> even_input_ok(
                frame.bgra@.len(),
                frame.width as nat,
                frame.height as nat,
                frame.stride as nat,
            )),
            None => even_input_ok(frame.bgra@.len(), frame.width as nat, frame.height as nat, frame.stride as nat),
        },
    ensures
        ({
            let (w, h, b) = normalized(frame, resize_to);
            if w < 2 || h < 2 {
                r is Err
            } else {
                r matches Ok((rw, rh, rb)) && rw == w && rh == h && rb@ == b
            }
        }),
{
    let ghost initial = frame;
    let prepared = match resize_to {
        Some((tw, th)) => {
            let resized = frame.resize_bgra_nearest(tw, th);
            proof {
                if !(tw == initial.width && th == initial.height) {
                    lemma_packed_frame_crops(tw as nat, th as nat);
                    assert(resized.bgra@.len() == (tw as nat) * (th as nat) * 4) by {
                        lemma_resized_rows_len(
                            initial.bgra@,
                            initial.width as nat,
                            initial.height as nat,
                            initial.stride as nat,
                            tw as nat,
                            th as nat,
                            th as nat,
                        );
                    }
                }
            }
            resized
        },
        None => frame,
    };
    let (width, height, bgra) = prepared.into_even_bgra();
    if width < 2 || height < 2 {
        return Err("Captured frame is too small".to_owned());
    }
    Ok((width, height, bgra))
}

proof fn lemma_resized_rows_len(
    bgra: Seq<u8>,
    width: nat,
    height: nat,
    stride: nat,
    target_width: nat,
    target_height: nat,
    rows: nat,
)
    ensures
        resized_rows(bgra, width, height, stride, target_width, target_height, rows).len() == target_width * rows * 4,
    decreases rows,
{
    if rows > 0 {
        lemma_resized_rows_len(bgra, width, height, stride, target_width, target_height, (rows - 1) as nat);
        assert(target_width * rows * 4 == target_width * ((rows - 1) as nat) * 4 + target_width * 4) by (nonlinear_arith)
            requires
                rows > 0,
        ;
    } else {
        assert(target_width * rows * 4 == 0) by (nonlinear_arith)
            requires
                rows == 0,
        ;
    }
}


// ---------------------------------------------------------------------------
// Laws
// ---------------------------------------------------------------------------

/// Black-frame detection reads colour bytes only: two buffers of the same
/// length that differ only in alpha bytes are judged alike.
pub proof fn law_black_frame_ignores_alpha(a: Seq<u8>, b: Seq<u8>)
    requires
        a.len() == b.len(),
        forall|i: int| 0 <= i < a.len() && i % 4 != 3 ==> a[i] == b[i],
    ensures
        spec_is_black_frame(a) == spec_is_black_frame(b),
{
    assert forall|k: int|
        0 <= k < 256 && k * sample_step(a.len()) < a.len() / 4 implies #[trigger] pixel_is_black(
            a,
            k * sample_step(a.len()),
        ) == pixel_is_black(b, k * sample_step(b.len())) by {
        let p = k * sample_step(a.len());
        assert(p >= 0) by (nonlinear_arith)
            requires
                p == k * sample_step(a.len()),
                k >= 0,
                sample_step(a.len()) >= 1,
        ;
        assert((4 * p) % 4 == 0 && (4 * p + 1) % 4 == 1 && (4 * p + 2) % 4 == 2);
        assert(4 * p + 2 < a.len());
    }
    assert(sample_step(a.len()) == sample_step(b.len()));
    if spec_is_black_frame(a) {
        assert forall|k: int|
            0 <= k < 256 && k * sample_step(b.len()) < b.len() / 4 implies #[trigger] pixel_is_black(
                b,
                k * sample_step(b.len()),
            ) by {
            assert(pixel_is_black(a, k * sample_step(a.len())));
        }
    }
    if spec_is_black_frame(b) {
        assert forall|k: int|
            0 <= k < 256 && k * sample_step(a.len()) < a.len() / 4 implies #[trigger] pixel_is_black(
                a,
                k * sample_step(a.len()),
            ) by {
            assert(pixel_is_black(b, k * sample_step(b.len())));
        }
    }
}

proof fn lemma_row_offsets(y: int, rows: int, rb: int, i: int)
    requires
        0 <= y < rows,
        0 <= i < rb,
    ensures
        0 <= y * rb + i < rows * rb,
        y < rows - 1 ==> y * rb + i < (rows - 1) * rb,
        y == rows - 1 ==> y * rb + i - (rows - 1) * rb == i,
{
    assert(0 <= y * rb + i < rows * rb) by (nonlinear_arith)
        requires
            0 <= y < rows,
            0 <= i < rb,
    ;
    assert(y < rows - 1 ==> y * rb + i < (rows - 1) * rb) by (nonlinear_arith)
        requires
            0 <= y,
            0 <= i < rb,
    ;
}

proof fn lemma_packed_rows_at(b: Seq<u8>, stride: nat, rb: nat, rows: nat)
    requires
        rows_fit(b.len(), stride, rb, rows),
    ensures
        packed_rows(b, stride, rb, rows).len() == rows * rb,
        forall|y: int, i: int|
            0 <= y < rows && 0 <= i < rb ==> #[trigger] packed_rows(b, stride, rb, rows)[y * rb + i] == b[y * stride
                + i],
    decreases rows,
{
    if rows > 0 {
        let y0 = (rows - 1) as nat;
        if y0 > 0 {
            assert(((y0 - 1) as nat) * stride + rb <= y0 * stride + rb) by (nonlinear_arith)
                requires
                    y0 >= 1,
            ;
        }
        lemma_packed_rows_at(b, stride, rb, y0);
        let p = packed_rows(b, stride, rb, y0);
        let row = b.subrange((y0 * stride) as int, (y0 * stride + rb) as int);
        assert(packed_rows(b, stride, rb, rows) == p + row);
        assert(rows * rb == y0 * rb + rb) by (nonlinear_arith)
            requires
                rows == y0 + 1,
        ;
        assert forall|y: int, i: int| 0 <= y < rows && 0 <= i < rb implies #[trigger] packed_rows(
            b,
            stride,
            rb,
            rows,
        )[y * rb + i] == b[y * stride + i] by {
            lemma_row_offsets(y, rows as int, rb as int, i);
            if y < y0 {
                assert(p[y * rb + i] == b[y * stride + i]);
            }
        }
    }
}

/// Cropping to even dimensions keeps each kept row's leading pixels: byte
/// `i` of row `y` of the cropped frame is byte `i` of row `y` of the input.
pub proof fn law_even_crop_keeps_rows(b: Seq<u8>, width: nat, height: nat, stride: nat)
    requires
        width % 2 == 1 || height % 2 == 1,
        even_input_ok(b.len(), width, height, stride),
    ensures
        packed_rows(b, stride, even(width) * 4, even(height)).len() == even(width) * 4 * even(height),
        forall|y: int, i: int|
            0 <= y < even(height) && 0 <= i < even(width) * 4 ==> #[trigger] packed_rows(
                b,
                stride,
                even(width) * 4,
                even(height),
            )[y * (even(width) * 4) + i] == b[y * stride + i],
{
    lemma_packed_rows_at(b, stride, even(width) * 4, even(height));
    assert(even(height) * (even(width) * 4) == even(width) * 4 * even(height)) by (nonlinear_arith);
}

proof fn lemma_resized_rows_at(
    bgra: Seq<u8>,
    width: nat,
    height: nat,
    stride: nat,
    tw: nat,
    th: nat,
    rows: nat,
)
    ensures
        resized_rows(bgra, width, height, stride, tw, th, rows).len() == rows * (tw * 4),
        forall|y: int, i: int|
            0 <= y < rows && 0 <= i < tw * 4 ==> #[trigger] resized_rows(bgra, width, height, stride, tw, th, rows)[y
                * (tw * 4) + i] == bgra[nearest_source(width, height, stride, tw, th, y, i / 4) + i % 4],
    decreases rows,
{
    if rows > 0 {
        let y0 = (rows - 1) as nat;
        lemma_resized_rows_at(bgra, width, height, stride, tw, th, y0);
        let p = resized_rows(bgra, width, height, stride, tw, th, y0);
        let rb = tw * 4;
        assert(rows * rb == y0 * rb + rb) by (nonlinear_arith)
            requires
                rows == y0 + 1,
        ;
        assert forall|y: int, i: int| 0 <= y < rows && 0 <= i < tw * 4 implies #[trigger] resized_rows(
            bgra,
            width,
            height,
            stride,
            tw,
            th,
            rows,
        )[y * (tw * 4) + i] == bgra[nearest_source(width, height, stride, tw, th, y, i / 4) + i % 4] by {
            lemma_row_offsets(y, rows as int, rb as int, i);
            if y < y0 {
                assert(p[y * rb + i] == bgra[nearest_source(width, height, stride, tw, th, y, i / 4) + i % 4]);
            }
        }
    } else {
        assert(rows * (tw * 4) == 0) by (nonlinear_arith)
            requires
                rows == 0,
        ;
    }
}

/// Nearest-neighbour resizing: byte `c` of target pixel (`x`, `y`) is byte
/// `c` of the source pixel in row `y * height / target_height` and column
/// `x * width / target_width` (products saturating at `usize::MAX`).
pub proof fn law_resize_picks_nearest_pixel(
    bgra: Seq<u8>,
    width: nat,
    height: nat,
    stride: nat,
    tw: nat,
    th: nat,
    x: int,
    y: int,
    c: int,
)
    requires
        0 <= x < tw,
        0 <= y < th,
        0 <= c < 4,
    ensures
        resized_rows(bgra, width, height, stride, tw, th, th).len() == th * tw * 4,
        resized_rows(bgra, width, height, stride, tw, th, th)[(y * tw + x) * 4 + c] == bgra[nearest_source(
            width,
            height,
            stride,
            tw,
            th,
            y,
            x,
        ) + c],
{
    lemma_resized_rows_at(bgra, width, height, stride, tw, th, th);
    let i = x * 4 + c;
    assert((y * tw + x) * 4 + c == y * (tw * 4) + i) by (nonlinear_arith)
        requires
            i == x * 4 + c,
    ;
    assert(th * (tw * 4) == th * tw * 4) by (nonlinear_arith);
    lemma_fundamental_div_mod_converse(i, 4, x, c);
    assert(0 <= i < tw * 4);
    assert(resized_rows(bgra, width, height, stride, tw, th, th)[y * (tw * 4) + i] == bgra[nearest_source(
        width,
        height,
        stride,
        tw,
        th,
        y,
        i / 4,
    ) + i % 4]);
}

proof fn lemma_luma_plane_at(bgra: Seq<u8>, stride: nat, width: nat, rows: nat)
    ensures
        luma_plane(bgra, stride, width, rows).len() == rows * width,
        forall|y: int, x: int|
            0 <= y < rows && 0 <= x < width ==> #[trigger] luma_plane(bgra, stride, width, rows)[y * width + x]
                == luma_at(bgra, stride, y, x),
    decreases rows,
{
    if rows > 0 {
        let y0 = (rows - 1) as nat;
        lemma_luma_plane_at(bgra, stride, width, y0);
        let p = luma_plane(bgra, stride, width, y0);
        assert(rows * width == y0 * width + width) by (nonlinear_arith)
            requires
                rows == y0 + 1,
        ;
        assert forall|y: int, x: int| 0 <= y < rows && 0 <= x < width implies #[trigger] luma_plane(
            bgra,
            stride,
            width,
            rows,
        )[y * width + x] == luma_at(bgra, stride, y, x) by {
            lemma_row_offsets(y, rows as int, width as int, x);
            if y < y0 {
                assert(p[y * width + x] == luma_at(bgra, stride, y, x));
            }
        }
    } else {
        assert(rows * width == 0) by (nonlinear_arith)
            requires
                rows == 0,
        ;
    }
}

proof fn lemma_chroma_plane_at(bgra: Seq<u8>, stride: nat, width: nat, pairs: nat)
    ensures
        chroma_plane(bgra, stride, width, pairs).len() == pairs * width,
        forall|k: int, c: int|
            0 <= k < pairs && 0 <= c < width ==> #[trigger] chroma_plane(bgra, stride, width, pairs)[k * width + c]
                == chroma_row(bgra, stride, width, k)[c],
    decreases pairs,
{
    reveal(chroma_row);
    if pairs > 0 {
        let k0 = (pairs - 1) as nat;
        lemma_chroma_plane_at(bgra, stride, width, k0);
        let p = chroma_plane(bgra, stride, width, k0);
        assert(pairs * width == k0 * width + width) by (nonlinear_arith)
            requires
                pairs == k0 + 1,
        ;
        assert forall|k: int, c: int| 0 <= k < pairs && 0 <= c < width implies #[trigger] chroma_plane(
            bgra,
            stride,
            width,
            pairs,
        )[k * width + c] == chroma_row(bgra, stride, width, k)[c] by {
            lemma_row_offsets(k, pairs as int, width as int, c);
            if k < k0 {
                assert(p[k * width + c] == chroma_row(bgra, stride, width, k)[c]);
            }
        }
    } else {
        assert(pairs * width == 0) by (nonlinear_arith)
            requires
                pairs == 0,
        ;
    }
}

/// NV12 conversion, luma: the luma byte of pixel (`x`, `y`) stands at
/// `y * width + x` of the output.
pub proof fn law_nv12_luma_at_pixel(bgra: Seq<u8>, stride: nat, width: nat, height: nat, x: int, y: int)
    requires
        0 <= x < width,
        0 <= y < height,
    ensures
        (luma_plane(bgra, stride, width, height) + chroma_plane(bgra, stride, width, height / 2))[y * width + x]
            == luma_at(bgra, stride, y, x),
{
    lemma_luma_plane_at(bgra, stride, width, height);
    lemma_row_offsets(y, height as int, width as int, x);
    let lp = luma_plane(bgra, stride, width, height);
    assert(lp[y * width + x] == luma_at(bgra, stride, y, x));
}

/// NV12 conversion, chroma: after the `width * height` luma bytes, the 2x2
/// block whose top-left pixel is (`x`, `y`), both even, has its U byte at
/// `(y / 2) * width + x` and its V byte right after.
#[verifier::spinoff_prover]
pub proof fn law_nv12_chroma_at_block(bgra: Seq<u8>, stride: nat, width: nat, height: nat, x: int, y: int)
    requires
        0 <= x,
        x + 1 < width,
        0 <= y,
        y + 1 < height,
        x % 2 == 0,
        y % 2 == 0,
    ensures
        (luma_plane(bgra, stride, width, height) + chroma_plane(bgra, stride, width, height / 2))[width * height
            + (y / 2) * width + x] == block_u(bgra, stride, y, x),
        (luma_plane(bgra, stride, width, height) + chroma_plane(bgra, stride, width, height / 2))[width * height
            + (y / 2) * width + x + 1] == block_v(bgra, stride, y, x),
{
    reveal(chroma_row);
    lemma_luma_plane_at(bgra, stride, width, height);
    lemma_chroma_plane_at(bgra, stride, width, height / 2);
    let lp = luma_plane(bgra, stride, width, height);
    let cp = chroma_plane(bgra, stride, width, height / 2);
    let k = y / 2;
    assert(2 * k == y);
    assert(0 <= k < height / 2);
    assert(height * width == width * height) by (nonlinear_arith);
    lemma_row_offsets(k, (height / 2) as int, width as int, x);
    lemma_row_offsets(k, (height / 2) as int, width as int, x + 1);
    assert(cp[k * width + x] == chroma_row(bgra, stride, width, k)[x]);
    assert(cp[k * width + (x + 1)] == chroma_row(bgra, stride, width, k)[x + 1]);
    assert(chroma_row(bgra, stride, width, k)[x] == block_u(bgra, stride, y, x));
    assert(chroma_row(bgra, stride, width, k)[x + 1] == block_v(bgra, stride, y, x));
}

/// A frame judged not black has a pixel whose B, G or R byte is not zero.
pub proof fn law_non_black_frame_has_colour(b: Seq<u8>)
    requires
        !spec_is_black_frame(b),
    ensures
        exists|p: int| 0 <= p < b.len() / 4 && !#[trigger] pixel_is_black(b, p),
{
    let k = choose|k: int|
        !(0 <= k < 256 && k * sample_step(b.len()) < b.len() / 4 ==> #[trigger] pixel_is_black(
            b,
            k * sample_step(b.len()),
        ));
    let p = k * sample_step(b.len());
    assert(p >= 0) by (nonlinear_arith)
        requires
            p == k * sample_step(b.len()),
            k >= 0,
    ;
    assert(!pixel_is_black(b, p));
}

/// A buffer whose colour bytes are all zero is black, whatever its alpha.
pub proof fn law_zero_colour_is_black(b: Seq<u8>)
    requires
        forall|i: int| 0 <= i < b.len() && i % 4 != 3 ==> b[i] == 0,
    ensures
        spec_is_black_frame(b),
{
    assert forall|k: int|
        0 <= k < 256 && k * sample_step(b.len()) < b.len() / 4 implies #[trigger] pixel_is_black(
            b,
            k * sample_step(b.len()),
        ) by {
        let p = k * sample_step(b.len());
        assert(p >= 0) by (nonlinear_arith)
            requires
                p == k * sample_step(b.len()),
                k >= 0,
                sample_step(b.len()) >= 1,
        ;
        assert((4 * p) % 4 == 0 && (4 * p + 1) % 4 == 1 && (4 * p + 2) % 4 == 2);
        assert(4 * p + 2 < b.len());
    }
}

/// Cropping to even dimensions keeps at least all but one row and column,
/// and yields even dimensions.
pub proof fn law_even_dimensions(n: nat)
    ensures
        even(n) % 2 == 0,
        even(n) <= n,
        n - even(n) <= 1,
{
}

proof fn lemma_chroma_plane_len(bgra: Seq<u8>, stride: nat, width: nat, pairs: nat)
    ensures
        chroma_plane(bgra, stride, width, pairs).len() == pairs * width,
    decreases pairs,
{
    reveal(chroma_row);
    if pairs > 0 {
        lemma_chroma_plane_len(bgra, stride, width, (pairs - 1) as nat);
        assert(pairs * width == (pairs - 1) * width + width) by (nonlinear_arith);
    } else {
        assert(pairs * width == 0) by (nonlinear_arith)
            requires
                pairs == 0,
        ;
    }
}

/// An NV12 frame has one luma byte per pixel and one chroma byte per pixel
/// of every other row.
pub proof fn law_nv12_plane_sizes(bgra: Seq<u8>, stride: nat, width: nat, height: nat)
    ensures
        luma_plane(bgra, stride, width, height).len() == width * height,
        chroma_plane(bgra, stride, width, height / 2).len() == width * (height / 2),
{
    lemma_luma_plane_len(bgra, stride, width, height);
    lemma_chroma_plane_len(bgra, stride, width, height / 2);
    assert(height * width == width * height) by (nonlinear_arith);
    assert((height / 2) * width == width * (height / 2)) by (nonlinear_arith);
}

/// Resizing to the frame's own size changes nothing.
pub proof fn law_resize_to_same_size_is_identity(width: nat, height: nat, stride: nat, bgra: Seq<u8>)
    ensures
        resized_frame(width, height, stride, bgra, width, height) == (width, height, stride, bgra),
{
}

/// A requested stream dimension: the setting parsed as a number that is at
/// least `min`, rounded down to even.
pub open spec fn requested_dimension(raw: Option<Seq<char>>, min: nat) -> Option<usize> {
    match raw {
        Some(s) => match crate::scan::parse_unsigned(s, usize::MAX as nat) {
            Some(v) => if v >= min {
                Some((v as usize) & !1usize)
            } else {
                None
            },
            None => None,
        },
        None => None,
    }
}

/// One requested dimension (see `requested_dimension`).
fn requested_dimension_of(raw: Option<&str>, min: usize) -> (r: Option<usize>)
    ensures
        r == requested_dimension(
            match raw {
                Some(s) => Some(s@),
                None => None,
            },
            min as nat,
        ),
{
    match raw {
        Some(s) => {
            let chars = crate::text::chars_of(s);
            match crate::scan::parse_usize(chars.as_slice()) {
                Some(v) => if v >= min {
                    Some(v & !1usize)
                } else {
                    None
                },
                None => None,
            }
        },
        None => None,
    }
}

/// The stream size requested by the width and height settings: each must
/// be a number of at least 320 (width) or 180 (height) and is rounded down
/// to even; a missing one is 0; `None` when neither is requested.
pub fn scale_request_from(width_raw: Option<&str>, height_raw: Option<&str>) -> (r: Option<(usize, usize)>)
    ensures
        ({
            let w = requested_dimension(
                match width_raw {
                    Some(s) => Some(s@),
                    None => None,
                },
                320,
            );
            let h = requested_dimension(
                match height_raw {
                    Some(s) => Some(s@),
                    None => None,
                },
                180,
            );
            r == match (w, h) {
                (Some(a), Some(b)) => Some((a, b)),
                (Some(a), None) => Some((a, 0usize)),
                (None, Some(b)) => Some((0usize, b)),
                (None, None) => None,
            }
        }),
{
    let w = requested_dimension_of(width_raw, 320);
    let h = requested_dimension_of(height_raw, 180);
    match (w, h) {
        (Some(a), Some(b)) => Some((a, b)),
        (Some(a), None) => Some((a, 0)),
        (None, Some(b)) => Some((0, b)),
        (None, None) => None,
    }
}

/// A requested stream dimension is always even.
pub proof fn law_requested_dimension_even(raw: Option<Seq<char>>, min: nat)
    ensures
        requested_dimension(raw, min) matches Some(d) ==> d % 2 == 0,
{
    match requested_dimension(raw, min) {
        Some(d) => {
            let v: usize = match raw {
                Some(s) => (crate::scan::parse_unsigned(s, usize::MAX as nat)->0) as usize,
                None => 0,
            };
            assert(d == v & !1usize);
            assert((v & !1usize) % 2 == 0) by (bit_vector);
        },
        None => {},
    }
}

/// Why no display could be chosen for capture.
#[derive(Clone, Copy, Debug, PartialEq, Eq, Structural)]
pub enum ScreenChoiceError {
    /// There is no display at all.
    NoDisplay,
    /// The requested display index is past the last display.
    IndexOutOfRange { index: usize, count: usize },
}

/// The first primary display, when there is one.
pub open spec fn first_primary(primary: Seq<bool>) -> Option<int>
    decreases primary.len(),
{
    if primary.len() == 0 {
        None
    } else if primary[0] {
        Some(0)
    } else {
        match first_primary(primary.drop_first()) {
            Some(i) => Some(i + 1),
            None => None,
        }
    }
}

/// The display to capture, given which displays are primary: the requested
/// index when there is one, else the first primary display, else the first.
pub fn select_screen_for_index(primary: &Vec<bool>, monitor_index: Option<usize>) -> (r: Result<usize, ScreenChoiceError>)
    ensures
        primary@.len() == 0 ==> r == Err::<usize, ScreenChoiceError>(ScreenChoiceError::NoDisplay),
        primary@.len() > 0 ==> r == match monitor_index {
            Some(i) => if i < primary@.len() {
                Ok::<usize, ScreenChoiceError>(i)
            } else {
                Err(ScreenChoiceError::IndexOutOfRange { index: i, count: primary@.len() as usize })
            },
            None => match first_primary(primary@) {
                Some(p) => Ok(p as usize),
                None => Ok(0usize),
            },
        },
{
    let n = primary.len();
    if n == 0 {
        return Err(ScreenChoiceError::NoDisplay);
    }
    if let Some(i) = monitor_index {
        if i < n {
            return Ok(i);
        }
        return Err(ScreenChoiceError::IndexOutOfRange { index: i, count: n });
    }
    let mut k: usize = 0;
    assert(primary@.skip(0) =~= primary@);
    while k < n
        invariant
            n == primary@.len(),
            n > 0,
            monitor_index is None,
            k <= n,
            first_primary(primary@) == match first_primary(primary@.skip(k as int)) {
                Some(j) => Some(j + k),
                None => None,
            },
        decreases n - k,
    {
        assert(primary@.skip(k as int).drop_first() =~= primary@.skip(k + 1));
        assert(primary@.skip(k as int)[0] == primary@[k as int]);
        if primary[k] {
            return Ok(k);
        }
        k += 1;
    }
    assert(primary@.skip(n as int) =~= Seq::<bool>::empty());
    Ok(0)
}

/// A screen-capture interface.
#[derive(Clone, Copy, Debug, PartialEq, Eq, Structural)]
pub enum CaptureApi {
    /// DXGI desktop duplication.
    Dxgi,
    /// Windows.Graphics.Capture.
    Wgc,
}

/// The capture interfaces to try, in order, for a backend name (trimmed,
/// lowercased): `dxgi` or `wgc` alone; `auto`, empty, or any unknown name
/// tries DXGI first, then WGC.
pub open spec fn backend_order(name: Seq<char>) -> Seq<CaptureApi> {
    if name == "dxgi"@ {
        seq![CaptureApi::Dxgi]
    } else if name == "wgc"@ {
        seq![CaptureApi::Wgc]
    } else {
        seq![CaptureApi::Dxgi, CaptureApi::Wgc]
    }
}

/// The capture interfaces to try for the capture-backend setting (`auto`
/// when absent), trimmed and lowercased (see `backend_order`).
pub fn capture_backend_order(setting: Option<&str>) -> (r: Vec<CaptureApi>)
    ensures
        r@ == backend_order(
            crate::text::ascii_lower(
                crate::text::trim(
                    match setting {
                        Some(s) => s@,
                        None => "auto"@,
                    },
                ),
            ),
        ),
{
    let raw = match setting {
        Some(s) => crate::text::chars_of(s),
        None => crate::text::chars_of("auto"),
    };
    let t = crate::text::trim_chars(raw.as_slice());
    let name = crate::text::ascii_lowercase(t.as_slice());
    let mut out: Vec<CaptureApi> = Vec::new();
    if crate::text::eq_lit(name.as_slice(), "dxgi") {
        out.push(CaptureApi::Dxgi);
    } else if crate::text::eq_lit(name.as_slice(), "wgc") {
        out.push(CaptureApi::Wgc);
    } else {
        out.push(CaptureApi::Dxgi);
        out.push(CaptureApi::Wgc);
    }
    assert(out@ =~= backend_order(name@));
    out
}

/// The monitor-index setting: a number, trimmed; `None` when absent or not
/// a number.
pub fn monitor_index_from(raw: Option<&str>) -> (r: Option<usize>)
    ensures
        r == match raw {
            Some(s) => match crate::scan::parse_unsigned(crate::text::trim(s@), usize::MAX as nat) {
                Some(v) => Some(v as usize),
                None => None,
            },
            None => None,
        },
{
    match raw {
        Some(s) => {
            let c = crate::text::chars_of(s);
            let t = crate::text::trim_chars(c.as_slice());
            crate::scan::parse_usize(t.as_slice())
        },
        None => None,
    }
}

/// Whether WGC capture uses its native WinRT path: only for monitor index
/// 0 (also when none is set); other indexes take the fallback path that
/// targets the chosen monitor.
pub fn wgc_native_path(monitor_index: Option<usize>) -> (r: bool)
    ensures
        r == match monitor_index {
            Some(i) => i == 0,
            None => true,
        },
{
    match monitor_index {
        Some(i) => i == 0,
        None => true,
    }
}

/// Black DXGI frames in a row after which capture switches to GDI for good.
pub const BLACK_FRAME_THRESHOLD: u32 = 3;

/// DXGI timeouts in a row after which capture switches to GDI for good.
pub const DXGI_PERMANENT_TIMEOUT_THRESHOLD: u32 = 60;

/// How the DXGI desktop duplication has been doing.
#[derive(Clone, Copy, Debug, PartialEq, Eq, Structural)]
pub struct DxgiHealth {
    pub consecutive_timeouts: u32,
    pub consecutive_black_frames: u32,
    /// Capture goes through GDI from now on.
    pub force_gdi: bool,
}

/// The outcome of one DXGI capture attempt.
#[derive(Clone, Copy, Debug, PartialEq, Eq, Structural)]
pub enum DxgiAttempt {
    /// A frame, black or not.
    Frame { black: bool },
    /// No new frame within the timeout.
    Timeout,
    /// A hard error (device lost and the like).
    Error,
}

/// What the capturer answers after an attempt.
#[derive(Clone, Copy, Debug, PartialEq, Eq, Structural)]
pub enum DxgiVerdict {
    /// Capture through GDI (and keep doing so).
    UseGdi,
    /// No new frame: the sender reuses the last one.
    NoNewFrame,
    /// Deliver the frame.
    Deliver,
}

/// `a + 1`, held at `u32::MAX`.
pub open spec fn sat_inc(a: u32) -> u32 {
    if a == u32::MAX {
        u32::MAX
    } else {
        (a + 1) as u32
    }
}

/// One DXGI capture decision: once on GDI, always GDI; a hard error
/// switches to GDI; a timeout counts towards the timeout threshold (then
/// GDI) and otherwise reports no new frame; a frame clears the timeout
/// streak, and a black one counts towards the black-frame threshold (then
/// GDI) while a non-black one clears that streak.
pub open spec fn dxgi_step(h: DxgiHealth, a: DxgiAttempt) -> (DxgiHealth, DxgiVerdict) {
    if h.force_gdi {
        (h, DxgiVerdict::UseGdi)
    } else {
        match a {
            DxgiAttempt::Error => (DxgiHealth { force_gdi: true, ..h }, DxgiVerdict::UseGdi),
            DxgiAttempt::Timeout => {
                let t = sat_inc(h.consecutive_timeouts);
                if t >= DXGI_PERMANENT_TIMEOUT_THRESHOLD {
                    (DxgiHealth { consecutive_timeouts: t, force_gdi: true, ..h }, DxgiVerdict::UseGdi)
                } else {
                    (DxgiHealth { consecutive_timeouts: t, ..h }, DxgiVerdict::NoNewFrame)
                }
            },
            DxgiAttempt::Frame { black } => {
                if black {
                    let b = sat_inc(h.consecutive_black_frames);
                    if b >= BLACK_FRAME_THRESHOLD {
                        (DxgiHealth { consecutive_timeouts: 0, consecutive_black_frames: b, force_gdi: true }, DxgiVerdict::UseGdi)
                    } else {
                        (DxgiHealth { consecutive_timeouts: 0, consecutive_black_frames: b, force_gdi: false }, DxgiVerdict::Deliver)
                    }
                } else {
                    (DxgiHealth { consecutive_timeouts: 0, consecutive_black_frames: 0, force_gdi: false }, DxgiVerdict::Deliver)
                }
            },
        }
    }
}

impl DxgiHealth {
    /// A healthy duplication (or GDI from the start when `force_gdi`).
    pub fn new(force_gdi: bool) -> (r: Self)
        ensures
            r == (DxgiHealth { consecutive_timeouts: 0, consecutive_black_frames: 0, force_gdi }),
    {
        DxgiHealth { consecutive_timeouts: 0, consecutive_black_frames: 0, force_gdi }
    }
}

/// Records a DXGI capture attempt and decides what to answer (see
/// `dxgi_step`).
pub fn dxgi_capture_step(h: &mut DxgiHealth, a: DxgiAttempt) -> (v: DxgiVerdict)
    ensures
        (*final(h), v) == dxgi_step(*old(h), a),
{
    if h.force_gdi {
        return DxgiVerdict::UseGdi;
    }
    match a {
        DxgiAttempt::Error => {
            h.force_gdi = true;
            DxgiVerdict::UseGdi
        },
        DxgiAttempt::Timeout => {
            h.consecutive_timeouts = h.consecutive_timeouts.saturating_add(1);
            if h.consecutive_timeouts >= DXGI_PERMANENT_TIMEOUT_THRESHOLD {
                h.force_gdi = true;
                DxgiVerdict::UseGdi
            } else {
                DxgiVerdict::NoNewFrame
            }
        },
        DxgiAttempt::Frame { black } => {
            h.consecutive_timeouts = 0;
            if black {
                h.consecutive_black_frames = h.consecutive_black_frames.saturating_add(1);
                if h.consecutive_black_frames >= BLACK_FRAME_THRESHOLD {
                    h.force_gdi = true;
                    DxgiVerdict::UseGdi
                } else {
                    DxgiVerdict::Deliver
                }
            } else {
                h.consecutive_black_frames = 0;
                DxgiVerdict::Deliver
            }
        },
    }
}

/// Once capture has switched to GDI it never goes back to DXGI.
pub proof fn law_gdi_switch_is_permanent(h: DxgiHealth, a: DxgiAttempt)
    requires
        h.force_gdi,
    ensures
        dxgi_step(h, a).0.force_gdi,
        dxgi_step(h, a).1 == DxgiVerdict::UseGdi,
{
}

/// The health after a run of DXGI attempts, in order.
pub open spec fn dxgi_after(h: DxgiHealth, attempts: Seq<DxgiAttempt>) -> DxgiHealth
    decreases attempts.len(),
{
    if attempts.len() == 0 {
        h
    } else {
        dxgi_after(dxgi_step(h, attempts[0]).0, attempts.drop_first())
    }
}

/// Once capture has switched to GDI it never goes back, whatever DXGI does
/// afterwards: after any run of attempts GDI is still forced, and every
/// further attempt is answered with GDI.
pub proof fn law_gdi_stays_forced(h: DxgiHealth, attempts: Seq<DxgiAttempt>, next: DxgiAttempt)
    requires
        h.force_gdi,
    ensures
        dxgi_after(h, attempts).force_gdi,
        dxgi_step(dxgi_after(h, attempts), next).1 == DxgiVerdict::UseGdi,
    decreases attempts.len(),
{
    if attempts.len() > 0 {
        law_gdi_stays_forced(dxgi_step(h, attempts[0]).0, attempts.drop_first(), next);
    }
}

/// A healthy duplication switches to GDI on a hard error, on the 60th
/// timeout in a row, and on the 3rd black frame in a row; a delivered frame
/// resets the timeout streak, a coloured frame also the black streak.
pub proof fn law_gdi_switch_triggers(h: DxgiHealth, a: DxgiAttempt)
    requires
        !h.force_gdi,
    ensures
        a is Error ==> dxgi_step(h, a).0.force_gdi,
        a is Timeout ==> (dxgi_step(h, a).0.force_gdi <==> sat_inc(h.consecutive_timeouts)
            >= DXGI_PERMANENT_TIMEOUT_THRESHOLD),
        a matches DxgiAttempt::Frame { black } ==> {
            &&& dxgi_step(h, a).0.consecutive_timeouts == 0
            &&& (dxgi_step(h, a).0.force_gdi <==> black && sat_inc(h.consecutive_black_frames)
                >= BLACK_FRAME_THRESHOLD)
            &&& !black ==> dxgi_step(h, a).0.consecutive_black_frames == 0
        },
        a is Timeout && !dxgi_step(h, a).0.force_gdi ==> dxgi_step(h, a).1 == DxgiVerdict::NoNewFrame,
{
}


/// NV12 colour from the pixel bytes: after the `width * height` luma bytes,
/// the U and V bytes of the 2x2 block whose top-left pixel is (`x`, `y`),
/// both even, average all four pixels of the block (top-left, top-right,
/// bottom-left, bottom-right): U is `((Σ (-38 R - 74 G + 112 B) + 512) >> 10)
/// + 128` and V is `((Σ (112 R - 94 G - 18 B) + 512) >> 10) + 128` over the
/// B, G, R bytes of the four pixels.
pub proof fn law_nv12_chroma_averages_whole_block(
    bgra: Seq<u8>,
    stride: nat,
    width: nat,
    height: nat,
    x: int,
    y: int,
)
    requires
        0 <= x,
        x + 1 < width,
        0 <= y,
        y + 1 < height,
        x % 2 == 0,
        y % 2 == 0,
    ensures
        ({
            let out = luma_plane(bgra, stride, width, height) + chroma_plane(bgra, stride, width, height / 2);
            let p00 = y * stride + x * 4;
            let p01 = y * stride + (x + 1) * 4;
            let p10 = (y + 1) * stride + x * 4;
            let p11 = (y + 1) * stride + (x + 1) * 4;
            let su = (-38 * bgra[p00 + 2] - 74 * bgra[p00 + 1] + 112 * bgra[p00]) + (-38 * bgra[p01 + 2] - 74
                * bgra[p01 + 1] + 112 * bgra[p01]) + (-38 * bgra[p10 + 2] - 74 * bgra[p10 + 1] + 112 * bgra[p10])
                + (-38 * bgra[p11 + 2] - 74 * bgra[p11 + 1] + 112 * bgra[p11]);
            let sv = (112 * bgra[p00 + 2] - 94 * bgra[p00 + 1] - 18 * bgra[p00]) + (112 * bgra[p01 + 2] - 94
                * bgra[p01 + 1] - 18 * bgra[p01]) + (112 * bgra[p10 + 2] - 94 * bgra[p10 + 1] - 18 * bgra[p10])
                + (112 * bgra[p11 + 2] - 94 * bgra[p11 + 1] - 18 * bgra[p11]);
            &&& out[width * height + (y / 2) * width + x] == ((su + 512) / 1024 + 128) as u8
            &&& out[width * height + (y / 2) * width + x + 1] == ((sv + 512) / 1024 + 128) as u8
        }),
{
    law_nv12_chroma_at_block(bgra, stride, width, height, x, y);
}


/// NV12 luma from the pixel bytes: the luma byte of pixel (`x`, `y`) is
/// `((66 R + 129 G + 25 B + 128) >> 8) + 16` over that pixel's B, G, R bytes
/// (at `y * stride + 4 x`, `+ 1`, `+ 2`), at `y * width + x` of the output.
pub proof fn law_nv12_luma_from_pixel_bytes(bgra: Seq<u8>, stride: nat, width: nat, height: nat, x: int, y: int)
    requires
        0 <= x < width,
        0 <= y < height,
    ensures
        ({
            let o = y * stride + x * 4;
            (luma_plane(bgra, stride, width, height) + chroma_plane(bgra, stride, width, height / 2))[y * width + x]
                == ((66 * bgra[o + 2] + 129 * bgra[o + 1] + 25 * bgra[o] + 128) / 256 + 16) as u8
        }),
{
    law_nv12_luma_at_pixel(bgra, stride, width, height, x, y);
}

} // verus!
