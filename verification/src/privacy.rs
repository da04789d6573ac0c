//! Privacy filter: sensitive screen regions (password fields) are box-blurred
//! in the BGRA frame before encoding, and the whole frame is blacked out when
//! the region scanner has stopped reporting (fail-closed).
use vstd::prelude::*;
use vstd::arithmetic::div_mod::lemma_fundamental_div_mod_converse;
use vstd::arithmetic::div_mod::lemma_fundamental_div_mod;
use vstd::arithmetic::div_mod::lemma_mod_mod;
use vstd::arithmetic::div_mod::lemma_mod_pos_bound;

verus! {

/// A rectangle in screen pixels, as reported by the accessibility scan;
/// it may extend past the frame or have a negative origin.
#[derive(Clone, Copy, Debug, Default, PartialEq, Eq, Structural)]
pub struct SensitiveRegion {
    pub x: i32,
    pub y: i32,
    pub width: i32,
    pub height: i32,
}

/// Blur radius of a new filter, in pixels.
pub const DEFAULT_BLUR_RADIUS: u32 = 15;

/// Regions larger than this many pixels are not blurred (malformed rectangles).
pub const MAX_REGION_PIXELS: u64 = 67108864;

// ---------------------------------------------------------------------------
// Region clipping
// ---------------------------------------------------------------------------

/// `v` saturated to the `i32` range.
pub open spec fn sat_i32(v: int) -> int {
    if v > i32::MAX {
        i32::MAX as int
    } else if v < i32::MIN {
        i32::MIN as int
    } else {
        v
    }
}

/// `v` clamped to `[0, limit]`.
pub open spec fn clamp_to(v: int, limit: int) -> int {
    if v < 0 {
        0
    } else if v > limit {
        limit
    } else {
        v
    }
}

/// Left edge of the region inside a frame `width` pixels wide.
pub open spec fn clip_x0(r: SensitiveRegion, width: nat) -> int {
    clamp_to(r.x as int, width as int)
}

/// Top edge of the region inside a frame `height` pixels high.
pub open spec fn clip_y0(r: SensitiveRegion, height: nat) -> int {
    clamp_to(r.y as int, height as int)
}

/// Right edge (exclusive) of the region inside the frame; `x + width`
/// saturates in `i32`.
pub open spec fn clip_x1(r: SensitiveRegion, width: nat) -> int {
    clamp_to(sat_i32(r.x + r.width), width as int)
}

/// Bottom edge (exclusive) of the region inside the frame.
pub open spec fn clip_y1(r: SensitiveRegion, height: nat) -> int {
    clamp_to(sat_i32(r.y + r.height), height as int)
}

/// `a + b` saturated to the `i32` range.
fn saturating_add_i32(a: i32, b: i32) -> (r: i32)
    ensures
        r == sat_i32(a + b),
{
    let s = a as i64 + b as i64;
    if s > i32::MAX as i64 {
        i32::MAX
    } else if s < i32::MIN as i64 {
        i32::MIN
    } else {
        s as i32
    }
}

/// Clips a region to a `width` x `height` frame: `(x0, y0, x1, y1)` with
/// `x0 <= width`, `y0 <= height`, `x1 <= width`, `y1 <= height`.
fn clip_region(r: &SensitiveRegion, width: u32, height: u32) -> (c: (u32, u32, u32, u32))
    ensures
        c.0 == clip_x0(*r, width as nat),
        c.1 == clip_y0(*r, height as nat),
        c.2 == clip_x1(*r, width as nat),
        c.3 == clip_y1(*r, height as nat),
{
    let x0: u32 = if r.x < 0 {
        0
    } else if r.x as u32 > width {
        width
    } else {
        r.x as u32
    };
    let y0: u32 = if r.y < 0 {
        0
    } else if r.y as u32 > height {
        height
    } else {
        r.y as u32
    };
    let xe = saturating_add_i32(r.x, r.width);
    let ye = saturating_add_i32(r.y, r.height);
    let x1: u32 = if xe < 0 {
        0
    } else if xe as u32 > width {
        width
    } else {
        xe as u32
    };
    let y1: u32 = if ye < 0 {
        0
    } else if ye as u32 > height {
        height
    } else {
        ye as u32
    };
    (x0, y0, x1, y1)
}

// ---------------------------------------------------------------------------
// Black-out
// ---------------------------------------------------------------------------

/// Number of leading bytes that a black-out covers: the frame's bytes (or
/// the whole buffer when shorter), rounded down to whole pixels.
pub open spec fn blackout_len(len: nat, width: nat, height: nat) -> nat {
    if width == 0 || height == 0 {
        0
    } else {
        let frame = if width * 4 * height < len {
            width * 4 * height
        } else {
            len
        };
        (frame - frame % 4) as nat
    }
}

/// Zeroes the colour bytes and sets alpha to 0xFF in every whole pixel of
/// the frame; bytes past the frame are kept.
pub fn black_out_buffer(buffer: &mut Vec<u8>, width: u32, height: u32)
    ensures
        final(buffer)@.len() == old(buffer)@.len(),
        forall|i: int|
            0 <= i < final(buffer)@.len() ==> #[trigger] final(buffer)@[i] == if i < blackout_len(
                old(buffer)@.len(),
                width as nat,
                height as nat,
            ) {
                if i % 4 == 3 {
                    255u8
                } else {
                    0u8
                }
            } else {
                old(buffer)@[i]
            },
{
    if width == 0 || height == 0 {
        return;
    }
    let ghost initial = buffer@;
    let blen = buffer.len();
    let frame_len: usize = match (width as usize).checked_mul(4) {
        Some(stride) => match stride.checked_mul(height as usize) {
            Some(total) => if total < blen {
                total
            } else {
                blen
            },
            None => blen,
        },
        None => blen,
    };
    proof {
        let w = width as int;
        let h = height as int;
        assert(w * 4 <= w * 4 * h) by (nonlinear_arith)
            requires
                h >= 1,
                w >= 0,
        ;
        if w * 4 * h <= usize::MAX {
            assert(frame_len == if w * 4 * h < blen {
                w * 4 * h
            } else {
                blen as int
            });
        } else {
            assert(frame_len == blen);
        }
    }
    let limit = frame_len - frame_len % 4;
    assert(limit == blackout_len(initial.len(), width as nat, height as nat));
    let mut i: usize = 0;
    while i < limit
        invariant
            i <= limit,
            i % 4 == 0,
            limit % 4 == 0,
            limit <= initial.len(),
            limit == blackout_len(initial.len(), width as nat, height as nat),
            buffer@.len() == initial.len(),
            forall|j: int|
                0 <= j < buffer@.len() ==> #[trigger] buffer@[j] == if j < i {
                    if j % 4 == 3 {
                        255u8
                    } else {
                        0u8
                    }
                } else {
                    initial[j]
                },
        decreases limit - i,
    {
        buffer.set(i, 0);
        buffer.set(i + 1, 0);
        buffer.set(i + 2, 0);
        buffer.set(i + 3, 255);
        i += 4;
    }
}


// ---------------------------------------------------------------------------
// Box blur
// ---------------------------------------------------------------------------

/// First position of the window of radius `r` around `p`.
pub open spec fn win_lo(p: int, r: int) -> int {
    if p - r > 0 {
        p - r
    } else {
        0
    }
}

/// Last position of the window of radius `r` around `p`, in a run of `n`.
pub open spec fn win_hi(p: int, r: int, n: int) -> int {
    if p + r < n - 1 {
        p + r
    } else {
        n - 1
    }
}

/// Number of positions in the window around `p`.
pub open spec fn win_len(p: int, r: int, n: int) -> int {
    win_hi(p, r, n) - win_lo(p, r) + 1
}

/// Sum of channel `c` of the `n` pixels starting at column `x0 + lo` of the
/// row that starts at byte `base`.
pub open spec fn row_sum(b: Seq<u8>, base: int, x0: int, lo: int, n: nat, c: int) -> int
    decreases n,
{
    if n == 0 {
        0
    } else {
        row_sum(b, base, x0, lo, (n - 1) as nat, c) + b[base + (x0 + lo + n - 1) * 4 + c]
    }
}

/// First pass: channel `c` of region pixel (`ry`, `rx`) averaged (rounding
/// down) over its horizontal window inside the region.
pub open spec fn hblur(
    b: Seq<u8>,
    stride: int,
    x0: int,
    y0: int,
    rw: int,
    r: int,
    ry: int,
    rx: int,
    c: int,
) -> int {
    row_sum(b, (y0 + ry) * stride, x0, win_lo(rx, r), win_len(rx, r, rw) as nat, c) / win_len(
        rx,
        r,
        rw,
    )
}

/// Sum of the first-pass values of channel `c` in region column `rx`, rows
/// `lo .. lo + n`.
pub open spec fn col_sum(
    b: Seq<u8>,
    stride: int,
    x0: int,
    y0: int,
    rw: int,
    r: int,
    rx: int,
    c: int,
    lo: int,
    n: nat,
) -> int
    decreases n,
{
    if n == 0 {
        0
    } else {
        col_sum(b, stride, x0, y0, rw, r, rx, c, lo, (n - 1) as nat) + hblur(
            b,
            stride,
            x0,
            y0,
            rw,
            r,
            lo + n - 1,
            rx,
            c,
        )
    }
}

/// Second pass: the first-pass values of channel `c` averaged (rounding
/// down) over the vertical window of region pixel (`ry`, `rx`).
pub open spec fn vblur(
    b: Seq<u8>,
    stride: int,
    x0: int,
    y0: int,
    rw: int,
    rh: int,
    r: int,
    ry: int,
    rx: int,
    c: int,
) -> int {
    col_sum(b, stride, x0, y0, rw, r, rx, c, win_lo(ry, r), win_len(ry, r, rh) as nat) / win_len(
        ry,
        r,
        rh,
    )
}

/// Whether blurring `region` changes anything: a non-empty frame that the
/// buffer holds whole, a radius that is positive and fits in `i32`, and a
/// clipped region that is non-empty and at most `MAX_REGION_PIXELS` pixels.
pub open spec fn blur_applies(len: nat, width: nat, height: nat, region: SensitiveRegion, radius: nat) -> bool {
    let x0 = clip_x0(region, width);
    let y0 = clip_y0(region, height);
    let x1 = clip_x1(region, width);
    let y1 = clip_y1(region, height);
    &&& width > 0
    &&& height > 0
    &&& 0 < radius <= i32::MAX
    &&& width * 4 * height <= usize::MAX
    &&& width * 4 * height <= len
    &&& x0 < x1
    &&& y0 < y1
    &&& (x1 - x0) * (y1 - y0) <= MAX_REGION_PIXELS
}

/// Row of byte `i` in a frame `width` pixels wide.
pub open spec fn px_row(i: int, width: nat) -> int {
    i / (width * 4) as int
}

/// Column of byte `i` in a frame `width` pixels wide.
pub open spec fn px_col(i: int, width: nat) -> int {
    (i % (width * 4) as int) / 4
}

/// Byte `i` of the buffer after blurring `region`: inside the clipped region
/// the B, G and R bytes are the two-pass box blur of the input, all other
/// bytes (alpha, outside pixels, bytes past the frame) are unchanged.
pub open spec fn blurred_byte(b: Seq<u8>, width: nat, height: nat, region: SensitiveRegion, radius: nat, i: int) -> u8 {
    let x0 = clip_x0(region, width);
    let y0 = clip_y0(region, height);
    let x1 = clip_x1(region, width);
    let y1 = clip_y1(region, height);
    let y = px_row(i, width);
    let x = px_col(i, width);
    if blur_applies(b.len(), width, height, region, radius) && y0 <= y < y1 && x0 <= x < x1 && i % 4
        < 3 {
        vblur(b, (width * 4) as int, x0, y0, x1 - x0, y1 - y0, radius as int, y - y0, x - x0, i % 4) as u8
    } else {
        b[i]
    }
}

proof fn lemma_row_sum_range(b: Seq<u8>, base: int, x0: int, lo: int, n: nat, c: int, vlo: int, vhi: int)
    requires
        forall|j: int| lo <= j < lo + n ==> vlo <= #[trigger] b[base + (x0 + j) * 4 + c] <= vhi,
    ensures
        vlo * n <= row_sum(b, base, x0, lo, n, c) <= vhi * n,
    decreases n,
{
    if n > 0 {
        let m = (n - 1) as nat;
        lemma_row_sum_range(b, base, x0, lo, m, c, vlo, vhi);
        let j = lo + m;
        let v = b[base + (x0 + j) * 4 + c];
        assert(vlo <= v <= vhi);
        assert(base + (x0 + lo + n - 1) * 4 + c == base + (x0 + j) * 4 + c);
        assert(row_sum(b, base, x0, lo, n, c) == row_sum(b, base, x0, lo, m, c) + v);
        let s = row_sum(b, base, x0, lo, m, c);
        assert(vlo * n <= s + v <= vhi * n) by (nonlinear_arith)
            requires
                vlo * m <= s <= vhi * m,
                vlo <= v <= vhi,
                n == m + 1,
        ;
    } else {
        assert(vlo * n == 0 && vhi * n == 0) by (nonlinear_arith)
            requires
                n == 0,
        ;
    }
}

proof fn lemma_average_in_range(s: int, n: int, vlo: int, vhi: int)
    requires
        n >= 1,
        vlo * n <= s <= vhi * n,
    ensures
        vlo <= s / n <= vhi,
{
    assert(vlo <= s / n <= vhi) by (nonlinear_arith)
        requires
            n >= 1,
            vlo * n <= s <= vhi * n,
    ;
}

proof fn lemma_window_inside(p: int, r: int, n: int)
    requires
        0 <= p < n,
        r >= 0,
    ensures
        0 <= win_lo(p, r) <= p <= win_hi(p, r, n) <= n - 1,
        win_len(p, r, n) >= 1,
{
}

proof fn lemma_col_sum_range(
    b: Seq<u8>,
    stride: int,
    x0: int,
    y0: int,
    rw: int,
    r: int,
    rx: int,
    c: int,
    lo: int,
    n: nat,
    vlo: int,
    vhi: int,
)
    requires
        forall|k: int| lo <= k < lo + n ==> vlo <= #[trigger] hblur(b, stride, x0, y0, rw, r, k, rx, c) <= vhi,
    ensures
        vlo * n <= col_sum(b, stride, x0, y0, rw, r, rx, c, lo, n) <= vhi * n,
    decreases n,
{
    if n > 0 {
        let m = (n - 1) as nat;
        lemma_col_sum_range(b, stride, x0, y0, rw, r, rx, c, lo, m, vlo, vhi);
        let v = hblur(b, stride, x0, y0, rw, r, lo + m, rx, c);
        assert(vlo <= v <= vhi);
        assert(col_sum(b, stride, x0, y0, rw, r, rx, c, lo, n) == col_sum(
            b,
            stride,
            x0,
            y0,
            rw,
            r,
            rx,
            c,
            lo,
            m,
        ) + v);
        let s = col_sum(b, stride, x0, y0, rw, r, rx, c, lo, m);
        assert(vlo * n <= s + v <= vhi * n) by (nonlinear_arith)
            requires
                vlo * m <= s <= vhi * m,
                vlo <= v <= vhi,
                n == m + 1,
        ;
    } else {
        assert(vlo * n == 0 && vhi * n == 0) by (nonlinear_arith)
            requires
                n == 0,
        ;
    }
}

/// Channel `c` of every pixel of the region (`rw` × `rh` pixels from
/// column `x0`, row `y0`) lies between `vlo` and `vhi`.
pub open spec fn region_channel_within(
    b: Seq<u8>,
    stride: int,
    x0: int,
    y0: int,
    rw: int,
    rh: int,
    c: int,
    vlo: int,
    vhi: int,
) -> bool {
    forall|yy: int, xx: int|
        0 <= yy < rh && 0 <= xx < rw ==> vlo <= #[trigger] b[(y0 + yy) * stride + (x0 + xx) * 4 + c] <= vhi
}

proof fn lemma_vblur_within(
    b: Seq<u8>,
    stride: int,
    x0: int,
    y0: int,
    rw: int,
    rh: int,
    r: int,
    ry: int,
    rx: int,
    c: int,
    vlo: int,
    vhi: int,
)
    requires
        r >= 0,
        0 <= ry < rh,
        0 <= rx < rw,
        region_channel_within(b, stride, x0, y0, rw, rh, c, vlo, vhi),
    ensures
        vlo <= vblur(b, stride, x0, y0, rw, rh, r, ry, rx, c) <= vhi,
{
    lemma_window_inside(rx, r, rw);
    lemma_window_inside(ry, r, rh);
    let hlo = win_lo(rx, r);
    let hn = win_len(rx, r, rw);
    assert forall|k: int| win_lo(ry, r) <= k < win_lo(ry, r) + win_len(ry, r, rh) implies vlo
        <= #[trigger] hblur(b, stride, x0, y0, rw, r, k, rx, c) <= vhi by {
        let base = (y0 + k) * stride;
        assert forall|j: int| hlo <= j < hlo + hn implies vlo <= #[trigger] b[base + (x0 + j) * 4 + c] <= vhi by {
            assert(vlo <= b[(y0 + k) * stride + (x0 + j) * 4 + c] <= vhi);
        }
        lemma_row_sum_range(b, base, x0, hlo, hn as nat, c, vlo, vhi);
        lemma_average_in_range(row_sum(b, base, x0, hlo, hn as nat, c), hn, vlo, vhi);
    }
    lemma_col_sum_range(b, stride, x0, y0, rw, r, rx, c, win_lo(ry, r), win_len(ry, r, rh) as nat, vlo, vhi);
    lemma_average_in_range(
        col_sum(b, stride, x0, y0, rw, r, rx, c, win_lo(ry, r), win_len(ry, r, rh) as nat),
        win_len(ry, r, rh),
        vlo,
        vhi,
    );
}

proof fn lemma_pixel_coords(width: nat, y: int, x: int, c: int)
    requires
        width > 0,
        y >= 0,
        0 <= x < width,
        0 <= c < 4,
    ensures
        px_row(y * (width * 4) + x * 4 + c, width) == y,
        px_col(y * (width * 4) + x * 4 + c, width) == x,
        (y * (width * 4) + x * 4 + c) % 4 == c,
{
    let i = y * (width * 4) + x * 4 + c;
    lemma_fundamental_div_mod_converse(i, (width * 4) as int, y, x * 4 + c);
    lemma_fundamental_div_mod_converse(x * 4 + c, 4, x, c);
    assert(i == (y * width + x) * 4 + c) by (nonlinear_arith)
        requires
            i == y * (width * 4) + x * 4 + c,
    ;
    lemma_fundamental_div_mod_converse(i, 4, y * width + x, c);
}

proof fn lemma_row_sum_bounds(b: Seq<u8>, base: int, x0: int, lo: int, n: nat, c: int)
    ensures
        0 <= row_sum(b, base, x0, lo, n, c) <= 255 * n,
    decreases n,
{
    if n > 0 {
        lemma_row_sum_bounds(b, base, x0, lo, (n - 1) as nat, c);
    }
}

proof fn lemma_average_is_byte(s: int, n: int)
    requires
        n >= 1,
        0 <= s <= 255 * n,
    ensures
        0 <= s / n <= 255,
{
    assert(0 <= s / n <= 255) by (nonlinear_arith)
        requires
            n >= 1,
            0 <= s <= 255 * n,
    ;
}

proof fn lemma_hblur_is_byte(b: Seq<u8>, stride: int, x0: int, y0: int, rw: int, r: int, ry: int, rx: int, c: int)
    requires
        0 <= rx < rw,
        r >= 0,
    ensures
        0 <= hblur(b, stride, x0, y0, rw, r, ry, rx, c) <= 255,
{
    let n = win_len(rx, r, rw);
    lemma_row_sum_bounds(b, (y0 + ry) * stride, x0, win_lo(rx, r), n as nat, c);
    lemma_average_is_byte(row_sum(b, (y0 + ry) * stride, x0, win_lo(rx, r), n as nat, c), n);
}

proof fn lemma_col_sum_bounds(
    b: Seq<u8>,
    stride: int,
    x0: int,
    y0: int,
    rw: int,
    r: int,
    rx: int,
    c: int,
    lo: int,
    n: nat,
)
    requires
        0 <= rx < rw,
        r >= 0,
    ensures
        0 <= col_sum(b, stride, x0, y0, rw, r, rx, c, lo, n) <= 255 * n,
    decreases n,
{
    if n > 0 {
        lemma_col_sum_bounds(b, stride, x0, y0, rw, r, rx, c, lo, (n - 1) as nat);
        lemma_hblur_is_byte(b, stride, x0, y0, rw, r, lo + n - 1, rx, c);
    }
}

/// Channel `c` averaged (rounding down) over `n` pixels of a row.
fn row_window_average(b: &Vec<u8>, base: usize, x0: usize, lo: usize, n: usize, c: usize) -> (avg: u8)
    requires
        n >= 1,
        c < 4,
        n <= u32::MAX,
        base + (x0 + lo + n) * 4 <= b@.len(),
    ensures
        avg == row_sum(b@, base as int, x0 as int, lo as int, n as nat, c as int) / (n as int),
{
    let blen = b.len();
    let mut sum: u64 = 0;
    let mut k: usize = 0;
    while k < n
        invariant
            k <= n,
            n <= u32::MAX,
            blen == b@.len(),
            c < 4,
            base + (x0 + lo + n) * 4 <= b@.len(),
            sum == row_sum(b@, base as int, x0 as int, lo as int, k as nat, c as int),
            sum <= 255 * k,
        decreases n - k,
    {
        sum = sum + b[base + (x0 + lo + k) * 4 + c] as u64;
        k += 1;
    }
    proof {
        lemma_average_is_byte(sum as int, n as int);
    }
    (sum / (n as u64)) as u8
}

/// The first-pass value stored at index `j` of the scratch buffer, which is
/// laid out row-major, 3 bytes (B, G, R) per region pixel.
pub open spec fn scratch_value(b: Seq<u8>, stride: int, x0: int, y0: int, rw: int, r: int, j: int) -> u8 {
    hblur(b, stride, x0, y0, rw, r, (j / 3) / rw, (j / 3) % rw, j % 3) as u8
}

proof fn lemma_scratch_index(rw: int, ry: int, rx: int, c: int)
    requires
        rw >= 1,
        ry >= 0,
        0 <= rx < rw,
        0 <= c < 3,
    ensures
        ((ry * rw + rx) * 3 + c) % 3 == c,
        (((ry * rw + rx) * 3 + c) / 3) / rw == ry,
        (((ry * rw + rx) * 3 + c) / 3) % rw == rx,
{
    lemma_fundamental_div_mod_converse((ry * rw + rx) * 3 + c, 3, ry * rw + rx, c);
    lemma_fundamental_div_mod_converse(ry * rw + rx, rw, ry, rx);
}

/// First-pass values of channel `c` in region column `rx`, rows
/// `lo .. lo + n`, averaged (rounding down).
fn column_window_average(
    scratch: &Vec<u8>,
    rw: usize,
    rx: usize,
    lo: usize,
    n: usize,
    c: usize,
    Ghost(b): Ghost<Seq<u8>>,
    Ghost(stride): Ghost<int>,
    Ghost(x0): Ghost<int>,
    Ghost(y0): Ghost<int>,
    Ghost(r): Ghost<int>,
) -> (avg: u8)
    requires
        n >= 1,
        c < 3,
        n <= u32::MAX,
        rx < rw,
        r >= 0,
        ((lo + n) * rw) * 3 <= scratch@.len(),
        forall|j: int| 0 <= j < scratch@.len() ==> #[trigger] scratch@[j] == scratch_value(b, stride, x0, y0, rw as int, r, j),
    ensures
        avg == col_sum(b, stride, x0, y0, rw as int, r, rx as int, c as int, lo as int, n as nat) / (n as int),
{
    let slen = scratch.len();
    proof {
        assert(lo + n <= ((lo + n) * rw) * 3) by (nonlinear_arith)
            requires
                rw >= 1,
        ;
    }
    let mut sum: u64 = 0;
    let mut k: usize = 0;
    while k < n
        invariant
            k <= n,
            n <= u32::MAX,
            slen == scratch@.len(),
            lo + n <= slen,
            c < 3,
            rx < rw,
            r >= 0,
            ((lo + n) * rw) * 3 <= scratch@.len(),
            forall|j: int| 0 <= j < scratch@.len() ==> #[trigger] scratch@[j] == scratch_value(b, stride, x0, y0, rw as int, r, j),
            sum == col_sum(b, stride, x0, y0, rw as int, r, rx as int, c as int, lo as int, k as nat),
            sum <= 255 * k,
        decreases n - k,
    {
        let ny = lo + k;
        proof {
            assert((ny * rw + rx) * 3 + c < ((lo + n) * rw) * 3) by (nonlinear_arith)
                requires
                    ny < lo + n,
                    rx < rw,
                    c < 3,
            ;
            lemma_scratch_index(rw as int, ny as int, rx as int, c as int);
            lemma_hblur_is_byte(b, stride, x0, y0, rw as int, r, ny as int, rx as int, c as int);
        }
        let v = scratch[(ny * rw + rx) * 3 + c];
        assert(v == hblur(b, stride, x0, y0, rw as int, r, ny as int, rx as int, c as int));
        sum = sum + v as u64;
        k += 1;
    }
    proof {
        lemma_average_is_byte(sum as int, n as int);
    }
    (sum / (n as u64)) as u8
}


proof fn lemma_pixel_decompose(i: int, width: nat)
    requires
        i >= 0,
        width > 0,
    ensures
        i == px_row(i, width) * (width * 4) + px_col(i, width) * 4 + i % 4,
        0 <= px_col(i, width) < width,
        px_row(i, width) >= 0,
        0 <= i % 4 < 4,
{
    let s = (width * 4) as int;
    lemma_fundamental_div_mod(i, s);
    lemma_mod_pos_bound(i, s);
    let m = i % s;
    lemma_fundamental_div_mod(m, 4);
    lemma_mod_pos_bound(m, 4);
    lemma_mod_pos_bound(i, 4);
    lemma_mod_mod(i, 4, width as int);
    assert(4 * (width as int) == s);
    assert(0 <= i / s) by (nonlinear_arith)
        requires
            i >= 0,
            s > 0,
    ;
    assert(m / 4 < width) by (nonlinear_arith)
        requires
            m < s,
            s == 4 * width,
            m >= 0,
    ;
    assert(s * (i / s) == (i / s) * s) by (nonlinear_arith);
}

/// Byte `i` lies in the clipped region, is a colour byte, and the second pass
/// has reached it: region columns before `rx`, or column `rx` above row `ry`.
pub open spec fn blur_written(i: int, width: nat, x0: int, y0: int, x1: int, y1: int, rx: int, ry: int) -> bool {
    let y = px_row(i, width);
    let x = px_col(i, width);
    &&& y0 <= y < y1
    &&& x0 <= x < x1
    &&& i % 4 < 3
    &&& (x - x0 < rx || (x - x0 == rx && y - y0 < ry))
}

/// Blurs `region` (clipped to the frame) of a BGRA frame in place with a
/// two-pass box blur of radius `radius` on B, G and R, keeping alpha; uses
/// `scratch` as working memory. Does nothing when the frame is empty or
/// larger than the buffer, the radius is 0 or above `i32::MAX`, the clipped
/// region is empty, or it exceeds `MAX_REGION_PIXELS`; `scratch` is then
/// left untouched too.
pub fn blur_region_with_scratch(
    buffer: &mut Vec<u8>,
    width: u32,
    height: u32,
    region: &SensitiveRegion,
    radius: u32,
    scratch: &mut Vec<u8>,
)
    ensures
        !blur_applies(old(buffer)@.len(), width as nat, height as nat, *region, radius as nat)
            ==> *final(scratch) == *old(scratch),
        final(buffer)@.len() == old(buffer)@.len(),
        forall|i: int|
            0 <= i < old(buffer)@.len() ==> #[trigger] final(buffer)@[i] == blurred_byte(
                old(buffer)@,
                width as nat,
                height as nat,
                *region,
                radius as nat,
                i,
            ),
{
    let ghost b = buffer@;
    let ghost (w, h) = (width as nat, height as nat);
    if width == 0 || height == 0 || radius == 0 || radius > 2147483647 {
        // A radius above i32::MAX is a negative window: nothing is averaged.
        return;
    }
    let stride = match (width as usize).checked_mul(4) {
        Some(s) => s,
        None => {
            proof {
                assert(w * 4 * h >= w * 4) by (nonlinear_arith)
                    requires
                        h >= 1,
                ;
            }
            return ;
        },
    };
    let frame_len = match stride.checked_mul(height as usize) {
        Some(t) => t,
        None => {
            return ;
        },
    };
    let blen = buffer.len();
    if blen < frame_len {
        return;
    }
    let (cx0, cy0, cx1, cy1) = clip_region(region, width, height);
    if cx1 <= cx0 || cy1 <= cy0 {
        return;
    }
    let rw = (cx1 - cx0) as usize;
    let rh = (cy1 - cy0) as usize;
    proof {
        assert((rw as int) * (rh as int) <= u64::MAX) by (nonlinear_arith)
            requires
                rw <= u32::MAX,
                rh <= u32::MAX,
        ;
    }
    if (rw as u64) * (rh as u64) > MAX_REGION_PIXELS {
        return;
    }
    let r = radius as usize;
    let x0 = cx0 as usize;
    let y0 = cy0 as usize;
    let ghost stride_i = stride as int;
    proof {
        assert(blur_applies(b.len(), w, h, *region, radius as nat));
        assert(rw * 3 <= rw * rh * 3) by (nonlinear_arith)
            requires
                rh >= 1,
        ;
    }
    // Pass 1: horizontal averages of the region, 3 bytes per pixel.
    scratch.clear();
    let mut ry: usize = 0;
    while ry < rh
        invariant
            ry <= rh,
            rw >= 1,
            rw * rh <= MAX_REGION_PIXELS,
            x0 + rw <= width,
            y0 + rh <= height,
            stride == width * 4,
            stride_i == stride,
            stride * height <= buffer@.len(),
            buffer@.len() <= usize::MAX,
            b == buffer@,
            r <= i32::MAX,
            scratch@.len() == (ry * rw) * 3,
            forall|j: int|
                0 <= j < scratch@.len() ==> #[trigger] scratch@[j] == scratch_value(
                    b,
                    stride_i,
                    x0 as int,
                    y0 as int,
                    rw as int,
                    r as int,
                    j,
                ),
        decreases rh - ry,
    {
        proof {
            assert((y0 + ry + 1) * stride <= stride * height) by (nonlinear_arith)
                requires
                    y0 + ry + 1 <= height,
            ;
            assert((y0 + ry) * stride + stride == (y0 + ry + 1) * stride) by (nonlinear_arith);
        }
        let base = (y0 + ry) * stride;
        let mut rx: usize = 0;
        while rx < rw
            invariant
                rx <= rw,
                ry < rh,
                rw >= 1,
                rw * rh <= MAX_REGION_PIXELS,
                x0 + rw <= width,
                stride == width * 4,
                stride_i == stride,
                base == (y0 + ry) * stride,
                base + stride <= buffer@.len(),
                b == buffer@,
                r <= i32::MAX,
                scratch@.len() == (ry * rw + rx) * 3,
                forall|j: int|
                    0 <= j < scratch@.len() ==> #[trigger] scratch@[j] == scratch_value(
                        b,
                        stride_i,
                        x0 as int,
                        y0 as int,
                        rw as int,
                        r as int,
                        j,
                    ),
            decreases rw - rx,
        {
            let lo = if rx > r {
                rx - r
            } else {
                0
            };
            let hi = if rx + r < rw - 1 {
                rx + r
            } else {
                rw - 1
            };
            let n = hi - lo + 1;
            assert(lo == win_lo(rx as int, r as int));
            assert(n == win_len(rx as int, r as int, rw as int));
            proof {
                assert(rw <= MAX_REGION_PIXELS) by (nonlinear_arith)
                    requires
                        rw * rh <= MAX_REGION_PIXELS,
                        rh >= 1,
                ;
                lemma_scratch_index(rw as int, ry as int, rx as int, 0);
                lemma_scratch_index(rw as int, ry as int, rx as int, 1);
                lemma_scratch_index(rw as int, ry as int, rx as int, 2);
                lemma_hblur_is_byte(b, stride_i, x0 as int, y0 as int, rw as int, r as int, ry as int, rx as int, 0);
                lemma_hblur_is_byte(b, stride_i, x0 as int, y0 as int, rw as int, r as int, ry as int, rx as int, 1);
                lemma_hblur_is_byte(b, stride_i, x0 as int, y0 as int, rw as int, r as int, ry as int, rx as int, 2);
            }
            let vb = row_window_average(buffer, base, x0, lo, n, 0);
            scratch.push(vb);
            let vg = row_window_average(buffer, base, x0, lo, n, 1);
            scratch.push(vg);
            let vr = row_window_average(buffer, base, x0, lo, n, 2);
            scratch.push(vr);
            proof {
                assert((ry * rw + rx + 1) * 3 == (ry * rw + rx) * 3 + 3);
            }
            rx += 1;
        }
        proof {
            assert(((ry + 1) * rw) * 3 == (ry * rw + rw) * 3) by (nonlinear_arith);
        }
        ry += 1;
    }
    // Pass 2: vertical averages of the first pass, written into the frame.
    let ghost (gx0, gy0, gx1, gy1) = (x0 as int, y0 as int, (x0 + rw) as int, (y0 + rh) as int);
    let mut rx: usize = 0;
    while rx < rw
        invariant
            rx <= rw,
            rw >= 1,
            rh >= 1,
            rw * rh <= MAX_REGION_PIXELS,
            gx0 == x0,
            gy0 == y0,
            gx1 == x0 + rw,
            gy1 == y0 + rh,
            x0 + rw <= width,
            y0 + rh <= height,
            stride == width * 4,
            stride_i == stride,
            stride * height <= b.len(),
            blur_applies(b.len(), w, h, *region, radius as nat),
            gx0 == clip_x0(*region, w),
            gy0 == clip_y0(*region, h),
            gx1 == clip_x1(*region, w),
            gy1 == clip_y1(*region, h),
            w == width,
            h == height,
            r == radius,
            scratch@.len() == (rh * rw) * 3,
            forall|j: int|
                0 <= j < scratch@.len() ==> #[trigger] scratch@[j] == scratch_value(
                    b,
                    stride_i,
                    x0 as int,
                    y0 as int,
                    rw as int,
                    r as int,
                    j,
                ),
            buffer@.len() == b.len(),
            forall|i: int|
                0 <= i < b.len() ==> #[trigger] buffer@[i] == if blur_written(
                    i,
                    w,
                    gx0,
                    gy0,
                    gx1,
                    gy1,
                    rx as int,
                    0,
                ) {
                    blurred_byte(b, w, h, *region, radius as nat, i)
                } else {
                    b[i]
                },
        decreases rw - rx,
    {
        let mut ry: usize = 0;
        while ry < rh
            invariant
                rx < rw,
                ry <= rh,
                rw >= 1,
                rh >= 1,
                rw * rh <= MAX_REGION_PIXELS,
                gx0 == x0,
                gy0 == y0,
                gx1 == x0 + rw,
                gy1 == y0 + rh,
                x0 + rw <= width,
                y0 + rh <= height,
                stride == width * 4,
                stride_i == stride,
                stride * height <= b.len(),
                blur_applies(b.len(), w, h, *region, radius as nat),
                gx0 == clip_x0(*region, w),
                gy0 == clip_y0(*region, h),
                gx1 == clip_x1(*region, w),
                gy1 == clip_y1(*region, h),
                w == width,
                h == height,
                r == radius,
                scratch@.len() == (rh * rw) * 3,
                forall|j: int|
                    0 <= j < scratch@.len() ==> #[trigger] scratch@[j] == scratch_value(
                        b,
                        stride_i,
                        x0 as int,
                        y0 as int,
                        rw as int,
                        r as int,
                        j,
                    ),
                buffer@.len() == b.len(),
                forall|i: int|
                    0 <= i < b.len() ==> #[trigger] buffer@[i] == if blur_written(
                        i,
                        w,
                        gx0,
                        gy0,
                        gx1,
                        gy1,
                        rx as int,
                        ry as int,
                    ) {
                        blurred_byte(b, w, h, *region, radius as nat, i)
                    } else {
                        b[i]
                    },
            decreases rh - ry,
        {
            let lo = if ry > r {
                ry - r
            } else {
                0
            };
            let hi = if ry + r < rh - 1 {
                ry + r
            } else {
                rh - 1
            };
            let n = hi - lo + 1;
            assert(lo == win_lo(ry as int, r as int));
            assert(n == win_len(ry as int, r as int, rh as int));
            proof {
                assert(rh <= MAX_REGION_PIXELS) by (nonlinear_arith)
                    requires
                        rw * rh <= MAX_REGION_PIXELS,
                        rw >= 1,
                ;
                assert(((lo + n) * rw) * 3 <= (rh * rw) * 3) by (nonlinear_arith)
                    requires
                        lo + n <= rh,
                ;
                assert((y0 + ry + 1) * stride <= stride * height) by (nonlinear_arith)
                    requires
                        y0 + ry + 1 <= height,
                ;
                assert((y0 + ry) * stride + stride == (y0 + ry + 1) * stride) by (nonlinear_arith);
            }
            let dst = (y0 + ry) * stride + (x0 + rx) * 4;
            let vb = column_window_average(scratch, rw, rx, lo, n, 0, Ghost(b), Ghost(stride_i), Ghost(x0 as int), Ghost(y0 as int), Ghost(r as int));
            let vg = column_window_average(scratch, rw, rx, lo, n, 1, Ghost(b), Ghost(stride_i), Ghost(x0 as int), Ghost(y0 as int), Ghost(r as int));
            let vr = column_window_average(scratch, rw, rx, lo, n, 2, Ghost(b), Ghost(stride_i), Ghost(x0 as int), Ghost(y0 as int), Ghost(r as int));
            let ghost before = buffer@;
            buffer.set(dst, vb);
            buffer.set(dst + 1, vg);
            buffer.set(dst + 2, vr);
            proof {
                lemma_pixel_coords(w, (y0 + ry) as int, (x0 + rx) as int, 0);
                lemma_pixel_coords(w, (y0 + ry) as int, (x0 + rx) as int, 1);
                lemma_pixel_coords(w, (y0 + ry) as int, (x0 + rx) as int, 2);
                assert forall|i: int| 0 <= i < b.len() implies #[trigger] buffer@[i] == if blur_written(
                    i,
                    w,
                    gx0,
                    gy0,
                    gx1,
                    gy1,
                    rx as int,
                    ry + 1,
                ) {
                    blurred_byte(b, w, h, *region, radius as nat, i)
                } else {
                    b[i]
                } by {
                    lemma_pixel_decompose(i, w);
                    if i == dst || i == dst + 1 || i == dst + 2 {
                    } else {
                        if blur_written(i, w, gx0, gy0, gx1, gy1, rx as int, ry + 1) && !blur_written(
                            i,
                            w,
                            gx0,
                            gy0,
                            gx1,
                            gy1,
                            rx as int,
                            ry as int,
                        ) {
                            assert(px_col(i, w) == x0 + rx);
                            assert(px_row(i, w) == y0 + ry);
                            assert(i == dst + i % 4);
                        }
                        assert(buffer@[i] == before[i]);
                    }
                }
            }
            ry += 1;
        }
        proof {
            assert forall|i: int| 0 <= i < b.len() implies #[trigger] buffer@[i] == if blur_written(
                i,
                w,
                gx0,
                gy0,
                gx1,
                gy1,
                rx + 1,
                0,
            ) {
                blurred_byte(b, w, h, *region, radius as nat, i)
            } else {
                b[i]
            } by {
                assert(blur_written(i, w, gx0, gy0, gx1, gy1, rx + 1, 0) == blur_written(
                    i,
                    w,
                    gx0,
                    gy0,
                    gx1,
                    gy1,
                    rx as int,
                    rh as int,
                ));
            }
        }
        rx += 1;
    }
    proof {
        assert forall|i: int| 0 <= i < b.len() implies #[trigger] buffer@[i] == blurred_byte(
            b,
            w,
            h,
            *region,
            radius as nat,
            i,
        ) by {
            lemma_pixel_decompose(i, w);
        }
    }
}


/// The buffer after blurring one region.
pub open spec fn blurred(b: Seq<u8>, width: nat, height: nat, region: SensitiveRegion, radius: nat) -> Seq<u8> {
    Seq::new(b.len(), |i: int| blurred_byte(b, width, height, region, radius, i))
}

/// The buffer after blurring the regions one after the other, in order.
pub open spec fn blurred_all(b: Seq<u8>, width: nat, height: nat, regions: Seq<SensitiveRegion>, radius: nat) -> Seq<u8>
    decreases regions.len(),
{
    if regions.len() == 0 {
        b
    } else {
        blurred(
            blurred_all(b, width, height, regions.drop_last(), radius),
            width,
            height,
            regions.last(),
            radius,
        )
    }
}

proof fn lemma_blurred_all_len(b: Seq<u8>, width: nat, height: nat, regions: Seq<SensitiveRegion>, radius: nat)
    ensures
        blurred_all(b, width, height, regions, radius).len() == b.len(),
    decreases regions.len(),
{
    if regions.len() > 0 {
        lemma_blurred_all_len(b, width, height, regions.drop_last(), radius);
    }
}

proof fn lemma_blurred_all_noop(b: Seq<u8>, width: nat, height: nat, regions: Seq<SensitiveRegion>, radius: nat)
    requires
        width == 0 || height == 0 || b.len() == 0,
    ensures
        blurred_all(b, width, height, regions, radius) == b,
    decreases regions.len(),
{
    if regions.len() > 0 {
        lemma_blurred_all_noop(b, width, height, regions.drop_last(), radius);
        assert(blurred(b, width, height, regions.last(), radius) =~= b);
    }
}

/// Blurs `region` of a BGRA frame in place (see `blur_region_with_scratch`).
pub fn blur_region(buffer: &mut Vec<u8>, width: u32, height: u32, region: &SensitiveRegion, radius: u32)
    ensures
        final(buffer)@ == blurred(old(buffer)@, width as nat, height as nat, *region, radius as nat),
{
    let mut scratch: Vec<u8> = Vec::new();
    blur_region_with_scratch(buffer, width, height, region, radius, &mut scratch);
    assert(buffer@ =~= blurred(old(buffer)@, width as nat, height as nat, *region, radius as nat));
}

/// Blurs each region in turn with one shared scratch buffer.
fn blur_each(
    buffer: &mut Vec<u8>,
    width: u32,
    height: u32,
    regions: &[SensitiveRegion],
    radius: u32,
    scratch: &mut Vec<u8>,
)
    ensures
        final(buffer)@ == blurred_all(old(buffer)@, width as nat, height as nat, regions@, radius as nat),
{
    let ghost start = buffer@;
    let mut k: usize = 0;
    while k < regions.len()
        invariant
            k <= regions@.len(),
            buffer@ == blurred_all(start, width as nat, height as nat, regions@.take(k as int), radius as nat),
        decreases regions@.len() - k,
    {
        let ghost before = buffer@;
        blur_region_with_scratch(buffer, width, height, &regions[k], radius, scratch);
        proof {
            let taken = regions@.take(k + 1);
            assert(taken.drop_last() =~= regions@.take(k as int));
            assert(taken.last() == regions@[k as int]);
            assert(buffer@ =~= blurred(before, width as nat, height as nat, regions@[k as int], radius as nat));
        }
        k += 1;
    }
    assert(regions@.take(regions@.len() as int) =~= regions@);
}

/// Blurs every region of a BGRA frame in place, in order.
pub fn apply_privacy_blur(buffer: &mut Vec<u8>, width: u32, height: u32, regions: &[SensitiveRegion], radius: u32)
    ensures
        final(buffer)@ == blurred_all(old(buffer)@, width as nat, height as nat, regions@, radius as nat),
{
    if width == 0 || height == 0 || buffer.len() == 0 || regions.len() == 0 {
        proof {
            if regions@.len() > 0 {
                lemma_blurred_all_noop(buffer@, width as nat, height as nat, regions@, radius as nat);
            }
        }
        return;
    }
    let mut scratch: Vec<u8> = Vec::new();
    blur_each(buffer, width, height, regions, radius, &mut scratch);
}


/// The buffer after a black-out of a `width` x `height` frame.
pub open spec fn blacked_out(b: Seq<u8>, width: nat, height: nat) -> Seq<u8> {
    Seq::new(
        b.len(),
        |i: int|
            if i < blackout_len(b.len(), width, height) {
                if i % 4 == 3 {
                    255u8
                } else {
                    0u8
                }
            } else {
                b[i]
            },
    )
}

// ---------------------------------------------------------------------------
// Filter state
// ---------------------------------------------------------------------------

/// Age of the last scanner heartbeat from which the scanner counts as stale.
pub const SCANNER_HEARTBEAT_STALE_MS: u64 = 5000;

/// Age of the last scanner heartbeat from which the scanner counts as dead.
pub const SCANNER_HEARTBEAT_DEAD_MS: u64 = 15000;

/// Health of the background region scanner.
#[derive(Clone, Copy, Debug, PartialEq, Eq, Structural)]
pub enum ScannerStatus {
    Healthy,
    Degraded,
    Failed,
}

/// A snapshot of the filter's state for diagnostics.
#[derive(Clone, Copy, Debug)]
pub struct PrivacyFilterStats {
    pub enabled: bool,
    pub regions_count: usize,
    pub last_scan_duration_ms: u32,
    pub last_scan_age_ms: u64,
    pub scan_count: u64,
    pub fail_count: u64,
    pub scanner_status: ScannerStatus,
}

/// What `process_frame` did with a frame.
#[derive(Debug)]
pub enum FrameOutcome {
    /// The frame was left as is, blurred, or blacked out.
    Done,
    /// The regions were scanned at a screen size other than the frame's: the
    /// caller rescales them to the frame and blurs them with `blur_regions`.
    RescaleNeeded { regions: Vec<SensitiveRegion>, scan_width: i32, scan_height: i32 },
}

/// Blurs sensitive regions of captured frames. The region scanner (a
/// background task) publishes its results and heartbeats here; times are
/// milliseconds since the Unix epoch.
pub struct PrivacyFilter {
    pub enabled: bool,
    pub blur_radius: u32,
    regions: Vec<SensitiveRegion>,
    scan_screen_size: Option<(i32, i32)>,
    scanner_spawned: bool,
    last_heartbeat_ms: Option<u64>,
    scan_count: u64,
    fail_count: u64,
    last_scan_duration_ms: u32,
    blur_tmp_buffer: Vec<u8>,
}

/// Scanner health from whether it was started and the age of its last
/// heartbeat (a heartbeat "in the future" has age 0).
pub open spec fn status_for(spawned: bool, heartbeat: Option<u64>, now_ms: u64) -> ScannerStatus {
    if !spawned {
        ScannerStatus::Failed
    } else {
        match heartbeat {
            None => ScannerStatus::Degraded,
            Some(t) => {
                let age = if now_ms >= t {
                    now_ms - t
                } else {
                    0
                };
                if age >= SCANNER_HEARTBEAT_DEAD_MS {
                    ScannerStatus::Failed
                } else if age >= SCANNER_HEARTBEAT_STALE_MS {
                    ScannerStatus::Degraded
                } else {
                    ScannerStatus::Healthy
                }
            },
        }
    }
}

impl PrivacyFilter {
    /// Whether frames are filtered.
    pub closed spec fn spec_enabled(&self) -> bool {
        self.enabled
    }

    /// Radius of the box blur.
    pub closed spec fn spec_blur_radius(&self) -> u32 {
        self.blur_radius
    }

    /// The regions of the last scan.
    pub closed spec fn spec_regions(&self) -> Seq<SensitiveRegion> {
        self.regions@
    }

    /// The screen size at which the last scan measured its regions.
    pub closed spec fn spec_scan_screen_size(&self) -> Option<(i32, i32)> {
        self.scan_screen_size
    }

    /// Whether the scanner task was started.
    pub closed spec fn spec_scanner_spawned(&self) -> bool {
        self.scanner_spawned
    }

    /// Time of the scanner's last heartbeat.
    pub closed spec fn spec_last_heartbeat(&self) -> Option<u64> {
        self.last_heartbeat_ms
    }

    /// Number of scans published.
    pub closed spec fn spec_scan_count(&self) -> u64 {
        self.scan_count
    }

    /// Number of scans that found nothing where something was expected.
    pub closed spec fn spec_fail_count(&self) -> u64 {
        self.fail_count
    }

    /// Duration of the last scan.
    pub closed spec fn spec_last_scan_duration(&self) -> u32 {
        self.last_scan_duration_ms
    }

    /// Everything but the scratch memory is unchanged from `other`.
    pub closed spec fn same_state(&self, other: &Self) -> bool {
        &&& self.enabled == other.enabled
        &&& self.blur_radius == other.blur_radius
        &&& self.spec_regions() == other.spec_regions()
        &&& self.spec_scan_screen_size() == other.spec_scan_screen_size()
        &&& self.spec_scanner_spawned() == other.spec_scanner_spawned()
        &&& self.spec_last_heartbeat() == other.spec_last_heartbeat()
        &&& self.spec_scan_count() == other.spec_scan_count()
        &&& self.spec_fail_count() == other.spec_fail_count()
        &&& self.spec_last_scan_duration() == other.spec_last_scan_duration()
    }

    /// A filter after its initial scan: enabled, default radius, the scan's
    /// regions and screen size, a heartbeat at `now_ms`, one scan counted.
    pub fn from_initial_scan(
        regions: Vec<SensitiveRegion>,
        scan_screen_size: Option<(i32, i32)>,
        now_ms: u64,
        scan_duration_ms: u32,
        scanner_spawned: bool,
    ) -> (f: Self)
        ensures
            f.spec_enabled(),
            f.spec_blur_radius() == DEFAULT_BLUR_RADIUS,
            f.spec_regions() == regions@,
            f.spec_scan_screen_size() == scan_screen_size,
            f.spec_scanner_spawned() == scanner_spawned,
            f.spec_last_heartbeat() == Some(now_ms),
            f.spec_scan_count() == 1,
            f.spec_fail_count() == 0,
            f.spec_last_scan_duration() == scan_duration_ms,
    {
        PrivacyFilter {
            enabled: true,
            blur_radius: DEFAULT_BLUR_RADIUS,
            regions,
            scan_screen_size,
            scanner_spawned,
            last_heartbeat_ms: Some(now_ms),
            scan_count: 1,
            fail_count: 0,
            last_scan_duration_ms: scan_duration_ms,
            blur_tmp_buffer: Vec::new(),
        }
    }

    /// A filter whose initial scan found no region, with the scanner started
    /// and reporting now.
    pub fn new() -> (f: Self)
        ensures
            f.spec_enabled(),
            f.spec_blur_radius() == DEFAULT_BLUR_RADIUS,
            f.spec_regions() == Seq::<SensitiveRegion>::empty(),
            f.spec_scan_screen_size() == None::<(i32, i32)>,
            f.spec_scanner_spawned(),
            f.spec_last_heartbeat() is Some,
            f.spec_scan_count() == 1,
            f.spec_fail_count() == 0,
            f.spec_last_scan_duration() == 0,
    {
        let now = crate::adaptive::unix_time_millis();
        Self::from_initial_scan(Vec::new(), None, now, 0, true)
    }

    /// Records whether the scanner task could be started.
    pub fn set_scanner_spawned(&mut self, spawned: bool)
        ensures
            final(self).spec_scanner_spawned() == spawned,
            final(self).spec_enabled() == old(self).spec_enabled(),
            final(self).spec_blur_radius() == old(self).spec_blur_radius(),
            final(self).spec_regions() == old(self).spec_regions(),
            final(self).spec_scan_screen_size() == old(self).spec_scan_screen_size(),
            final(self).spec_last_heartbeat() == old(self).spec_last_heartbeat(),
            final(self).spec_scan_count() == old(self).spec_scan_count(),
            final(self).spec_fail_count() == old(self).spec_fail_count(),
            final(self).spec_last_scan_duration() == old(self).spec_last_scan_duration(),
    {
        self.scanner_spawned = spawned;
    }

    /// Records a scanner heartbeat at `now_ms` (sent before each scan, so a
    /// hanging scan shows as an ageing heartbeat).
    pub fn record_heartbeat_at(&mut self, now_ms: u64)
        ensures
            final(self).spec_last_heartbeat() == Some(now_ms),
            final(self).spec_enabled() == old(self).spec_enabled(),
            final(self).spec_blur_radius() == old(self).spec_blur_radius(),
            final(self).spec_regions() == old(self).spec_regions(),
            final(self).spec_scan_screen_size() == old(self).spec_scan_screen_size(),
            final(self).spec_scanner_spawned() == old(self).spec_scanner_spawned(),
            final(self).spec_scan_count() == old(self).spec_scan_count(),
            final(self).spec_fail_count() == old(self).spec_fail_count(),
            final(self).spec_last_scan_duration() == old(self).spec_last_scan_duration(),
    {
        self.last_heartbeat_ms = Some(now_ms);
    }

    /// Replaces the current regions and the screen size they were measured at.
    pub fn set_snapshot(&mut self, regions: Vec<SensitiveRegion>, scan_screen_size: Option<(i32, i32)>)
        ensures
            final(self).spec_regions() == regions@,
            final(self).spec_scan_screen_size() == scan_screen_size,
            final(self).spec_enabled() == old(self).spec_enabled(),
            final(self).spec_blur_radius() == old(self).spec_blur_radius(),
            final(self).spec_scanner_spawned() == old(self).spec_scanner_spawned(),
            final(self).spec_last_heartbeat() == old(self).spec_last_heartbeat(),
            final(self).spec_scan_count() == old(self).spec_scan_count(),
            final(self).spec_fail_count() == old(self).spec_fail_count(),
            final(self).spec_last_scan_duration() == old(self).spec_last_scan_duration(),
    {
        self.regions = regions;
        self.scan_screen_size = scan_screen_size;
    }

    /// Publishes a finished scan: its regions and screen size, a heartbeat at
    /// `now_ms`, its duration; counts the scan, and a failure when `scan_ok`
    /// is false (both counters saturate).
    pub fn publish_scan(
        &mut self,
        regions: Vec<SensitiveRegion>,
        scan_screen_size: Option<(i32, i32)>,
        now_ms: u64,
        scan_duration_ms: u32,
        scan_ok: bool,
    )
        ensures
            final(self).spec_regions() == regions@,
            final(self).spec_scan_screen_size() == scan_screen_size,
            final(self).spec_last_heartbeat() == Some(now_ms),
            final(self).spec_last_scan_duration() == scan_duration_ms,
            final(self).spec_scan_count() == (if old(self).spec_scan_count() == u64::MAX {
                u64::MAX
            } else {
                (old(self).spec_scan_count() + 1) as u64
            }),
            final(self).spec_fail_count() == (if scan_ok || old(self).spec_fail_count() == u64::MAX {
                old(self).spec_fail_count()
            } else {
                (old(self).spec_fail_count() + 1) as u64
            }),
            final(self).spec_enabled() == old(self).spec_enabled(),
            final(self).spec_blur_radius() == old(self).spec_blur_radius(),
            final(self).spec_scanner_spawned() == old(self).spec_scanner_spawned(),
    {
        self.regions = regions;
        self.scan_screen_size = scan_screen_size;
        self.last_heartbeat_ms = Some(now_ms);
        self.scan_count = self.scan_count.saturating_add(1);
        self.last_scan_duration_ms = scan_duration_ms;
        if !scan_ok {
            self.fail_count = self.fail_count.saturating_add(1);
        }
    }

    /// Scanner health at `now_ms`: `Failed` when the scanner never started or
    /// its heartbeat is at least 15 s old, `Degraded` without heartbeat or
    /// when it is at least 5 s old, `Ok` otherwise.
    pub fn scanner_status_at(&self, now_ms: u64) -> (s: ScannerStatus)
        ensures
            s == status_for(self.spec_scanner_spawned(), self.spec_last_heartbeat(), now_ms),
    {
        if !self.scanner_spawned {
            return ScannerStatus::Failed;
        }
        match self.last_heartbeat_ms {
            None => ScannerStatus::Degraded,
            Some(t) => {
                let age = now_ms.saturating_sub(t);
                if age >= SCANNER_HEARTBEAT_DEAD_MS {
                    ScannerStatus::Failed
                } else if age >= SCANNER_HEARTBEAT_STALE_MS {
                    ScannerStatus::Degraded
                } else {
                    ScannerStatus::Healthy
                }
            },
        }
    }

    /// Scanner health now (see `scanner_status_at`).
    pub fn scanner_status(&self) -> (s: ScannerStatus)
        ensures
            exists|now_ms: u64| s == status_for(self.spec_scanner_spawned(), self.spec_last_heartbeat(), now_ms),
    {
        let now = crate::adaptive::unix_time_millis();
        self.scanner_status_at(now)
    }

    /// Diagnostics at `now_ms`; the scan age is `u64::MAX` without heartbeat.
    pub fn stats_at(&self, now_ms: u64) -> (st: PrivacyFilterStats)
        ensures
            stats_for(*self, st, now_ms),
    {
        let age = match self.last_heartbeat_ms {
            None => u64::MAX,
            Some(t) => now_ms.saturating_sub(t),
        };
        PrivacyFilterStats {
            enabled: self.enabled,
            regions_count: self.regions.len(),
            last_scan_duration_ms: self.last_scan_duration_ms,
            last_scan_age_ms: age,
            scan_count: self.scan_count,
            fail_count: self.fail_count,
            scanner_status: self.scanner_status_at(now_ms),
        }
    }

    /// Diagnostics now (see `stats_at`).
    pub fn stats(&self) -> (st: PrivacyFilterStats)
        ensures
            exists|now_ms: u64| stats_for(*self, st, now_ms),
    {
        let now = crate::adaptive::unix_time_millis();
        self.stats_at(now)
    }

    /// Blurs `regions` (already in frame coordinates) with the filter's radius.
    pub fn blur_regions(&mut self, buffer: &mut Vec<u8>, width: u32, height: u32, regions: &[SensitiveRegion])
        ensures
            final(buffer)@ == blurred_all(old(buffer)@, width as nat, height as nat, regions@, old(self).spec_blur_radius() as nat),
            final(self).same_state(&*old(self)),
    {
        let radius = self.blur_radius;
        blur_each(buffer, width, height, regions, radius, &mut self.blur_tmp_buffer);
    }

    /// Filters one frame at `now_ms`: nothing when disabled; a black-out when
    /// the scanner has failed; nothing without regions; the regions blurred
    /// when they were scanned at the frame's size or at an unknown size;
    /// otherwise the frame is left for the caller to rescale the regions.
    pub fn process_frame_at(&mut self, buffer: &mut Vec<u8>, width: u32, height: u32, now_ms: u64) -> (out: FrameOutcome)
        ensures
            final(self).same_state(&*old(self)),
            frame_filtered(*old(self), old(buffer)@, final(buffer)@, out, width, height, now_ms),
    {
        if !self.enabled {
            return FrameOutcome::Done;
        }
        if self.scanner_status_at(now_ms) == ScannerStatus::Failed {
            black_out_buffer(buffer, width, height);
            assert(buffer@ =~= blacked_out(old(buffer)@, width as nat, height as nat));
            return FrameOutcome::Done;
        }
        if self.regions.len() == 0 {
            return FrameOutcome::Done;
        }
        if let Some((sw, sh)) = self.scan_screen_size {
            if sw > 0 && sh > 0 && (sw as u32 != width || sh as u32 != height) {
                return FrameOutcome::RescaleNeeded { regions: self.regions.clone(), scan_width: sw, scan_height: sh };
            }
        }
        let radius = self.blur_radius;
        blur_each(buffer, width, height, self.regions.as_slice(), radius, &mut self.blur_tmp_buffer);
        FrameOutcome::Done
    }

    /// Filters one frame now (see `process_frame_at`).
    pub fn process_frame(&mut self, buffer: &mut Vec<u8>, width: u32, height: u32) -> (out: FrameOutcome)
        ensures
            final(self).same_state(&*old(self)),
            exists|now_ms: u64| frame_filtered(*old(self), old(buffer)@, final(buffer)@, out, width, height, now_ms),
    {
        let now = crate::adaptive::unix_time_millis();
        self.process_frame_at(buffer, width, height, now)
    }
}

/// Whether regions scanned at `scan` must be rescaled to a `width` x `height`
/// frame: the scan size is known, positive, and differs from the frame's.
pub open spec fn needs_rescale(scan: Option<(i32, i32)>, width: u32, height: u32) -> bool {
    match scan {
        Some((sw, sh)) => sw > 0 && sh > 0 && (sw != width || sh != height),
        None => false,
    }
}


/// What filtering a frame at `now_ms` does, for a filter `f`, a frame that
/// was `before` and is `after`, and the outcome `out`: nothing when disabled;
/// a black-out when the scanner has failed; nothing without regions; the
/// frame left for rescaling when the regions were scanned at another screen
/// size; otherwise the regions blurred in order.
pub open spec fn frame_filtered(
    f: PrivacyFilter,
    before: Seq<u8>,
    after: Seq<u8>,
    out: FrameOutcome,
    width: u32,
    height: u32,
    now_ms: u64,
) -> bool {
    if !f.spec_enabled() {
        after == before && out is Done
    } else if status_for(f.spec_scanner_spawned(), f.spec_last_heartbeat(), now_ms) == ScannerStatus::Failed {
        after == blacked_out(before, width as nat, height as nat) && out is Done
    } else if f.spec_regions().len() == 0 {
        after == before && out is Done
    } else if needs_rescale(f.spec_scan_screen_size(), width, height) {
        &&& after == before
        &&& out matches FrameOutcome::RescaleNeeded { regions, scan_width, scan_height }
        &&& regions@ == f.spec_regions()
        &&& Some((scan_width, scan_height)) == f.spec_scan_screen_size()
    } else {
        after == blurred_all(before, width as nat, height as nat, f.spec_regions(), f.spec_blur_radius() as nat)
            && out is Done
    }
}


/// The diagnostics of filter `f` at `now_ms`; the scan age is `u64::MAX`
/// without heartbeat.
pub open spec fn stats_for(f: PrivacyFilter, st: PrivacyFilterStats, now_ms: u64) -> bool {
    &&& st.enabled == f.spec_enabled()
    &&& st.regions_count == f.spec_regions().len()
    &&& st.last_scan_duration_ms == f.spec_last_scan_duration()
    &&& st.last_scan_age_ms == match f.spec_last_heartbeat() {
        None => u64::MAX,
        Some(t) => if now_ms >= t {
            (now_ms - t) as u64
        } else {
            0
        },
    }
    &&& st.scan_count == f.spec_scan_count()
    &&& st.fail_count == f.spec_fail_count()
    &&& st.scanner_status == status_for(f.spec_scanner_spawned(), f.spec_last_heartbeat(), now_ms)
}


// ---------------------------------------------------------------------------
// Region scanner bookkeeping
// ---------------------------------------------------------------------------

/// Every this many scanner iterations the scan covers all windows; the
/// others cover only the foreground window.
pub const GLOBAL_SCAN_EVERY_N_ITERATIONS: u32 = 10;

/// A password field not seen for this long is forgotten.
pub const STICKY_MAX_AGE_MS: u64 = 3600000;

/// Which windows a scan enumerates.
#[derive(Clone, Copy, Debug, PartialEq, Eq, Structural)]
pub enum ScanScope {
    Full,
    Foreground,
}

/// An element found by an accessibility scan: its runtime id and rectangle.
#[derive(Clone, Debug)]
pub struct UiaHit {
    pub runtime_id: Vec<i32>,
    pub region: SensitiveRegion,
}

/// A password field remembered across scans (a field that stops reporting
/// itself as a password while it is edited stays blurred).
#[derive(Clone, Debug)]
pub struct StickyRegion {
    pub runtime_id: Vec<i32>,
    pub region: SensitiveRegion,
    pub last_password_seen_ms: u64,
}

/// A scan hit as plain values: runtime id and rectangle.
pub type HitView = (Seq<i32>, SensitiveRegion);

/// A remembered field as plain values: runtime id, rectangle, time last seen
/// as a password.
pub type StickyView = (Seq<i32>, SensitiveRegion, u64);

pub open spec fn hit_view(h: UiaHit) -> HitView {
    (h.runtime_id@, h.region)
}

pub open spec fn hits_view(hs: Seq<UiaHit>) -> Seq<HitView> {
    hs.map_values(|h: UiaHit| hit_view(h))
}

pub open spec fn sticky_view(s: StickyRegion) -> StickyView {
    (s.runtime_id@, s.region, s.last_password_seen_ms)
}

pub open spec fn stickies_view(ss: Seq<StickyRegion>) -> Seq<StickyView> {
    ss.map_values(|s: StickyRegion| sticky_view(s))
}

/// Index of the first remembered field with runtime id `id`, or -1.
pub open spec fn first_sticky_with_id(ss: Seq<StickyView>, id: Seq<i32>) -> int
    decreases ss.len(),
{
    if ss.len() == 0 {
        -1
    } else if ss[0].0 == id {
        0
    } else {
        let k = first_sticky_with_id(ss.drop_first(), id);
        if k < 0 {
            -1
        } else {
            k + 1
        }
    }
}

/// Index of the first hit with runtime id `id`, or -1.
pub open spec fn first_hit_with_id(hs: Seq<HitView>, id: Seq<i32>) -> int
    decreases hs.len(),
{
    if hs.len() == 0 {
        -1
    } else if hs[0].0 == id {
        0
    } else {
        let k = first_hit_with_id(hs.drop_first(), id);
        if k < 0 {
            -1
        } else {
            k + 1
        }
    }
}

/// A password hit at `now_ms`: the first remembered field with its id takes
/// its rectangle and time; without one, the hit is appended.
pub open spec fn record_password_hit(ss: Seq<StickyView>, hit: HitView, now_ms: u64) -> Seq<StickyView> {
    let k = first_sticky_with_id(ss, hit.0);
    if k >= 0 {
        ss.update(k, (hit.0, hit.1, now_ms))
    } else {
        ss.push((hit.0, hit.1, now_ms))
    }
}

/// The password hits recorded in order.
pub open spec fn record_password_hits(ss: Seq<StickyView>, hits: Seq<HitView>, now_ms: u64) -> Seq<StickyView>
    decreases hits.len(),
{
    if hits.len() == 0 {
        ss
    } else {
        record_password_hit(record_password_hits(ss, hits.drop_last(), now_ms), hits.last(), now_ms)
    }
}

/// What becomes of a remembered field after a scan: kept when the scan saw
/// it as a password; dropped when last seen as a password more than an hour
/// ago; kept with the rectangle of the first edit field with its id; else
/// kept only when the scan covered the foreground window alone.
pub open spec fn sticky_after_scan(
    s: StickyView,
    password: Seq<HitView>,
    edit: Seq<HitView>,
    now_ms: u64,
    scope: ScanScope,
) -> Option<StickyView> {
    let age = if now_ms >= s.2 {
        now_ms - s.2
    } else {
        0
    };
    if first_hit_with_id(password, s.0) >= 0 {
        Some(s)
    } else if age > STICKY_MAX_AGE_MS {
        None
    } else if first_hit_with_id(edit, s.0) >= 0 {
        Some((s.0, edit[first_hit_with_id(edit, s.0)].1, s.2))
    } else if scope == ScanScope::Full {
        None
    } else {
        Some(s)
    }
}

/// The remembered fields after a scan, in their order.
pub open spec fn stickies_after_scan(
    ss: Seq<StickyView>,
    password: Seq<HitView>,
    edit: Seq<HitView>,
    now_ms: u64,
    scope: ScanScope,
) -> Seq<StickyView>
    decreases ss.len(),
{
    if ss.len() == 0 {
        ss
    } else {
        let rest = stickies_after_scan(ss.drop_last(), password, edit, now_ms, scope);
        match sticky_after_scan(ss.last(), password, edit, now_ms, scope) {
            Some(s) => rest.push(s),
            None => rest,
        }
    }
}

/// The scope of scanner iteration `iteration`.
pub fn scan_scope_for_iteration(iteration: u32) -> (s: ScanScope)
    ensures
        s == if iteration % GLOBAL_SCAN_EVERY_N_ITERATIONS == 0 {
            ScanScope::Full
        } else {
            ScanScope::Foreground
        },
{
    if iteration % GLOBAL_SCAN_EVERY_N_ITERATIONS == 0 {
        ScanScope::Full
    } else {
        ScanScope::Foreground
    }
}

/// Whether a scan counts as successful: it found something, or it only
/// looked at the foreground window (which may hold nothing).
pub fn scan_succeeded(password_hits: usize, edit_hits: usize, scope: ScanScope) -> (ok: bool)
    ensures
        ok == (!(password_hits == 0 && edit_hits == 0) || scope == ScanScope::Foreground),
{
    !(password_hits == 0 && edit_hits == 0) || scope == ScanScope::Foreground
}

/// Whether two runtime ids are equal.
fn ids_equal(a: &Vec<i32>, b: &Vec<i32>) -> (r: bool)
    ensures
        r == (a@ == b@),
{
    if a.len() != b.len() {
        return false;
    }
    let mut i: usize = 0;
    while i < a.len()
        invariant
            i <= a@.len(),
            a@.len() == b@.len(),
            a@.subrange(0, i as int) == b@.subrange(0, i as int),
        decreases a@.len() - i,
    {
        if a[i] != b[i] {
            assert(a@[i as int] != b@[i as int]);
            return false;
        }
        assert(a@.subrange(0, i + 1) =~= a@.subrange(0, i as int).push(a@[i as int]));
        assert(b@.subrange(0, i + 1) =~= b@.subrange(0, i as int).push(b@[i as int]));
        i += 1;
    }
    assert(a@ =~= a@.subrange(0, a@.len() as int));
    assert(b@ =~= b@.subrange(0, b@.len() as int));
    true
}

/// A copy of a runtime id.
fn copy_id(a: &Vec<i32>) -> (r: Vec<i32>)
    ensures
        r@ == a@,
{
    let r = a.clone();
    assert(r@ =~= a@);
    r
}

proof fn lemma_first_sticky_found(ss: Seq<StickyView>, id: Seq<i32>, k: int)
    requires
        0 <= k < ss.len(),
        ss[k].0 == id,
        forall|j: int| 0 <= j < k ==> ss[j].0 != id,
    ensures
        first_sticky_with_id(ss, id) == k,
    decreases k,
{
    if k > 0 {
        lemma_first_sticky_found(ss.drop_first(), id, k - 1);
    }
}

proof fn lemma_first_sticky_absent(ss: Seq<StickyView>, id: Seq<i32>)
    requires
        forall|j: int| 0 <= j < ss.len() ==> ss[j].0 != id,
    ensures
        first_sticky_with_id(ss, id) == -1,
    decreases ss.len(),
{
    if ss.len() > 0 {
        lemma_first_sticky_absent(ss.drop_first(), id);
    }
}

proof fn lemma_first_hit_found(hs: Seq<HitView>, id: Seq<i32>, k: int)
    requires
        0 <= k < hs.len(),
        hs[k].0 == id,
        forall|j: int| 0 <= j < k ==> hs[j].0 != id,
    ensures
        first_hit_with_id(hs, id) == k,
    decreases k,
{
    if k > 0 {
        lemma_first_hit_found(hs.drop_first(), id, k - 1);
    }
}

proof fn lemma_first_hit_absent(hs: Seq<HitView>, id: Seq<i32>)
    requires
        forall|j: int| 0 <= j < hs.len() ==> hs[j].0 != id,
    ensures
        first_hit_with_id(hs, id) == -1,
    decreases hs.len(),
{
    if hs.len() > 0 {
        lemma_first_hit_absent(hs.drop_first(), id);
    }
}

/// Index of the first hit with runtime id `id`, if any.
fn find_hit(hits: &[UiaHit], id: &Vec<i32>) -> (r: Option<usize>)
    ensures
        match r {
            Some(k) => k as int == first_hit_with_id(hits_view(hits@), id@) && k < hits@.len(),
            None => first_hit_with_id(hits_view(hits@), id@) == -1,
        },
{
    let ghost hv = hits_view(hits@);
    let mut k: usize = 0;
    while k < hits.len()
        invariant
            k <= hits@.len(),
            hv == hits_view(hits@),
            forall|j: int| 0 <= j < k ==> hv[j].0 != id@,
        decreases hits@.len() - k,
    {
        if ids_equal(&hits[k].runtime_id, id) {
            proof {
                lemma_first_hit_found(hv, id@, k as int);
            }
            return Some(k);
        }
        k += 1;
    }
    proof {
        lemma_first_hit_absent(hv, id@);
    }
    None
}

/// Records one password hit seen at `now_ms` (see `record_password_hit`).
fn record_hit(sticky: &mut Vec<StickyRegion>, hit: &UiaHit, now_ms: u64)
    ensures
        stickies_view(final(sticky)@) == record_password_hit(stickies_view(old(sticky)@), hit_view(*hit), now_ms),
{
    let ghost sv = stickies_view(sticky@);
    let mut k: usize = 0;
    while k < sticky.len()
        invariant
            k <= sticky@.len(),
            sticky@ == old(sticky)@,
            sv == stickies_view(sticky@),
            forall|j: int| 0 <= j < k ==> sv[j].0 != hit.runtime_id@,
        decreases sticky@.len() - k,
    {
        if ids_equal(&sticky[k].runtime_id, &hit.runtime_id) {
            proof {
                lemma_first_sticky_found(sv, hit.runtime_id@, k as int);
            }
            let entry = StickyRegion {
                runtime_id: copy_id(&hit.runtime_id),
                region: hit.region,
                last_password_seen_ms: now_ms,
            };
            sticky.set(k, entry);
            assert(stickies_view(sticky@) =~= sv.update(k as int, (hit.runtime_id@, hit.region, now_ms)));
            return;
        }
        k += 1;
    }
    proof {
        lemma_first_sticky_absent(sv, hit.runtime_id@);
    }
    sticky.push(StickyRegion { runtime_id: copy_id(&hit.runtime_id), region: hit.region, last_password_seen_ms: now_ms });
    assert(stickies_view(sticky@) =~= sv.push((hit.runtime_id@, hit.region, now_ms)));
}

/// Updates the remembered password fields with a scan made at `now_ms`:
/// records the password hits, then keeps, updates or drops each field (see
/// `sticky_after_scan`), in order.
pub fn merge_scan_hits(
    sticky: &mut Vec<StickyRegion>,
    password: &[UiaHit],
    edit: &[UiaHit],
    now_ms: u64,
    scope: ScanScope,
)
    ensures
        stickies_view(final(sticky)@) == stickies_after_scan(
            record_password_hits(stickies_view(old(sticky)@), hits_view(password@), now_ms),
            hits_view(password@),
            hits_view(edit@),
            now_ms,
            scope,
        ),
{
    let ghost pv = hits_view(password@);
    let ghost ev = hits_view(edit@);
    let mut i: usize = 0;
    while i < password.len()
        invariant
            i <= password@.len(),
            pv == hits_view(password@),
            stickies_view(sticky@) == record_password_hits(stickies_view(old(sticky)@), pv.take(i as int), now_ms),
        decreases password@.len() - i,
    {
        record_hit(sticky, &password[i], now_ms);
        proof {
            assert(pv.take(i + 1).drop_last() =~= pv.take(i as int));
            assert(pv.take(i + 1).last() == hit_view(password@[i as int]));
        }
        i += 1;
    }
    assert(pv.take(password@.len() as int) =~= pv);
    let ghost recorded = stickies_view(sticky@);
    let mut kept: Vec<StickyRegion> = Vec::new();
    let mut k: usize = 0;
    while k < sticky.len()
        invariant
            k <= sticky@.len(),
            recorded == stickies_view(sticky@),
            pv == hits_view(password@),
            ev == hits_view(edit@),
            stickies_view(kept@) == stickies_after_scan(recorded.take(k as int), pv, ev, now_ms, scope),
        decreases sticky@.len() - k,
    {
        let s = &sticky[k];
        let ghost sview = sticky_view(*s);
        proof {
            assert(recorded.take(k + 1).drop_last() =~= recorded.take(k as int));
            assert(recorded.take(k + 1).last() == sview);
        }
        let in_password = find_hit(password, &s.runtime_id);
        if in_password.is_some() {
            kept.push(StickyRegion { runtime_id: copy_id(&s.runtime_id), region: s.region, last_password_seen_ms: s.last_password_seen_ms });
            assert(stickies_view(kept@) =~= stickies_after_scan(recorded.take(k as int), pv, ev, now_ms, scope).push(sview));
        } else if now_ms.saturating_sub(s.last_password_seen_ms) > STICKY_MAX_AGE_MS {
        } else {
            match find_hit(edit, &s.runtime_id) {
                Some(e) => {
                    kept.push(StickyRegion { runtime_id: copy_id(&s.runtime_id), region: edit[e].region, last_password_seen_ms: s.last_password_seen_ms });
                    assert(stickies_view(kept@) =~= stickies_after_scan(recorded.take(k as int), pv, ev, now_ms, scope).push(
                        (sview.0, ev[e as int].1, sview.2),
                    ));
                },
                None => {
                    if scope == ScanScope::Foreground {
                        kept.push(StickyRegion { runtime_id: copy_id(&s.runtime_id), region: s.region, last_password_seen_ms: s.last_password_seen_ms });
                        assert(stickies_view(kept@) =~= stickies_after_scan(recorded.take(k as int), pv, ev, now_ms, scope).push(sview));
                    }
                },
            }
        }
        k += 1;
    }
    assert(recorded.take(sticky@.len() as int) =~= recorded);
    *sticky = kept;
}

/// The rectangles of the remembered fields, in order.
pub fn sticky_regions(sticky: &[StickyRegion]) -> (r: Vec<SensitiveRegion>)
    ensures
        r@ == sticky@.map_values(|s: StickyRegion| s.region),
{
    let mut out: Vec<SensitiveRegion> = Vec::new();
    let mut k: usize = 0;
    while k < sticky.len()
        invariant
            k <= sticky@.len(),
            out@ == sticky@.take(k as int).map_values(|s: StickyRegion| s.region),
        decreases sticky@.len() - k,
    {
        out.push(sticky[k].region);
        assert(out@ =~= sticky@.take(k + 1).map_values(|s: StickyRegion| s.region));
        k += 1;
    }
    assert(sticky@.take(sticky@.len() as int) =~= sticky@);
    out
}

/// The rectangles of scan hits, in order.
pub fn hit_regions(hits: &[UiaHit]) -> (r: Vec<SensitiveRegion>)
    ensures
        r@ == hits@.map_values(|h: UiaHit| h.region),
{
    let mut out: Vec<SensitiveRegion> = Vec::new();
    let mut k: usize = 0;
    while k < hits.len()
        invariant
            k <= hits@.len(),
            out@ == hits@.take(k as int).map_values(|h: UiaHit| h.region),
        decreases hits@.len() - k,
    {
        out.push(hits[k].region);
        assert(out@ =~= hits@.take(k + 1).map_values(|h: UiaHit| h.region));
        k += 1;
    }
    assert(hits@.take(hits@.len() as int) =~= hits@);
    out
}


// ---------------------------------------------------------------------------
// Laws
// ---------------------------------------------------------------------------

/// Blurring never changes an alpha byte, a byte of a pixel outside the
/// clipped region, or a byte past the frame.
pub proof fn law_blur_touches_only_region_colours(
    b: Seq<u8>,
    width: nat,
    height: nat,
    region: SensitiveRegion,
    radius: nat,
    i: int,
)
    requires
        0 <= i < b.len(),
        i % 4 == 3 || !(clip_y0(region, height) <= px_row(i, width) < clip_y1(region, height)
            && clip_x0(region, width) <= px_col(i, width) < clip_x1(region, width)),
    ensures
        blurred_byte(b, width, height, region, radius, i) == b[i],
{
}

/// Blurring never makes a colour leave the range that colour has over the
/// region: each B, G or R byte of a pixel of the clipped region ends between
/// the smallest and the largest value of that channel over the region's
/// pixels before the blur, since both passes only average region pixels.
pub proof fn law_blurred_colour_within_region_range(
    b: Seq<u8>,
    width: nat,
    height: nat,
    region: SensitiveRegion,
    radius: nat,
    i: int,
    vlo: int,
    vhi: int,
)
    requires
        0 <= i < b.len(),
        i % 4 < 3,
        clip_y0(region, height) <= px_row(i, width) < clip_y1(region, height),
        clip_x0(region, width) <= px_col(i, width) < clip_x1(region, width),
        region_channel_within(
            b,
            (width * 4) as int,
            clip_x0(region, width),
            clip_y0(region, height),
            clip_x1(region, width) - clip_x0(region, width),
            clip_y1(region, height) - clip_y0(region, height),
            i % 4,
            vlo,
            vhi,
        ),
    ensures
        vlo <= blurred_byte(b, width, height, region, radius, i) <= vhi,
{
    let x0 = clip_x0(region, width);
    let y0 = clip_y0(region, height);
    let rw = clip_x1(region, width) - x0;
    let rh = clip_y1(region, height) - y0;
    let stride = (width * 4) as int;
    let c = i % 4;
    assert(width > 0);
    lemma_pixel_decompose(i, width);
    let y = px_row(i, width);
    let x = px_col(i, width);
    assert(b[(y0 + (y - y0)) * stride + (x0 + (x - x0)) * 4 + c] == b[i]);
    if blur_applies(b.len(), width, height, region, radius) {
        let r = radius as int;
        lemma_vblur_within(b, stride, x0, y0, rw, rh, r, y - y0, x - x0, c, vlo, vhi);
        assert(region_channel_within(b, stride, x0, y0, rw, rh, c, 0, 255));
        lemma_vblur_within(b, stride, x0, y0, rw, rh, r, y - y0, x - x0, c, 0, 255);
    }
}

/// The clipped region is exactly the part of the region inside the frame:
/// a column (row) `c` lies in the clipped range when it is a column (row) of
/// the frame and of the region, whose end saturates at `i32::MAX`. A region
/// that starts left of (above) the frame keeps its columns (rows) from 0.
pub proof fn law_clip_is_region_inside_frame(r: SensitiveRegion, width: nat, height: nat, c: int)
    ensures
        clip_x0(r, width) <= c < clip_x1(r, width) <==> (0 <= c < width && r.x <= c && c < r.x + r.width && c
            < i32::MAX),
        clip_y0(r, height) <= c < clip_y1(r, height) <==> (0 <= c < height && r.y <= c && c < r.y + r.height && c
            < i32::MAX),
{
}

/// A black-out of a blacked-out frame changes nothing.
pub proof fn law_black_out_idempotent(b: Seq<u8>, width: nat, height: nat)
    ensures
        blacked_out(blacked_out(b, width, height), width, height) == blacked_out(b, width, height),
{
    assert(blacked_out(blacked_out(b, width, height), width, height) =~= blacked_out(b, width, height));
}

/// Fail-closed: an enabled filter whose scanner never started blacks out
/// every frame, whatever the time.
pub proof fn law_fail_closed_without_scanner(
    f: PrivacyFilter,
    before: Seq<u8>,
    after: Seq<u8>,
    out: FrameOutcome,
    width: u32,
    height: u32,
    now_ms: u64,
)
    requires
        f.spec_enabled(),
        !f.spec_scanner_spawned(),
        frame_filtered(f, before, after, out, width, height, now_ms),
    ensures
        after == blacked_out(before, width as nat, height as nat),
        out is Done,
{
}

/// Rank of a scanner status, from healthy to failed.
pub open spec fn status_rank(s: ScannerStatus) -> int {
    match s {
        ScannerStatus::Healthy => 0,
        ScannerStatus::Degraded => 1,
        ScannerStatus::Failed => 2,
    }
}

/// As time passes without a new heartbeat, the scanner's status only gets
/// worse.
pub proof fn law_status_worsens_with_time(spawned: bool, heartbeat: Option<u64>, earlier: u64, later: u64)
    requires
        earlier <= later,
    ensures
        status_rank(status_for(spawned, heartbeat, earlier)) <= status_rank(status_for(spawned, heartbeat, later)),
{
}

/// The colour bytes of every pixel of the clipped region equal those of its
/// first pixel.
pub open spec fn uniform_region(b: Seq<u8>, width: nat, height: nat, region: SensitiveRegion) -> bool {
    let x0 = clip_x0(region, width);
    let y0 = clip_y0(region, height);
    forall|y: int, x: int, c: int|
        y0 <= y < clip_y1(region, height) && x0 <= x < clip_x1(region, width) && 0 <= c < 3 ==> #[trigger] b[y
            * (width * 4) + x * 4 + c] == b[y0 * (width * 4) + x0 * 4 + c]
}

proof fn lemma_row_sum_const(b: Seq<u8>, base: int, x0: int, lo: int, n: nat, c: int, v: int)
    requires
        forall|k: int| 0 <= k < n ==> #[trigger] b[base + (x0 + lo + k) * 4 + c] == v,
    ensures
        row_sum(b, base, x0, lo, n, c) == n * v,
    decreases n,
{
    if n > 0 {
        lemma_row_sum_const(b, base, x0, lo, (n - 1) as nat, c, v);
        assert(b[base + (x0 + lo + (n - 1)) * 4 + c] == v);
        assert(n * v == (n - 1) * v + v) by (nonlinear_arith);
    } else {
        assert(n * v == 0) by (nonlinear_arith)
            requires
                n == 0,
        ;
    }
}

proof fn lemma_col_sum_const(
    b: Seq<u8>,
    stride: int,
    x0: int,
    y0: int,
    rw: int,
    r: int,
    rx: int,
    c: int,
    lo: int,
    n: nat,
    v: int,
)
    requires
        forall|k: int| 0 <= k < n ==> #[trigger] hblur(b, stride, x0, y0, rw, r, lo + k, rx, c) == v,
    ensures
        col_sum(b, stride, x0, y0, rw, r, rx, c, lo, n) == n * v,
    decreases n,
{
    if n > 0 {
        lemma_col_sum_const(b, stride, x0, y0, rw, r, rx, c, lo, (n - 1) as nat, v);
        assert(hblur(b, stride, x0, y0, rw, r, lo + (n - 1), rx, c) == v);
        assert(n * v == (n - 1) * v + v) by (nonlinear_arith);
    } else {
        assert(n * v == 0) by (nonlinear_arith)
            requires
                n == 0,
        ;
    }
}

proof fn lemma_div_exact(n: int, v: int)
    requires
        n >= 1,
    ensures
        (n * v) / n == v,
{
    assert(n * v == v * n + 0) by (nonlinear_arith);
    lemma_fundamental_div_mod_converse(n * v, n, v, 0);
}

/// Blurring a region whose pixels all have the same colour changes nothing.
pub proof fn law_uniform_region_unchanged(b: Seq<u8>, width: nat, height: nat, region: SensitiveRegion, radius: nat)
    requires
        uniform_region(b, width, height, region),
    ensures
        blurred(b, width, height, region, radius) == b,
{
    let x0 = clip_x0(region, width);
    let y0 = clip_y0(region, height);
    let x1 = clip_x1(region, width);
    let y1 = clip_y1(region, height);
    let stride = (width * 4) as int;
    let rw = x1 - x0;
    let rh = y1 - y0;
    let r = radius as int;
    assert forall|i: int| 0 <= i < b.len() implies #[trigger] blurred(b, width, height, region, radius)[i] == b[i] by {
        if blur_applies(b.len(), width, height, region, radius) && y0 <= px_row(i, width) < y1 && x0 <= px_col(i, width) < x1
            && i % 4 < 3 {
            let y = px_row(i, width);
            let x = px_col(i, width);
            let c = i % 4;
            lemma_pixel_decompose(i, width);
            let v = b[y0 * stride + x0 * 4 + c] as int;
            assert forall|ny: int| 0 <= ny < rh implies #[trigger] hblur(b, stride, x0, y0, rw, r, ny, x - x0, c) == v by {
                let lo = win_lo(x - x0, r);
                let n = win_len(x - x0, r, rw);
                assert forall|k: int| 0 <= k < n implies #[trigger] b[(y0 + ny) * stride + (x0 + lo + k) * 4 + c] == v by {
                    assert(b[(y0 + ny) * (width * 4) + (x0 + lo + k) * 4 + c] == b[y0 * (width * 4) + x0 * 4 + c]);
                }
                lemma_row_sum_const(b, (y0 + ny) * stride, x0, lo, n as nat, c, v);
                lemma_div_exact(n, v);
            }
            let lo = win_lo(y - y0, r);
            let n = win_len(y - y0, r, rh);
            assert forall|k: int| 0 <= k < n implies #[trigger] hblur(b, stride, x0, y0, rw, r, lo + k, x - x0, c) == v by {
                assert(0 <= lo + k < rh);
            }
            lemma_col_sum_const(b, stride, x0, y0, rw, r, x - x0, c, lo, n as nat, v);
            lemma_div_exact(n, v);
            assert(b[y * (width * 4) + x * 4 + c] == b[y0 * (width * 4) + x0 * 4 + c]);
        }
    }
    assert(blurred(b, width, height, region, radius) =~= b);
}

} // verus!
