//! Host camera frames as video fields.
use crate::video_source::{Field, FieldModel, FieldParity, VideoStandard};
use vstd::prelude::*;

verus! {

/// `x`, rounded down to an even number.
pub open spec fn even_floor(x: int) -> int {
    x - x % 2
}

pub open spec fn smaller(a: int, b: int) -> int {
    if a < b {
        a
    } else {
        b
    }
}

pub open spec fn larger(a: int, b: int) -> int {
    if a < b {
        b
    } else {
        a
    }
}

/// The first source row that destination row `dy` covers.
pub open spec fn first_row(dy: int, sh: int, dh: int) -> int {
    dy * sh / dh
}

/// The source row behind the last that destination row `dy` covers: at least one
/// row is covered where the source has one left.
pub open spec fn end_row(dy: int, sh: int, dh: int) -> int {
    smaller(larger((dy + 1) * sh / dh, first_row(dy, sh, dh) + 1), sh)
}

/// The first source column of the pixel pair at destination column `dx`.
pub open spec fn first_col(dx: int, sw: int, dw: int) -> int {
    even_floor(dx * sw / dw)
}

/// The source column behind the last of the pixel pair at destination column
/// `dx`: whole pairs, at least one where the source has one left.
pub open spec fn end_col(dx: int, sw: int, dw: int) -> int {
    even_floor(smaller(larger((dx + 2) * sw / dw, first_col(dx, sw, dw) + 2), sw))
}

/// Where the four bytes of the pixel pair at `(x, y)` start in a frame of width
/// `w`.
pub open spec fn pair_offset(w: int, x: int, y: int) -> int {
    (y * w + x) * 2
}

/// Whether the four bytes that start at `i` lie in the frame.
pub open spec fn covers(src: Seq<u8>, i: int) -> bool {
    i + 3 < src.len()
}

/// Byte `k` of the pair that starts at `i`; nothing outside the frame.
pub open spec fn pair_byte(src: Seq<u8>, i: int, k: int) -> nat {
    if covers(src, i) {
        src[i + k] as nat
    } else {
        0
    }
}

/// The sum of byte `k` over the pairs of one row, columns `lo..hi`.
pub open spec fn row_sum(src: Seq<u8>, sw: int, y: int, lo: int, hi: int, k: int) -> nat
    decreases hi - lo + 1,
{
    if hi <= lo {
        0
    } else {
        row_sum(src, sw, y, lo, hi - 2, k) + pair_byte(src, pair_offset(sw, hi - 2, y), k)
    }
}

/// How many pairs of one row, columns `lo..hi`, lie in the frame.
pub open spec fn row_count(src: Seq<u8>, sw: int, y: int, lo: int, hi: int) -> nat
    decreases hi - lo + 1,
{
    if hi <= lo {
        0
    } else {
        row_count(src, sw, y, lo, hi - 2) + if covers(src, pair_offset(sw, hi - 2, y)) {
            1nat
        } else {
            0nat
        }
    }
}

/// The sum of byte `k` over the pairs of rows `top..bottom`, columns `lo..hi`.
pub open spec fn area_sum(src: Seq<u8>, sw: int, top: int, bottom: int, lo: int, hi: int, k: int) -> nat
    decreases bottom - top,
{
    if bottom <= top {
        0
    } else {
        area_sum(src, sw, top, bottom - 1, lo, hi, k) + row_sum(src, sw, bottom - 1, lo, hi, k)
    }
}

/// How many pairs of rows `top..bottom`, columns `lo..hi`, lie in the frame.
pub open spec fn area_count(src: Seq<u8>, sw: int, top: int, bottom: int, lo: int, hi: int) -> nat
    decreases bottom - top,
{
    if bottom <= top {
        0
    } else {
        area_count(src, sw, top, bottom - 1, lo, hi) + row_count(src, sw, bottom - 1, lo, hi)
    }
}

/// The mean of byte `k` over an area, rounded down; zero for no pairs at all.
pub open spec fn area_mean(src: Seq<u8>, sw: int, top: int, bottom: int, lo: int, hi: int, k: int) -> nat {
    let n = area_count(src, sw, top, bottom, lo, hi);
    area_sum(src, sw, top, bottom, lo, hi, k) / if n == 0 {
        1
    } else {
        n
    }
}

/// The mean of byte `k` over what the pixel pair at `(dx, dy)` of the
/// destination covers of the source.
pub open spec fn scaled_byte(src: Seq<u8>, sw: int, sh: int, dw: int, dh: int, dx: int, dy: int, k: int) -> nat {
    area_mean(
        src,
        sw,
        first_row(dy, sh, dh),
        end_row(dy, sh, dh),
        first_col(dx, sw, dw),
        end_col(dx, sw, dw),
        k,
    )
}

/// Whether the four bytes of `dst` at the pair `(dx, dy)` are the means of what
/// the pair covers of the source, U Y0 V Y1 from a source of Y0 U Y1 V.
pub open spec fn pair_is_scaled(
    dst: Seq<u8>,
    src: Seq<u8>,
    sw: int,
    sh: int,
    dw: int,
    dh: int,
    dx: int,
    dy: int,
) -> bool {
    let i = pair_offset(dw, dx, dy);
    &&& dst[i] == scaled_byte(src, sw, sh, dw, dh, dx, dy, 1)
    &&& dst[i + 1] == scaled_byte(src, sw, sh, dw, dh, dx, dy, 0)
    &&& dst[i + 2] == scaled_byte(src, sw, sh, dw, dh, dx, dy, 3)
    &&& dst[i + 3] == scaled_byte(src, sw, sh, dw, dh, dx, dy, 2)
}

/// Which byte of a Y0 U Y1 V pair stands at each place of a U Y0 V Y1 pair.
pub open spec fn source_byte(k: int) -> int {
    if k == 0 {
        1
    } else if k == 1 {
        0
    } else if k == 2 {
        3
    } else {
        2
    }
}

/// Byte `p` of the scaled frame: the mean of the byte that belongs there over
/// what the pixel pair covers. A last column without a partner is zero.
pub open spec fn scaled_at(src: Seq<u8>, sw: int, sh: int, dw: int, dh: int, p: int) -> u8 {
    let y = p / (dw * 2);
    let q = p % (dw * 2);
    if q / 4 < dw / 2 {
        scaled_byte(src, sw, sh, dw, dh, q / 4 * 2, y, source_byte(q % 4)) as u8
    } else {
        0
    }
}

/// A frame of Y0 U Y1 V pairs, `sw` by `sh` pixels, scaled to a frame of U Y0 V Y1
/// pairs, `dw` by `dh` pixels.
pub open spec fn scaled_frame(src: Seq<u8>, sw: int, sh: int, dw: int, dh: int) -> Seq<u8> {
    Seq::new((dw * dh * 2) as nat, |p: int| scaled_at(src, sw, sh, dw, dh, p))
}

/// Whether the products of the sizes of a source and a destination that a scale needs fit
/// in 32 bits: the bytes of the destination, where the last row of the source starts, and
/// the places that rows and columns are scaled to. Destination columns count in pairs.
pub open spec fn scale_fits(sw: int, sh: int, dw: int, dh: int) -> bool {
    &&& dw * dh * 2 <= u32::MAX
    &&& sh > 0 ==> (sh - 1) * sw * 2 <= u32::MAX
    &&& dh * sh <= u32::MAX
    &&& even_floor(dw) * sw <= u32::MAX
}

proof fn lemma_row_bound(src: Seq<u8>, sw: int, y: int, lo: int, hi: int, k: int)
    requires
        0 <= k < 4,
    ensures
        row_sum(src, sw, y, lo, hi, k) <= 255 * row_count(src, sw, y, lo, hi),
    decreases hi - lo + 1,
{
    if hi > lo {
        lemma_row_bound(src, sw, y, lo, hi - 2, k);
    }
}

proof fn lemma_area_bound(src: Seq<u8>, sw: int, top: int, bottom: int, lo: int, hi: int, k: int)
    requires
        0 <= k < 4,
    ensures
        area_sum(src, sw, top, bottom, lo, hi, k) <= 255 * area_count(src, sw, top, bottom, lo, hi),
        area_mean(src, sw, top, bottom, lo, hi, k) <= 255,
    decreases bottom - top,
{
    if bottom > top {
        lemma_area_bound(src, sw, top, bottom - 1, lo, hi, k);
        lemma_row_bound(src, sw, bottom - 1, lo, hi, k);
    }
    let s = area_sum(src, sw, top, bottom, lo, hi, k);
    let n = area_count(src, sw, top, bottom, lo, hi);
    if n > 0 {
        assert(s / n <= 255) by (nonlinear_arith)
            requires
                s <= 255 * n,
                n > 0,
        ;
    }
}

/// Where one pair of a row lies outside the frame, so do those behind it.
proof fn lemma_row_tail(src: Seq<u8>, sw: int, y: int, lo: int, at: int, hi: int, k: int)
    requires
        lo <= at <= hi,
        (hi - at) % 2 == 0,
        at < hi ==> !covers(src, pair_offset(sw, at, y)),
    ensures
        row_sum(src, sw, y, lo, hi, k) == row_sum(src, sw, y, lo, at, k),
        row_count(src, sw, y, lo, hi) == row_count(src, sw, y, lo, at),
    decreases hi - at,
{
    if at < hi {
        lemma_row_tail(src, sw, y, lo, at, hi - 2, k);
        assert(pair_offset(sw, hi - 2, y) >= pair_offset(sw, at, y));
    }
}

proof fn lemma_row_count_bound(src: Seq<u8>, sw: int, y: int, lo: int, hi: int)
    requires
        lo <= hi,
    ensures
        row_count(src, sw, y, lo, hi) <= hi - lo,
    decreases hi - lo + 1,
{
    if lo < hi {
        if hi - 2 >= lo {
            lemma_row_count_bound(src, sw, y, lo, hi - 2);
        } else {
            assert(row_count(src, sw, y, lo, hi - 2) == 0);
        }
    }
}

proof fn lemma_area_count_bound(src: Seq<u8>, sw: int, top: int, bottom: int, lo: int, hi: int)
    requires
        lo <= hi,
        top <= bottom,
    ensures
        area_count(src, sw, top, bottom, lo, hi) <= (bottom - top) * (hi - lo),
    decreases bottom - top,
{
    if top < bottom {
        lemma_area_count_bound(src, sw, top, bottom - 1, lo, hi);
        lemma_row_count_bound(src, sw, bottom - 1, lo, hi);
        assert((bottom - top) * (hi - lo) == (bottom - 1 - top) * (hi - lo) + (hi - lo)) by (nonlinear_arith);
    } else {
        assert((bottom - top) * (hi - lo) == 0) by (nonlinear_arith)
            requires
                bottom == top,
        ;
    }
}

/// The means of the four bytes over an area of a frame.
fn mean_pair(src: &[u8], sw: u32, top: u32, bottom: u32, lo: u32, hi: u32) -> (r: (u8, u8, u8, u8))
    requires
        lo % 2 == 0,
        hi % 2 == 0,
        hi <= sw,
        bottom > 0 ==> (bottom - 1) * sw * 2 <= u32::MAX,
    ensures
        r.0 == area_mean(src@, sw as int, top as int, bottom as int, lo as int, hi as int, 0),
        r.1 == area_mean(src@, sw as int, top as int, bottom as int, lo as int, hi as int, 1),
        r.2 == area_mean(src@, sw as int, top as int, bottom as int, lo as int, hi as int, 2),
        r.3 == area_mean(src@, sw as int, top as int, bottom as int, lo as int, hi as int, 3),
{
    let mut y0: u64 = 0;
    let mut u: u64 = 0;
    let mut y1: u64 = 0;
    let mut v: u64 = 0;
    let mut n: u64 = 0;
    let ghost (s, w, t, l, h) = (src@, sw as int, top as int, lo as int, hi as int);
    let mut sy: u32 = top;
    while sy < bottom
        invariant
            top <= sy,
            top <= bottom ==> sy <= bottom,
            top > bottom ==> sy == top,
            lo % 2 == 0,
            hi % 2 == 0,
            hi <= sw,
            bottom > 0 ==> (bottom - 1) * sw * 2 <= u32::MAX,
            s == src@,
            w == sw,
            t == top,
            l == lo,
            h == hi,
            y0 == area_sum(s, w, t, sy as int, l, h, 0),
            u == area_sum(s, w, t, sy as int, l, h, 1),
            y1 == area_sum(s, w, t, sy as int, l, h, 2),
            v == area_sum(s, w, t, sy as int, l, h, 3),
            n == area_count(s, w, t, sy as int, l, h),
        decreases bottom - sy,
    {
        let ghost (by0, bu, by1, bv, bn) = (y0 as int, u as int, y1 as int, v as int, n as int);
        proof {
            assert(0 <= sy * sw <= (bottom - 1) * sw) by (nonlinear_arith)
                requires
                    0 <= sy <= bottom - 1,
                    0 <= sw,
            ;
            lemma_area_bound(s, w, t, sy as int, l, h, 0);
            lemma_area_bound(s, w, t, sy as int, l, h, 1);
            lemma_area_bound(s, w, t, sy as int, l, h, 2);
            lemma_area_bound(s, w, t, sy as int, l, h, 3);
            if l <= h {
                lemma_area_count_bound(s, w, t, sy as int, l, h);
                assert((sy - t) * (h - l) <= sy * sw) by (nonlinear_arith)
                    requires
                        0 <= t <= sy,
                        0 <= l <= h <= sw,
                ;
            } else {
                lemma_area_empty(s, w, t, sy as int, l, h);
            }
        }
        let row: u32 = sy * sw * 2;
        let mut sx: u32 = lo;
        while sx < hi
            invariant
                lo <= sx,
                lo <= hi ==> sx <= hi,
                lo > hi ==> sx == lo,
                sx % 2 == 0,
                hi % 2 == 0,
                hi <= sw,
                sy < bottom,
                row == sy * sw * 2,
                s == src@,
                w == sw,
                l == lo,
                h == hi,
                by0 <= 255 * bn,
                bu <= 255 * bn,
                by1 <= 255 * bn,
                bv <= 255 * bn,
                bn <= u32::MAX,
                y0 == by0 + row_sum(s, w, sy as int, l, sx as int, 0),
                u == bu + row_sum(s, w, sy as int, l, sx as int, 1),
                y1 == by1 + row_sum(s, w, sy as int, l, sx as int, 2),
                v == bv + row_sum(s, w, sy as int, l, sx as int, 3),
                n == bn + row_count(s, w, sy as int, l, sx as int),
            ensures
                y0 == by0 + row_sum(s, w, sy as int, l, h, 0),
                u == bu + row_sum(s, w, sy as int, l, h, 1),
                y1 == by1 + row_sum(s, w, sy as int, l, h, 2),
                v == bv + row_sum(s, w, sy as int, l, h, 3),
                n == bn + row_count(s, w, sy as int, l, h),
            decreases hi - sx,
        {
            proof {
                lemma_row_bound(s, w, sy as int, l, sx as int, 0);
                lemma_row_bound(s, w, sy as int, l, sx as int, 1);
                lemma_row_bound(s, w, sy as int, l, sx as int, 2);
                lemma_row_bound(s, w, sy as int, l, sx as int, 3);
                lemma_row_count_bound(s, w, sy as int, l, sx as int);
                assert(pair_offset(w, sx as int, sy as int) == row + sx * 2);
            }
            let at: u64 = (row as u64) + (sx as u64) * 2;
            if at + 3 >= src.len() as u64 {
                proof {
                    lemma_row_tail(s, w, sy as int, l, sx as int, h, 0);
                    lemma_row_tail(s, w, sy as int, l, sx as int, h, 1);
                    lemma_row_tail(s, w, sy as int, l, sx as int, h, 2);
                    lemma_row_tail(s, w, sy as int, l, sx as int, h, 3);
                }
                break;
            }
            let i: usize = at as usize;
            y0 += src[i] as u64;
            u += src[i + 1] as u64;
            y1 += src[i + 2] as u64;
            v += src[i + 3] as u64;
            n += 1;
            sx += 2;
        }
        sy += 1;
    }
    proof {
        lemma_area_bound(s, w, t, bottom as int, l, h, 0);
        lemma_area_bound(s, w, t, bottom as int, l, h, 1);
        lemma_area_bound(s, w, t, bottom as int, l, h, 2);
        lemma_area_bound(s, w, t, bottom as int, l, h, 3);
    }
    if n == 0 {
        n = 1;
    }
    ((y0 / n) as u8, (u / n) as u8, (y1 / n) as u8, (v / n) as u8)
}

/// An area without columns holds no pairs.
proof fn lemma_area_empty(src: Seq<u8>, sw: int, top: int, bottom: int, lo: int, hi: int)
    requires
        hi <= lo,
    ensures
        area_count(src, sw, top, bottom, lo, hi) == 0,
    decreases bottom - top,
{
    if top < bottom {
        lemma_area_empty(src, sw, top, bottom - 1, lo, hi);
    }
}

/// A quotient stays in the range that its dividend had.
proof fn lemma_quotient(a: int, d: int, m: int)
    requires
        0 <= a <= d * m,
        d > 0,
    ensures
        0 <= a / d <= m,
{
    assert(0 <= a / d <= m) by (nonlinear_arith)
        requires
            0 <= a <= d * m,
            d > 0,
    ;
}

/// The source columns of the pixel pair at destination column `dx`.
fn column_range(dx: u32, sw: u32, dw: u32) -> (r: (u32, u32))
    requires
        dx + 2 <= even_floor(dw as int),
        even_floor(dw as int) * sw <= u32::MAX,
    ensures
        r.0 == first_col(dx as int, sw as int, dw as int),
        r.1 == end_col(dx as int, sw as int, dw as int),
        r.0 % 2 == 0,
        r.1 % 2 == 0,
        r.1 <= sw,
{
    proof {
        let e = even_floor(dw as int);
        assert(0 <= dx * sw <= (dx + 2) * sw <= e * sw) by (nonlinear_arith)
            requires
                0 <= dx,
                dx + 2 <= e,
                0 <= sw,
        ;
        assert(e * sw <= dw * sw) by (nonlinear_arith)
            requires
                e <= dw,
                0 <= sw,
        ;
        assert(2 * sw <= e * sw) by (nonlinear_arith)
            requires
                2 <= e,
                0 <= sw,
        ;
        lemma_quotient(dx * sw, dw as int, sw as int);
        lemma_quotient((dx + 2) * sw, dw as int, sw as int);
    }
    let c: u32 = (dx * sw) / dw;
    let sx0: u32 = c - c % 2;
    let mut sx2: u32 = ((dx + 2) * sw) / dw;
    if sx2 < sx0 + 2 {
        sx2 = sx0 + 2;
    }
    if sx2 > sw {
        sx2 = sw;
    }
    (sx0, sx2 - sx2 % 2)
}

/// A pair whose bytes stay stays scaled.
proof fn lemma_pair_kept(
    before: Seq<u8>,
    after: Seq<u8>,
    src: Seq<u8>,
    sw: int,
    sh: int,
    dw: int,
    dh: int,
    dx: int,
    dy: int,
)
    requires
        pair_is_scaled(before, src, sw, sh, dw, dh, dx, dy),
        after[pair_offset(dw, dx, dy)] == before[pair_offset(dw, dx, dy)],
        after[pair_offset(dw, dx, dy) + 1] == before[pair_offset(dw, dx, dy) + 1],
        after[pair_offset(dw, dx, dy) + 2] == before[pair_offset(dw, dx, dy) + 2],
        after[pair_offset(dw, dx, dy) + 3] == before[pair_offset(dw, dx, dy) + 3],
    ensures
        pair_is_scaled(after, src, sw, sh, dw, dh, dx, dy),
{
}

/// Scales a frame down to `dw` by `dh` pixels by the mean of what each pixel pair
/// covers, and turns its byte order from Y0 U Y1 V to U Y0 V Y1 on the way. A last
/// column without a partner stays zero.
pub fn downscale_yuyv_to_uyvy(src: &[u8], sw: u32, sh: u32, dw: u32, dh: u32) -> (dst: Vec<u8>)
    requires
        scale_fits(sw as int, sh as int, dw as int, dh as int),
    ensures
        dst@ == scaled_frame(src@, sw as int, sh as int, dw as int, dh as int),
{
    proof {
        assert(dw * dh >= 0) by (nonlinear_arith);
        assert(dw * dh * 2 <= u32::MAX);
    }
    let mut dst: Vec<u8> = vec![0u8; (dw * dh * 2) as usize];
    let pairs: u32 = dw / 2;
    let mut dy: u32 = 0;
    while dy < dh
        invariant
            dy <= dh,
            pairs == dw / 2,
            scale_fits(sw as int, sh as int, dw as int, dh as int),
            dst@.len() == dw * dh * 2,
            forall|y: int, pair: int|
                0 <= y < dy && 0 <= pair < pairs ==> #[trigger] pair_is_scaled(
                    dst@,
                    src@,
                    sw as int,
                    sh as int,
                    dw as int,
                    dh as int,
                    pair * 2,
                    y,
                ),
            forall|p: int| pair_offset(dw as int, 0, dy as int) <= p < dst@.len() ==> #[trigger] dst@[p] == 0,
            forall|y: int|
                0 <= y < dy && dw % 2 == 1 ==> dst@[#[trigger] pair_offset(dw as int, dw - 1, y)] == 0
                    && dst@[pair_offset(dw as int, dw - 1, y) + 1] == 0,
        decreases dh - dy,
    {
        proof {
            assert(0 <= dy * sh <= (dy + 1) * sh <= dh * sh) by (nonlinear_arith)
                requires
                    0 <= dy < dh,
                    0 <= sh,
            ;
            if sh > 0 {
                assert(dy * sh <= dh * (sh - 1) + dh - 1) by (nonlinear_arith)
                    requires
                        dy + 1 <= dh,
                        sh > 0,
                ;
                assert(dy * sh / dh as int <= sh - 1) by (nonlinear_arith)
                    requires
                        dy * sh <= dh * (sh - 1) + dh - 1,
                        dh > 0,
                ;
            }
            lemma_quotient(dy * sh, dh as int, sh as int);
            lemma_quotient((dy + 1) * sh, dh as int, sh as int);
        }
        let sy0: u32 = (dy * sh) / dh;
        let mut sy1: u32 = ((dy + 1) * sh) / dh;
        if sy1 < sy0 + 1 {
            sy1 = sy0 + 1;
        }
        if sy1 > sh {
            sy1 = sh;
        }
        assert(sy0 == first_row(dy as int, sh as int, dh as int));
        assert(sy1 == end_row(dy as int, sh as int, dh as int));
        proof {
            assert((sy1 - 1) * sw * 2 <= (sh - 1) * sw * 2) by (nonlinear_arith)
                requires
                    sy1 <= sh,
                    0 <= sw,
            ;
        }
        let ghost start = dst@;
        let mut pair: u32 = 0;
        while pair < pairs
            invariant
                pair <= pairs,
                dy < dh,
                pairs == dw / 2,
                dw * dh * 2 <= u32::MAX,
                even_floor(dw as int) * sw <= u32::MAX,
                sy0 == first_row(dy as int, sh as int, dh as int),
                sy1 == end_row(dy as int, sh as int, dh as int),
                sy1 > 0 ==> (sy1 - 1) * sw * 2 <= u32::MAX,
                dst@.len() == dw * dh * 2,
                start.len() == dst@.len(),
                forall|p: int| 0 <= p < pair_offset(dw as int, 0, dy as int) ==> #[trigger] dst@[p] == start[p],
                forall|q: int|
                    0 <= q < pair ==> #[trigger] pair_is_scaled(
                        dst@,
                        src@,
                        sw as int,
                        sh as int,
                        dw as int,
                        dh as int,
                        q * 2,
                        dy as int,
                    ),
                forall|p: int|
                    pair_offset(dw as int, pair * 2, dy as int) <= p < dst@.len() ==> #[trigger] dst@[p] == 0,
            decreases pairs - pair,
        {
            let dx: u32 = pair * 2;
            proof {
                assert((dy + 1) * dw <= dh * dw) by (nonlinear_arith)
                    requires
                        dy + 1 <= dh,
                        0 <= dw,
                ;
                assert((dy + 1) * dw == dy * dw + dw) by (nonlinear_arith);
                assert(dh * dw == dw * dh) by (nonlinear_arith);
                assert(0 <= dy * dw) by (nonlinear_arith)
                    requires
                        0 <= dy,
                        0 <= dw,
                ;
            }
            let (sx0, sx2) = column_range(dx, sw, dw);
            let (y0, u, y1, v) = mean_pair(src, sw, sy0, sy1, sx0, sx2);
            let di: usize = ((dy * dw + dx) * 2) as usize;
            assert(di == pair_offset(dw as int, dx as int, dy as int));
            let ghost before = dst@;
            dst[di] = u;
            dst[di + 1] = y0;
            dst[di + 2] = v;
            dst[di + 3] = y1;
            proof {
                assert forall|q: int| 0 <= q < pair + 1 implies #[trigger] pair_is_scaled(
                    dst@,
                    src@,
                    sw as int,
                    sh as int,
                    dw as int,
                    dh as int,
                    q * 2,
                    dy as int,
                ) by {
                    if q < pair {
                        lemma_pair_kept(
                            before,
                            dst@,
                            src@,
                            sw as int,
                            sh as int,
                            dw as int,
                            dh as int,
                            q * 2,
                            dy as int,
                        );
                    }
                }
            }
            pair += 1;
        }
        proof {
            assert((dy + 1) * dw == dy * dw + dw) by (nonlinear_arith);
            assert((dy + 1) * dw <= dh * dw) by (nonlinear_arith)
                requires
                    dy + 1 <= dh,
                    0 <= dw,
            ;
            assert(dh * dw == dw * dh) by (nonlinear_arith);
            assert forall|y: int, q: int| 0 <= y < dy + 1 && 0 <= q < pairs implies #[trigger] pair_is_scaled(
                dst@,
                src@,
                sw as int,
                sh as int,
                dw as int,
                dh as int,
                q * 2,
                y,
            ) by {
                if y < dy {
                    assert(pair_is_scaled(start, src@, sw as int, sh as int, dw as int, dh as int, q * 2, y));
                    assert((y + 1) * dw <= dy * dw) by (nonlinear_arith)
                        requires
                            y + 1 <= dy,
                            0 <= dw,
                    ;
                    assert((y + 1) * dw == y * dw + dw) by (nonlinear_arith);
                    assert(0 <= y * dw) by (nonlinear_arith)
                        requires
                            0 <= y,
                            0 <= dw,
                    ;
                }
            }
            assert forall|y: int| 0 <= y < dy + 1 && dw % 2 == 1 implies dst@[#[trigger] pair_offset(
                dw as int,
                dw - 1,
                y,
            )] == 0 && dst@[pair_offset(dw as int, dw - 1, y) + 1] == 0 by {
                if y < dy {
                    assert(start[pair_offset(dw as int, dw - 1, y)] == 0);
                    assert((y + 1) * dw <= dy * dw) by (nonlinear_arith)
                        requires
                            y + 1 <= dy,
                            0 <= dw,
                    ;
                    assert((y + 1) * dw == y * dw + dw) by (nonlinear_arith);
                    assert(0 <= y * dw) by (nonlinear_arith)
                        requires
                            0 <= y,
                            0 <= dw,
                    ;
                }
            }
        }
        dy += 1;
    }
    proof {
        lemma_scaled_frame(dst@, src@, sw as int, sh as int, dw as int, dh as int);
    }
    dst
}

/// A frame whose pairs are scaled, and whose odd last column is zero, is the
/// scaled frame.
proof fn lemma_scaled_frame(dst: Seq<u8>, src: Seq<u8>, sw: int, sh: int, dw: int, dh: int)
    requires
        dw >= 0,
        dh >= 0,
        dst.len() == dw * dh * 2,
        forall|dy: int, pair: int|
            0 <= dy < dh && 0 <= pair < dw / 2 ==> #[trigger] pair_is_scaled(dst, src, sw, sh, dw, dh, pair * 2, dy),
        forall|dy: int|
            0 <= dy < dh && dw % 2 == 1 ==> dst[#[trigger] pair_offset(dw, dw - 1, dy)] == 0 && dst[pair_offset(
                dw,
                dw - 1,
                dy,
            ) + 1] == 0,
    ensures
        dst == scaled_frame(src, sw, sh, dw, dh),
{
    assert forall|p: int| 0 <= p < dst.len() implies dst[p] == scaled_at(src, sw, sh, dw, dh, p) by {
        assert(dw > 0) by (nonlinear_arith)
            requires
                0 <= p < dw * dh * 2,
                dw >= 0,
                dh >= 0,
        ;
        let y = p / (dw * 2);
        let q = p % (dw * 2);
        let pair = q / 4;
        vstd::arithmetic::div_mod::lemma_fundamental_div_mod(p, dw * 2);
        assert(0 <= y < dh) by (nonlinear_arith)
            requires
                p == (dw * 2) * y + q,
                0 <= q < dw * 2,
                0 <= p < dw * dh * 2,
                dw > 0,
        ;
        assert((dw * 2) * y == y * dw * 2) by (nonlinear_arith);
        if pair < dw / 2 {
            assert(pair_is_scaled(dst, src, sw, sh, dw, dh, pair * 2, y));
            assert(p == pair_offset(dw, pair * 2, y) + q % 4);
            let (top, bottom) = (first_row(y, sh, dh), end_row(y, sh, dh));
            let (lo, hi) = (first_col(pair * 2, sw, dw), end_col(pair * 2, sw, dw));
            lemma_area_bound(src, sw, top, bottom, lo, hi, source_byte(q % 4));
        } else {
            assert(dw % 2 == 1);
            assert(p == pair_offset(dw, dw - 1, y) + q % 4);
        }
    }
    assert(dst =~= scaled_frame(src, sw, sh, dw, dh));
}

/// At equal sizes, with whole pairs, scaling only swaps the bytes of each pair: Y0
/// with U and Y1 with V.
pub proof fn law_scale_of_equal_size_swaps_bytes(src: Seq<u8>, w: int, h: int, p: int)
    requires
        w >= 0,
        h >= 0,
        w % 2 == 0,
        src.len() >= w * h * 2,
        0 <= p < w * h * 2,
    ensures
        scaled_frame(src, w, h, w, h)[p] == src[p - p % 4 + source_byte(p % 4)],
{
    assert(w > 0 && h > 0) by (nonlinear_arith)
        requires
            0 <= p < w * h * 2,
            w >= 0,
            h >= 0,
    ;
    let y = p / (w * 2);
    let q = p % (w * 2);
    let x = q / 4 * 2;
    vstd::arithmetic::div_mod::lemma_fundamental_div_mod(p, w * 2);
    assert(0 <= y < h) by (nonlinear_arith)
        requires
            p == (w * 2) * y + q,
            0 <= q < w * 2,
            0 <= p < w * h * 2,
            w > 0,
    ;
    assert((w * 2) * y == y * w * 2) by (nonlinear_arith);
    assert(y * w == 2 * (y * (w / 2))) by (nonlinear_arith)
        requires
            w == 2 * (w / 2),
    ;
    assert(p % 4 == q % 4);
    vstd::arithmetic::div_mod::lemma_div_by_multiple(y, h);
    vstd::arithmetic::div_mod::lemma_div_by_multiple(y + 1, h);
    vstd::arithmetic::div_mod::lemma_div_by_multiple(x, w);
    vstd::arithmetic::div_mod::lemma_div_by_multiple(x + 2, w);
    assert(first_row(y, h, h) == y && end_row(y, h, h) == y + 1);
    assert(first_col(x, w, w) == x && end_col(x, w, w) == x + 2);
    let k = source_byte(q % 4);
    let i = pair_offset(w, x, y);
    assert(i == p - p % 4);
    assert((y + 1) * w <= h * w) by (nonlinear_arith)
        requires
            y + 1 <= h,
            w > 0,
    ;
    assert((y + 1) * w == y * w + w) by (nonlinear_arith);
    assert(h * w == w * h) by (nonlinear_arith);
    assert(covers(src, i));
    assert(row_sum(src, w, y, x, x, k) == 0);
    assert(row_count(src, w, y, x, x) == 0);
    assert(row_sum(src, w, y, x, x + 2, k) == src[i + k]);
    assert(row_count(src, w, y, x, x + 2) == 1);
    assert(area_sum(src, w, y, y, x, x + 2, k) == 0);
    assert(area_count(src, w, y, y, x, x + 2) == 0);
    assert(area_sum(src, w, y, y + 1, x, x + 2, k) == src[i + k]);
    assert(area_count(src, w, y, y + 1, x, x + 2) == 1);
    assert(area_mean(src, w, y, y + 1, x, x + 2, k) == src[i + k] as nat / 1nat);
    assert(scaled_byte(src, w, h, w, h, x, y, k) == src[i + k]);
    assert(q / 4 < w / 2);
    assert(scaled_at(src, w, h, w, h, p) == src[i + k]);
}

/// Whether byte `k` of every pair of a frame lies in a range.
pub open spec fn pairs_in_range(src: Seq<u8>, sw: int, sh: int, k: int, least: u8, largest: u8) -> bool {
    forall|i: int| 0 <= i < sw * sh * 2 && i % 4 == 0 ==> least <= #[trigger] src[i + k] <= largest
}

/// Every byte of a scaled frame lies between the least and the largest byte of its kind
/// that the source has, Y0, U, Y1 or V: a mean never leaves the range of what it is of.
/// The source is of whole pairs; a last column of the scaled frame without a partner is
/// zero and does not count.
pub proof fn law_mean_keeps_range(
    src: Seq<u8>,
    sw: int,
    sh: int,
    dw: int,
    dh: int,
    p: int,
    least: u8,
    largest: u8,
)
    requires
        sw > 0,
        sh > 0,
        sw % 2 == 0,
        dw > 0,
        dh > 0,
        src.len() >= sw * sh * 2,
        0 <= p < dw * dh * 2,
        p % (dw * 2) / 4 < dw / 2,
        pairs_in_range(src, sw, sh, source_byte(p % (dw * 2) % 4), least, largest),
    ensures
        least <= scaled_frame(src, sw, sh, dw, dh)[p] <= largest,
{
    let y = p / (dw * 2);
    let q = p % (dw * 2);
    let x = q / 4 * 2;
    let k = source_byte(q % 4);
    vstd::arithmetic::div_mod::lemma_fundamental_div_mod(p, dw * 2);
    assert(0 <= y < dh) by (nonlinear_arith)
        requires
            p == (dw * 2) * y + q,
            0 <= q < dw * 2,
            0 <= p < dw * dh * 2,
            dw > 0,
    ;
    let (top, bottom) = (first_row(y, sh, dh), end_row(y, sh, dh));
    let (lo, hi) = (first_col(x, sw, dw), end_col(x, sw, dw));
    lemma_below(y, sh, dh);
    lemma_below(x, sw, dw);
    assert(0 <= top < bottom <= sh);
    assert(0 <= lo < hi <= sw);
    lemma_area_range(src, sw, sh, top, bottom, lo, hi, k, least, largest);
    let sum = area_sum(src, sw, top, bottom, lo, hi, k);
    let n = area_count(src, sw, top, bottom, lo, hi);
    assert(least <= sum / n <= largest) by (nonlinear_arith)
        requires
            least * n <= sum <= largest * n,
            n > 0,
    ;
}

/// A part of a length, scaled to another, stays a part.
proof fn lemma_below(d: int, s: int, of: int)
    requires
        0 <= d < of,
        s > 0,
    ensures
        0 <= d * s / of < s,
{
    assert(0 <= d * s < of * s) by (nonlinear_arith)
        requires
            0 <= d < of,
            s > 0,
    ;
    assert(0 <= d * s / of < s) by (nonlinear_arith)
        requires
            0 <= d * s < of * s,
            of > 0,
            s > 0,
    ;
}

/// A pair of a frame of even width lies in it, at a multiple of four.
proof fn lemma_pair_inside(sw: int, sh: int, x: int, y: int)
    requires
        sw > 0,
        sw % 2 == 0,
        0 <= x,
        x + 2 <= sw,
        x % 2 == 0,
        0 <= y < sh,
    ensures
        0 <= pair_offset(sw, x, y),
        pair_offset(sw, x, y) + 4 <= sw * sh * 2,
        pair_offset(sw, x, y) % 4 == 0,
{
    assert(y * sw == 2 * (y * (sw / 2))) by (nonlinear_arith)
        requires
            sw == 2 * (sw / 2),
    ;
    assert(0 <= y * sw && y * sw + sw <= sw * sh) by (nonlinear_arith)
        requires
            0 <= y,
            y + 1 <= sh,
            sw > 0,
    ;
}

proof fn lemma_row_range(
    src: Seq<u8>,
    sw: int,
    sh: int,
    y: int,
    lo: int,
    hi: int,
    k: int,
    least: u8,
    largest: u8,
)
    requires
        0 <= k < 4,
        sw > 0,
        sw % 2 == 0,
        src.len() >= sw * sh * 2,
        0 <= y < sh,
        0 <= lo,
        hi <= sw,
        lo % 2 == 0,
        hi % 2 == 0,
        pairs_in_range(src, sw, sh, k, least, largest),
    ensures
        lo < hi ==> row_count(src, sw, y, lo, hi) > 0,
        least * row_count(src, sw, y, lo, hi) <= row_sum(src, sw, y, lo, hi, k) <= largest * row_count(
            src,
            sw,
            y,
            lo,
            hi,
        ),
    decreases hi - lo + 1,
{
    if lo < hi {
        lemma_row_range(src, sw, sh, y, lo, hi - 2, k, least, largest);
        lemma_pair_inside(sw, sh, hi - 2, y);
        let n = row_count(src, sw, y, lo, hi - 2);
        let i = pair_offset(sw, hi - 2, y);
        assert(least <= src[i + k] <= largest);
        assert(least * (n + 1) == least * n + least) by (nonlinear_arith);
        assert(largest * (n + 1) == largest * n + largest) by (nonlinear_arith);
    } else {
        assert(least * 0 == 0 && largest * 0 == 0) by (nonlinear_arith);
    }
}

proof fn lemma_area_range(
    src: Seq<u8>,
    sw: int,
    sh: int,
    top: int,
    bottom: int,
    lo: int,
    hi: int,
    k: int,
    least: u8,
    largest: u8,
)
    requires
        0 <= k < 4,
        sw > 0,
        sw % 2 == 0,
        src.len() >= sw * sh * 2,
        0 <= top,
        bottom <= sh,
        0 <= lo < hi <= sw,
        lo % 2 == 0,
        hi % 2 == 0,
        pairs_in_range(src, sw, sh, k, least, largest),
    ensures
        top < bottom ==> area_count(src, sw, top, bottom, lo, hi) > 0,
        least * area_count(src, sw, top, bottom, lo, hi) <= area_sum(src, sw, top, bottom, lo, hi, k) <= largest
            * area_count(src, sw, top, bottom, lo, hi),
    decreases bottom - top,
{
    if top < bottom {
        lemma_area_range(src, sw, sh, top, bottom - 1, lo, hi, k, least, largest);
        lemma_row_range(src, sw, sh, bottom - 1, lo, hi, k, least, largest);
        let a = area_count(src, sw, top, bottom - 1, lo, hi);
        let b = row_count(src, sw, bottom - 1, lo, hi);
        assert(least * (a + b) == least * a + least * b) by (nonlinear_arith);
        assert(largest * (a + b) == largest * a + largest * b) by (nonlinear_arith);
    } else {
        assert(least * 0 == 0 && largest * 0 == 0) by (nonlinear_arith);
    }
}

/// The rows of one parity, of the first `h` rows of a frame, one after the other.
pub open spec fn field_rows(frame: Seq<u8>, row: int, h: int, parity: int) -> Seq<u8>
    decreases h,
{
    if h <= 0 {
        seq![]
    } else if (h - 1) % 2 == parity {
        field_rows(frame, row, h - 1, parity) + frame.subrange((h - 1) * row, h * row)
    } else {
        field_rows(frame, row, h - 1, parity)
    }
}

/// Splits an interlaced frame into the field of its even rows and the field of
/// its odd rows.
pub fn split_fields(frame: &[u8], w: u32, h: u32) -> (r: (Vec<u8>, Vec<u8>))
    requires
        w * 2 <= u32::MAX,
        h * (w * 2) <= frame@.len(),
    ensures
        r.0@ == field_rows(frame@, w * 2, h as int, 0),
        r.1@ == field_rows(frame@, w * 2, h as int, 1),
{
    let row: usize = (w * 2) as usize;
    let len: usize = frame.len();
    let mut even: Vec<u8> = Vec::new();
    let mut odd: Vec<u8> = Vec::new();
    let mut y: usize = 0;
    while y < h as usize
        invariant
            y <= h,
            row == w * 2,
            len == frame@.len(),
            h * row <= len,
            even@ == field_rows(frame@, row as int, y as int, 0),
            odd@ == field_rows(frame@, row as int, y as int, 1),
        decreases h - y,
    {
        proof {
            assert(0 <= y * row <= (y + 1) * row <= h * row) by (nonlinear_arith)
                requires
                    0 <= y,
                    y + 1 <= h,
                    0 <= row,
            ;
        }
        let line = &frame[y * row..(y + 1) * row];
        if y % 2 == 0 {
            even.extend_from_slice(line);
            assert(even@ =~= field_rows(frame@, row as int, y as int, 0) + frame@.subrange(y * row, (y + 1) * row));
        } else {
            odd.extend_from_slice(line);
            assert(odd@ =~= field_rows(frame@, row as int, y as int, 1) + frame@.subrange(y * row, (y + 1) * row));
        }
        y += 1;
    }
    (even, odd)
}

proof fn lemma_field_len(frame: Seq<u8>, row: int, h: int, parity: int)
    requires
        row >= 0,
        h >= 0,
        0 <= parity < 2,
        h * row <= frame.len(),
    ensures
        field_rows(frame, row, h, parity).len() == (h + 1 - parity) / 2 * row,
    decreases h,
{
    if h > 0 {
        assert((h - 1) * row <= h * row && h * row == (h - 1) * row + row) by (nonlinear_arith)
            requires
                row >= 0,
        ;
        assert((h - 1) * row >= 0) by (nonlinear_arith)
            requires
                h >= 1,
                row >= 0,
        ;
        lemma_field_len(frame, row, h - 1, parity);
        if (h - 1) % 2 == parity {
            assert((h + 1 - parity) / 2 == (h - parity) / 2 + 1);
            assert(((h - parity) / 2 + 1) * row == (h - parity) / 2 * row + row) by (nonlinear_arith);
        } else {
            assert((h + 1 - parity) / 2 == (h - parity) / 2);
        }
    } else {
        assert((h + 1 - parity) / 2 == 0);
        assert(0 * row == 0);
    }
}

/// The two fields hold the whole frame: row `y` of the frame is row `y / 2` of the
/// field of its parity.
pub proof fn law_fields_hold_every_row(frame: Seq<u8>, row: int, h: int, y: int)
    requires
        row >= 0,
        0 <= y < h,
        h * row <= frame.len(),
    ensures
        0 <= y / 2 * row,
        (y / 2 + 1) * row <= field_rows(frame, row, h, y % 2).len(),
        field_rows(frame, row, h, y % 2).subrange(y / 2 * row, (y / 2 + 1) * row) == frame.subrange(
            y * row,
            (y + 1) * row,
        ),
    decreases h,
{
    let parity = y % 2;
    assert((h - 1) * row <= h * row && h * row == (h - 1) * row + row) by (nonlinear_arith)
        requires
            row >= 0,
    ;
    assert((h - 1) * row >= 0) by (nonlinear_arith)
        requires
            h >= 1,
            row >= 0,
    ;
    assert(0 <= y / 2 * row) by (nonlinear_arith)
        requires
            y / 2 >= 0,
            row >= 0,
    ;
    assert((y / 2 + 1) * row == y / 2 * row + row) by (nonlinear_arith);
    let before = field_rows(frame, row, h - 1, parity);
    lemma_field_len(frame, row, h - 1, parity);
    if y == h - 1 {
        assert((h - parity) / 2 == y / 2);
        assert(field_rows(frame, row, h, parity).subrange(y / 2 * row, (y / 2 + 1) * row) =~= frame.subrange(
            y * row,
            (y + 1) * row,
        ));
    } else {
        law_fields_hold_every_row(frame, row, h - 1, y);
        assert(field_rows(frame, row, h, parity).subrange(y / 2 * row, (y / 2 + 1) * row) =~= before.subrange(
            y / 2 * row,
            (y / 2 + 1) * row,
        ));
    }
}

/// The fields of a frame of even height have half its rows each.
pub proof fn law_fields_have_half_the_rows(frame: Seq<u8>, row: int, h: int)
    requires
        row >= 0,
        h >= 0,
        h % 2 == 0,
        h * row <= frame.len(),
    ensures
        field_rows(frame, row, h, 0).len() == h / 2 * row,
        field_rows(frame, row, h, 1).len() == h / 2 * row,
{
    lemma_field_len(frame, row, h, 0);
    lemma_field_len(frame, row, h, 1);
    assert((h + 1) / 2 == h / 2);
}

/// A black field of `n` bytes: U 128, Y 16, V 128, Y 16.
pub open spec fn black_bytes(n: nat) -> Seq<u8> {
    Seq::new(
        n,
        |i: int|
            if i % 2 == 0 {
                128u8
            } else {
                16u8
            },
    )
}

/// A solid black field.
pub fn black_field(w: u32, h: u32) -> (r: Vec<u8>)
    requires
        w * h * 2 <= u32::MAX,
        (w * h) % 2 == 0,
    ensures
        r@ == black_bytes((w * h * 2) as nat),
{
    proof {
        assert(w * h >= 0) by (nonlinear_arith);
    }
    let n: usize = (w * h * 2) as usize;
    let mut buf: Vec<u8> = Vec::new();
    let mut i: usize = 0;
    while i < n
        invariant
            i <= n,
            n % 4 == 0,
            i % 4 == 0,
            buf@ == black_bytes(i as nat),
        decreases n - i,
    {
        buf.push(128);
        buf.push(16);
        buf.push(128);
        buf.push(16);
        i += 4;
        assert(buf@ =~= black_bytes(i as nat));
    }
    buf
}

/// How many field periods late a caller may be before the schedule starts anew.
pub const MAX_FIELDS_LATE: u64 = 4;

/// The latest fields of a camera and the schedule by which they are handed out.
/// Times are nanoseconds on one clock.
pub struct CameraSource {
    pub standard: VideoStandard,
    pub period: u64,
    pub even: Option<Vec<u8>>,
    pub odd: Option<Vec<u8>>,
    pub next_due: u64,
    pub next_parity: FieldParity,
}

/// What a source holds.
pub struct CameraModel {
    pub standard: VideoStandard,
    pub period: int,
    pub even: Option<Seq<u8>>,
    pub odd: Option<Seq<u8>>,
    pub next_due: int,
    pub next_parity: FieldParity,
}

/// The bytes of a field, where there are some.
pub open spec fn field_model(f: Option<Vec<u8>>) -> Option<Seq<u8>> {
    match f {
        Some(p) => Some(p@),
        None => None,
    }
}

impl View for CameraSource {
    type V = CameraModel;

    open spec fn view(&self) -> CameraModel {
        CameraModel {
            standard: self.standard,
            period: self.period as int,
            even: field_model(self.even),
            odd: field_model(self.odd),
            next_due: self.next_due as int,
            next_parity: self.next_parity,
        }
    }
}

/// The number of a parity: that of the first row it has.
pub open spec fn parity_number(parity: FieldParity) -> int {
    match parity {
        FieldParity::Even => 0,
        FieldParity::Odd => 1,
    }
}

/// The field of a parity that a frame of the camera gives, scaled to a standard.
pub open spec fn camera_field(
    standard: VideoStandard,
    yuyv: Seq<u8>,
    sw: int,
    sh: int,
    parity: FieldParity,
) -> Seq<u8> {
    let (w, h) = (standard.size().0 as int, standard.size().1 * 2);
    field_rows(scaled_frame(yuyv, sw, sh, w, h), w * 2, h, parity_number(parity))
}

impl CameraModel {
    /// A source without a frame, whose first field is an even one, due at once.
    pub open spec fn fresh(standard: VideoStandard, period: int, now: int) -> CameraModel {
        CameraModel {
            standard,
            period,
            even: None,
            odd: None,
            next_due: now,
            next_parity: FieldParity::Even,
        }
    }

    /// The bytes of one field.
    pub open spec fn field_bytes(self) -> nat {
        (self.standard.size().0 * self.standard.size().1 * 2) as nat
    }

    /// The bytes of the next field: those of the latest frame, black before the first.
    pub open spec fn next_pixels(self) -> Seq<u8> {
        let held = match self.next_parity {
            FieldParity::Even => self.even,
            FieldParity::Odd => self.odd,
        };
        match held {
            Some(p) => p,
            None => black_bytes(self.field_bytes()),
        }
    }

    /// The next field.
    pub open spec fn next_field(self) -> FieldModel {
        FieldModel {
            parity: self.next_parity,
            width: self.standard.size().0,
            height: self.standard.size().1,
            pixels: self.next_pixels(),
        }
    }

    /// Whether the times that handing out the next field needs fit in 64 bits.
    pub open spec fn can_hand_out(self, now: int) -> bool {
        self.next_due + MAX_FIELDS_LATE * self.period <= u64::MAX && now + self.period <= u64::MAX
    }

    /// How long a caller waits for the next field.
    pub open spec fn wait(self, now: int) -> int {
        if now < self.next_due {
            self.next_due - now
        } else {
            0
        }
    }

    /// Once a frame of the camera has come. One that is too short is skipped.
    pub open spec fn after_frame(self, yuyv: Seq<u8>, sw: int, sh: int) -> CameraModel {
        if yuyv.len() >= sw * sh * 2 {
            CameraModel {
                even: Some(camera_field(self.standard, yuyv, sw, sh, FieldParity::Even)),
                odd: Some(camera_field(self.standard, yuyv, sw, sh, FieldParity::Odd)),
                ..self
            }
        } else {
            self
        }
    }

    /// Once the next field was handed out. A caller that comes too late moves the
    /// schedule on.
    pub open spec fn after_field(self, now: int) -> CameraModel {
        CameraModel {
            next_due: if now > self.next_due + MAX_FIELDS_LATE * self.period {
                now + self.period
            } else {
                self.next_due + self.period
            },
            next_parity: self.next_parity.flipped(),
            ..self
        }
    }
}

impl CameraSource {
    /// Every field that is held is whole.
    pub open spec fn well_formed(self) -> bool {
        &&& self.even matches Some(p) ==> p@.len() == self@.field_bytes()
        &&& self.odd matches Some(p) ==> p@.len() == self@.field_bytes()
    }

    /// A source without a frame, whose first field is an even one, due at once.
    pub fn new(standard: VideoStandard, period: u64, now: u64) -> (r: Self)
        ensures
            r.well_formed(),
            r@ == CameraModel::fresh(standard, period as int, now as int),
    {
        CameraSource { standard, period, even: None, odd: None, next_due: now, next_parity: FieldParity::Even }
    }

    /// Width and height of the frame that two fields make.
    pub fn frame_size(&self) -> (r: (u32, u32))
        ensures
            r.0 == self.standard.size().0,
            r.1 == self.standard.size().1 * 2,
    {
        let (w, h) = self.standard.field_size();
        (w, h * 2)
    }

    /// Takes a frame of the camera, `sw` by `sh` pixels of Y0 U Y1 V pairs: scales it
    /// to the frame size and keeps its two fields. A frame that is too short is
    /// skipped.
    pub fn accept_frame(&mut self, yuyv: &[u8], sw: u32, sh: u32) -> (taken: bool)
        requires
            old(self).well_formed(),
            sw * sh * 2 <= u32::MAX,
            yuyv@.len() >= sw * sh * 2 ==> scale_fits(
                sw as int,
                sh as int,
                old(self).standard.size().0 as int,
                old(self).standard.size().1 * 2,
            ),
        ensures
            final(self).well_formed(),
            taken == (yuyv@.len() >= sw * sh * 2),
            final(self)@ == old(self)@.after_frame(yuyv@, sw as int, sh as int),
    {
        proof {
            assert(sw * sh >= 0) by (nonlinear_arith);
        }
        let expected: usize = (sw * sh * 2) as usize;
        if yuyv.len() < expected {
            return false;
        }
        let (w, h) = self.frame_size();
        let frame = downscale_yuyv_to_uyvy(yuyv, sw, sh, w, h);
        assert(frame@.len() == w * h * 2);
        assert(h * (w * 2) == w * h * 2) by (nonlinear_arith);
        let (even, odd) = split_fields(frame.as_slice(), w, h);
        proof {
            law_fields_have_half_the_rows(frame@, w * 2, h as int);
            let half = self.standard.size().1 as int;
            assert(h as int / 2 == half);
            assert(half * (w * 2) == w * half * 2) by (nonlinear_arith);
        }
        self.even = Some(even);
        self.odd = Some(odd);
        true
    }

    /// The next field, and how long the caller waits before it may use it. The
    /// field is the latest of the parity whose turn it is, or black as long as the
    /// camera has sent none. A caller that comes too late moves the schedule on
    /// instead of getting the missed fields in a burst.
    pub fn next_field(&mut self, now: u64) -> (r: (Field, u64))
        requires
            old(self).well_formed(),
            old(self)@.can_hand_out(now as int),
        ensures
            final(self).well_formed(),
            final(self)@ == old(self)@.after_field(now as int),
            r.0@ == old(self)@.next_field(),
            r.0.pixels@.len() == old(self)@.field_bytes(),
            r.1 == old(self)@.wait(now as int),
    {
        let (w, h) = self.standard.field_size();
        let due: u64 = self.next_due;
        let parity = self.next_parity;
        self.next_due = due + self.period;
        self.next_parity = parity.flip();
        let held: &Option<Vec<u8>> = match parity {
            FieldParity::Even => &self.even,
            FieldParity::Odd => &self.odd,
        };
        let pixels: Vec<u8> = match held {
            Some(p) => copy_bytes(p),
            None => black_field(w, h),
        };
        let wait: u64 = if now < due {
            due - now
        } else {
            0
        };
        if now > due + MAX_FIELDS_LATE * self.period {
            self.next_due = now + self.period;
        }
        (Field { parity, width: w, height: h, pixels }, wait)
    }
}

/// What happens to a source.
pub enum CameraEvent {
    /// The camera has sent a frame.
    Frame { yuyv: Seq<u8>, sw: int, sh: int },
    /// The next field was asked for.
    Field { now: int },
}

impl CameraModel {
    /// Once some things have happened.
    pub open spec fn after_all(self, events: Seq<CameraEvent>) -> CameraModel
        decreases events.len(),
    {
        if events.len() == 0 {
            self
        } else {
            let before = self.after_all(events.drop_last());
            match events.last() {
                CameraEvent::Frame { yuyv, sw, sh } => before.after_frame(yuyv, sw, sh),
                CameraEvent::Field { now } => before.after_field(now),
            }
        }
    }
}

/// How often a field was asked for.
pub open spec fn fields_asked(events: Seq<CameraEvent>) -> nat
    decreases events.len(),
{
    if events.len() == 0 {
        0
    } else {
        fields_asked(events.drop_last()) + if events.last() is Field {
            1nat
        } else {
            0nat
        }
    }
}

/// The latest frame that was not too short, where there is one: its bytes, width and
/// height.
pub open spec fn latest_frame(events: Seq<CameraEvent>) -> Option<(Seq<u8>, int, int)>
    decreases events.len(),
{
    if events.len() == 0 {
        None
    } else {
        match events.last() {
            CameraEvent::Frame { yuyv, sw, sh } => if yuyv.len() >= sw * sh * 2 {
                Some((yuyv, sw, sh))
            } else {
                latest_frame(events.drop_last())
            },
            CameraEvent::Field { now: _ } => latest_frame(events.drop_last()),
        }
    }
}

/// The parity of the field behind the first `k`.
pub open spec fn parity_after(k: nat) -> FieldParity {
    if k % 2 == 0 {
        FieldParity::Even
    } else {
        FieldParity::Odd
    }
}

/// Whether every field was asked for at a time up to `latest`.
pub open spec fn asked_until(events: Seq<CameraEvent>, latest: int) -> bool {
    forall|i: int| 0 <= i < events.len() ==> (#[trigger] events[i] matches CameraEvent::Field { now } ==> now <= latest)
}

/// Fields alternate, an even one first, however frames come in between: once `k` fields
/// were handed out, the next is an even one if and only if `k` is even. Each is the part
/// of its parity of the latest frame, scaled to the standard, and black as long as there
/// is none. It can be handed out as long as `k` periods behind the latest time, and the
/// few by which a caller may be late, fit in 64 bits.
pub proof fn law_fields_alternate(
    standard: VideoStandard,
    period: int,
    start: int,
    events: Seq<CameraEvent>,
    latest: int,
)
    requires
        period >= 0,
        start <= latest,
        asked_until(events, latest),
    ensures
        ({
            let c = CameraModel::fresh(standard, period, start).after_all(events);
            let k = fields_asked(events);
            let (w, h) = standard.size();
            &&& c.next_field() == (FieldModel {
                parity: parity_after(k),
                width: w,
                height: h,
                pixels: match latest_frame(events) {
                    Some((yuyv, sw, sh)) => camera_field(standard, yuyv, sw, sh, parity_after(k)),
                    None => black_bytes((w * h * 2) as nat),
                },
            })
            &&& latest + k * period + MAX_FIELDS_LATE * period <= u64::MAX ==> c.can_hand_out(latest)
        }),
{
    lemma_camera_after(standard, period, start, events);
    lemma_schedule(standard, period, start, events, latest);
    let k = fields_asked(events);
    assert(0 <= k * period) by (nonlinear_arith)
        requires
            0 <= period,
    ;
}

/// The next field is due no later than as many periods behind the latest time as fields
/// were asked for.
proof fn lemma_schedule(
    standard: VideoStandard,
    period: int,
    start: int,
    events: Seq<CameraEvent>,
    latest: int,
)
    requires
        period >= 0,
        start <= latest,
        asked_until(events, latest),
    ensures
        CameraModel::fresh(standard, period, start).after_all(events).next_due <= latest + fields_asked(events)
            * period,
        CameraModel::fresh(standard, period, start).after_all(events).period == period,
    decreases events.len(),
{
    if events.len() > 0 {
        let front = events.drop_last();
        assert forall|i: int| 0 <= i < front.len() implies (#[trigger] front[i] matches CameraEvent::Field { now } ==> now
            <= latest) by {
            assert(front[i] == events[i]);
        }
        lemma_schedule(standard, period, start, front, latest);
        let k = fields_asked(front);
        assert((k + 1) * period == k * period + period) by (nonlinear_arith);
        assert(0 <= k * period) by (nonlinear_arith)
            requires
                0 <= period,
        ;
        assert(events[events.len() - 1] == events.last());
    } else {
        assert(0 * period == 0) by (nonlinear_arith);
    }
}

proof fn lemma_camera_after(standard: VideoStandard, period: int, start: int, events: Seq<CameraEvent>)
    ensures
        ({
            let c = CameraModel::fresh(standard, period, start).after_all(events);
            &&& c.standard == standard
            &&& c.period == period
            &&& c.next_parity == parity_after(fields_asked(events))
            &&& match latest_frame(events) {
                Some((yuyv, sw, sh)) => {
                    &&& c.even == Some(camera_field(standard, yuyv, sw, sh, FieldParity::Even))
                    &&& c.odd == Some(camera_field(standard, yuyv, sw, sh, FieldParity::Odd))
                },
                None => c.even is None && c.odd is None,
            }
        }),
    decreases events.len(),
{
    if events.len() > 0 {
        lemma_camera_after(standard, period, start, events.drop_last());
    }
}

/// Fields are due one period apart, as long as no caller is too late.
pub proof fn law_fields_are_paced(c: CameraModel, now: int)
    requires
        now <= c.next_due + MAX_FIELDS_LATE * c.period,
    ensures
        c.after_field(now).next_due == c.next_due + c.period,
        now + c.wait(now) >= c.next_due,
{
}

/// A copy of some bytes.
fn copy_bytes(bytes: &Vec<u8>) -> (r: Vec<u8>)
    ensures
        r@ == bytes@,
{
    let mut r: Vec<u8> = Vec::new();
    r.extend_from_slice(bytes.as_slice());
    assert(r@ =~= bytes@);
    r
}

/// The sum of `f` over `lo..hi`.
pub open spec fn sum_over(lo: int, hi: int, f: spec_fn(int) -> int) -> int
    decreases hi - lo,
{
    if hi <= lo {
        0
    } else {
        sum_over(lo, hi - 1, f) + f(hi - 1)
    }
}

proof fn lemma_row_sum_over(src: Seq<u8>, sw: int, y: int, left: int, right: int, k: int, f: spec_fn(int) -> int)
    requires
        left <= right,
        forall|c: int| left <= c < right ==> #[trigger] f(c) == pair_byte(src, pair_offset(sw, 2 * c, y), k),
    ensures
        row_sum(src, sw, y, 2 * left, 2 * right, k) == sum_over(left, right, f),
    decreases right - left,
{
    if left < right {
        lemma_row_sum_over(src, sw, y, left, right - 1, k, f);
        assert(f(right - 1) == pair_byte(src, pair_offset(sw, 2 * (right - 1), y), k));
    }
}

proof fn lemma_row_count_over(src: Seq<u8>, sw: int, y: int, left: int, right: int, f: spec_fn(int) -> int)
    requires
        left <= right,
        forall|c: int|
            left <= c < right ==> #[trigger] f(c) == (if covers(src, pair_offset(sw, 2 * c, y)) {
                1int
            } else {
                0int
            }),
    ensures
        row_count(src, sw, y, 2 * left, 2 * right) == sum_over(left, right, f),
    decreases right - left,
{
    if left < right {
        lemma_row_count_over(src, sw, y, left, right - 1, f);
        assert(f(right - 1) == (if covers(src, pair_offset(sw, 2 * (right - 1), y)) {
            1int
        } else {
            0int
        }));
    }
}

proof fn lemma_area_sum_over(
    src: Seq<u8>,
    sw: int,
    top: int,
    bottom: int,
    lo: int,
    hi: int,
    k: int,
    f: spec_fn(int) -> int,
)
    requires
        forall|r: int| top <= r < bottom ==> #[trigger] f(r) == row_sum(src, sw, r, lo, hi, k),
    ensures
        area_sum(src, sw, top, bottom, lo, hi, k) == sum_over(top, bottom, f),
    decreases bottom - top,
{
    if top < bottom {
        lemma_area_sum_over(src, sw, top, bottom - 1, lo, hi, k, f);
        assert(f(bottom - 1) == row_sum(src, sw, bottom - 1, lo, hi, k));
    }
}

proof fn lemma_area_count_over(
    src: Seq<u8>,
    sw: int,
    top: int,
    bottom: int,
    lo: int,
    hi: int,
    f: spec_fn(int) -> int,
)
    requires
        forall|r: int| top <= r < bottom ==> #[trigger] f(r) == row_count(src, sw, r, lo, hi),
    ensures
        area_count(src, sw, top, bottom, lo, hi) == sum_over(top, bottom, f),
    decreases bottom - top,
{
    if top < bottom {
        lemma_area_count_over(src, sw, top, bottom - 1, lo, hi, f);
        assert(f(bottom - 1) == row_count(src, sw, bottom - 1, lo, hi));
    }
}

/// Half of a quotient is the quotient of the half.
proof fn lemma_half_quotient(p: int, s: int, d: int)
    requires
        0 <= p,
        0 <= s,
        d > 0,
    ensures
        (2 * p) * s / d / 2 == p * s / d,
        0 <= (2 * p) * s / d,
{
    let a = p * s;
    assert((2 * p) * s == 2 * a) by (nonlinear_arith)
        requires
            a == p * s,
    ;
    assert(0 <= a) by (nonlinear_arith)
        requires
            a == p * s,
            0 <= p,
            0 <= s,
    ;
    assert(2 * a / d / 2 == a / d && 0 <= 2 * a / d) by (nonlinear_arith)
        requires
            0 <= a,
            d > 0,
    ;
}

/// The source columns of a pixel pair, counted in pairs.
proof fn lemma_columns_in_pairs(pair: int, sw: int, dw: int)
    requires
        0 <= pair,
        0 <= sw,
        dw > 0,
    ensures
        first_col(2 * pair, sw, dw) == 2 * (pair * sw / dw),
        end_col(2 * pair, sw, dw) == 2 * smaller(larger((pair + 1) * sw / dw, pair * sw / dw + 1), sw / 2),
{
    lemma_half_quotient(pair, sw, dw);
    lemma_half_quotient(pair + 1, sw, dw);
    assert(2 * pair + 2 == 2 * (pair + 1));
}

/// Byte `j` of the pixel pair number `pair` in row `dy` of a scaled frame is a mean, rounded
/// down, of bytes of the source: of U, Y0, V and Y1, in this order, over the source rows
/// from `dy * sh / dh` up to but not including `(dy + 1) * sh / dh`, and the source pairs
/// from `pair * sw / dw` up to but not including `(pair + 1) * sw / dw`. There is at least
/// one row and one pair, as far as the source has them. A pair that the bytes of the source
/// do not reach does not count, and without any the byte is zero.
pub proof fn law_scaled_bytes_are_means(
    src: Seq<u8>,
    sw: int,
    sh: int,
    dw: int,
    dh: int,
    pair: int,
    dy: int,
    j: int,
)
    requires
        0 <= sw,
        0 <= sh,
        0 <= dy < dh,
        0 <= pair < dw / 2,
        0 <= j < 4,
    ensures
        ({
            let k: int = if j == 0 {
                1
            } else if j == 1 {
                0
            } else if j == 2 {
                3
            } else {
                2
            };
            let top = dy * sh / dh;
            let next_top = (dy + 1) * sh / dh;
            let bottom = if sh <= top {
                sh
            } else if next_top <= top {
                top + 1
            } else if next_top <= sh {
                next_top
            } else {
                sh
            };
            let left = pair * sw / dw;
            let next_left = (pair + 1) * sw / dw;
            let right = if sw / 2 <= left {
                sw / 2
            } else if next_left <= left {
                left + 1
            } else if next_left <= sw / 2 {
                next_left
            } else {
                sw / 2
            };
            let sum = sum_over(
                top,
                bottom,
                |r: int|
                    sum_over(
                        left,
                        right,
                        |c: int|
                            if (r * sw + 2 * c) * 2 + 3 < src.len() {
                                src[(r * sw + 2 * c) * 2 + k] as int
                            } else {
                                0
                            },
                    ),
            );
            let n = sum_over(
                top,
                bottom,
                |r: int|
                    sum_over(
                        left,
                        right,
                        |c: int|
                            if (r * sw + 2 * c) * 2 + 3 < src.len() {
                                1int
                            } else {
                                0int
                            },
                    ),
            );
            let byte = scaled_frame(src, sw, sh, dw, dh)[(dy * dw + 2 * pair) * 2 + j] as int;
            &&& scaled_frame(src, sw, sh, dw, dh).len() == dw * dh * 2
            &&& 0 <= (dy * dw + 2 * pair) * 2 + j < dw * dh * 2
            &&& n > 0 ==> byte * n <= sum < (byte + 1) * n
            &&& n <= 0 ==> byte == 0
        }),
{
    let k = source_byte(j);
    let top = dy * sh / dh;
    let bottom = smaller(larger((dy + 1) * sh / dh, top + 1), sh);
    let left = pair * sw / dw;
    let right = smaller(larger((pair + 1) * sw / dw, left + 1), sw / 2);
    let p = (dy * dw + 2 * pair) * 2 + j;
    lemma_byte_place(dw, dh, pair, dy, j);
    lemma_columns_in_pairs(pair, sw, dw);
    let sums = |r: int|
        sum_over(
            left,
            right,
            |c: int|
                if (r * sw + 2 * c) * 2 + 3 < src.len() {
                    src[(r * sw + 2 * c) * 2 + k] as int
                } else {
                    0
                },
        );
    let counts = |r: int|
        sum_over(
            left,
            right,
            |c: int|
                if (r * sw + 2 * c) * 2 + 3 < src.len() {
                    1int
                } else {
                    0int
                },
        );
    let (lo, hi) = (2 * left, 2 * right);
    assert forall|r: int| top <= r < bottom implies #[trigger] sums(r) == row_sum(src, sw, r, lo, hi, k) by {
        let f = |c: int|
            if (r * sw + 2 * c) * 2 + 3 < src.len() {
                src[(r * sw + 2 * c) * 2 + k] as int
            } else {
                0
            };
        if left <= right {
            lemma_row_sum_over(src, sw, r, left, right, k, f);
        }
    }
    assert forall|r: int| top <= r < bottom implies #[trigger] counts(r) == row_count(src, sw, r, lo, hi) by {
        let f = |c: int|
            if (r * sw + 2 * c) * 2 + 3 < src.len() {
                1int
            } else {
                0int
            };
        if left <= right {
            lemma_row_count_over(src, sw, r, left, right, f);
        }
    }
    lemma_area_sum_over(src, sw, top, bottom, lo, hi, k, sums);
    lemma_area_count_over(src, sw, top, bottom, lo, hi, counts);
    lemma_area_bound(src, sw, top, bottom, lo, hi, k);
    let sum = area_sum(src, sw, top, bottom, lo, hi, k);
    let n = area_count(src, sw, top, bottom, lo, hi);
    assert(first_row(dy, sh, dh) == top && end_row(dy, sh, dh) == bottom);
    assert(scaled_at(src, sw, sh, dw, dh, p) == scaled_byte(src, sw, sh, dw, dh, 2 * pair, dy, k));
    let byte = scaled_frame(src, sw, sh, dw, dh)[p] as int;
    if n > 0 {
        assert(byte == sum / n);
        assert(byte * n <= sum < (byte + 1) * n) by (nonlinear_arith)
            requires
                byte == sum / n,
                n > 0,
        ;
    }
}

/// Where byte `j` of a pixel pair stands in a frame.
proof fn lemma_byte_place(dw: int, dh: int, pair: int, dy: int, j: int)
    requires
        0 <= dy < dh,
        0 <= pair < dw / 2,
        0 <= j < 4,
    ensures
        ({
            let p = (dy * dw + 2 * pair) * 2 + j;
            &&& 0 <= p < dw * dh * 2
            &&& p / (dw * 2) == dy
            &&& p % (dw * 2) == 4 * pair + j
        }),
{
    let p = (dy * dw + 2 * pair) * 2 + j;
    assert(p == dy * (dw * 2) + (4 * pair + j)) by (nonlinear_arith)
        requires
            p == (dy * dw + 2 * pair) * 2 + j,
    ;
    vstd::arithmetic::div_mod::lemma_fundamental_div_mod_converse(p, dw * 2, dy, 4 * pair + j);
    assert(0 <= dy * dw && dy * dw + dw <= dw * dh) by (nonlinear_arith)
        requires
            0 <= dy,
            dy + 1 <= dh,
            0 < dw,
    ;
}

/// A last column of a scaled frame without a partner is zero.
pub proof fn law_odd_column_is_zero(src: Seq<u8>, sw: int, sh: int, dw: int, dh: int, dy: int, j: int)
    requires
        0 <= dy < dh,
        dw > 0,
        dw % 2 == 1,
        0 <= j < 2,
    ensures
        (dy * dw + dw - 1) * 2 + j < scaled_frame(src, sw, sh, dw, dh).len(),
        scaled_frame(src, sw, sh, dw, dh)[(dy * dw + dw - 1) * 2 + j] == 0,
{
    let p = (dy * dw + dw - 1) * 2 + j;
    assert(p == dy * (dw * 2) + ((dw - 1) * 2 + j)) by (nonlinear_arith)
        requires
            p == (dy * dw + dw - 1) * 2 + j,
    ;
    vstd::arithmetic::div_mod::lemma_fundamental_div_mod_converse(p, dw * 2, dy, (dw - 1) * 2 + j);
    assert(0 <= dy * dw && dy * dw + dw <= dw * dh) by (nonlinear_arith)
        requires
            0 <= dy,
            dy + 1 <= dh,
            0 < dw,
    ;
    assert(p % (dw * 2) / 4 == dw / 2);
}

/// Scaling keeps places. The source rows of a destination row start at the largest row
/// number that is no more than `dy * sh / dh`. They end where those of the next
/// destination row start, or one row behind their start where that is later, and never
/// behind the source. So they do not go down as `dy` goes up, the first row starts at the
/// first, the last row ends at the last, and no source row between is left out.
pub proof fn law_rows_keep_places(dy: int, sh: int, dh: int)
    requires
        0 <= dy < dh,
        sh > 0,
    ensures
        first_row(dy, sh, dh) * dh <= dy * sh < (first_row(dy, sh, dh) + 1) * dh,
        0 <= first_row(dy, sh, dh) < end_row(dy, sh, dh) <= sh,
        first_row(dy, sh, dh) <= first_row(dy + 1, sh, dh) <= sh,
        end_row(dy, sh, dh) == first_row(dy + 1, sh, dh) || (first_row(dy + 1, sh, dh) == first_row(dy, sh, dh)
            && end_row(dy, sh, dh) == first_row(dy, sh, dh) + 1),
        dy + 1 < dh ==> end_row(dy, sh, dh) <= end_row(dy + 1, sh, dh),
        dy == 0 ==> first_row(dy, sh, dh) == 0,
        dy == dh - 1 ==> end_row(dy, sh, dh) == sh,
{
    lemma_below(dy, sh, dh);
    let (a, b) = (dy * sh, (dy + 1) * sh);
    assert(a <= b <= dh * sh && b == a + sh) by (nonlinear_arith)
        requires
            a == dy * sh,
            b == (dy + 1) * sh,
            0 <= dy,
            dy + 1 <= dh,
            sh > 0,
    ;
    assert(a / dh <= b / dh <= sh && a / dh * dh <= a < (a / dh + 1) * dh) by (nonlinear_arith)
        requires
            0 <= a <= b <= dh * sh,
            dh > 0,
    ;
    if dy == 0 {
        assert(0 * sh == 0);
    }
    if dy == dh - 1 {
        assert(dh * sh / dh == sh) by (nonlinear_arith)
            requires
                dh > 0,
        ;
    }
    if dy + 1 < dh {
        let c = (dy + 2) * sh;
        assert(b <= c) by (nonlinear_arith)
            requires
                b == (dy + 1) * sh,
                c == (dy + 2) * sh,
                sh > 0,
        ;
        assert(b / dh <= c / dh) by (nonlinear_arith)
            requires
                b <= c,
                dh > 0,
        ;
        lemma_below(dy + 1, sh, dh);
    }
}

/// Scaling keeps places in a row, too: source and destination columns correspond as rows
/// do, counted in pairs.
pub proof fn law_columns_keep_places(pair: int, sw: int, dw: int)
    requires
        0 <= pair < dw / 2,
        sw >= 2,
        sw % 2 == 0,
    ensures
        first_col(2 * pair, sw, dw) % 2 == 0,
        end_col(2 * pair, sw, dw) % 2 == 0,
        first_col(2 * pair, sw, dw) / 2 * dw <= pair * sw < (first_col(2 * pair, sw, dw) / 2 + 1) * dw,
        0 <= first_col(2 * pair, sw, dw) < end_col(2 * pair, sw, dw) <= sw,
        first_col(2 * pair, sw, dw) <= first_col(2 * pair + 2, sw, dw) <= sw,
        end_col(2 * pair, sw, dw) == first_col(2 * pair + 2, sw, dw) || (first_col(2 * pair + 2, sw, dw) == first_col(
            2 * pair,
            sw,
            dw,
        ) && end_col(2 * pair, sw, dw) == first_col(2 * pair, sw, dw) + 2),
        pair == 0 ==> first_col(2 * pair, sw, dw) == 0,
        dw % 2 == 0 && pair == dw / 2 - 1 ==> end_col(2 * pair, sw, dw) == sw,
{
    lemma_columns_in_pairs(pair, sw, dw);
    lemma_half_quotient(pair + 1, sw, dw);
    assert(2 * pair + 2 == 2 * (pair + 1));
    let (a, b) = (pair * sw, (pair + 1) * sw);
    assert(0 <= a <= b && b == a + sw) by (nonlinear_arith)
        requires
            a == pair * sw,
            b == (pair + 1) * sw,
            0 <= pair,
            sw > 0,
    ;
    assert(2 * b <= dw * sw) by (nonlinear_arith)
        requires
            b == (pair + 1) * sw,
            2 * (pair + 1) <= dw,
            sw > 0,
    ;
    assert(a / dw <= b / dw && a / dw * dw <= a < (a / dw + 1) * dw && 0 <= a / dw) by (nonlinear_arith)
        requires
            0 <= a <= b,
            dw > 0,
    ;
    let half = sw / 2;
    assert(dw * sw == 2 * (dw * half)) by (nonlinear_arith)
        requires
            sw == 2 * half,
    ;
    assert(b / dw <= half) by (nonlinear_arith)
        requires
            b <= dw * half,
            dw > 0,
    ;
    assert(a / dw < half) by (nonlinear_arith)
        requires
            a == b - 2 * half,
            b <= dw * half,
            half > 0,
            dw > 0,
    ;
    if pair == 0 {
        assert(0 * sw == 0);
        assert(0int / dw == 0) by (nonlinear_arith)
            requires
                dw > 0,
        ;
    }
    if dw % 2 == 0 && pair == dw / 2 - 1 {
        assert(b == half * dw) by (nonlinear_arith)
            requires
                b == (pair + 1) * sw,
                sw == 2 * half,
                dw == 2 * (pair + 1),
        ;
        assert(half * dw / dw == half) by (nonlinear_arith)
            requires
                dw > 0,
        ;
    }
}

/// Where the source is a whole number of times as high and as wide as the destination, each
/// destination row is the mean of exactly as many source rows, those from `times * dy` up to
/// `times * (dy + 1)`, and each pair that of as many pairs.
pub proof fn law_scale_by_whole_factors(times: int, of: int, d: int)
    requires
        times > 0,
        0 <= d < of,
    ensures
        first_row(d, times * of, of) == times * d,
        end_row(d, times * of, of) == times * (d + 1),
        d < of / 2 && of > 0 && times % 2 == 0 ==> first_col(2 * d, times * of, of) == 2 * (times * d),
        d < of / 2 && of > 0 && times % 2 == 0 ==> end_col(2 * d, times * of, of) == 2 * (times * (d + 1)),
        d < of / 2 && of % 2 == 0 ==> first_col(2 * d, times * of, of) == 2 * (times * d),
        d < of / 2 && of % 2 == 0 ==> end_col(2 * d, times * of, of) == 2 * (times * (d + 1)),
{
    let s = times * of;
    assert(d * s == (times * d) * of && (d + 1) * s == (times * (d + 1)) * of) by (nonlinear_arith)
        requires
            s == times * of,
    ;
    vstd::arithmetic::div_mod::lemma_div_by_multiple(times * d, of);
    vstd::arithmetic::div_mod::lemma_div_by_multiple(times * (d + 1), of);
    assert(times * (d + 1) == times * d + times) by (nonlinear_arith);
    assert(times * (d + 1) <= s && 0 <= s) by (nonlinear_arith)
        requires
            s == times * of,
            times > 0,
            d + 1 <= of,
            0 <= d,
    ;
    if d < of / 2 {
        lemma_columns_in_pairs(d, s, of);
        assert(2 * (times * (d + 1)) <= s) by (nonlinear_arith)
            requires
                s == times * of,
                times > 0,
                2 * (d + 1) <= of,
        ;
    }
}

/// A scale of one size to another is accepted wherever its products fit in 32 bits.
pub proof fn law_scale_is_accepted(sw: int, sh: int, dw: int, dh: int)
    requires
        0 <= sw,
        0 <= sh,
        0 <= dw,
        0 <= dh,
        dw * dh * 2 < 0x1_0000_0000,
        sh * sw * 2 < 0x1_0000_0000,
        dh * sh < 0x1_0000_0000,
        dw * sw < 0x1_0000_0000,
    ensures
        scale_fits(sw, sh, dw, dh),
{
    assert((sh - 1) * sw * 2 <= sh * sw * 2) by (nonlinear_arith)
        requires
            0 <= sw,
    ;
    let e = even_floor(dw);
    assert(e * sw <= dw * sw) by (nonlinear_arith)
        requires
            e <= dw,
            0 <= sw,
    ;
}

/// The field of a parity holds every second row of the scaled frame, the even one from row
/// 0 on and the odd one from row 1 on. A field is 640 by 243 pixels by one standard and
/// 768 by 288 by the other, the frame twice as high.
pub proof fn law_camera_field_rows(
    standard: VideoStandard,
    yuyv: Seq<u8>,
    sw: int,
    sh: int,
    parity: FieldParity,
    row: int,
    i: int,
)
    requires
        0 <= row < (if standard == VideoStandard::Ntsc {
            243int
        } else {
            288int
        }),
        0 <= i < (if standard == VideoStandard::Ntsc {
            1280int
        } else {
            1536int
        }),
    ensures
        ({
            let (w, h) = if standard == VideoStandard::Ntsc {
                (640int, 243int)
            } else {
                (768int, 288int)
            };
            let first: int = if parity == FieldParity::Even {
                0
            } else {
                1
            };
            let field = camera_field(standard, yuyv, sw, sh, parity);
            &&& field.len() == w * h * 2
            &&& field[row * (w * 2) + i] == scaled_frame(yuyv, sw, sh, w, 2 * h)[(2 * row + first) * (w * 2) + i]
        }),
{
    let (w, h) = if standard == VideoStandard::Ntsc {
        (640int, 243int)
    } else {
        (768int, 288int)
    };
    let first: int = if parity == FieldParity::Even {
        0
    } else {
        1
    };
    let frame = scaled_frame(yuyv, sw, sh, w, 2 * h);
    assert(camera_field(standard, yuyv, sw, sh, parity) == field_rows(frame, w * 2, 2 * h, first));
    assert(w * (2 * h) * 2 == 2 * h * (w * 2) && h * (w * 2) == w * h * 2 && 0 <= w * (2 * h) * 2)
        by (nonlinear_arith)
        requires
            0 <= w,
            0 <= h,
    ;
    lemma_row_of_a_field(frame, w * 2, h, first, row, i);
}

/// A row of a field is every second row of its frame.
proof fn lemma_row_of_a_field(frame: Seq<u8>, width: int, h: int, first: int, row: int, i: int)
    requires
        0 <= first < 2,
        0 <= row < h,
        0 <= i < width,
        frame.len() == 2 * h * width,
    ensures
        field_rows(frame, width, 2 * h, first).len() == h * width,
        field_rows(frame, width, 2 * h, first)[row * width + i] == frame[(2 * row + first) * width + i],
{
    let y = 2 * row + first;
    law_fields_have_half_the_rows(frame, width, 2 * h);
    law_fields_hold_every_row(frame, width, 2 * h, y);
    let field = field_rows(frame, width, 2 * h, first);
    assert(y % 2 == first && y / 2 == row && 2 * h / 2 == h);
    assert(0 <= row * width && (row + 1) * width == row * width + width) by (nonlinear_arith)
        requires
            0 <= row,
            0 <= width,
    ;
    assert(0 <= y * width && (y + 1) * width == y * width + width && (y + 1) * width <= 2 * h * width)
        by (nonlinear_arith)
        requires
            0 <= y < 2 * h,
            0 <= width,
    ;
    assert(field.subrange(row * width, (row + 1) * width)[i] == field[row * width + i]);
    assert(frame.subrange(y * width, (y + 1) * width)[i] == frame[y * width + i]);
}

/// A frame of the camera that is long enough gives both fields and changes nothing else, in
/// particular not when the next field is due and of which parity it is. One that is too
/// short changes nothing.
pub proof fn law_frames_only_change_the_fields(c: CameraModel, yuyv: Seq<u8>, sw: int, sh: int)
    ensures
        yuyv.len() < sw * sh * 2 ==> c.after_frame(yuyv, sw, sh) == c,
        yuyv.len() >= sw * sh * 2 ==> {
            let after = c.after_frame(yuyv, sw, sh);
            &&& after.even == Some(camera_field(c.standard, yuyv, sw, sh, FieldParity::Even))
            &&& after.odd == Some(camera_field(c.standard, yuyv, sw, sh, FieldParity::Odd))
            &&& after.standard == c.standard
            &&& after.period == c.period
            &&& after.next_due == c.next_due
            &&& after.next_parity == c.next_parity
        },
{
}

/// A field that is handed out is what is held of its parity, and black where nothing is:
/// U and V 128, Y 16.
pub proof fn law_field_is_what_is_held(c: CameraModel, i: int)
    ensures
        ({
            let f = c.next_field();
            let n: int = if c.standard == VideoStandard::Ntsc {
                311_040
            } else {
                442_368
            };
            &&& f.parity == c.next_parity
            &&& f.width == (if c.standard == VideoStandard::Ntsc {
                640int
            } else {
                768int
            })
            &&& f.height == (if c.standard == VideoStandard::Ntsc {
                243int
            } else {
                288int
            })
            &&& c.next_parity == FieldParity::Even && c.even is Some ==> f.pixels == c.even->0
            &&& c.next_parity == FieldParity::Odd && c.odd is Some ==> f.pixels == c.odd->0
            &&& (c.next_parity == FieldParity::Even && c.even is None) || (c.next_parity == FieldParity::Odd && c.odd
                is None) ==> f.pixels.len() == n && (0 <= i < n ==> f.pixels[i] == (if i % 2 == 0 {
                128int
            } else {
                16int
            }))
        }),
{
}

/// Handing a field out changes the parity of the next and when it is due, and nothing else.
/// The next is due one period later; behind a caller that is more than four periods late it
/// is due one period from now.
pub proof fn law_schedule_after_a_field(c: CameraModel, now: int)
    ensures
        ({
            let after = c.after_field(now);
            &&& c.next_parity == FieldParity::Even ==> after.next_parity == FieldParity::Odd
            &&& c.next_parity == FieldParity::Odd ==> after.next_parity == FieldParity::Even
            &&& now <= c.next_due + 4 * c.period ==> after.next_due == c.next_due + c.period
            &&& now > c.next_due + 4 * c.period ==> after.next_due == now + c.period
            &&& after.standard == c.standard
            &&& after.period == c.period
            &&& after.even == c.even
            &&& after.odd == c.odd
        }),
        now <= c.next_due ==> now + c.wait(now) == c.next_due,
        now >= c.next_due ==> c.wait(now) == 0,
{
}

/// A black field of any size: U and V 128, Y 16.
pub proof fn law_black_fields(n: nat, i: int)
    requires
        0 <= i < n,
    ensures
        black_bytes(n).len() == n,
        i % 2 == 0 ==> black_bytes(n)[i] == 128,
        i % 2 == 1 ==> black_bytes(n)[i] == 16,
{
}

/// A source and its model hold the same.
pub proof fn law_model_of_a_source(c: CameraSource)
    ensures
        c@.standard == c.standard,
        c@.period == c.period,
        c@.next_due == c.next_due,
        c@.next_parity == c.next_parity,
        c.even is None <==> c@.even is None,
        c.odd is None <==> c@.odd is None,
        c.even matches Some(p) ==> c@.even == Some(p@),
        c.odd matches Some(p) ==> c@.odd == Some(p@),
{
}

/// A source starts without a frame, with an even field that is due at once.
pub proof fn law_fresh_source(standard: VideoStandard, period: int, now: int)
    ensures
        ({
            let c = CameraModel::fresh(standard, period, now);
            &&& c.standard == standard && c.period == period && c.next_due == now
            &&& c.even is None && c.odd is None && c.next_parity == FieldParity::Even
        }),
{
}

/// A field can be handed out wherever the times that it takes fit in 64 bits: four periods
/// behind when it is due, and one behind now.
pub proof fn law_fields_can_be_handed_out(c: CameraModel, now: int)
    ensures
        c.can_hand_out(now) <==> c.next_due + 4 * c.period < 0x1_0000_0000_0000_0000 && now + c.period
            < 0x1_0000_0000_0000_0000,
{
}

}
