//! Dense RGBA pixel buffers and their geometric transforms: quarter-turn
//! rotations and horizontal/vertical flips, each a pure permutation of the
//! buffer, together with the round-trip laws (four quarter turns, or the
//! same flip twice, restore the original buffer).

use vstd::prelude::*;
use vstd::arithmetic::div_mod::lemma_fundamental_div_mod_converse;

verus! {

/// Byte index of channel `c` of the pixel at column `x`, row `y` in a
/// row-major RGBA buffer of width `w`.
pub open spec fn pix_idx(w: int, x: int, y: int, c: int) -> int {
    (y * w + x) * 4 + c
}

/// A buffer holds exactly `w * h` four-byte pixels.
pub open spec fn buf_sized(p: Seq<u8>, w: int, h: int) -> bool {
    p.len() == w * h * 4
}

/// The buffer after a quarter turn clockwise: the result is `h` wide and
/// `w` high, and its pixel (x, y) is the source pixel (y, h - 1 - x).
pub open spec fn rotated_cw(p: Seq<u8>, w: int, h: int) -> Seq<u8> {
    Seq::new((w * h * 4) as nat, |k: int| {
        let x = (k / 4) % h;
        let y = (k / 4) / h;
        let c = k % 4;
        p[pix_idx(w, y, h - 1 - x, c)]
    })
}

/// The buffer after a quarter turn counter-clockwise: the result is `h`
/// wide and `w` high, and its pixel (x, y) is the source pixel
/// (w - 1 - y, x).
pub open spec fn rotated_ccw(p: Seq<u8>, w: int, h: int) -> Seq<u8> {
    Seq::new((w * h * 4) as nat, |k: int| {
        let x = (k / 4) % h;
        let y = (k / 4) / h;
        let c = k % 4;
        p[pix_idx(w, w - 1 - y, x, c)]
    })
}

/// The buffer after a half turn: dimensions are kept and pixel (x, y) is
/// the source pixel (w - 1 - x, h - 1 - y).
pub open spec fn rotated_half(p: Seq<u8>, w: int, h: int) -> Seq<u8> {
    Seq::new((w * h * 4) as nat, |k: int| {
        let x = (k / 4) % w;
        let y = (k / 4) / w;
        let c = k % 4;
        p[pix_idx(w, w - 1 - x, h - 1 - y, c)]
    })
}

/// The buffer mirrored left-to-right: pixel (x, y) is the source pixel
/// (w - 1 - x, y).
pub open spec fn flipped_h(p: Seq<u8>, w: int, h: int) -> Seq<u8> {
    Seq::new((w * h * 4) as nat, |k: int| {
        let x = (k / 4) % w;
        let y = (k / 4) / w;
        let c = k % 4;
        p[pix_idx(w, w - 1 - x, y, c)]
    })
}

/// The buffer mirrored top-to-bottom: pixel (x, y) is the source pixel
/// (x, h - 1 - y).
pub open spec fn flipped_v(p: Seq<u8>, w: int, h: int) -> Seq<u8> {
    Seq::new((w * h * 4) as nat, |k: int| {
        let x = (k / 4) % w;
        let y = (k / 4) / w;
        let c = k % 4;
        p[pix_idx(w, x, h - 1 - y, c)]
    })
}

/// Decomposition of a pixel byte index back into its coordinates.
pub proof fn lemma_pix_decompose(w: int, x: int, y: int, c: int)
    requires
        0 <= x < w,
        0 <= y,
        0 <= c < 4,
    ensures
        pix_idx(w, x, y, c) / 4 == y * w + x,
        pix_idx(w, x, y, c) % 4 == c,
        (y * w + x) / w == y,
        (y * w + x) % w == x,
        pix_idx(w, x, y, c) >= 0,
{
    assert(y * w + x >= 0) by (nonlinear_arith)
        requires
            0 <= x,
            0 <= y,
            0 < w,
    ;
    lemma_fundamental_div_mod_converse(pix_idx(w, x, y, c), 4, y * w + x, c);
    lemma_fundamental_div_mod_converse(y * w + x, w, y, x);
}

/// A pixel's byte index lies inside the buffer.
pub proof fn lemma_pix_in_range(w: int, h: int, x: int, y: int, c: int)
    requires
        0 <= x < w,
        0 <= y < h,
        0 <= c < 4,
    ensures
        0 <= pix_idx(w, x, y, c) < w * h * 4,
{
    assert(0 <= (y * w + x) * 4 + c < w * h * 4) by (nonlinear_arith)
        requires
            0 <= x < w,
            0 <= y < h,
            0 <= c < 4,
    ;
}

/// Reading the constructed rotation at a pixel index gives the mapped
/// source byte; stated for the clockwise turn.
pub proof fn lemma_rotated_cw_at(p: Seq<u8>, w: int, h: int, x: int, y: int, c: int)
    requires
        buf_sized(p, w, h),
        0 <= x < h,
        0 <= y < w,
        0 <= c < 4,
    ensures
        rotated_cw(p, w, h)[pix_idx(h, x, y, c)] == p[pix_idx(w, y, h - 1 - x, c)],
{
    lemma_pix_decompose(h, x, y, c);
    lemma_pix_in_range(h, w, x, y, c);
    assert(h * w * 4 == w * h * 4) by (nonlinear_arith);
}

/// Two quarter turns clockwise are the half turn.
pub proof fn lemma_cw_twice(p: Seq<u8>, w: int, h: int)
    requires
        buf_sized(p, w, h),
        0 < w,
        0 < h,
    ensures
        rotated_cw(rotated_cw(p, w, h), h, w) == rotated_half(p, w, h),
{
    let q = rotated_cw(p, w, h);
    let r = rotated_cw(q, h, w);
    let s = rotated_half(p, w, h);
    assert(h * w * 4 == w * h * 4) by (nonlinear_arith);
    assert forall|k: int| 0 <= k < w * h * 4 implies r[k] == s[k] by {
        let x = (k / 4) % w;
        let y = (k / 4) / w;
        let c = k % 4;
        lemma_k_decompose(k, w, h);
        // r's pixel (x, y) is q's pixel (y, w - 1 - x)
        assert(r[k] == q[pix_idx(h, y, w - 1 - x, c)]);
        // q's pixel (y, w - 1 - x) is p's pixel (w - 1 - x, h - 1 - y)
        lemma_rotated_cw_at(p, w, h, y, w - 1 - x, c);
        assert(q[pix_idx(h, y, w - 1 - x, c)] == p[pix_idx(w, w - 1 - x, h - 1 - y, c)]);
        assert(s[k] == p[pix_idx(w, w - 1 - x, h - 1 - y, c)]);
    }
    assert(r =~= s);
}

/// Decomposition of an arbitrary in-range byte index `k` of a `w`-wide
/// buffer into column, row and channel.
pub proof fn lemma_k_decompose(k: int, w: int, h: int)
    requires
        0 <= k < w * h * 4,
        0 < w,
        0 < h,
    ensures
        0 <= (k / 4) % w < w,
        0 <= (k / 4) / w < h,
        0 <= k % 4 < 4,
        pix_idx(w, (k / 4) % w, (k / 4) / w, k % 4) == k,
{
    assert(0 <= k / 4 < w * h && k % 4 == k - (k / 4) * 4 && 0 <= k % 4 < 4) by (nonlinear_arith)
        requires
            0 <= k < w * h * 4,
    ;
    assert(0 <= (k / 4) % w < w && (k / 4) / w * w + (k / 4) % w == k / 4 && 0 <= (k / 4) / w
        < h) by (nonlinear_arith)
        requires
            0 <= k / 4 < w * h,
            0 < w,
            0 < h,
    ;
}

/// Two quarter turns counter-clockwise are also the half turn.
pub proof fn lemma_ccw_twice(p: Seq<u8>, w: int, h: int)
    requires
        buf_sized(p, w, h),
        0 < w,
        0 < h,
    ensures
        rotated_ccw(rotated_ccw(p, w, h), h, w) == rotated_half(p, w, h),
{
    let q = rotated_ccw(p, w, h);
    let r = rotated_ccw(q, h, w);
    let s = rotated_half(p, w, h);
    assert(h * w * 4 == w * h * 4) by (nonlinear_arith);
    assert forall|k: int| 0 <= k < w * h * 4 implies r[k] == s[k] by {
        let x = (k / 4) % w;
        let y = (k / 4) / w;
        let c = k % 4;
        lemma_k_decompose(k, w, h);
        // r's pixel (x, y) is q's pixel (h - 1 - y, x)
        assert(r[k] == q[pix_idx(h, h - 1 - y, x, c)]);
        // q's pixel (h - 1 - y, x) is p's pixel (w - 1 - x, h - 1 - y)
        lemma_pix_decompose(h, h - 1 - y, x, c);
        lemma_pix_in_range(h, w, h - 1 - y, x, c);
        assert(q[pix_idx(h, h - 1 - y, x, c)] == p[pix_idx(w, w - 1 - x, h - 1 - y, c)]);
        assert(s[k] == p[pix_idx(w, w - 1 - x, h - 1 - y, c)]);
    }
    assert(r =~= s);
}

/// The half turn is an involution.
pub proof fn lemma_half_twice(p: Seq<u8>, w: int, h: int)
    requires
        buf_sized(p, w, h),
        0 < w,
        0 < h,
    ensures
        rotated_half(rotated_half(p, w, h), w, h) == p,
{
    let q = rotated_half(p, w, h);
    let r = rotated_half(q, w, h);
    assert forall|k: int| 0 <= k < w * h * 4 implies r[k] == p[k] by {
        let x = (k / 4) % w;
        let y = (k / 4) / w;
        let c = k % 4;
        lemma_k_decompose(k, w, h);
        assert(r[k] == q[pix_idx(w, w - 1 - x, h - 1 - y, c)]);
        lemma_pix_decompose(w, w - 1 - x, h - 1 - y, c);
        lemma_pix_in_range(w, h, w - 1 - x, h - 1 - y, c);
        assert(q[pix_idx(w, w - 1 - x, h - 1 - y, c)] == p[pix_idx(w, x, y, c)]);
    }
    assert(r =~= p);
}

/// Four quarter turns clockwise restore the original buffer.
pub proof fn lemma_cw_four_times(p: Seq<u8>, w: int, h: int)
    requires
        buf_sized(p, w, h),
        0 < w,
        0 < h,
    ensures
        rotated_cw(rotated_cw(rotated_cw(rotated_cw(p, w, h), h, w), w, h), h, w) == p,
{
    let q = rotated_cw(rotated_cw(p, w, h), h, w);
    lemma_cw_twice(p, w, h);
    assert(rotated_half(p, w, h).len() == w * h * 4);
    lemma_cw_twice(rotated_half(p, w, h), w, h);
    lemma_half_twice(p, w, h);
}

/// Four quarter turns counter-clockwise restore the original buffer.
pub proof fn lemma_ccw_four_times(p: Seq<u8>, w: int, h: int)
    requires
        buf_sized(p, w, h),
        0 < w,
        0 < h,
    ensures
        rotated_ccw(rotated_ccw(rotated_ccw(rotated_ccw(p, w, h), h, w), w, h), h, w) == p,
{
    lemma_ccw_twice(p, w, h);
    assert(rotated_half(p, w, h).len() == w * h * 4);
    lemma_ccw_twice(rotated_half(p, w, h), w, h);
    lemma_half_twice(p, w, h);
}

/// Mirroring left-to-right twice restores the original buffer.
pub proof fn lemma_flip_h_twice(p: Seq<u8>, w: int, h: int)
    requires
        buf_sized(p, w, h),
        0 < w,
        0 < h,
    ensures
        flipped_h(flipped_h(p, w, h), w, h) == p,
{
    let q = flipped_h(p, w, h);
    let r = flipped_h(q, w, h);
    assert forall|k: int| 0 <= k < w * h * 4 implies r[k] == p[k] by {
        let x = (k / 4) % w;
        let y = (k / 4) / w;
        let c = k % 4;
        lemma_k_decompose(k, w, h);
        assert(r[k] == q[pix_idx(w, w - 1 - x, y, c)]);
        lemma_pix_decompose(w, w - 1 - x, y, c);
        lemma_pix_in_range(w, h, w - 1 - x, y, c);
        assert(q[pix_idx(w, w - 1 - x, y, c)] == p[pix_idx(w, x, y, c)]);
    }
    assert(r =~= p);
}

/// Reading the constructed counter-clockwise rotation at a pixel index.
pub proof fn lemma_rotated_ccw_at(p: Seq<u8>, w: int, h: int, x: int, y: int, c: int)
    requires
        buf_sized(p, w, h),
        0 <= x < h,
        0 <= y < w,
        0 <= c < 4,
    ensures
        rotated_ccw(p, w, h)[pix_idx(h, x, y, c)] == p[pix_idx(w, w - 1 - y, x, c)],
{
    lemma_pix_decompose(h, x, y, c);
    lemma_pix_in_range(h, w, x, y, c);
    assert(h * w * 4 == w * h * 4) by (nonlinear_arith);
}

/// Reading the constructed left-to-right mirror at a pixel index.
pub proof fn lemma_flipped_h_at(p: Seq<u8>, w: int, h: int, x: int, y: int, c: int)
    requires
        buf_sized(p, w, h),
        0 <= x < w,
        0 <= y < h,
        0 <= c < 4,
    ensures
        flipped_h(p, w, h)[pix_idx(w, x, y, c)] == p[pix_idx(w, w - 1 - x, y, c)],
{
    lemma_pix_decompose(w, x, y, c);
    lemma_pix_in_range(w, h, x, y, c);
}

/// Reading the constructed top-to-bottom mirror at a pixel index.
pub proof fn lemma_flipped_v_at(p: Seq<u8>, w: int, h: int, x: int, y: int, c: int)
    requires
        buf_sized(p, w, h),
        0 <= x < w,
        0 <= y < h,
        0 <= c < 4,
    ensures
        flipped_v(p, w, h)[pix_idx(w, x, y, c)] == p[pix_idx(w, x, h - 1 - y, c)],
{
    lemma_pix_decompose(w, x, y, c);
    lemma_pix_in_range(w, h, x, y, c);
}

/// Mirroring top-to-bottom twice restores the original buffer.
pub proof fn lemma_flip_v_twice(p: Seq<u8>, w: int, h: int)
    requires
        buf_sized(p, w, h),
        0 < w,
        0 < h,
    ensures
        flipped_v(flipped_v(p, w, h), w, h) == p,
{
    let q = flipped_v(p, w, h);
    let r = flipped_v(q, w, h);
    assert forall|k: int| 0 <= k < w * h * 4 implies r[k] == p[k] by {
        let x = (k / 4) % w;
        let y = (k / 4) / w;
        let c = k % 4;
        lemma_k_decompose(k, w, h);
        assert(r[k] == q[pix_idx(w, x, h - 1 - y, c)]);
        lemma_pix_decompose(w, x, h - 1 - y, c);
        lemma_pix_in_range(w, h, x, h - 1 - y, c);
        assert(q[pix_idx(w, x, h - 1 - y, c)] == p[pix_idx(w, x, y, c)]);
    }
    assert(r =~= p);
}

} // verus!

verus! {

/// Append the four channel bytes of one source pixel to the buffer being
/// built.
fn push_pixel(r: &mut Vec<u8>, p: &Vec<u8>, base: usize)
    requires
        base + 4 <= p@.len(),
    ensures
        final(r)@ == old(r)@ + p@.subrange(base as int, base as int + 4),
{
    // pin the buffer length as a machine word so the offsets below fit
    let _len: usize = p.len();
    r.push(p[base]);
    r.push(p[base + 1]);
    r.push(p[base + 2]);
    r.push(p[base + 3]);
    proof {
        assert(final(r)@ =~= old(r)@ + p@.subrange(base as int, base as int + 4));
    }
}

/// Rotate a `w` by `h` buffer a quarter turn clockwise.
pub fn rotate_cw_buffer(p: &Vec<u8>, w: u32, h: u32) -> (r: Vec<u8>)
    requires
        buf_sized(p@, w as int, h as int),
        0 < w,
        0 < h,
    ensures
        r@ == rotated_cw(p@, w as int, h as int),
{
    let ghost target = rotated_cw(p@, w as int, h as int);
    let wi = w as usize;
    let hi = h as usize;
    proof {
        assert(wi * hi * 4 == p@.len()) by (nonlinear_arith)
            requires
                p@.len() == (w as int) * (h as int) * 4,
                wi == w as int,
                hi == h as int,
        ;
    }
    let plen: usize = p.len();
    let mut r: Vec<u8> = Vec::new();
    let mut y: usize = 0;
    while y < wi
        invariant
            buf_sized(p@, w as int, h as int),
            target == rotated_cw(p@, w as int, h as int),
            wi == w as int,
            hi == h as int,
            0 < wi,
            0 < hi,
            wi * hi * 4 == p@.len(),
            plen == p@.len(),
            y <= wi,
            r@.len() == y * hi * 4,
            forall|k: int| 0 <= k < r@.len() ==> r@[k] == target[k],
        decreases wi - y,
    {
        let mut x: usize = 0;
        while x < hi
            invariant
                buf_sized(p@, w as int, h as int),
                target == rotated_cw(p@, w as int, h as int),
                wi == w as int,
                hi == h as int,
                0 < wi,
                0 < hi,
                wi * hi * 4 == p@.len(),
                plen == p@.len(),
                y < wi,
                x <= hi,
                r@.len() == (y * hi + x) * 4,
                forall|k: int| 0 <= k < r@.len() ==> r@[k] == target[k],
            decreases hi - x,
        {
            proof {
                assert((hi - 1 - x) * wi <= (hi - 1 - x) * wi + y < hi * wi && ((hi - 1 - x) * wi
                    + y) * 4 + 4 <= hi * wi * 4 && hi * wi * 4 == wi * hi * 4) by (nonlinear_arith)
                    requires
                        0 <= x < hi,
                        0 <= y < wi,
                ;
                assert(wi * hi * 4 == plen);
            }
            let base: usize = ((hi - 1 - x) * wi + y) * 4;
            proof {
                lemma_rotated_cw_at(p@, w as int, h as int, x as int, y as int, 0);
                lemma_rotated_cw_at(p@, w as int, h as int, x as int, y as int, 1);
                lemma_rotated_cw_at(p@, w as int, h as int, x as int, y as int, 2);
                lemma_rotated_cw_at(p@, w as int, h as int, x as int, y as int, 3);
                lemma_pix_in_range(h as int, w as int, x as int, y as int, 3);
                assert(pix_idx(w as int, y as int, h as int - 1 - x as int, 0) == base);
                assert(pix_idx(h as int, x as int, y as int, 0) == r@.len());
            }
            push_pixel(&mut r, p, base);
            x = x + 1;
        }
        y = y + 1;
        proof {
            assert((y - 1) * hi + hi == y * hi) by (nonlinear_arith);
        }
    }
    proof {
        assert(r@.len() == wi * hi * 4) by (nonlinear_arith)
            requires
                r@.len() == wi * hi * 4,
        ;
        assert(target.len() == wi * hi * 4) by (nonlinear_arith)
            requires
                target.len() == (w as int) * (h as int) * 4,
                wi == w as int,
                hi == h as int,
        ;
        assert(hi * wi * 4 == wi * hi * 4) by (nonlinear_arith);
        assert(r@ =~= target);
    }
    r
}

/// Rotate a `w` by `h` buffer a quarter turn counter-clockwise.
pub fn rotate_ccw_buffer(p: &Vec<u8>, w: u32, h: u32) -> (r: Vec<u8>)
    requires
        buf_sized(p@, w as int, h as int),
        0 < w,
        0 < h,
    ensures
        r@ == rotated_ccw(p@, w as int, h as int),
{
    let ghost target = rotated_ccw(p@, w as int, h as int);
    let wi = w as usize;
    let hi = h as usize;
    proof {
        assert(wi * hi * 4 == p@.len()) by (nonlinear_arith)
            requires
                p@.len() == (w as int) * (h as int) * 4,
                wi == w as int,
                hi == h as int,
        ;
    }
    let plen: usize = p.len();
    let mut r: Vec<u8> = Vec::new();
    let mut y: usize = 0;
    while y < wi
        invariant
            buf_sized(p@, w as int, h as int),
            target == rotated_ccw(p@, w as int, h as int),
            wi == w as int,
            hi == h as int,
            0 < wi,
            0 < hi,
            wi * hi * 4 == p@.len(),
            plen == p@.len(),
            y <= wi,
            r@.len() == y * hi * 4,
            forall|k: int| 0 <= k < r@.len() ==> r@[k] == target[k],
        decreases wi - y,
    {
        let mut x: usize = 0;
        while x < hi
            invariant
                buf_sized(p@, w as int, h as int),
                target == rotated_ccw(p@, w as int, h as int),
                wi == w as int,
                hi == h as int,
                0 < wi,
                0 < hi,
                wi * hi * 4 == p@.len(),
                plen == p@.len(),
                y < wi,
                x <= hi,
                r@.len() == (y * hi + x) * 4,
                forall|k: int| 0 <= k < r@.len() ==> r@[k] == target[k],
            decreases hi - x,
        {
            proof {
                assert(x * wi <= x * wi + (wi - 1 - y) < hi * wi && (x * wi + (wi - 1 - y)) * 4 + 4
                    <= hi * wi * 4 && hi * wi * 4 == wi * hi * 4) by (nonlinear_arith)
                    requires
                        0 <= x < hi,
                        0 <= y < wi,
                ;
                assert(wi * hi * 4 == plen);
            }
            let base: usize = (x * wi + (wi - 1 - y)) * 4;
            proof {
                lemma_rotated_ccw_at(p@, w as int, h as int, x as int, y as int, 0);
                lemma_rotated_ccw_at(p@, w as int, h as int, x as int, y as int, 1);
                lemma_rotated_ccw_at(p@, w as int, h as int, x as int, y as int, 2);
                lemma_rotated_ccw_at(p@, w as int, h as int, x as int, y as int, 3);
                lemma_pix_in_range(h as int, w as int, x as int, y as int, 3);
                assert(pix_idx(w as int, w as int - 1 - y as int, x as int, 0) == base);
                assert(pix_idx(h as int, x as int, y as int, 0) == r@.len());
            }
            push_pixel(&mut r, p, base);
            x = x + 1;
        }
        y = y + 1;
        proof {
            assert((y - 1) * hi + hi == y * hi) by (nonlinear_arith);
        }
    }
    proof {
        assert(target.len() == wi * hi * 4) by (nonlinear_arith)
            requires
                target.len() == (w as int) * (h as int) * 4,
                wi == w as int,
                hi == h as int,
        ;
        assert(hi * wi * 4 == wi * hi * 4) by (nonlinear_arith);
        assert(r@ =~= target);
    }
    r
}

/// Mirror a `w` by `h` buffer left-to-right.
pub fn flip_h_buffer(p: &Vec<u8>, w: u32, h: u32) -> (r: Vec<u8>)
    requires
        buf_sized(p@, w as int, h as int),
        0 < w,
        0 < h,
    ensures
        r@ == flipped_h(p@, w as int, h as int),
{
    let ghost target = flipped_h(p@, w as int, h as int);
    let wi = w as usize;
    let hi = h as usize;
    proof {
        assert(wi * hi * 4 == p@.len()) by (nonlinear_arith)
            requires
                p@.len() == (w as int) * (h as int) * 4,
                wi == w as int,
                hi == h as int,
        ;
    }
    let plen: usize = p.len();
    let mut r: Vec<u8> = Vec::new();
    let mut y: usize = 0;
    while y < hi
        invariant
            buf_sized(p@, w as int, h as int),
            target == flipped_h(p@, w as int, h as int),
            wi == w as int,
            hi == h as int,
            0 < wi,
            0 < hi,
            wi * hi * 4 == p@.len(),
            plen == p@.len(),
            y <= hi,
            r@.len() == y * wi * 4,
            forall|k: int| 0 <= k < r@.len() ==> r@[k] == target[k],
        decreases hi - y,
    {
        let mut x: usize = 0;
        while x < wi
            invariant
                buf_sized(p@, w as int, h as int),
                target == flipped_h(p@, w as int, h as int),
                wi == w as int,
                hi == h as int,
                0 < wi,
                0 < hi,
                wi * hi * 4 == p@.len(),
                plen == p@.len(),
                y < hi,
                x <= wi,
                r@.len() == (y * wi + x) * 4,
                forall|k: int| 0 <= k < r@.len() ==> r@[k] == target[k],
            decreases wi - x,
        {
            proof {
                assert(y * wi <= y * wi + (wi - 1 - x) < hi * wi && (y * wi + (wi - 1 - x)) * 4 + 4
                    <= hi * wi * 4 && hi * wi * 4 == wi * hi * 4) by (nonlinear_arith)
                    requires
                        0 <= x < wi,
                        0 <= y < hi,
                ;
                assert(wi * hi * 4 == plen);
            }
            let base: usize = (y * wi + (wi - 1 - x)) * 4;
            proof {
                lemma_flipped_h_at(p@, w as int, h as int, x as int, y as int, 0);
                lemma_flipped_h_at(p@, w as int, h as int, x as int, y as int, 1);
                lemma_flipped_h_at(p@, w as int, h as int, x as int, y as int, 2);
                lemma_flipped_h_at(p@, w as int, h as int, x as int, y as int, 3);
                lemma_pix_in_range(w as int, h as int, x as int, y as int, 3);
                assert(pix_idx(w as int, w as int - 1 - x as int, y as int, 0) == base);
                assert(pix_idx(w as int, x as int, y as int, 0) == r@.len());
            }
            push_pixel(&mut r, p, base);
            x = x + 1;
        }
        y = y + 1;
        proof {
            assert((y - 1) * wi + wi == y * wi) by (nonlinear_arith);
        }
    }
    proof {
        assert(target.len() == wi * hi * 4) by (nonlinear_arith)
            requires
                target.len() == (w as int) * (h as int) * 4,
                wi == w as int,
                hi == h as int,
        ;
        assert(hi * wi * 4 == wi * hi * 4) by (nonlinear_arith);
        assert(r@ =~= target);
    }
    r
}

/// Mirror a `w` by `h` buffer top-to-bottom.
pub fn flip_v_buffer(p: &Vec<u8>, w: u32, h: u32) -> (r: Vec<u8>)
    requires
        buf_sized(p@, w as int, h as int),
        0 < w,
        0 < h,
    ensures
        r@ == flipped_v(p@, w as int, h as int),
{
    let ghost target = flipped_v(p@, w as int, h as int);
    let wi = w as usize;
    let hi = h as usize;
    proof {
        assert(wi * hi * 4 == p@.len()) by (nonlinear_arith)
            requires
                p@.len() == (w as int) * (h as int) * 4,
                wi == w as int,
                hi == h as int,
        ;
    }
    let plen: usize = p.len();
    let mut r: Vec<u8> = Vec::new();
    let mut y: usize = 0;
    while y < hi
        invariant
            buf_sized(p@, w as int, h as int),
            target == flipped_v(p@, w as int, h as int),
            wi == w as int,
            hi == h as int,
            0 < wi,
            0 < hi,
            wi * hi * 4 == p@.len(),
            plen == p@.len(),
            y <= hi,
            r@.len() == y * wi * 4,
            forall|k: int| 0 <= k < r@.len() ==> r@[k] == target[k],
        decreases hi - y,
    {
        let mut x: usize = 0;
        while x < wi
            invariant
                buf_sized(p@, w as int, h as int),
                target == flipped_v(p@, w as int, h as int),
                wi == w as int,
                hi == h as int,
                0 < wi,
                0 < hi,
                wi * hi * 4 == p@.len(),
                plen == p@.len(),
                y < hi,
                x <= wi,
                r@.len() == (y * wi + x) * 4,
                forall|k: int| 0 <= k < r@.len() ==> r@[k] == target[k],
            decreases wi - x,
        {
            proof {
                assert((hi - 1 - y) * wi <= (hi - 1 - y) * wi + x < hi * wi && ((hi - 1 - y) * wi
                    + x) * 4 + 4 <= hi * wi * 4 && hi * wi * 4 == wi * hi * 4) by (nonlinear_arith)
                    requires
                        0 <= x < wi,
                        0 <= y < hi,
                ;
                assert(wi * hi * 4 == plen);
            }
            let base: usize = ((hi - 1 - y) * wi + x) * 4;
            proof {
                lemma_flipped_v_at(p@, w as int, h as int, x as int, y as int, 0);
                lemma_flipped_v_at(p@, w as int, h as int, x as int, y as int, 1);
                lemma_flipped_v_at(p@, w as int, h as int, x as int, y as int, 2);
                lemma_flipped_v_at(p@, w as int, h as int, x as int, y as int, 3);
                lemma_pix_in_range(w as int, h as int, x as int, y as int, 3);
                assert(pix_idx(w as int, x as int, h as int - 1 - y as int, 0) == base);
                assert(pix_idx(w as int, x as int, y as int, 0) == r@.len());
            }
            push_pixel(&mut r, p, base);
            x = x + 1;
        }
        y = y + 1;
        proof {
            assert((y - 1) * wi + wi == y * wi) by (nonlinear_arith);
        }
    }
    proof {
        assert(target.len() == wi * hi * 4) by (nonlinear_arith)
            requires
                target.len() == (w as int) * (h as int) * 4,
                wi == w as int,
                hi == h as int,
        ;
        assert(hi * wi * 4 == wi * hi * 4) by (nonlinear_arith);
        assert(r@ =~= target);
    }
    r
}

/// A cloned byte vector holds the same bytes: `u8::clone` returns its
/// input, so the elementwise clone relation collapses to equality.
pub proof fn lemma_u8_vec_clone(a: Vec<u8>, b: Vec<u8>)
    requires
        b.len() == a.len(),
        forall|i: int|
            #![all_triggers]
            0 <= i < a.len() ==> vstd::pervasive::cloned::<u8>(a[i], b[i]),
    ensures
        a@ == b@,
{
    assert forall|i: int| 0 <= i < a@.len() implies a@[i] == b@[i] by {
        assert(vstd::pervasive::cloned::<u8>(a[i], b[i]));
    }
    assert(a@ =~= b@);
}

} // verus!
