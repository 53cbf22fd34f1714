//! Arithmetic of interleaved buffers: frames of a fixed number of samples,
//! laid end to end.

use vstd::arithmetic::div_mod::lemma_fundamental_div_mod;
use vstd::arithmetic::div_mod::lemma_fundamental_div_mod_converse;
use vstd::prelude::*;

verus! {

/// The smaller of two frame counts.
pub open spec fn min_frames(a: int, b: int) -> int {
    if a <= b {
        a
    } else {
        b
    }
}

/// Whole frames stay whole when whole frames are removed: if `a` and `b` are
/// multiples of `d`, so is `a - b`, and the frame counts subtract.
pub proof fn lemma_whole_frames_subtract(a: int, b: int, d: int)
    requires
        d > 0,
        0 <= b <= a,
        a % d == 0,
        b % d == 0,
    ensures
        (a - b) % d == 0,
        (a - b) / d == a / d - b / d,
{
    lemma_fundamental_div_mod(a, d);
    lemma_fundamental_div_mod(b, d);
    assert(a - b == (a / d - b / d) * d) by (nonlinear_arith)
        requires
            a == d * (a / d),
            b == d * (b / d),
    ;
    lemma_fundamental_div_mod_converse(a - b, d, a / d - b / d, 0);
}

/// Adding `k` whole frames to a whole number of frames gives whole frames.
pub proof fn lemma_whole_frames_add(a: int, k: int, d: int)
    requires
        d > 0,
        0 <= a,
        0 <= k,
        a % d == 0,
    ensures
        (a + k * d) % d == 0,
        (a + k * d) / d == a / d + k,
{
    lemma_fundamental_div_mod(a, d);
    assert(a + k * d == (a / d + k) * d) by (nonlinear_arith)
        requires
            a == d * (a / d),
    ;
    lemma_fundamental_div_mod_converse(a + k * d, d, a / d + k, 0);
}

/// `k` frames of `d` samples fit in `len` samples when `k` is at most the
/// number of whole frames in `len`.
pub proof fn lemma_frames_fit(k: int, whole: int, len: int, d: int)
    requires
        d > 0,
        0 <= len,
        0 <= k <= whole,
        whole == len / d,
    ensures
        0 <= k * d <= len,
{
    lemma_fundamental_div_mod(len, d);
    assert(0 <= k * d <= d * whole) by (nonlinear_arith)
        requires
            0 <= k <= whole,
            d > 0,
    ;
}

/// Every sample of frame `f` lies before the start of frame `taken` when
/// `f < taken`.
pub proof fn lemma_sample_in_frame(f: int, taken: int, d: int)
    requires
        d > 0,
        0 <= f < taken,
    ensures
        f * d + d <= taken * d,
        0 <= f * d,
{
    assert(f * d + d <= taken * d && 0 <= f * d) by (nonlinear_arith)
        requires
            0 <= f < taken,
            d > 0,
    ;
}

/// Frame `f + 1` starts `d` samples after frame `f`.
pub proof fn lemma_next_frame_start(f: int, d: int)
    requires
        d > 0,
        0 <= f,
    ensures
        (f + 1) * d == f * d + d,
        f <= f * d,
{
    assert((f + 1) * d == f * d + d && f <= f * d) by (nonlinear_arith)
        requires
            0 <= f,
            d > 0,
    ;
}

/// In a buffer of whole frames read up to a frame boundary, a next frame is
/// there whenever anything is left.
pub proof fn lemma_frame_available(len: int, cursor: int, ch: int)
    requires
        ch > 0,
        0 <= cursor < len,
        len % ch == 0,
        cursor % ch == 0,
    ensures
        cursor + ch <= len,
        (cursor + ch) % ch == 0,
{
    lemma_fundamental_div_mod(len, ch);
    lemma_fundamental_div_mod(cursor, ch);
    let a = len / ch;
    let b = cursor / ch;
    assert(b < a) by (nonlinear_arith)
        requires
            ch > 0,
            ch * b < ch * a,
    ;
    assert(ch * b + ch <= ch * a) by (nonlinear_arith)
        requires
            ch > 0,
            b + 1 <= a,
    ;
    assert(cursor + ch == (b + 1) * ch) by (nonlinear_arith)
        requires
            cursor == ch * b,
    ;
    lemma_fundamental_div_mod_converse(cursor + ch, ch, b + 1, 0);
}

} // verus!
