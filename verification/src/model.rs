//! Mathematical model of the blur: edge-clamped sampling along a strided
//! line of a flat buffer, triangular-kernel sums, and the per-pixel value
//! of each pass as an exact floor division of the sum by the kernel area.

use vstd::prelude::*;

verus! {

/// Edge clamping: a tap index outside `[0, len)` reuses the nearest end.
pub open spec fn clamp_idx(j: int, len: int) -> int {
    if j < 0 {
        0
    } else if j >= len {
        len - 1
    } else {
        j
    }
}

/// The raw sample `j` steps along the line that starts at `start` and
/// advances by `step` through the flat buffer `s`.
pub open spec fn line_val(s: Seq<u8>, start: int, step: int, j: int) -> int {
    s[start + j * step] as int
}

/// The edge-clamped sample of a line of `len` samples.
pub open spec fn clamped_val(s: Seq<u8>, start: int, step: int, len: int, j: int) -> int {
    line_val(s, start, step, clamp_idx(j, len))
}

/// Sum of the `n` consecutive edge-clamped samples `lo, .., lo + n - 1`.
pub open spec fn box_sum(s: Seq<u8>, start: int, step: int, len: int, lo: int, n: int) -> int
    decreases n,
{
    if n <= 0 {
        0
    } else {
        box_sum(s, start, step, len, lo, n - 1) + clamped_val(s, start, step, len, lo + n - 1)
    }
}

/// Weight of tap `idx` (0-based, left to right) of the triangular kernel
/// of half-width `r`: the ramp 1, 2, .., r, r + 1, r, .., 2, 1.
pub open spec fn tap_weight(r: int, idx: int) -> int {
    if idx < r {
        idx + 1
    } else {
        2 * r + 1 - idx
    }
}

/// Weighted sum of the first `n` taps of the triangular window of
/// half-width `r` centered on sample `c`: tap `idx` reads the clamped
/// sample `c - r + idx`.
pub open spec fn tri_sum_part(
    s: Seq<u8>,
    start: int,
    step: int,
    len: int,
    c: int,
    r: int,
    n: int,
) -> int
    decreases n,
{
    if n <= 0 {
        0
    } else {
        tri_sum_part(s, start, step, len, c, r, n - 1) + tap_weight(r, n - 1) * clamped_val(
            s,
            start,
            step,
            len,
            c - r + n - 1,
        )
    }
}

/// The full triangular sum of half-width `r` centered on sample `c`.
pub open spec fn tri_sum(s: Seq<u8>, start: int, step: int, len: int, c: int, r: int) -> int {
    tri_sum_part(s, start, step, len, c, r, 2 * r + 1)
}

/// Total weight of the triangular kernel of half-width `r`.
pub open spec fn area(r: int) -> int {
    (r + 1) * (r + 1)
}

/// The triangle number 1 + 2 + .. + n.
pub open spec fn tri_number(n: int) -> int
    decreases n,
{
    if n <= 0 {
        0
    } else {
        tri_number(n - 1) + n
    }
}

/// Sum of the first `n` tap weights of the kernel of half-width `r`.
pub open spec fn weight_total(r: int, n: int) -> int
    decreases n,
{
    if n <= 0 {
        0
    } else {
        weight_total(r, n - 1) + tap_weight(r, n - 1)
    }
}

/// A descending ramp of weights over the head of the line:
/// the sum of `(w - t) * sample(t)` for `t` in `0 .. n`.
pub open spec fn ramp_sum(s: Seq<u8>, start: int, step: int, len: int, w: int, n: int) -> int
    decreases n,
{
    if n <= 0 {
        0
    } else {
        ramp_sum(s, start, step, len, w, n - 1) + (w - (n - 1)) * clamped_val(
            s,
            start,
            step,
            len,
            n - 1,
        )
    }
}

/// The running sum that seeds the sliding window before it produces its
/// first output: the first sample counted with the whole left half of
/// the kernel, plus the ramp over the samples ahead of the start.
pub open spec fn seed_sum(s: Seq<u8>, start: int, step: int, len: int, r: int) -> int {
    tri_number(r + 1) * clamped_val(s, start, step, len, 0) + ramp_sum(s, start, step, len, r, r)
}


/// A well-formed line: `len` samples starting at index `start`, spaced
/// `step` apart, the last one still inside a buffer of `buf_len` bytes.
pub open spec fn line_ok(buf_len: int, start: int, step: int, len: int) -> bool {
    &&& 0 <= start
    &&& 1 <= step
    &&& 1 <= len
    &&& start + (len - 1) * step < buf_len
}

/// Whether flat index `i` is one of the samples of the line.
pub open spec fn on_line(start: int, step: int, len: int, i: int) -> bool {
    &&& i >= start
    &&& (i - start) % step == 0
    &&& (i - start) / step < len
}

/// The blurred value of sample `j` of a line: its triangular window
/// sum divided (exactly) by the kernel area.
pub open spec fn line_blurred(s: Seq<u8>, start: int, step: int, len: int, j: int, r: int) -> int {
    tri_sum(s, start, step, len, j, r) / area(r)
}

} // verus!
