//! Algebraic facts about the box and triangular sums of `model`: how a
//! window's sum changes as it slides one sample to the right, and how the
//! seeded start state relates to the first window.

use vstd::prelude::*;

use crate::model::{area, box_sum, clamp_idx, clamped_val, line_ok, line_val, on_line, ramp_sum, seed_sum, tap_weight, tri_number, tri_sum, tri_sum_part, weight_total};

verus! {

/// A box sum can be peeled at the front as well as at the back.
pub proof fn lemma_box_sum_front(s: Seq<u8>, start: int, step: int, len: int, lo: int, n: int)
    requires
        n >= 1,
    ensures
        box_sum(s, start, step, len, lo, n) == clamped_val(s, start, step, len, lo) + box_sum(
            s,
            start,
            step,
            len,
            lo + 1,
            n - 1,
        ),
    decreases n,
{
    if n == 1 {
        assert(box_sum(s, start, step, len, lo, 0) == 0);
        assert(box_sum(s, start, step, len, lo + 1, 0) == 0);
        assert(box_sum(s, start, step, len, lo, 1) == box_sum(s, start, step, len, lo, 0)
            + clamped_val(s, start, step, len, lo));
    } else {
        lemma_box_sum_front(s, start, step, len, lo, n - 1);
        assert(box_sum(s, start, step, len, lo, n) == box_sum(s, start, step, len, lo, n - 1)
            + clamped_val(s, start, step, len, lo + n - 1));
        assert(box_sum(s, start, step, len, lo + 1, n - 1) == box_sum(
            s,
            start,
            step,
            len,
            lo + 1,
            n - 2,
        ) + clamped_val(s, start, step, len, lo + n - 1));
    }
}

/// Sliding a box sum one sample to the right trades its oldest sample
/// for one new sample.
pub proof fn lemma_box_sum_shift(s: Seq<u8>, start: int, step: int, len: int, lo: int, n: int)
    requires
        n >= 0,
    ensures
        box_sum(s, start, step, len, lo + 1, n) - box_sum(s, start, step, len, lo, n)
            == clamped_val(s, start, step, len, lo + n) - clamped_val(s, start, step, len, lo),
    decreases n,
{
    if n == 0 {
        assert(box_sum(s, start, step, len, lo + 1, 0) == 0);
        assert(box_sum(s, start, step, len, lo, 0) == 0);
    } else {
        lemma_box_sum_shift(s, start, step, len, lo, n - 1);
        assert(box_sum(s, start, step, len, lo, n) == box_sum(s, start, step, len, lo, n - 1)
            + clamped_val(s, start, step, len, lo + n - 1));
        assert(box_sum(s, start, step, len, lo + 1, n) == box_sum(
            s,
            start,
            step,
            len,
            lo + 1,
            n - 1,
        ) + clamped_val(s, start, step, len, lo + n));
    }
}

/// Peeling the outermost ring of weights off a triangular window of
/// half-width `r` leaves the window of half-width `r - 1` plus one box.
proof fn lemma_tri_peel_part(s: Seq<u8>, start: int, step: int, len: int, c: int, r: int, n: int)
    requires
        r >= 1,
        0 <= n <= 2 * r - 1,
    ensures
        tri_sum_part(s, start, step, len, c, r, n + 1) == tri_sum_part(
            s,
            start,
            step,
            len,
            c,
            r - 1,
            n,
        ) + box_sum(s, start, step, len, c - r, n + 1),
    decreases n,
{
    if n == 0 {
        assert(tri_sum_part(s, start, step, len, c, r, 1) == tri_sum_part(
            s,
            start,
            step,
            len,
            c,
            r,
            0,
        ) + tap_weight(r, 0) * clamped_val(s, start, step, len, c - r));
        assert(tri_sum_part(s, start, step, len, c, r, 0) == 0);
        assert(tri_sum_part(s, start, step, len, c, r - 1, 0) == 0);
        assert(box_sum(s, start, step, len, c - r, 1) == box_sum(s, start, step, len, c - r, 0)
            + clamped_val(s, start, step, len, c - r));
        assert(box_sum(s, start, step, len, c - r, 0) == 0);
        assert(tap_weight(r, 0) == 1);
        vstd::arithmetic::mul::lemma_mul_basics(clamped_val(s, start, step, len, c - r));
        assert(tap_weight(r, 0) * clamped_val(s, start, step, len, c - r) == clamped_val(
            s,
            start,
            step,
            len,
            c - r,
        ));
        assert(tri_sum_part(s, start, step, len, c, r, n + 1) == tri_sum_part(
            s,
            start,
            step,
            len,
            c,
            r - 1,
            n,
        ) + box_sum(s, start, step, len, c - r, n + 1));
    } else {
        lemma_tri_peel_part(s, start, step, len, c, r, n - 1);
        let v = clamped_val(s, start, step, len, c - r + n);
        assert(tri_sum_part(s, start, step, len, c, r, n + 1) == tri_sum_part(
            s,
            start,
            step,
            len,
            c,
            r,
            n,
        ) + tap_weight(r, n) * v);
        assert(c - (r - 1) + (n - 1) == c - r + n);
        assert(tri_sum_part(s, start, step, len, c, r - 1, n) == tri_sum_part(
            s,
            start,
            step,
            len,
            c,
            r - 1,
            n - 1,
        ) + tap_weight(r - 1, n - 1) * v);
        assert(box_sum(s, start, step, len, c - r, n + 1) == box_sum(s, start, step, len, c - r, n)
            + v);
        assert(tap_weight(r, n) == tap_weight(r - 1, n - 1) + 1);
        vstd::arithmetic::mul::lemma_mul_is_distributive_add_other_way(
            v,
            tap_weight(r - 1, n - 1),
            1,
        );
        vstd::arithmetic::mul::lemma_mul_basics(v);
        assert(tap_weight(r, n) * v == tap_weight(r - 1, n - 1) * v + 1 * v);
    }
}

/// The full form of the peeling identity.
pub proof fn lemma_tri_peel(s: Seq<u8>, start: int, step: int, len: int, c: int, r: int)
    requires
        r >= 1,
    ensures
        tri_sum(s, start, step, len, c, r) == tri_sum(s, start, step, len, c, r - 1) + box_sum(
            s,
            start,
            step,
            len,
            c - r,
            2 * r + 1,
        ),
{
    lemma_tri_peel_part(s, start, step, len, c, r, 2 * r - 1);
    let v = clamped_val(s, start, step, len, c + r);
    assert(tri_sum_part(s, start, step, len, c, r, 2 * r + 1) == tri_sum_part(
        s,
        start,
        step,
        len,
        c,
        r,
        2 * r,
    ) + tap_weight(r, 2 * r) * v);
    assert(tap_weight(r, 2 * r) == 1);
    vstd::arithmetic::mul::lemma_mul_basics(v);
    assert(box_sum(s, start, step, len, c - r, 2 * r + 1) == box_sum(
        s,
        start,
        step,
        len,
        c - r,
        2 * r,
    ) + v);
}

/// Sliding the whole triangular window one sample to the right adds the
/// box of samples ending at the new center and removes the box of
/// samples that the window has left behind.
pub proof fn lemma_tri_slide(s: Seq<u8>, start: int, step: int, len: int, c: int, r: int)
    requires
        r >= 0,
    ensures
        tri_sum(s, start, step, len, c, r) - tri_sum(s, start, step, len, c - 1, r) == box_sum(
            s,
            start,
            step,
            len,
            c,
            r + 1,
        ) - box_sum(s, start, step, len, c - 1 - r, r + 1),
    decreases r,
{
    if r == 0 {
        let vc = clamped_val(s, start, step, len, c);
        let vp = clamped_val(s, start, step, len, c - 1);
        vstd::arithmetic::mul::lemma_mul_basics(vc);
        vstd::arithmetic::mul::lemma_mul_basics(vp);
        assert(tri_sum_part(s, start, step, len, c, 0, 1) == tri_sum_part(
            s,
            start,
            step,
            len,
            c,
            0,
            0,
        ) + tap_weight(0, 0) * vc);
        assert(tri_sum_part(s, start, step, len, c, 0, 0) == 0);
        assert(tri_sum_part(s, start, step, len, c - 1, 0, 1) == tri_sum_part(
            s,
            start,
            step,
            len,
            c - 1,
            0,
            0,
        ) + tap_weight(0, 0) * vp);
        assert(tri_sum_part(s, start, step, len, c - 1, 0, 0) == 0);
        assert(box_sum(s, start, step, len, c, 1) == box_sum(s, start, step, len, c, 0) + vc);
        assert(box_sum(s, start, step, len, c, 0) == 0);
        assert(box_sum(s, start, step, len, c - 1, 1) == box_sum(s, start, step, len, c - 1, 0)
            + vp);
        assert(box_sum(s, start, step, len, c - 1, 0) == 0);
    } else {
        lemma_tri_slide(s, start, step, len, c, r - 1);
        lemma_tri_peel(s, start, step, len, c, r);
        lemma_tri_peel(s, start, step, len, c - 1, r);
        // The two outer boxes differ by their end samples.
        lemma_box_sum_shift(s, start, step, len, c - 1 - r, 2 * r + 1);
        // Reshape the four half-width boxes into the two full-width ones.
        assert(box_sum(s, start, step, len, c, r + 1) == box_sum(s, start, step, len, c, r)
            + clamped_val(s, start, step, len, c + r));
        lemma_box_sum_front(s, start, step, len, c - 1 - r, r + 1);
    }
}

/// A box that lies entirely before the start of the line reads the
/// first sample at every position.
pub proof fn lemma_box_sum_all_left(s: Seq<u8>, start: int, step: int, len: int, lo: int, n: int)
    requires
        len >= 1,
        n >= 0,
        lo + n <= 0,
    ensures
        box_sum(s, start, step, len, lo, n) == n * clamped_val(s, start, step, len, 0),
    decreases n,
{
    let v0 = clamped_val(s, start, step, len, 0);
    vstd::arithmetic::mul::lemma_mul_basics(v0);
    if n == 0 {
    } else {
        lemma_box_sum_all_left(s, start, step, len, lo, n - 1);
        assert(clamped_val(s, start, step, len, lo + n - 1) == v0);
        vstd::arithmetic::mul::lemma_mul_is_distributive_add_other_way(v0, n - 1, 1);
    }
}

/// Over the head of the line, every tap of a window centered on the
/// first sample is clamped back to that sample.
proof fn lemma_tri_head(s: Seq<u8>, start: int, step: int, len: int, r: int, n: int)
    requires
        len >= 1,
        0 <= n <= r,
    ensures
        tri_sum_part(s, start, step, len, 0, r, n) == tri_number(n) * clamped_val(
            s,
            start,
            step,
            len,
            0,
        ),
    decreases n,
{
    let v0 = clamped_val(s, start, step, len, 0);
    vstd::arithmetic::mul::lemma_mul_basics(v0);
    if n == 0 {
    } else {
        lemma_tri_head(s, start, step, len, r, n - 1);
        assert(tap_weight(r, n - 1) == n);
        assert(clamped_val(s, start, step, len, 0 - r + n - 1) == v0);
        assert(tri_number(n) == tri_number(n - 1) + n);
        vstd::arithmetic::mul::lemma_mul_is_distributive_add_other_way(v0, tri_number(n - 1), n);
    }
}

/// Past the head, the window centered on the first sample reads the
/// ramp of weights `r + 1, r, ..` over the samples ahead of it.
proof fn lemma_tri_from_start(s: Seq<u8>, start: int, step: int, len: int, r: int, n: int)
    requires
        len >= 1,
        0 <= r,
        r <= n <= 2 * r + 1,
    ensures
        tri_sum_part(s, start, step, len, 0, r, n) == tri_number(r) * clamped_val(
            s,
            start,
            step,
            len,
            0,
        ) + ramp_sum(s, start, step, len, r + 1, n - r),
    decreases n,
{
    if n == r {
        lemma_tri_head(s, start, step, len, r, n);
        assert(ramp_sum(s, start, step, len, r + 1, 0) == 0);
    } else {
        lemma_tri_from_start(s, start, step, len, r, n - 1);
        assert(tap_weight(r, n - 1) == 2 * r + 2 - n);
        assert(tri_sum_part(s, start, step, len, 0, r, n) == tri_sum_part(
            s,
            start,
            step,
            len,
            0,
            r,
            n - 1,
        ) + tap_weight(r, n - 1) * clamped_val(s, start, step, len, 0 - r + n - 1));
        assert(ramp_sum(s, start, step, len, r + 1, n - r) == ramp_sum(
            s,
            start,
            step,
            len,
            r + 1,
            n - r - 1,
        ) + (r + 1 - (n - r - 1)) * clamped_val(s, start, step, len, n - r - 1));
        assert(r + 1 - (n - r - 1) == 2 * r + 2 - n);
    }
}

/// Widening every ramp weight by one adds one plain box of the same
/// samples.
proof fn lemma_ramp_widen(s: Seq<u8>, start: int, step: int, len: int, w: int, n: int)
    requires
        n >= 0,
    ensures
        ramp_sum(s, start, step, len, w + 1, n) == ramp_sum(s, start, step, len, w, n) + box_sum(
            s,
            start,
            step,
            len,
            0,
            n,
        ),
    decreases n,
{
    if n == 0 {
    } else {
        lemma_ramp_widen(s, start, step, len, w, n - 1);
        let v = clamped_val(s, start, step, len, n - 1);
        vstd::arithmetic::mul::lemma_mul_basics(v);
        vstd::arithmetic::mul::lemma_mul_is_distributive_add_other_way(v, w - (n - 1), 1);
        assert((w + 1 - (n - 1)) * v == (w - (n - 1)) * v + 1 * v);
    }
}

/// The seeded running sum, once the first window's box of new samples
/// has entered and the all-edge box behind the start has left, is
/// exactly the triangular sum of the window centered on the first
/// sample.
pub proof fn lemma_seed(s: Seq<u8>, start: int, step: int, len: int, r: int)
    requires
        len >= 1,
        r >= 0,
    ensures
        seed_sum(s, start, step, len, r) + box_sum(s, start, step, len, 0, r + 1) - box_sum(
            s,
            start,
            step,
            len,
            -1 - r,
            r + 1,
        ) == tri_sum(s, start, step, len, 0, r),
{
    let v0 = clamped_val(s, start, step, len, 0);
    lemma_box_sum_all_left(s, start, step, len, -1 - r, r + 1);
    lemma_tri_from_start(s, start, step, len, r, 2 * r + 1);
    lemma_ramp_widen(s, start, step, len, r, r + 1);
    // The widest ramp weight at its own end is zero.
    assert(ramp_sum(s, start, step, len, r, r + 1) == ramp_sum(s, start, step, len, r, r) + (r
        - r) * clamped_val(s, start, step, len, r));
    vstd::arithmetic::mul::lemma_mul_basics(clamped_val(s, start, step, len, r));
    assert(tri_number(r + 1) == tri_number(r) + (r + 1));
    vstd::arithmetic::mul::lemma_mul_is_distributive_add_other_way(v0, tri_number(r), r + 1);
}

/// The closed form of the triangle numbers, stated without division.
pub proof fn lemma_tri_number_doubled(n: int)
    requires
        n >= 0,
    ensures
        2 * tri_number(n) == n * (n + 1),
    decreases n,
{
    if n == 0 {
        vstd::arithmetic::mul::lemma_mul_basics(n + 1);
    } else {
        lemma_tri_number_doubled(n - 1);
        assert((n - 1) * n + 2 * n == n * (n + 1)) by (nonlinear_arith);
    }
}

/// The first `n` tap weights in closed (doubled) form, past the head.
proof fn lemma_weight_total_tail(r: int, n: int)
    requires
        0 <= r,
        r <= n <= 2 * r + 1,
    ensures
        2 * weight_total(r, n) == r * (r + 1) + (n - r) * (3 * r + 3 - n),
    decreases n,
{
    if n == r {
        lemma_weight_total_head(r, n);
        lemma_tri_number_doubled(r);
        vstd::arithmetic::mul::lemma_mul_basics(3 * r + 3 - n);
    } else {
        lemma_weight_total_tail(r, n - 1);
        assert(tap_weight(r, n - 1) == 2 * r + 2 - n);
        assert((n - 1 - r) * (3 * r + 3 - (n - 1)) + 2 * (2 * r + 2 - n) == (n - r) * (3 * r + 3
            - n)) by (nonlinear_arith);
    }
}

/// Over the head, the tap weights are the triangle numbers.
proof fn lemma_weight_total_head(r: int, n: int)
    requires
        0 <= n <= r,
    ensures
        weight_total(r, n) == tri_number(n),
    decreases n,
{
    if n == 0 {
    } else {
        lemma_weight_total_head(r, n - 1);
        assert(tap_weight(r, n - 1) == n);
    }
}

/// All the tap weights of the kernel of half-width `r` add up to its
/// area.
pub proof fn lemma_weight_total_is_area(r: int)
    requires
        r >= 0,
    ensures
        weight_total(r, 2 * r + 1) == area(r),
{
    lemma_weight_total_tail(r, 2 * r + 1);
    assert(r * (r + 1) + (r + 1) * (r + 2) == 2 * ((r + 1) * (r + 1))) by (nonlinear_arith);
}

/// A partial triangular sum is bounded by the weights it has consumed.
proof fn lemma_tri_sum_part_bounds(
    s: Seq<u8>,
    start: int,
    step: int,
    len: int,
    c: int,
    r: int,
    n: int,
)
    requires
        r >= 0,
        0 <= n <= 2 * r + 1,
    ensures
        0 <= tri_sum_part(s, start, step, len, c, r, n) <= 255 * weight_total(r, n),
    decreases n,
{
    if n == 0 {
    } else {
        lemma_tri_sum_part_bounds(s, start, step, len, c, r, n - 1);
        let w = tap_weight(r, n - 1);
        let v = clamped_val(s, start, step, len, c - r + n - 1);
        assert(1 <= w <= r + 1);
        vstd::arithmetic::mul::lemma_mul_nonnegative(w, v);
        vstd::arithmetic::mul::lemma_mul_inequality(v, 255, w);
        vstd::arithmetic::mul::lemma_mul_is_commutative(w, v);
    }
}

/// The triangular sum of any window lies between zero and the largest
/// sample value times the kernel area.
pub proof fn lemma_tri_sum_bounds(s: Seq<u8>, start: int, step: int, len: int, c: int, r: int)
    requires
        r >= 0,
    ensures
        0 <= tri_sum(s, start, step, len, c, r) <= 255 * area(r),
{
    lemma_tri_sum_part_bounds(s, start, step, len, c, r, 2 * r + 1);
    lemma_weight_total_is_area(r);
}

/// A ramp of weights `w, w - 1, ..` over `n` samples is bounded by the
/// largest sample value times the weights it spends.
proof fn lemma_ramp_sum_bounds(s: Seq<u8>, start: int, step: int, len: int, w: int, n: int)
    requires
        0 <= n <= w,
    ensures
        0 <= ramp_sum(s, start, step, len, w, n) <= 255 * (tri_number(w) - tri_number(w - n)),
    decreases n,
{
    if n == 0 {
    } else {
        lemma_ramp_sum_bounds(s, start, step, len, w, n - 1);
        let v = clamped_val(s, start, step, len, n - 1);
        assert(tri_number(w - n + 1) == tri_number(w - n) + (w - n + 1));
        vstd::arithmetic::mul::lemma_mul_nonnegative(w - (n - 1), v);
        vstd::arithmetic::mul::lemma_mul_inequality(v, 255, w - (n - 1));
        vstd::arithmetic::mul::lemma_mul_is_commutative(w - (n - 1), v);
    }
}

/// The seeded running sum never exceeds what a window full of the
/// largest sample value reaches.
pub proof fn lemma_seed_sum_bounds(s: Seq<u8>, start: int, step: int, len: int, r: int)
    requires
        r >= 0,
    ensures
        0 <= seed_sum(s, start, step, len, r) <= 255 * area(r),
{
    let v0 = clamped_val(s, start, step, len, 0);
    lemma_ramp_sum_bounds(s, start, step, len, r, r);
    vstd::arithmetic::mul::lemma_mul_nonnegative(tri_number(r + 1), v0);
    vstd::arithmetic::mul::lemma_mul_inequality(v0, 255, tri_number(r + 1));
    vstd::arithmetic::mul::lemma_mul_is_commutative(tri_number(r + 1), v0);
    lemma_tri_number_doubled(r);
    lemma_tri_number_doubled(r + 1);
    assert(r * (r + 1) + (r + 1) * (r + 2) == 2 * ((r + 1) * (r + 1))) by (nonlinear_arith);
}

/// Every sample position of a well-formed line lies inside the buffer.
pub proof fn lemma_line_index_ok(buf_len: int, start: int, step: int, len: int, j: int)
    requires
        line_ok(buf_len, start, step, len),
        0 <= j < len,
    ensures
        0 <= start + j * step < buf_len,
{
    vstd::arithmetic::mul::lemma_mul_inequality(j, len - 1, step);
    vstd::arithmetic::mul::lemma_mul_nonnegative(j, step);
}

/// The sample positions of a line are on it, and each at its own spot.
pub proof fn lemma_line_position(start: int, step: int, len: int, j: int)
    requires
        0 <= start,
        1 <= step,
        0 <= j < len,
    ensures
        on_line(start, step, len, start + j * step),
        (start + j * step - start) / step == j,
{
    vstd::arithmetic::div_mod::lemma_mod_multiples_basic(j, step);
    vstd::arithmetic::div_mod::lemma_div_by_multiple(j, step);
    vstd::arithmetic::mul::lemma_mul_nonnegative(j, step);
}

/// A window of half-width zero reads exactly its center sample.
pub proof fn lemma_tri_single(s: Seq<u8>, start: int, step: int, len: int, c: int)
    ensures
        tri_sum(s, start, step, len, c, 0) == clamped_val(s, start, step, len, c),
{
    let v = clamped_val(s, start, step, len, c);
    vstd::arithmetic::mul::lemma_mul_basics(v);
    assert(tri_sum_part(s, start, step, len, c, 0, 1) == tri_sum_part(s, start, step, len, c, 0, 0)
        + tap_weight(0, 0) * v);
    assert(tri_sum_part(s, start, step, len, c, 0, 0) == 0);
}

/// Over a window whose clamped samples are all one value, the
/// triangular sum is that value times the kernel area.
proof fn lemma_tri_sum_part_const(
    s: Seq<u8>,
    start: int,
    step: int,
    len: int,
    c: int,
    r: int,
    n: int,
    v: int,
)
    requires
        r >= 0,
        0 <= n <= 2 * r + 1,
        forall|j: int| c - r <= j <= c + r ==> clamped_val(s, start, step, len, j) == v,
    ensures
        tri_sum_part(s, start, step, len, c, r, n) == weight_total(r, n) * v,
    decreases n,
{
    vstd::arithmetic::mul::lemma_mul_basics(v);
    if n == 0 {
    } else {
        lemma_tri_sum_part_const(s, start, step, len, c, r, n - 1, v);
        assert(clamped_val(s, start, step, len, c - r + n - 1) == v);
        vstd::arithmetic::mul::lemma_mul_is_distributive_add_other_way(
            v,
            weight_total(r, n - 1),
            tap_weight(r, n - 1),
        );
    }
}

/// The full form: a constant window sums to the constant times the
/// area.
pub proof fn lemma_tri_sum_const(
    s: Seq<u8>,
    start: int,
    step: int,
    len: int,
    c: int,
    r: int,
    v: int,
)
    requires
        r >= 0,
        forall|j: int| c - r <= j <= c + r ==> clamped_val(s, start, step, len, j) == v,
    ensures
        tri_sum(s, start, step, len, c, r) == area(r) * v,
{
    lemma_tri_sum_part_const(s, start, step, len, c, r, 2 * r + 1, v);
    lemma_weight_total_is_area(r);
}

/// Between two lines whose raw samples agree position for position,
/// every triangular sum agrees too.
pub proof fn lemma_tri_congruent(
    s1: Seq<u8>,
    start1: int,
    step1: int,
    s2: Seq<u8>,
    start2: int,
    step2: int,
    len: int,
    c: int,
    r: int,
    n: int,
)
    requires
        len >= 1,
        r >= 0,
        0 <= n <= 2 * r + 1,
        forall|j: int| 0 <= j < len ==> line_val(s1, start1, step1, j) == line_val(
            s2,
            start2,
            step2,
            j,
        ),
    ensures
        tri_sum_part(s1, start1, step1, len, c, r, n) == tri_sum_part(
            s2,
            start2,
            step2,
            len,
            c,
            r,
            n,
        ),
    decreases n,
{
    if n == 0 {
    } else {
        lemma_tri_congruent(s1, start1, step1, s2, start2, step2, len, c, r, n - 1);
        let j = c - r + n - 1;
        assert(0 <= clamp_idx(j, len) < len);
        assert(clamped_val(s1, start1, step1, len, j) == clamped_val(s2, start2, step2, len, j));
    }
}

/// A box slid to the right over a non-decreasing line never shrinks.
proof fn lemma_box_sum_mono(
    s: Seq<u8>,
    start: int,
    step: int,
    len: int,
    lo1: int,
    lo2: int,
    n: int,
)
    requires
        len >= 1,
        n >= 0,
        lo1 <= lo2,
        forall|a: int, b: int|
            0 <= a <= b < len ==> line_val(s, start, step, a) <= line_val(s, start, step, b),
    ensures
        box_sum(s, start, step, len, lo1, n) <= box_sum(s, start, step, len, lo2, n),
    decreases n,
{
    if n == 0 {
    } else {
        lemma_box_sum_mono(s, start, step, len, lo1, lo2, n - 1);
        let a = clamp_idx(lo1 + n - 1, len);
        let b = clamp_idx(lo2 + n - 1, len);
        assert(0 <= a <= b < len);
        assert(clamped_val(s, start, step, len, lo1 + n - 1) <= clamped_val(
            s,
            start,
            step,
            len,
            lo2 + n - 1,
        ));
    }
}

/// Triangular sums over a non-decreasing line are non-decreasing in
/// the window's center.
pub proof fn lemma_tri_sum_mono(
    s: Seq<u8>,
    start: int,
    step: int,
    len: int,
    c1: int,
    c2: int,
    r: int,
)
    requires
        len >= 1,
        r >= 0,
        c1 <= c2,
        forall|a: int, b: int|
            0 <= a <= b < len ==> line_val(s, start, step, a) <= line_val(s, start, step, b),
    ensures
        tri_sum(s, start, step, len, c1, r) <= tri_sum(s, start, step, len, c2, r),
    decreases c2 - c1,
{
    if c1 == c2 {
    } else {
        lemma_tri_sum_mono(s, start, step, len, c1, c2 - 1, r);
        lemma_tri_slide(s, start, step, len, c2, r);
        lemma_box_sum_mono(s, start, step, len, c2 - 1 - r, c2, r + 1);
    }
}

} // verus!
