//! Laws of the blur, stated over the model and proved once for every
//! input: radius zero is the identity, a single pixel is left alone
//! whatever the radius, a step edge blurs into a monotone ramp that is
//! exact outside the kernel's reach, and channels never mix.

use vstd::prelude::*;

use crate::grid::{
    blur_spec, hline_start, hpass_spec, hpass_val, ich, ix, iy, lemma_hline_ok,
    lemma_index_decompose, lemma_pix_compose, lemma_vline_ok, pix, vline_start, vpass_val,
};
use crate::model::{area, clamp_idx, clamped_val, line_blurred, line_val, tri_sum};
use crate::sums::{
    lemma_line_index_ok, lemma_tri_congruent, lemma_tri_single, lemma_tri_sum_bounds,
    lemma_tri_sum_const, lemma_tri_sum_mono,
};

verus! {

/// Blurring with radius zero returns every buffer unchanged.
pub proof fn lemma_radius_zero_identity(s: Seq<u8>, w: int, h: int, c: int)
    requires
        w >= 1,
        h >= 1,
        c >= 1,
        s.len() == w * h * c,
    ensures
        blur_spec(s, w, h, c, 0) == s,
{
    let m = hpass_spec(s, w, h, c, 0);
    assert forall|i: int| 0 <= i < w * h * c implies blur_spec(s, w, h, c, 0)[i] == s[i] by {
        lemma_index_decompose(i, w, h, c);
        let x = ix(i, w, c);
        let y = iy(i, w, c);
        let ch = ich(i, c);
        lemma_hline_ok(w, h, c, y, ch);
        lemma_vline_ok(w, h, c, x, ch);
        let hst = hline_start(w, c, y, ch);
        let vst = vline_start(c, x, ch);
        // The horizontal pass leaves the byte itself.
        lemma_tri_single(s, hst, c, w, x);
        assert(clamp_idx(x, w) == x);
        assert(hst + x * c == pix(w, c, x, y, ch));
        vstd::arithmetic::mul::lemma_mul_basics(1);
        assert(area(0) == 1);
        assert(tri_sum(s, hst, c, w, x, 0) == s[i] as int);
        vstd::arithmetic::div_mod::lemma_div_basics(s[i] as int);
        assert(m[i] == hpass_val(s, w, c, 0, i));
        assert(hpass_val(s, w, c, 0, i) == s[i]);
        // So does the vertical pass.
        lemma_tri_single(m, vst, w * c, h, y);
        assert(clamp_idx(y, h) == y);
        assert(vst + y * (w * c) == pix(w, c, x, y, ch));
        vstd::arithmetic::div_mod::lemma_div_basics(m[i] as int);
        assert(blur_spec(s, w, h, c, 0)[i] == vpass_val(m, w, h, c, 0, i));
        assert(vpass_val(m, w, h, c, 0, i) == m[i]);
    }
    assert(blur_spec(s, w, h, c, 0) =~= s);
}

/// Blurring a single-pixel image returns it unchanged, whatever the
/// radius: every tap clamps back to the only pixel there is.
pub proof fn lemma_single_pixel_identity(s: Seq<u8>, c: int, r: int)
    requires
        c >= 1,
        0 <= r,
        s.len() == c,
    ensures
        blur_spec(s, 1, 1, c, r) == s,
{
    let m = hpass_spec(s, 1, 1, c, r);
    assert(1 * 1 * c == c) by (nonlinear_arith);
    assert(area(r) >= 1) by (nonlinear_arith)
        requires
            r >= 0,
            area(r) == (r + 1) * (r + 1),
    ;
    assert forall|i: int| 0 <= i < c implies blur_spec(s, 1, 1, c, r)[i] == s[i] by {
        lemma_index_decompose(i, 1, 1, c);
        let ch = ich(i, c);
        lemma_hline_ok(1, 1, c, 0, ch);
        lemma_vline_ok(1, 1, c, 0, ch);
        let hst = hline_start(1, c, 0, ch);
        let vst = vline_start(c, 0, ch);
        assert(hst + 0 * c == pix(1, c, 0, 0, ch));
        assert(vst + 0 * (1 * c) == pix(1, c, 0, 0, ch));
        assert(i == pix(1, c, 0, 0, ch));
        // Every clamped sample of the one-sample row line is the byte.
        assert forall|j: int| #[trigger] clamped_val(s, hst, c, 1, j) == s[i] as int by {
            assert(clamp_idx(j, 1) == 0);
            vstd::arithmetic::mul::lemma_mul_basics(c);
        }
        lemma_tri_sum_const(s, hst, c, 1, 0, r, s[i] as int);
        vstd::arithmetic::div_mod::lemma_div_multiples_vanish(s[i] as int, area(r));
        assert(m[i] == hpass_val(s, 1, c, r, i));
        assert(hpass_val(s, 1, c, r, i) == s[i]);
        // And of the one-sample column line of the intermediate.
        assert forall|j: int| #[trigger] clamped_val(m, vst, 1 * c, 1, j) == m[i] as int by {
            assert(clamp_idx(j, 1) == 0);
            vstd::arithmetic::mul::lemma_mul_basics(1 * c);
        }
        lemma_tri_sum_const(m, vst, 1 * c, 1, 0, r, m[i] as int);
        vstd::arithmetic::div_mod::lemma_div_multiples_vanish(m[i] as int, area(r));
        assert(blur_spec(s, 1, 1, c, r)[i] == vpass_val(m, 1, 1, c, r, i));
        assert(vpass_val(m, 1, 1, c, r, i) == m[i]);
    }
    assert(blur_spec(s, 1, 1, c, r) =~= s);
}

/// On a single-row, single-channel image the whole blur reduces to
/// the horizontal line blur: the vertical pass sees one-sample
/// columns and leaves them alone.
proof fn lemma_row_image(s: Seq<u8>, w: int, r: int, x: int)
    requires
        w >= 1,
        0 <= r,
        s.len() == w,
        0 <= x < w,
    ensures
        blur_spec(s, w, 1, 1, r)[x] == line_blurred(s, 0, 1, w, x, r) as u8,
{
    let m = hpass_spec(s, w, 1, 1, r);
    assert(w * 1 * 1 == w) by (nonlinear_arith);
    assert(area(r) >= 1) by (nonlinear_arith)
        requires
            r >= 0,
            area(r) == (r + 1) * (r + 1),
    ;
    let i = pix(w, 1, x, 0, 0);
    vstd::arithmetic::mul::lemma_mul_basics(w);
    vstd::arithmetic::mul::lemma_mul_basics(x);
    vstd::arithmetic::mul::lemma_mul_basics(w * 1);
    assert(i == x);
    lemma_pix_compose(w, 1, x, 0, 0);
    lemma_hline_ok(w, 1, 1, 0, 0);
    lemma_vline_ok(w, 1, 1, x, 0);
    let hst = hline_start(w, 1, 0, 0);
    assert(hst == 0);
    assert(m[x] == hpass_val(s, w, 1, r, x));
    assert(hpass_val(s, w, 1, r, x) == line_blurred(s, 0, 1, w, x, r) as u8);
    // The vertical pass leaves the one-sample column alone.
    let vst = vline_start(1, x, 0);
    assert(vst == x);
    assert forall|j: int| #[trigger] clamped_val(m, vst, w * 1, 1, j) == m[x] as int by {
        assert(clamp_idx(j, 1) == 0);
        vstd::arithmetic::mul::lemma_mul_basics(w * 1);
    }
    lemma_tri_sum_const(m, vst, w * 1, 1, 0, r, m[x] as int);
    vstd::arithmetic::div_mod::lemma_div_multiples_vanish(m[x] as int, area(r));
    assert(blur_spec(s, w, 1, 1, r)[x] == vpass_val(m, w, 1, 1, r, x));
    assert(vpass_val(m, w, 1, 1, r, x) == m[x]);
}

/// Blurring a step edge: the output is monotone from left to right,
/// stays exactly zero wherever the window cannot reach the step, and
/// exactly full wherever the window is past it.
pub proof fn lemma_step_edge(s: Seq<u8>, w: int, split: int, r: int)
    requires
        s.len() == w,
        w >= 1,
        0 <= r,
        0 < split < w,
        forall|x: int| 0 <= x < split ==> s[x] == 0,
        forall|x: int| split <= x < w ==> s[x] == 255,
    ensures
        forall|x1: int, x2: int|
            0 <= x1 <= x2 < w ==> #[trigger] blur_spec(s, w, 1, 1, r)[x1] <= #[trigger] blur_spec(
                s,
                w,
                1,
                1,
                r,
            )[x2],
        forall|x: int| 0 <= x < w && x + r < split ==> #[trigger] blur_spec(s, w, 1, 1, r)[x] == 0,
        forall|x: int|
            0 <= x < w && split + r <= x ==> #[trigger] blur_spec(s, w, 1, 1, r)[x] == 255,
{
    assert(area(r) >= 1) by (nonlinear_arith)
        requires
            r >= 0,
            area(r) == (r + 1) * (r + 1),
    ;
    // The row is its own line: sample j is s[j].
    assert forall|j: int| #[trigger] line_val(s, 0, 1, j) == s[j] as int by {
        vstd::arithmetic::mul::lemma_mul_basics(j);
    }
    // Left of the step the whole window reads zero.
    assert forall|x: int| 0 <= x < w && x + r < split implies #[trigger] blur_spec(
        s,
        w,
        1,
        1,
        r,
    )[x] == 0 by {
        lemma_row_image(s, w, r, x);
        assert forall|j: int| x - r <= j <= x + r implies clamped_val(s, 0, 1, w, j) == 0 by {
            assert(0 <= clamp_idx(j, w) < split);
        }
        lemma_tri_sum_const(s, 0, 1, w, x, r, 0);
        vstd::arithmetic::mul::lemma_mul_basics(area(r));
        vstd::arithmetic::div_mod::lemma_div_of0(area(r));
    }
    // Right of the step the whole window reads full value.
    assert forall|x: int| 0 <= x < w && split + r <= x implies #[trigger] blur_spec(
        s,
        w,
        1,
        1,
        r,
    )[x] == 255 by {
        lemma_row_image(s, w, r, x);
        assert forall|j: int| x - r <= j <= x + r implies clamped_val(s, 0, 1, w, j) == 255 by {
            assert(split <= clamp_idx(j, w) < w);
        }
        lemma_tri_sum_const(s, 0, 1, w, x, r, 255);
        vstd::arithmetic::div_mod::lemma_div_multiples_vanish(255, area(r));
    }
    // And in between the output never decreases.
    assert forall|x1: int, x2: int| 0 <= x1 <= x2 < w implies #[trigger] blur_spec(
        s,
        w,
        1,
        1,
        r,
    )[x1] <= #[trigger] blur_spec(s, w, 1, 1, r)[x2] by {
        lemma_row_image(s, w, r, x1);
        lemma_row_image(s, w, r, x2);
        assert forall|a: int, b: int| 0 <= a <= b < w implies #[trigger] line_val(s, 0, 1, a)
            <= #[trigger] line_val(s, 0, 1, b) by {
            assert(s[a] as int <= s[b] as int);
        }
        lemma_tri_sum_mono(s, 0, 1, w, x1, x2, r);
        lemma_tri_sum_bounds(s, 0, 1, w, x1, r);
        lemma_tri_sum_bounds(s, 0, 1, w, x2, r);
        vstd::arithmetic::div_mod::lemma_div_is_ordered(
            tri_sum(s, 0, 1, w, x1, r),
            tri_sum(s, 0, 1, w, x2, r),
            area(r),
        );
        vstd::arithmetic::div_mod::lemma_div_is_ordered(
            tri_sum(s, 0, 1, w, x2, r),
            255 * area(r),
            area(r),
        );
        vstd::arithmetic::mul::lemma_mul_is_commutative(255, area(r));
        vstd::arithmetic::div_mod::lemma_div_multiples_vanish(255, area(r));
        vstd::arithmetic::div_mod::lemma_div_pos_is_pos(tri_sum(s, 0, 1, w, x1, r), area(r));
    }
}

/// Channels never mix: if two buffers of any two channel counts agree
/// on one channel, pixel for pixel, their blurs agree on that channel
/// too — whatever the other channels hold.
pub proof fn lemma_channel_independence(
    s1: Seq<u8>,
    s2: Seq<u8>,
    w: int,
    h: int,
    c1: int,
    c2: int,
    ch1: int,
    ch2: int,
    r: int,
)
    requires
        w >= 1,
        h >= 1,
        c1 >= 1,
        c2 >= 1,
        0 <= ch1 < c1,
        0 <= ch2 < c2,
        0 <= r,
        s1.len() == w * h * c1,
        s2.len() == w * h * c2,
        forall|x: int, y: int|
            0 <= x < w && 0 <= y < h ==> #[trigger] s1[pix(w, c1, x, y, ch1)] == s2[pix(
                w,
                c2,
                x,
                y,
                ch2,
            )],
    ensures
        forall|x: int, y: int|
            0 <= x < w && 0 <= y < h ==> #[trigger] blur_spec(s1, w, h, c1, r)[pix(
                w,
                c1,
                x,
                y,
                ch1,
            )] == blur_spec(s2, w, h, c2, r)[pix(w, c2, x, y, ch2)],
{
    let m1 = hpass_spec(s1, w, h, c1, r);
    let m2 = hpass_spec(s2, w, h, c2, r);

    // The horizontal pass of each buffer reads only the shared
    // channel, so the intermediates agree on it.
    assert forall|x: int, y: int| 0 <= x < w && 0 <= y < h implies #[trigger] m1[pix(
        w,
        c1,
        x,
        y,
        ch1,
    )] == m2[pix(w, c2, x, y, ch2)] by {
        lemma_hline_ok(w, h, c1, y, ch1);
        lemma_hline_ok(w, h, c2, y, ch2);
        lemma_pix_compose(w, c1, x, y, ch1);
        lemma_pix_compose(w, c2, x, y, ch2);
        let st1 = hline_start(w, c1, y, ch1);
        let st2 = hline_start(w, c2, y, ch2);
        assert forall|j: int| 0 <= j < w implies #[trigger] line_val(s1, st1, c1, j) == line_val(
            s2,
            st2,
            c2,
            j,
        ) by {
            assert(st1 + j * c1 == pix(w, c1, j, y, ch1));
            assert(st2 + j * c2 == pix(w, c2, j, y, ch2));
            assert(s1[pix(w, c1, j, y, ch1)] == s2[pix(w, c2, j, y, ch2)]);
        }
        lemma_tri_congruent(s1, st1, c1, s2, st2, c2, w, x, r, 2 * r + 1);
        lemma_line_index_ok(w * h * c1, st1, c1, w, x);
        lemma_line_index_ok(w * h * c2, st2, c2, w, x);
        assert(m1[pix(w, c1, x, y, ch1)] == hpass_val(s1, w, c1, r, pix(w, c1, x, y, ch1)));
        assert(m2[pix(w, c2, x, y, ch2)] == hpass_val(s2, w, c2, r, pix(w, c2, x, y, ch2)));
    }

    // The vertical pass reads only that channel of the intermediates.
    assert forall|x: int, y: int| 0 <= x < w && 0 <= y < h implies #[trigger] blur_spec(
        s1,
        w,
        h,
        c1,
        r,
    )[pix(w, c1, x, y, ch1)] == blur_spec(s2, w, h, c2, r)[pix(w, c2, x, y, ch2)] by {
        lemma_vline_ok(w, h, c1, x, ch1);
        lemma_vline_ok(w, h, c2, x, ch2);
        lemma_pix_compose(w, c1, x, y, ch1);
        lemma_pix_compose(w, c2, x, y, ch2);
        let vst1 = vline_start(c1, x, ch1);
        let vst2 = vline_start(c2, x, ch2);
        assert forall|j: int| 0 <= j < h implies #[trigger] line_val(m1, vst1, w * c1, j)
            == line_val(m2, vst2, w * c2, j) by {
            assert(vst1 + j * (w * c1) == pix(w, c1, x, j, ch1));
            assert(vst2 + j * (w * c2) == pix(w, c2, x, j, ch2));
            assert(m1[pix(w, c1, x, j, ch1)] == m2[pix(w, c2, x, j, ch2)]);
        }
        lemma_tri_congruent(m1, vst1, w * c1, m2, vst2, w * c2, h, y, r, 2 * r + 1);
        lemma_line_index_ok(w * h * c1, vst1, w * c1, h, y);
        lemma_line_index_ok(w * h * c2, vst2, w * c2, h, y);
        assert(blur_spec(s1, w, h, c1, r)[pix(w, c1, x, y, ch1)] == vpass_val(
            m1,
            w,
            h,
            c1,
            r,
            pix(w, c1, x, y, ch1),
        ));
        assert(blur_spec(s2, w, h, c2, r)[pix(w, c2, x, y, ch2)] == vpass_val(
            m2,
            w,
            h,
            c2,
            r,
            pix(w, c2, x, y, ch2),
        ));
    }
}

} // verus!
