//! The pixel grid: how flat buffer indices decompose into column, row
//! and channel, how each row or column of one channel is a strided
//! line, and what each pass — and the whole two-pass blur — leaves in
//! every byte of the buffer.

use vstd::prelude::*;

use crate::model::{line_blurred, line_ok, on_line};

verus! {

/// The channel a flat index addresses, in a buffer of `c` channels.
pub open spec fn ich(i: int, c: int) -> int {
    i % c
}

/// The column a flat index addresses.
pub open spec fn ix(i: int, w: int, c: int) -> int {
    (i / c) % w
}

/// The row a flat index addresses.
pub open spec fn iy(i: int, w: int, c: int) -> int {
    (i / c) / w
}

/// The flat index of channel `ch` of the pixel at column `x`, row `y`.
pub open spec fn pix(w: int, c: int, x: int, y: int, ch: int) -> int {
    (y * w + x) * c + ch
}

/// Where channel `ch` of row `y` starts; the row's samples are `c`
/// apart and there are `w` of them.
pub open spec fn hline_start(w: int, c: int, y: int, ch: int) -> int {
    y * (w * c) + ch
}

/// Where channel `ch` of column `x` starts; the column's samples are
/// `w * c` apart and there are `h` of them.
pub open spec fn vline_start(c: int, x: int, ch: int) -> int {
    x * c + ch
}

/// What the horizontal pass leaves at flat index `i`: the blurred
/// value of the byte's own row-line at its own column.
pub open spec fn hpass_val(s: Seq<u8>, w: int, c: int, r: int, i: int) -> u8 {
    line_blurred(s, hline_start(w, c, iy(i, w, c), ich(i, c)), c, w, ix(i, w, c), r) as u8
}

/// What the vertical pass leaves at flat index `i`: the blurred value
/// of the byte's own column-line at its own row.
pub open spec fn vpass_val(s: Seq<u8>, w: int, h: int, c: int, r: int, i: int) -> u8 {
    line_blurred(s, vline_start(c, ix(i, w, c), ich(i, c)), w * c, h, iy(i, w, c), r) as u8
}

/// The horizontal pass over the whole buffer.
pub open spec fn hpass_spec(s: Seq<u8>, w: int, h: int, c: int, r: int) -> Seq<u8> {
    Seq::new((w * h * c) as nat, |i: int| hpass_val(s, w, c, r, i))
}

/// The vertical pass over the whole buffer.
pub open spec fn vpass_spec(s: Seq<u8>, w: int, h: int, c: int, r: int) -> Seq<u8> {
    Seq::new((w * h * c) as nat, |i: int| vpass_val(s, w, h, c, r, i))
}

/// The whole blur: the horizontal pass over the input, then the
/// vertical pass over the intermediate buffer.
pub open spec fn blur_spec(s: Seq<u8>, w: int, h: int, c: int, r: int) -> Seq<u8> {
    vpass_spec(hpass_spec(s, w, h, c, r), w, h, c, r)
}

/// A flat index decomposes into its channel, column and row, each in
/// range, and they rebuild it.
pub proof fn lemma_index_decompose(i: int, w: int, h: int, c: int)
    requires
        w >= 1,
        h >= 1,
        c >= 1,
        0 <= i < w * h * c,
    ensures
        0 <= ich(i, c) < c,
        0 <= ix(i, w, c) < w,
        0 <= iy(i, w, c) < h,
        i == pix(w, c, ix(i, w, c), iy(i, w, c), ich(i, c)),
{
    let p = i / c;
    vstd::arithmetic::div_mod::lemma_fundamental_div_mod(i, c);
    vstd::arithmetic::div_mod::lemma_mod_bound(i, c);
    vstd::arithmetic::div_mod::lemma_fundamental_div_mod(p, w);
    vstd::arithmetic::div_mod::lemma_mod_bound(p, w);
    vstd::arithmetic::div_mod::lemma_div_pos_is_pos(i, c);
    vstd::arithmetic::div_mod::lemma_div_pos_is_pos(p, w);
    assert(p < w * h) by (nonlinear_arith)
        requires
            c >= 1,
            w >= 1,
            h >= 1,
            0 <= i < w * h * c,
            i == c * p + i % c,
            0 <= i % c < c,
    ;
    assert(p / w < h) by (nonlinear_arith)
        requires
            w >= 1,
            h >= 1,
            0 <= p < w * h,
            p == w * (p / w) + p % w,
            0 <= p % w < w,
    ;
    assert((iy(i, w, c) * w + ix(i, w, c)) * c + ich(i, c) == i) by (nonlinear_arith)
        requires
            i == c * p + i % c,
            p == w * (p / w) + p % w,
            ich(i, c) == i % c,
            ix(i, w, c) == p % w,
            iy(i, w, c) == p / w,
    ;
}

/// The flat index of a pixel's channel decomposes back to that pixel
/// and channel.
pub proof fn lemma_pix_compose(w: int, c: int, x: int, y: int, ch: int)
    requires
        w >= 1,
        c >= 1,
        0 <= x < w,
        0 <= y,
        0 <= ch < c,
    ensures
        ich(pix(w, c, x, y, ch), c) == ch,
        ix(pix(w, c, x, y, ch), w, c) == x,
        iy(pix(w, c, x, y, ch), w, c) == y,
{
    let q = y * w + x;
    vstd::arithmetic::mul::lemma_mul_nonnegative(y, w);
    vstd::arithmetic::div_mod::lemma_fundamental_div_mod_converse(q * c + ch, c, q, ch);
    vstd::arithmetic::div_mod::lemma_fundamental_div_mod_converse(q, w, y, x);
}

/// Channel `ch` of row `y` is a well-formed line of the buffer, and
/// its sample `j` sits at the flat index of pixel `(j, y)`.
pub proof fn lemma_hline_ok(w: int, h: int, c: int, y: int, ch: int)
    requires
        w >= 1,
        h >= 1,
        c >= 1,
        0 <= y < h,
        0 <= ch < c,
    ensures
        line_ok(w * h * c, hline_start(w, c, y, ch), c, w),
        forall|j: int| hline_start(w, c, y, ch) + j * c == #[trigger] pix(w, c, j, y, ch),
{
    assert(0 <= y * (w * c) && y * (w * c) + (w - 1) * c < w * h * c) by (nonlinear_arith)
        requires
            w >= 1,
            h >= 1,
            c >= 1,
            0 <= y < h,
            0 <= ch < c,
    ;
    assert(y * (w * c) + ch + (w - 1) * c < w * h * c) by (nonlinear_arith)
        requires
            w >= 1,
            h >= 1,
            c >= 1,
            0 <= y < h,
            0 <= ch < c,
    ;
    assert forall|j: int| hline_start(w, c, y, ch) + j * c == #[trigger] pix(w, c, j, y, ch) by {
        assert(y * (w * c) + ch + j * c == (y * w + j) * c + ch) by (nonlinear_arith);
    }
}

/// Channel `ch` of column `x` is a well-formed line of the buffer, and
/// its sample `j` sits at the flat index of pixel `(x, j)`.
pub proof fn lemma_vline_ok(w: int, h: int, c: int, x: int, ch: int)
    requires
        w >= 1,
        h >= 1,
        c >= 1,
        0 <= x < w,
        0 <= ch < c,
    ensures
        line_ok(w * h * c, vline_start(c, x, ch), w * c, h),
        forall|j: int| vline_start(c, x, ch) + j * (w * c) == #[trigger] pix(w, c, x, j, ch),
{
    assert(1 <= w * c && x * c + ch + (h - 1) * (w * c) < w * h * c) by (nonlinear_arith)
        requires
            w >= 1,
            h >= 1,
            c >= 1,
            0 <= x < w,
            0 <= ch < c,
    ;
    assert forall|j: int| vline_start(c, x, ch) + j * (w * c) == #[trigger] pix(w, c, x, j, ch) by {
        assert(x * c + ch + j * (w * c) == (j * w + x) * c + ch) by (nonlinear_arith);
    }
}

/// A flat index is on the line of channel `ch` of row `y` exactly when
/// it addresses that row and that channel.
pub proof fn lemma_hline_membership(w: int, h: int, c: int, y: int, ch: int, i: int)
    requires
        w >= 1,
        h >= 1,
        c >= 1,
        0 <= y < h,
        0 <= ch < c,
        0 <= i < w * h * c,
    ensures
        on_line(hline_start(w, c, y, ch), c, w, i) <==> (iy(i, w, c) == y && ich(i, c) == ch),
        on_line(hline_start(w, c, y, ch), c, w, i) ==> i == hline_start(w, c, y, ch) + ix(
            i,
            w,
            c,
        ) * c,
{
    let st = hline_start(w, c, y, ch);
    lemma_hline_ok(w, h, c, y, ch);
    lemma_index_decompose(i, w, h, c);
    if on_line(st, c, w, i) {
        let j = (i - st) / c;
        vstd::arithmetic::div_mod::lemma_fundamental_div_mod(i - st, c);
        vstd::arithmetic::div_mod::lemma_div_pos_is_pos(i - st, c);
        assert(i == st + j * c) by {
            vstd::arithmetic::mul::lemma_mul_is_commutative(c, j);
        }
        assert(i == pix(w, c, j, y, ch));
        lemma_pix_compose(w, c, j, y, ch);
    }
    if iy(i, w, c) == y && ich(i, c) == ch {
        let j = ix(i, w, c);
        assert(i == pix(w, c, j, y, ch));
        assert(i == st + j * c);
        crate::sums::lemma_line_position(st, c, w, j);
    }
}

/// A flat index is on the line of channel `ch` of column `x` exactly
/// when it addresses that column and that channel.
pub proof fn lemma_vline_membership(w: int, h: int, c: int, x: int, ch: int, i: int)
    requires
        w >= 1,
        h >= 1,
        c >= 1,
        0 <= x < w,
        0 <= ch < c,
        0 <= i < w * h * c,
    ensures
        on_line(vline_start(c, x, ch), w * c, h, i) <==> (ix(i, w, c) == x && ich(i, c) == ch),
        on_line(vline_start(c, x, ch), w * c, h, i) ==> i == vline_start(c, x, ch) + iy(
            i,
            w,
            c,
        ) * (w * c),
{
    let st = vline_start(c, x, ch);
    lemma_vline_ok(w, h, c, x, ch);
    lemma_index_decompose(i, w, h, c);
    if on_line(st, w * c, h, i) {
        let j = (i - st) / (w * c);
        vstd::arithmetic::div_mod::lemma_fundamental_div_mod(i - st, w * c);
        vstd::arithmetic::div_mod::lemma_div_pos_is_pos(i - st, w * c);
        assert(w * c >= 1) by (nonlinear_arith)
            requires
                w >= 1,
                c >= 1,
        ;
        assert(i == st + j * (w * c)) by {
            vstd::arithmetic::mul::lemma_mul_is_commutative(w * c, j);
        }
        assert(j < h);
        assert(j >= 0);
        assert(i == pix(w, c, x, j, ch));
        lemma_pix_compose(w, c, x, j, ch);
    }
    if ix(i, w, c) == x && ich(i, c) == ch {
        let j = iy(i, w, c);
        assert(i == pix(w, c, x, j, ch));
        assert(i == st + j * (w * c));
        assert(w * c >= 1) by (nonlinear_arith)
            requires
                w >= 1,
                c >= 1,
        ;
        crate::sums::lemma_line_position(st, w * c, h, j);
    }
}

} // verus!
