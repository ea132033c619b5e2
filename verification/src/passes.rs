//! The two blur passes over the pixel grid, and the public entry
//! points: the sequential blur and the partitioned variant that
//! processes disjoint bands of rows and columns one at a time, the way
//! a worker pool would, and produces byte-identical output.

use vstd::prelude::*;

use crate::grid::{
    blur_spec, hline_start, hpass_spec, hpass_val, ich, ix, iy, lemma_hline_membership,
    lemma_hline_ok, lemma_index_decompose, lemma_vline_membership, lemma_vline_ok, vline_start,
    vpass_val,
};
use crate::model::area;
use crate::recip::{recip_mul, reciprocal_for};
use crate::window::blur_line;

verus! {

/// How many color channels each pixel of a buffer holds.
#[derive(Clone, Copy, Debug)]
pub enum Channels {
    RGBA,
    RGB,
}

impl Channels {
    /// The channel count as a number.
    pub open spec fn spec_count(self) -> int {
        match self {
            Channels::RGBA => 4,
            Channels::RGB => 3,
        }
    }

    /// The channel count as a number.
    pub fn count(&self) -> (n: usize)
        ensures
            n == self.spec_count(),
    {
        match self {
            Channels::RGBA => 4,
            Channels::RGB => 3,
        }
    }
}

/// A buffer of `n` zero bytes.
fn zeroed(n: usize) -> (v: Vec<u8>)
    ensures
        v.len() == n,
{
    let mut v: Vec<u8> = Vec::new();
    let mut k: usize = 0;
    while k < n
        invariant
            v.len() == k,
            k <= n,
        decreases n - k,
    {
        v.push(0);
        k += 1;
    }
    v
}

/// Runs the horizontal pass over the rows `y_lo .. y_hi`, leaving
/// every byte of other rows unchanged.
#[verifier::loop_isolation(false)]
pub(crate) fn hpass_range(
    src: &Vec<u8>,
    dst: &mut Vec<u8>,
    width: usize,
    height: usize,
    channels: usize,
    radius: usize,
    m: u64,
    y_lo: usize,
    y_hi: usize,
)
    requires
        src.len() == width * height * channels,
        old(dst).len() == src.len(),
        width >= 1,
        height >= 1,
        channels >= 1,
        radius <= 255,
        m == recip_mul(area(radius as int)),
        y_lo <= y_hi <= height,
    ensures
        final(dst).len() == src.len(),
        forall|i: int|
            0 <= i < src.len() && y_lo <= iy(i, width as int, channels as int) < y_hi
                ==> #[trigger] final(dst)@[i] == hpass_val(
                src@,
                width as int,
                channels as int,
                radius as int,
                i,
            ),
        forall|i: int|
            0 <= i < src.len() && !(y_lo <= iy(i, width as int, channels as int) < y_hi)
                ==> #[trigger] final(dst)@[i] == old(dst)@[i],
{
    let ghost s = src@;
    let ghost wi = width as int;
    let ghost hi = height as int;
    let ghost ci = channels as int;
    let ghost ri = radius as int;

    proof {
        assert(width * channels <= width * height * channels) by (nonlinear_arith)
            requires
                width >= 1,
                height >= 1,
                channels >= 1,
        ;
    }
    let wc = width * channels;

    let mut y = y_lo;
    while y < y_hi
        invariant
            y_lo <= y <= y_hi,
            dst.len() == src.len(),
            forall|i: int|
                0 <= i < src.len() && y_lo <= iy(i, wi, ci) < y ==> #[trigger] dst@[i]
                    == hpass_val(s, wi, ci, ri, i),
            forall|i: int|
                0 <= i < src.len() && !(y_lo <= iy(i, wi, ci) < y) ==> #[trigger] dst@[i] == old(
                    dst,
                )@[i],
        decreases y_hi - y,
    {
        let mut ch: usize = 0;
        while ch < channels
            invariant
                ch <= channels,
                y < y_hi,
                dst.len() == src.len(),
                forall|i: int|
                    0 <= i < src.len() && y_lo <= iy(i, wi, ci) < y ==> #[trigger] dst@[i]
                        == hpass_val(s, wi, ci, ri, i),
                forall|i: int|
                    0 <= i < src.len() && iy(i, wi, ci) == y && ich(i, ci) < ch
                        ==> #[trigger] dst@[i] == hpass_val(s, wi, ci, ri, i),
                forall|i: int|
                    0 <= i < src.len() && !(y_lo <= iy(i, wi, ci) < y) && !(iy(i, wi, ci) == y
                        && ich(i, ci) < ch) ==> #[trigger] dst@[i] == old(dst)@[i],
            decreases channels - ch,
        {
            proof {
                lemma_hline_ok(wi, hi, ci, y as int, ch as int);
            }
            let ghost prev = dst@;
            blur_line(src, dst, y * wc + ch, channels, width, radius, m);
            proof {
                let st = hline_start(wi, ci, y as int, ch as int);
                assert forall|i: int|
                    0 <= i < src.len() && iy(i, wi, ci) == y && ich(i, ci)
                        == ch implies #[trigger] dst@[i] == hpass_val(s, wi, ci, ri, i) by {
                    lemma_hline_membership(wi, hi, ci, y as int, ch as int, i);
                    lemma_index_decompose(i, wi, hi, ci);
                    assert(dst@[st + ix(i, wi, ci) * ci] == dst@[i]);
                }
                assert forall|i: int|
                    0 <= i < src.len() && !(iy(i, wi, ci) == y && ich(i, ci)
                        == ch) implies #[trigger] dst@[i] == prev[i] by {
                    lemma_hline_membership(wi, hi, ci, y as int, ch as int, i);
                }
            }
            ch += 1;
        }
        proof {
            assert forall|i: int|
                0 <= i < src.len() && y_lo <= iy(i, wi, ci) < y + 1 implies #[trigger] dst@[i]
                == hpass_val(s, wi, ci, ri, i) by {
                lemma_index_decompose(i, wi, hi, ci);
            }
        }
        y += 1;
    }
}

/// Runs the vertical pass over the columns `x_lo .. x_hi`, leaving
/// every byte of other columns unchanged.
#[verifier::loop_isolation(false)]
pub(crate) fn vpass_range(
    src: &Vec<u8>,
    dst: &mut Vec<u8>,
    width: usize,
    height: usize,
    channels: usize,
    radius: usize,
    m: u64,
    x_lo: usize,
    x_hi: usize,
)
    requires
        src.len() == width * height * channels,
        old(dst).len() == src.len(),
        width >= 1,
        height >= 1,
        channels >= 1,
        radius <= 255,
        m == recip_mul(area(radius as int)),
        x_lo <= x_hi <= width,
    ensures
        final(dst).len() == src.len(),
        forall|i: int|
            0 <= i < src.len() && x_lo <= ix(i, width as int, channels as int) < x_hi
                ==> #[trigger] final(dst)@[i] == vpass_val(
                src@,
                width as int,
                height as int,
                channels as int,
                radius as int,
                i,
            ),
        forall|i: int|
            0 <= i < src.len() && !(x_lo <= ix(i, width as int, channels as int) < x_hi)
                ==> #[trigger] final(dst)@[i] == old(dst)@[i],
{
    let ghost s = src@;
    let ghost wi = width as int;
    let ghost hi = height as int;
    let ghost ci = channels as int;
    let ghost ri = radius as int;

    proof {
        assert(width * channels <= width * height * channels) by (nonlinear_arith)
            requires
                width >= 1,
                height >= 1,
                channels >= 1,
        ;
    }
    let wc = width * channels;

    let mut x = x_lo;
    while x < x_hi
        invariant
            x_lo <= x <= x_hi,
            dst.len() == src.len(),
            forall|i: int|
                0 <= i < src.len() && x_lo <= ix(i, wi, ci) < x ==> #[trigger] dst@[i]
                    == vpass_val(s, wi, hi, ci, ri, i),
            forall|i: int|
                0 <= i < src.len() && !(x_lo <= ix(i, wi, ci) < x) ==> #[trigger] dst@[i] == old(
                    dst,
                )@[i],
        decreases x_hi - x,
    {
        let mut ch: usize = 0;
        while ch < channels
            invariant
                ch <= channels,
                x < x_hi,
                dst.len() == src.len(),
                forall|i: int|
                    0 <= i < src.len() && x_lo <= ix(i, wi, ci) < x ==> #[trigger] dst@[i]
                        == vpass_val(s, wi, hi, ci, ri, i),
                forall|i: int|
                    0 <= i < src.len() && ix(i, wi, ci) == x && ich(i, ci) < ch
                        ==> #[trigger] dst@[i] == vpass_val(s, wi, hi, ci, ri, i),
                forall|i: int|
                    0 <= i < src.len() && !(x_lo <= ix(i, wi, ci) < x) && !(ix(i, wi, ci) == x
                        && ich(i, ci) < ch) ==> #[trigger] dst@[i] == old(dst)@[i],
            decreases channels - ch,
        {
            proof {
                lemma_vline_ok(wi, hi, ci, x as int, ch as int);
            }
            let ghost prev = dst@;
            blur_line(src, dst, x * channels + ch, wc, height, radius, m);
            proof {
                let st = vline_start(ci, x as int, ch as int);
                assert forall|i: int|
                    0 <= i < src.len() && ix(i, wi, ci) == x && ich(i, ci)
                        == ch implies #[trigger] dst@[i] == vpass_val(s, wi, hi, ci, ri, i) by {
                    lemma_vline_membership(wi, hi, ci, x as int, ch as int, i);
                    lemma_index_decompose(i, wi, hi, ci);
                    assert(dst@[st + iy(i, wi, ci) * (wi * ci)] == dst@[i]);
                }
                assert forall|i: int|
                    0 <= i < src.len() && !(ix(i, wi, ci) == x && ich(i, ci)
                        == ch) implies #[trigger] dst@[i] == prev[i] by {
                    lemma_vline_membership(wi, hi, ci, x as int, ch as int, i);
                }
            }
            ch += 1;
        }
        proof {
            assert forall|i: int|
                0 <= i < src.len() && x_lo <= ix(i, wi, ci) < x + 1 implies #[trigger] dst@[i]
                == vpass_val(s, wi, hi, ci, ri, i) by {
                lemma_index_decompose(i, wi, hi, ci);
            }
        }
        x += 1;
    }
}

/// Blurs `data` (a row-major buffer of `width * height` pixels of
/// `channels.count()` bytes each) with the triangular kernel of
/// half-width `radius`, clamping at the edges, and returns the
/// blurred buffer of the same shape.
pub fn blur(
    data: &Vec<u8>,
    width: usize,
    height: usize,
    channels: Channels,
    radius: usize,
) -> (out: Vec<u8>)
    requires
        width >= 1,
        height >= 1,
        radius <= 255,
        data.len() == width * height * channels.spec_count(),
    ensures
        out@.len() == data@.len(),
        out@ == blur_spec(
            data@,
            width as int,
            height as int,
            channels.spec_count(),
            radius as int,
        ),
{
    let c = channels.count();
    blur_all(data, width, height, c, radius)
}

/// The channel-count-generic sequential blur: the horizontal pass over
/// every row, then the vertical pass over every column.
pub(crate) fn blur_all(
    data: &Vec<u8>,
    width: usize,
    height: usize,
    channels: usize,
    radius: usize,
) -> (out: Vec<u8>)
    requires
        width >= 1,
        height >= 1,
        channels >= 1,
        radius <= 255,
        data.len() == width * height * channels,
    ensures
        out@.len() == data@.len(),
        out@ == blur_spec(data@, width as int, height as int, channels as int, radius as int),
{
    let ghost wi = width as int;
    let ghost hi = height as int;
    let ghost ci = channels as int;
    let ghost ri = radius as int;

    let m = reciprocal_for(radius);
    let mut mid = zeroed(data.len());
    hpass_range(data, &mut mid, width, height, channels, radius, m, 0, height);
    proof {
        assert forall|i: int| 0 <= i < data@.len() implies mid@[i] == #[trigger] hpass_spec(
            data@,
            wi,
            hi,
            ci,
            ri,
        )[i] by {
            lemma_index_decompose(i, wi, hi, ci);
        }
        assert(mid@ =~= hpass_spec(data@, wi, hi, ci, ri));
    }
    let mut out = zeroed(data.len());
    vpass_range(&mid, &mut out, width, height, channels, radius, m, 0, width);
    proof {
        assert forall|i: int| 0 <= i < data@.len() implies out@[i] == #[trigger] blur_spec(
            data@,
            wi,
            hi,
            ci,
            ri,
        )[i] by {
            lemma_index_decompose(i, wi, hi, ci);
        }
        assert(out@ =~= blur_spec(data@, wi, hi, ci, ri));
    }
    out
}

/// The partitioned execution variant: splits the rows of the
/// horizontal pass, and then the columns of the vertical pass, into
/// `parts` disjoint bands, and runs the bands one after another, each
/// writing only its own slice of the output. The result is
/// byte-identical to the sequential blur.
#[verifier::loop_isolation(false)]
pub fn blur_partitioned(
    data: &Vec<u8>,
    width: usize,
    height: usize,
    channels: Channels,
    radius: usize,
    parts: usize,
) -> (out: Vec<u8>)
    requires
        width >= 1,
        height >= 1,
        radius <= 255,
        parts >= 1,
        data.len() == width * height * channels.spec_count(),
    ensures
        out@.len() == data@.len(),
        out@ == blur_spec(
            data@,
            width as int,
            height as int,
            channels.spec_count(),
            radius as int,
        ),
{
    let c = channels.count();
    let ghost wi = width as int;
    let ghost hi = height as int;
    let ghost ci = c as int;
    let ghost ri = radius as int;

    let m = reciprocal_for(radius);

    // Each band gets the same number of rows (or columns), rounded up,
    // so there are at most `parts` non-empty bands.
    let row_band = (height - 1) / parts + 1;
    let col_band = (width - 1) / parts + 1;

    let mut mid = zeroed(data.len());
    let mut y: usize = 0;
    while y < height
        invariant
            y <= height,
            mid.len() == data.len(),
            row_band >= 1,
            forall|i: int|
                0 <= i < data.len() && 0 <= iy(i, wi, ci) < y ==> #[trigger] mid@[i] == hpass_val(
                    data@,
                    wi,
                    ci,
                    ri,
                    i,
                ),
        decreases height - y,
    {
        let y_hi = if height - y > row_band {
            y + row_band
        } else {
            height
        };
        let ghost prev = mid@;
        hpass_range(data, &mut mid, width, height, c, radius, m, y, y_hi);
        proof {
            assert forall|i: int|
                0 <= i < data.len() && 0 <= iy(i, wi, ci) < y_hi implies #[trigger] mid@[i]
                == hpass_val(data@, wi, ci, ri, i) by {
                if iy(i, wi, ci) < y {
                    assert(mid@[i] == prev[i]);
                }
            }
        }
        y = y_hi;
    }
    proof {
        assert forall|i: int| 0 <= i < data@.len() implies mid@[i] == #[trigger] hpass_spec(
            data@,
            wi,
            hi,
            ci,
            ri,
        )[i] by {
            lemma_index_decompose(i, wi, hi, ci);
        }
        assert(mid@ =~= hpass_spec(data@, wi, hi, ci, ri));
    }

    let mut out = zeroed(data.len());
    let mut x: usize = 0;
    while x < width
        invariant
            x <= width,
            out.len() == data.len(),
            col_band >= 1,
            mid@ == hpass_spec(data@, wi, hi, ci, ri),
            forall|i: int|
                0 <= i < data.len() && 0 <= ix(i, wi, ci) < x ==> #[trigger] out@[i] == vpass_val(
                    mid@,
                    wi,
                    hi,
                    ci,
                    ri,
                    i,
                ),
        decreases width - x,
    {
        let x_hi = if width - x > col_band {
            x + col_band
        } else {
            width
        };
        let ghost prev = out@;
        vpass_range(&mid, &mut out, width, height, c, radius, m, x, x_hi);
        proof {
            assert forall|i: int|
                0 <= i < data.len() && 0 <= ix(i, wi, ci) < x_hi implies #[trigger] out@[i]
                == vpass_val(mid@, wi, hi, ci, ri, i) by {
                if ix(i, wi, ci) < x {
                    assert(out@[i] == prev[i]);
                }
            }
        }
        x = x_hi;
    }
    proof {
        assert forall|i: int| 0 <= i < data@.len() implies out@[i] == #[trigger] blur_spec(
            data@,
            wi,
            hi,
            ci,
            ri,
        )[i] by {
            lemma_index_decompose(i, wi, hi, ci);
        }
        assert(out@ =~= blur_spec(data@, wi, hi, ci, ri));
    }
    out
}

} // verus!
