//! The direct O(radius)-per-sample triangular convolution: every
//! output byte is computed by walking its whole window, with no
//! sliding state. Both entry points meet the same contract as the
//! sliding-window blur, so the two are byte-for-byte interchangeable.

use vstd::prelude::*;

use crate::grid::{
    blur_spec, hline_start, hpass_spec, hpass_val, lemma_hline_ok, lemma_index_decompose,
    lemma_pix_compose, lemma_vline_ok, pix, vline_start, vpass_val,
};
use crate::model::{area, clamp_idx, line_blurred, line_ok, tap_weight, tri_sum, tri_sum_part};
use crate::recip::{recip_mul, reciprocal_for, scale_sum};
use crate::sums::{lemma_line_index_ok, lemma_tri_sum_bounds};

verus! {

/// The blurred value of sample `j` of one line, by direct convolution:
/// walk the `2 * radius + 1` taps of the window, weight each clamped
/// sample by the triangular ramp, and divide by the kernel area.
#[verifier::loop_isolation(false)]
fn direct_line_value(
    src: &Vec<u8>,
    start: usize,
    step: usize,
    len: usize,
    j: usize,
    radius: usize,
    m: u64,
) -> (v: u8)
    requires
        line_ok(src.len() as int, start as int, step as int, len as int),
        j < len,
        radius <= 255,
        m == recip_mul(area(radius as int)),
    ensures
        v as int == line_blurred(
            src@,
            start as int,
            step as int,
            len as int,
            j as int,
            radius as int,
        ),
{
    let ghost s = src@;
    let ghost sti = start as int;
    let ghost spi = step as int;
    let ghost li = len as int;
    let ghost ri = radius as int;

    let taps = 2 * radius + 1;
    let mut sum: u64 = 0;
    let mut idx: usize = 0;
    while idx < taps
        invariant
            idx <= taps,
            sum == tri_sum_part(s, sti, spi, li, j as int, ri, idx as int),
            sum <= 0xFF00 * idx,
        decreases taps - idx,
    {
        let w: usize = if idx < radius {
            idx + 1
        } else {
            2 * radius + 1 - idx
        };
        let pos: usize = if j >= radius {
            let base = j - radius;
            if idx < len - base {
                base + idx
            } else {
                len - 1
            }
        } else {
            if j + idx < radius {
                0
            } else if j + idx - radius < len {
                j + idx - radius
            } else {
                len - 1
            }
        };
        proof {
            assert(pos as int == clamp_idx(j - radius + idx, li));
            assert(w as int == tap_weight(ri, idx as int));
            lemma_line_index_ok(src.len() as int, sti, spi, li, pos as int);
            vstd::arithmetic::mul::lemma_mul_upper_bound(
                w as int,
                256,
                src@[sti + (pos as int) * spi] as int,
                255,
            );
            vstd::arithmetic::mul::lemma_mul_nonnegative(
                w as int,
                src@[sti + (pos as int) * spi] as int,
            );
        }
        sum = sum + (w as u64) * (src[start + pos * step] as u64);
        idx += 1;
    }
    proof {
        assert(sum == tri_sum(s, sti, spi, li, j as int, ri));
        lemma_tri_sum_bounds(s, sti, spi, li, j as int, ri);
        assert(1 <= area(ri) <= 0x1_0000) by (nonlinear_arith)
            requires
                0 <= ri <= 255,
                area(ri) == (ri + 1) * (ri + 1),
        ;
    }
    scale_sum(sum, m, radius)
}

/// The direct two-pass blur, nested loops over rows, columns and
/// channels, appending each byte in row-major order.
#[verifier::loop_isolation(false)]
pub fn unoptimized_blur(
    data: &Vec<u8>,
    width: usize,
    height: usize,
    channels: usize,
    r: u8,
) -> (out: Vec<u8>)
    requires
        width >= 1,
        height >= 1,
        channels >= 1,
        data.len() == width * height * channels,
    ensures
        out@.len() == data@.len(),
        out@ == blur_spec(data@, width as int, height as int, channels as int, r as int),
{
    let ghost wi = width as int;
    let ghost hi = height as int;
    let ghost ci = channels as int;
    let ghost ri = r as int;

    let radius = r as usize;
    let m = reciprocal_for(radius);
    proof {
        assert(width * channels <= width * height * channels) by (nonlinear_arith)
            requires
                width >= 1,
                height >= 1,
                channels >= 1,
        ;
    }
    let wc = width * channels;

    let mut hor: Vec<u8> = Vec::new();
    let mut y: usize = 0;
    while y < height
        invariant
            y <= height,
            hor.len() == y * wc,
            hor.len() <= data.len(),
            forall|k: int| 0 <= k < hor.len() ==> #[trigger] hor@[k] == hpass_val(
                data@,
                wi,
                ci,
                ri,
                k,
            ),
        decreases height - y,
    {
        proof {
            assert((y + 1) * (wi * ci) <= hi * (wi * ci) && y * (wi * ci) + wi * ci == (y + 1) * (
            wi * ci) && hi * (wi * ci) == wi * hi * ci) by (nonlinear_arith)
                requires
                    0 <= y < hi,
                    wi >= 1,
                    ci >= 1,
            ;
        }
        let mut x: usize = 0;
        while x < width
            invariant
                x <= width,
                y < height,
                hor.len() == y * wc + x * channels,
                y * wc + width * channels <= data.len(),
                forall|k: int| 0 <= k < hor.len() ==> #[trigger] hor@[k] == hpass_val(
                    data@,
                    wi,
                    ci,
                    ri,
                    k,
                ),
            decreases width - x,
        {
            proof {
                assert(x * ci + ci == (x + 1) * ci && (x + 1) * ci <= wi * ci) by (nonlinear_arith)
                    requires
                        0 <= x < wi,
                        ci >= 1,
                ;
            }
            let mut ch: usize = 0;
            while ch < channels
                invariant
                    ch <= channels,
                    x < width,
                    y < height,
                    hor.len() == y * wc + x * channels + ch,
                    forall|k: int| 0 <= k < hor.len() ==> #[trigger] hor@[k] == hpass_val(
                        data@,
                        wi,
                        ci,
                        ri,
                        k,
                    ),
                decreases channels - ch,
            {
                proof {
                    lemma_hline_ok(wi, hi, ci, y as int, ch as int);
                }
                let v = direct_line_value(data, y * wc + ch, channels, width, x, radius, m);
                proof {
                    assert(y * (wi * ci) + x * ci + ch == pix(wi, ci, x as int, y as int, ch as int)
                        && hline_start(wi, ci, y as int, ch as int) + x * ci == pix(
                        wi,
                        ci,
                        x as int,
                        y as int,
                        ch as int,
                    )) by (nonlinear_arith);
                    lemma_pix_compose(wi, ci, x as int, y as int, ch as int);
                    assert(v == hpass_val(data@, wi, ci, ri, hor.len() as int));
                }
                hor.push(v);
                ch += 1;
            }
            x += 1;
        }
        y += 1;
    }
    proof {
        assert(hor.len() == wi * hi * ci) by (nonlinear_arith)
            requires
                hor.len() == hi * (wi * ci),
        ;
        assert forall|k: int| 0 <= k < hor.len() implies hor@[k] == #[trigger] hpass_spec(
            data@,
            wi,
            hi,
            ci,
            ri,
        )[k] by {}
        assert(hor@ =~= hpass_spec(data@, wi, hi, ci, ri));
    }

    let mut out: Vec<u8> = Vec::new();
    let mut y: usize = 0;
    while y < height
        invariant
            y <= height,
            out.len() == y * wc,
            out.len() <= data.len(),
            hor.len() == data.len(),
            hor@ == hpass_spec(data@, wi, hi, ci, ri),
            forall|k: int| 0 <= k < out.len() ==> #[trigger] out@[k] == vpass_val(
                hor@,
                wi,
                hi,
                ci,
                ri,
                k,
            ),
        decreases height - y,
    {
        proof {
            assert((y + 1) * (wi * ci) <= hi * (wi * ci) && y * (wi * ci) + wi * ci == (y + 1) * (
            wi * ci) && hi * (wi * ci) == wi * hi * ci) by (nonlinear_arith)
                requires
                    0 <= y < hi,
                    wi >= 1,
                    ci >= 1,
            ;
        }
        let mut x: usize = 0;
        while x < width
            invariant
                x <= width,
                y < height,
                out.len() == y * wc + x * channels,
                y * wc + width * channels <= data.len(),
                hor.len() == data.len(),
                hor@ == hpass_spec(data@, wi, hi, ci, ri),
                forall|k: int| 0 <= k < out.len() ==> #[trigger] out@[k] == vpass_val(
                    hor@,
                    wi,
                    hi,
                    ci,
                    ri,
                    k,
                ),
            decreases width - x,
        {
            proof {
                assert(x * ci + ci == (x + 1) * ci && (x + 1) * ci <= wi * ci) by (nonlinear_arith)
                    requires
                        0 <= x < wi,
                        ci >= 1,
                ;
            }
            let mut ch: usize = 0;
            while ch < channels
                invariant
                    ch <= channels,
                    x < width,
                    y < height,
                    out.len() == y * wc + x * channels + ch,
                    hor.len() == data.len(),
                    hor@ == hpass_spec(data@, wi, hi, ci, ri),
                    forall|k: int| 0 <= k < out.len() ==> #[trigger] out@[k] == vpass_val(
                        hor@,
                        wi,
                        hi,
                        ci,
                        ri,
                        k,
                    ),
                decreases channels - ch,
            {
                proof {
                    lemma_vline_ok(wi, hi, ci, x as int, ch as int);
                }
                let v = direct_line_value(&hor, x * channels + ch, wc, height, y, radius, m);
                proof {
                    assert(y * (wi * ci) + x * ci + ch == pix(wi, ci, x as int, y as int, ch as int)
                        && vline_start(ci, x as int, ch as int) + y * (wi * ci) == pix(
                        wi,
                        ci,
                        x as int,
                        y as int,
                        ch as int,
                    )) by (nonlinear_arith);
                    lemma_pix_compose(wi, ci, x as int, y as int, ch as int);
                    assert(v == vpass_val(hor@, wi, hi, ci, ri, out.len() as int));
                }
                out.push(v);
                ch += 1;
            }
            x += 1;
        }
        y += 1;
    }
    proof {
        assert(out.len() == wi * hi * ci) by (nonlinear_arith)
            requires
                out.len() == hi * (wi * ci),
        ;
        assert forall|k: int| 0 <= k < out.len() implies out@[k] == #[trigger] blur_spec(
            data@,
            wi,
            hi,
            ci,
            ri,
        )[k] by {}
        assert(out@ =~= blur_spec(data@, wi, hi, ci, ri));
    }
    out
}

/// The direct two-pass blur again, written as one flat walk over the
/// output indices, decomposing each index into its row, column and
/// channel on the way.
#[verifier::loop_isolation(false)]
pub fn unoptimized_blur_2(
    data: &Vec<u8>,
    width: usize,
    height: usize,
    channels: usize,
    r: u8,
) -> (out: Vec<u8>)
    requires
        width >= 1,
        height >= 1,
        channels >= 1,
        data.len() == width * height * channels,
    ensures
        out@.len() == data@.len(),
        out@ == blur_spec(data@, width as int, height as int, channels as int, r as int),
{
    let ghost wi = width as int;
    let ghost hi = height as int;
    let ghost ci = channels as int;
    let ghost ri = r as int;

    let radius = r as usize;
    let m = reciprocal_for(radius);
    proof {
        assert(width * channels <= width * height * channels) by (nonlinear_arith)
            requires
                width >= 1,
                height >= 1,
                channels >= 1,
        ;
    }
    let wc = width * channels;
    let total = data.len();

    let mut hor: Vec<u8> = Vec::new();
    let mut i: usize = 0;
    while i < total
        invariant
            i <= total,
            hor.len() == i,
            forall|k: int| 0 <= k < i ==> #[trigger] hor@[k] == hpass_val(data@, wi, ci, ri, k),
        decreases total - i,
    {
        let ch = i % channels;
        let p = i / channels;
        let x = p % width;
        let y = p / width;
        proof {
            lemma_index_decompose(i as int, wi, hi, ci);
            lemma_hline_ok(wi, hi, ci, y as int, ch as int);
            assert(hline_start(wi, ci, y as int, ch as int) + (x as int) * ci == pix(
                wi,
                ci,
                x as int,
                y as int,
                ch as int,
            ));
        }
        let v = direct_line_value(data, y * wc + ch, channels, width, x, radius, m);
        hor.push(v);
        i += 1;
    }
    proof {
        assert forall|k: int| 0 <= k < total implies hor@[k] == #[trigger] hpass_spec(
            data@,
            wi,
            hi,
            ci,
            ri,
        )[k] by {}
        assert(hor@ =~= hpass_spec(data@, wi, hi, ci, ri));
    }

    let mut out: Vec<u8> = Vec::new();
    let mut i: usize = 0;
    while i < total
        invariant
            i <= total,
            out.len() == i,
            hor.len() == total,
            hor@ == hpass_spec(data@, wi, hi, ci, ri),
            forall|k: int| 0 <= k < i ==> #[trigger] out@[k] == vpass_val(
                hor@,
                wi,
                hi,
                ci,
                ri,
                k,
            ),
        decreases total - i,
    {
        let ch = i % channels;
        let p = i / channels;
        let x = p % width;
        let y = p / width;
        proof {
            lemma_index_decompose(i as int, wi, hi, ci);
            lemma_vline_ok(wi, hi, ci, x as int, ch as int);
            assert(vline_start(ci, x as int, ch as int) + (y as int) * (wi * ci) == pix(
                wi,
                ci,
                x as int,
                y as int,
                ch as int,
            ));
        }
        let v = direct_line_value(&hor, x * channels + ch, wc, height, y, radius, m);
        out.push(v);
        i += 1;
    }
    proof {
        assert forall|k: int| 0 <= k < total implies out@[k] == #[trigger] blur_spec(
            data@,
            wi,
            hi,
            ci,
            ri,
        )[k] by {}
        assert(out@ =~= blur_spec(data@, wi, hi, ci, ri));
    }
    out
}

} // verus!
