//! The sliding-window engine: blurs one line of samples — a strided
//! sequence inside a flat buffer — in O(1) per sample. The window is
//! seeded as if the line extended past its start with the edge sample,
//! then advances by adding one box of incoming samples and subtracting
//! one box of expiring samples kept in a short history, so that the
//! running sum is always the triangular sum of the current window.

use vstd::prelude::*;

use crate::model::{area, box_sum, clamped_val, line_blurred, line_ok, on_line, ramp_sum, seed_sum, tri_number, tri_sum};
use crate::recip::{recip_mul, scale_sum};
use crate::sums::{
    lemma_line_index_ok, lemma_line_position, lemma_seed, lemma_seed_sum_bounds,
    lemma_tri_number_doubled, lemma_tri_slide, lemma_tri_sum_bounds,
};

verus! {

/// Blurs one line of `src` into the same positions of `dst`, leaving
/// every byte of `dst` off the line unchanged.
#[verifier::loop_isolation(false)]
pub(crate) fn blur_line(
    src: &Vec<u8>,
    dst: &mut Vec<u8>,
    start: usize,
    step: usize,
    len: usize,
    radius: usize,
    m: u64,
)
    requires
        old(dst).len() == src.len(),
        line_ok(src.len() as int, start as int, step as int, len as int),
        radius <= 255,
        m == recip_mul(area(radius as int)),
    ensures
        final(dst).len() == src.len(),
        forall|j: int|
            0 <= j < len ==> #[trigger] final(dst)@[start + j * step] == line_blurred(
                src@,
                start as int,
                step as int,
                len as int,
                j,
                radius as int,
            ),
        forall|i: int|
            0 <= i < src.len() && !on_line(start as int, step as int, len as int, i)
                ==> final(dst)@[i] == old(dst)@[i],
{
    let ghost s = src@;
    let ghost sti = start as int;
    let ghost spi = step as int;
    let ghost li = len as int;
    let ghost ri = radius as int;

    proof {
        assert(1 <= area(ri) <= 0x1_0000) by (nonlinear_arith)
            requires
                0 <= ri <= 255,
                area(ri) == (ri + 1) * (ri + 1),
        ;
    }

    let x0: u8 = src[start];
    proof {
        assert(clamped_val(s, sti, spi, li, 0) == x0) by {
            vstd::arithmetic::mul::lemma_mul_basics(spi);
        }
    }

    // The history holds the edge sample for every position the window
    // covers before the line begins.
    let mut store: Vec<u8> = Vec::new();
    let mut t: usize = 0;
    while t < radius + 1
        invariant
            t <= radius + 1,
            store.len() == t,
            forall|k: int| 0 <= k < t ==> store@[k] == x0,
        decreases radius + 1 - t,
    {
        store.push(x0);
        t += 1;
    }

    // Seed the running sum: the edge sample under the whole left half
    // of the kernel, then the ramp of weights over the samples ahead.
    proof {
        lemma_tri_number_doubled(ri + 1);
        assert((radius as int + 1) * (radius as int + 2) <= 0x1_0100) by (nonlinear_arith)
            requires
                0 <= radius <= 255,
        ;
        vstd::arithmetic::div_mod::lemma_div_multiples_vanish(tri_number(ri + 1), 2);
    }
    let tri_base: u64 = ((radius as u64 + 1) * (radius as u64 + 2)) / 2;
    proof {
        assert(tri_base == tri_number(ri + 1));
        assert(tri_number(ri + 1) >= 0) by {
            lemma_tri_number_doubled(ri + 1);
        }
        vstd::arithmetic::mul::lemma_mul_upper_bound(x0 as int, 255, tri_base as int, 0x8080);
        vstd::arithmetic::mul::lemma_mul_is_commutative(x0 as int, tri_base as int);
    }
    let mut sum: u64 = (x0 as u64) * tri_base;
    let mut t: usize = 0;
    while t < radius
        invariant
            t <= radius,
            sum == tri_number(ri + 1) * clamped_val(s, sti, spi, li, 0) + ramp_sum(
                s,
                sti,
                spi,
                li,
                ri,
                t as int,
            ),
            sum <= 0x7FFF80 + 0xFE01 * t,
        decreases radius - t,
    {
        let pos = if t < len { t } else { len - 1 };
        proof {
            lemma_line_index_ok(src.len() as int, sti, spi, li, pos as int);
            assert(pos as int == crate::model::clamp_idx(t as int, li));
        }
        let v = src[start + pos * step];
        proof {
            assert(v as int == clamped_val(s, sti, spi, li, t as int));
            vstd::arithmetic::mul::lemma_mul_upper_bound(v as int, 255, (radius - t) as int, 255);
            vstd::arithmetic::mul::lemma_mul_nonnegative(v as int, (radius - t) as int);
            vstd::arithmetic::mul::lemma_mul_is_commutative(v as int, ri - t);
        }
        sum = sum + (v as u64) * ((radius - t) as u64);
        t += 1;
    }
    proof {
        assert(sum == seed_sum(s, sti, spi, li, ri));
        lemma_seed_sum_bounds(s, sti, spi, li, ri);
        assert(255 * area(ri) <= 0xFF_0000);
    }

    // Slide the window down the line.
    let mut i: usize = 0;
    while i < len
        invariant
            i <= len,
            dst.len() == src.len(),
            store.len() == radius + 1 + i,
            forall|k: int|
                0 <= k < store.len() ==> store@[k] as int == clamped_val(
                    s,
                    sti,
                    spi,
                    li,
                    k - ri - 1,
                ),
            i == 0 ==> sum == seed_sum(s, sti, spi, li, ri),
            i >= 1 ==> sum == tri_sum(s, sti, spi, li, i - 1, ri),
            sum <= 0xFF_0000,
            forall|j: int|
                0 <= j < i ==> #[trigger] dst@[sti + j * spi] == line_blurred(
                    s,
                    sti,
                    spi,
                    li,
                    j,
                    ri,
                ),
            forall|idx: int|
                0 <= idx < dst.len() && !on_line(sti, spi, li, idx) ==> dst@[idx] == old(
                    dst,
                )@[idx],
        decreases len - i,
    {
        // The box of samples entering the window.
        let mut add: u64 = 0;
        let mut t: usize = 0;
        while t < radius + 1
            invariant
                t <= radius + 1,
                add == box_sum(s, sti, spi, li, i as int, t as int),
                add <= 0xFF * t,
                i < len,
            decreases radius + 1 - t,
        {
            let pos = if t < len - i {
                i + t
            } else {
                len - 1
            };
            proof {
                lemma_line_index_ok(src.len() as int, sti, spi, li, pos as int);
                assert(pos as int == crate::model::clamp_idx(i + t, li));
            }
            add = add + src[start + pos * step] as u64;
            t += 1;
        }

        // The box of samples leaving the window, read from the history.
        let mut sub: u64 = 0;
        let mut t: usize = 0;
        while t < radius + 1
            invariant
                t <= radius + 1,
                sub == box_sum(s, sti, spi, li, i - 1 - ri, t as int),
                sub <= 0xFF * t,
                i < len,
                store.len() == radius + 1 + i,
                forall|k: int|
                    0 <= k < store.len() ==> store@[k] as int == clamped_val(
                        s,
                        sti,
                        spi,
                        li,
                        k - ri - 1,
                    ),
            decreases radius + 1 - t,
        {
            sub = sub + store[i + t] as u64;
            t += 1;
        }

        proof {
            if i == 0 {
                lemma_seed(s, sti, spi, li, ri);
            } else {
                lemma_tri_slide(s, sti, spi, li, i as int, ri);
            }
            lemma_tri_sum_bounds(s, sti, spi, li, i as int, ri);
            assert(sum + add - sub == tri_sum(s, sti, spi, li, i as int, ri));
            assert(255 * area(ri) <= 0xFF_0000);
        }
        sum = sum + add - sub;

        let out_v = scale_sum(sum, m, radius);
        proof {
            lemma_line_index_ok(src.len() as int, sti, spi, li, i as int);
            lemma_line_position(sti, spi, li, i as int);
        }
        dst.set(start + i * step, out_v);
        proof {
            assert(out_v as int == line_blurred(s, sti, spi, li, i as int, ri));
            assert(dst@[sti + (i as int) * spi] == out_v);
            assert forall|j: int|
                0 <= j < i implies #[trigger] dst@[sti + j * spi] == line_blurred(
                s,
                sti,
                spi,
                li,
                j,
                ri,
            ) by {
                lemma_line_index_ok(src.len() as int, sti, spi, li, j);
                vstd::arithmetic::mul::lemma_mul_strict_inequality(j, i as int, spi);
            }
        }
        store.push(src[start + i * step]);
        proof {
            assert(store@[radius + 1 + i] as int == clamped_val(s, sti, spi, li, i as int));
        }
        i += 1;
    }
}

} // verus!
