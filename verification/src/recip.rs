//! The kernel-weight reciprocal table: one multiplier per supported
//! radius, fixed so that a multiply followed by a right shift computes
//! the running sum divided by the kernel area exactly, for every sum a
//! window of 8-bit samples can produce.

use vstd::prelude::*;

use crate::model::area;

verus! {

/// The fixed-point scale of the reciprocal multipliers: one shifted
/// left by the shift amount every scaled product is shifted back down
/// by.
pub const RECIP_ONE: u64 = 0x1_0000_0000_0000;

/// The reciprocal multiplier of divisor `a`: the least multiplier whose
/// product with `a` reaches the fixed-point scale.
pub open spec fn recip_mul(a: int) -> int {
    (0x1_0000_0000_0000 + a - 1) / a
}

/// For every divisor a kernel can have and every sum a window of 8-bit
/// samples can reach, multiplying by the reciprocal and dropping the
/// fixed-point scale is exact floor division.
pub proof fn lemma_recip_exact(a: int, sum: int)
    requires
        1 <= a <= 0x1_0000,
        0 <= sum <= 255 * a,
    ensures
        (sum * recip_mul(a)) / 0x1_0000_0000_0000 == sum / a,
{
    let k: int = 0x1_0000_0000_0000;
    let m = recip_mul(a);
    let q = sum / a;
    let rs = sum % a;

    vstd::arithmetic::div_mod::lemma_fundamental_div_mod(k + a - 1, a);
    let rm = (k + a - 1) % a;
    assert(k + a - 1 == a * m + rm);
    assert(0 <= rm < a) by {
        vstd::arithmetic::div_mod::lemma_mod_bound(k + a - 1, a);
    }
    assert(k <= a * m <= k + a - 1);

    vstd::arithmetic::div_mod::lemma_fundamental_div_mod(sum, a);
    assert(sum == a * q + rs);
    assert(0 <= rs < a) by {
        vstd::arithmetic::div_mod::lemma_mod_bound(sum, a);
    }
    assert(q >= 0) by {
        vstd::arithmetic::div_mod::lemma_div_pos_is_pos(sum, a);
    }

    assert(q * k <= sum * m < (q + 1) * k) by (nonlinear_arith)
        requires
            a >= 1,
            a <= 0x1_0000,
            0 <= sum <= 255 * a,
            k == 0x1_0000_0000_0000,
            k <= a * m <= k + a - 1,
            sum == a * q + rs,
            0 <= rs < a,
            q >= 0,
    {
        assert(a * (sum * m) == sum * (a * m));
        assert(sum * (a * m) <= sum * k + sum * (a - 1));
        assert(a * (q * k) <= sum * k);
        assert(sum * k + sum * (a - 1) <= a * (q * k) + rs * k + 255 * a * (a - 1));
        assert(rs * k + 255 * a * (a - 1) < a * k);
        assert(a * (sum * m) < a * ((q + 1) * k));
    }

    vstd::arithmetic::div_mod::lemma_fundamental_div_mod_converse(sum * m, k, q, sum * m - q * k);
}

/// Computes the reciprocal multiplier for the kernel of half-width
/// `radius`.
pub fn reciprocal_for(radius: usize) -> (m: u64)
    requires
        radius <= 255,
    ensures
        m == recip_mul(area(radius as int)),
        m >= 1,
{
    proof {
        assert(1 <= (radius as int + 1) * (radius as int + 1) <= 0x1_0000) by (nonlinear_arith)
            requires
                0 <= radius <= 255,
        ;
    }
    let a: u64 = (radius as u64 + 1) * (radius as u64 + 1);
    let m = (RECIP_ONE + a - 1) / a;
    proof {
        assert(a as int == area(radius as int));
        vstd::arithmetic::div_mod::lemma_div_is_ordered(
            a as int,
            0x1_0000_0000_0000 + a as int - 1,
            a as int,
        );
        vstd::arithmetic::div_mod::lemma_div_by_self(a as int);
    }
    m
}

/// Scales a running window sum down to a sample value: multiply by the
/// reciprocal of the kernel area and shift the fixed-point scale back
/// out, which divides by the area exactly.
pub fn scale_sum(sum: u64, m: u64, radius: usize) -> (v: u8)
    requires
        radius <= 255,
        m == recip_mul(area(radius as int)),
        sum <= 255 * area(radius as int),
    ensures
        v == sum as int / area(radius as int),
{
    proof {
        let a = area(radius as int);
        assert(1 <= a <= 0x1_0000) by (nonlinear_arith)
            requires
                0 <= radius <= 255,
                a == (radius as int + 1) * (radius as int + 1),
        ;
        vstd::arithmetic::div_mod::lemma_fundamental_div_mod(0x1_0000_0000_0000 + a - 1, a);
        vstd::arithmetic::div_mod::lemma_mod_bound(0x1_0000_0000_0000 + a - 1, a);
        assert(sum * m <= 255 * (0x1_0000_0000_0000 + a - 1)) by (nonlinear_arith)
            requires
                1 <= a <= 0x1_0000,
                0 <= sum <= 255 * a,
                m >= 0,
                a * m <= 0x1_0000_0000_0000 + a - 1,
        ;
    }
    let p: u64 = sum * m;
    let q: u64 = p >> 48u64;
    proof {
        let a = area(radius as int);
        vstd::bits::lemma_u64_shr_is_div(p, 48);
        vstd::arithmetic::power2::lemma2_to64_rest();
        lemma_recip_exact(a, sum as int);
        assert(q == sum as int / a);
        // The quotient fits an 8-bit sample again.
        vstd::arithmetic::div_mod::lemma_div_is_ordered(sum as int, 255 * a, a);
        vstd::arithmetic::mul::lemma_mul_is_commutative(255, a);
        vstd::arithmetic::div_mod::lemma_div_multiples_vanish(255, a);
        vstd::arithmetic::div_mod::lemma_div_pos_is_pos(sum as int, a);
    }
    q as u8
}

} // verus!
