use vstd::arithmetic::div_mod::lemma_fundamental_div_mod_converse;
use vstd::arithmetic::power2::{lemma_pow2_unfold, pow2};
use vstd::bits::lemma_u32_shl_is_mul;
use vstd::prelude::*;
use vstd::std_specs::bits::{axiom_u32_leading_zeros, u32_leading_zeros};

verus! {

/// An unsigned integer vector of three components, used for texture extents
/// and compute workgroup counts.
#[derive(Clone, Copy, Debug, PartialEq, Eq, Structural)]
pub struct UVec3 {
    pub x: u32,
    pub y: u32,
    pub z: u32,
}

/// `ceil(n / d)` over the naturals.
pub open spec fn div_ceil(n: nat, d: nat) -> nat
    recommends
        d > 0,
{
    ((n + d - 1) / d as int) as nat
}

/// `ceil(log2(n))` for `n >= 1`, and 0 for `n == 0`: the least `k` with `n <= 2^k`.
pub open spec fn log2_ceil(n: nat) -> nat
    decreases n,
{
    if n <= 1 {
        0
    } else {
        1 + log2_ceil(((n + 1) / 2) as nat)
    }
}

proof fn lemma_div_ceil(n: nat, d: nat)
    requires
        d > 0,
    ensures
        n % d == 0 ==> div_ceil(n, d) == n / d,
        n % d != 0 ==> div_ceil(n, d) == n / d + 1,
        n / d <= n,
{
    let q = (n / d) as int;
    let r = (n % d) as int;
    assert(n == q * d + r) by {
        vstd::arithmetic::div_mod::lemma_fundamental_div_mod(n as int, d as int);
        vstd::arithmetic::mul::lemma_mul_is_commutative(q, d as int);
    }
    assert(q <= q * d) by (nonlinear_arith)
        requires
            q >= 0,
            d >= 1,
    ;
    if r == 0 {
        lemma_fundamental_div_mod_converse(n + d - 1, d as int, q, d - 1);
    } else {
        assert(n + d - 1 == (q + 1) * d + (r - 1)) by (nonlinear_arith)
            requires
                n == q * d + r,
        ;
        lemma_fundamental_div_mod_converse(n + d - 1, d as int, q + 1, r - 1);
    }
}

/// Number of workgroups of `batch` items needed to cover `length` items.
pub fn batch_count_1d(length: u32, batch: u32) -> (r: u32)
    requires
        batch > 0,
    ensures
        r == div_ceil(length as nat, batch as nat),
{
    proof {
        lemma_div_ceil(length as nat, batch as nat);
    }
    let q = length / batch;
    if length % batch == 0 {
        q
    } else {
        proof {
            let qq = q as int;
            let d = batch as int;
            let rr = (length % batch) as int;
            vstd::arithmetic::div_mod::lemma_fundamental_div_mod(length as int, d);
            assert(qq <= qq * d) by (nonlinear_arith)
                requires
                    qq >= 0,
                    d >= 1,
            ;
            assert(length as int == d * qq + rr);
            vstd::arithmetic::mul::lemma_mul_is_commutative(qq, d);
        }
        q + 1
    }
}

/// Component-wise number of workgroups of size `batch_size` that cover `length`:
/// `ceil(length / batch_size)` in each axis.
pub fn batch_count(length: UVec3, batch_size: UVec3) -> (r: UVec3)
    requires
        batch_size.x > 0,
        batch_size.y > 0,
        batch_size.z > 0,
    ensures
        r.x == div_ceil(length.x as nat, batch_size.x as nat),
        r.y == div_ceil(length.y as nat, batch_size.y as nat),
        r.z == div_ceil(length.z as nat, batch_size.z as nat),
{
    UVec3 {
        x: batch_count_1d(length.x, batch_size.x),
        y: batch_count_1d(length.y, batch_size.y),
        z: batch_count_1d(length.z, batch_size.z),
    }
}

/// `log2_ceil(n)` is the one `k` with `2^(k-1) < n <= 2^k` (for `n >= 2`).
pub proof fn lemma_log2_ceil_unique(n: nat, k: nat)
    requires
        k >= 1,
        pow2((k - 1) as nat) < n <= pow2(k),
    ensures
        log2_ceil(n) == k,
    decreases k,
{
    lemma_pow2_unfold(k);
    if k == 1 {
        vstd::arithmetic::power2::lemma2_to64();
        assert(n == 2);
        assert(log2_ceil(1) == 0);
    } else {
        lemma_pow2_unfold((k - 1) as nat);
        lemma_log2_ceil_unique(((n + 1) / 2) as nat, (k - 1) as nat);
    }
}

/// `log2_ceil(n)` is the least `k` with `n <= 2^k`.
pub proof fn lemma_log2_ceil_bounds(n: nat)
    ensures
        n <= pow2(log2_ceil(n)),
        log2_ceil(n) >= 1 ==> pow2((log2_ceil(n) - 1) as nat) < n,
    decreases n,
{
    if n <= 1 {
        vstd::arithmetic::power2::lemma2_to64();
    } else {
        let h = ((n + 1) / 2) as nat;
        lemma_log2_ceil_bounds(h);
        lemma_pow2_unfold(log2_ceil(n));
        if log2_ceil(h) >= 1 {
            lemma_pow2_unfold(log2_ceil(h));
        } else {
            vstd::arithmetic::power2::lemma2_to64();
        }
    }
}

/// `ceil(log2(n))`, with 0 for `n <= 1`.
pub fn fast_log2_ceil(number: u32) -> (r: u32)
    ensures
        r == log2_ceil(number as nat),
        r <= 32,
{
    if number <= 1 {
        return 0;
    }
    let m: u32 = number - 1;
    let lz = m.leading_zeros();
    proof {
        axiom_u32_leading_zeros(m);
        let b = (32 - lz) as u32;
        let t = (31 - lz) as u32;
        assert(1 <= b <= 32);
        // the bit at position b - 1 is set
        assert((m >> t) & 1u32 != 0u32 ==> m >= (1u32 << t)) by (bit_vector)
            requires
                t < 32,
        ;
        vstd::bits::lemma_u32_pow2_no_overflow(t as nat);
        lemma_u32_shl_is_mul(1u32, t);
        assert(pow2(t as nat) <= m);
        // no bit at position b or above
        if b < 32 {
            assert((m >> b) == 0u32 ==> m < (1u32 << b)) by (bit_vector)
                requires
                    b < 32,
            ;
            vstd::bits::lemma_u32_pow2_no_overflow(b as nat);
            lemma_u32_shl_is_mul(1u32, b);
        } else {
            vstd::arithmetic::power2::lemma2_to64();
        }
        assert(m < pow2(b as nat));
        lemma_log2_ceil_unique(number as nat, b as nat);
    }
    32 - lz
}

} // verus!
