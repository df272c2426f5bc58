use vstd::arithmetic::power2::pow2;
use vstd::prelude::*;

use crate::ping_pong::current_after;

verus! {

/// Largest number of cascades.
pub const MAX_CASCADE_COUNT: usize = 16;

/// A length in pixels, held exactly as the ratio `num / den`.
#[derive(Clone, Copy, Debug, PartialEq, Eq, Structural)]
pub struct Interval {
    pub num: u32,
    pub den: u32,
}

impl Interval {
    pub open spec fn wf(&self) -> bool {
        self.den > 0
    }

    /// Whether this length is at least one pixel.
    pub open spec fn at_least_one(&self) -> bool {
        self.num >= self.den
    }

    /// The length `num / den` pixels.
    pub fn new(num: u32, den: u32) -> (r: Interval)
        requires
            den > 0,
        ensures
            r.wf(),
            r.num == num,
            r.den == den,
    {
        Interval { num, den }
    }
}

/// Configuration of the radiance cascades of a view.
#[derive(Clone, Copy, Debug, PartialEq, Eq, Structural)]
pub struct RadianceCascadesConfig {
    /// Determines the number of directions of cascade `c`: `2^(c + resolution_factor)`.
    pub resolution_factor: u32,
    /// Interval length of cascade 0 in pixels.
    pub interval0: Interval,
}

impl RadianceCascadesConfig {
    pub open spec fn wf(&self) -> bool {
        &&& self.resolution_factor >= 1
        &&& self.interval0.wf()
        &&& self.interval0.at_least_one()
    }

    /// A configuration with the resolution factor and the interval each raised
    /// to at least 1.
    pub fn new(resolution_factor: u32, interval0: Interval) -> (r: Self)
        requires
            interval0.wf(),
        ensures
            r.wf(),
            r.resolution_factor == if resolution_factor >= 1 { resolution_factor } else { 1 },
            r.interval0 == if interval0.at_least_one() { interval0 } else { Interval { num: 1, den: 1 } },
    {
        RadianceCascadesConfig {
            resolution_factor: if resolution_factor >= 1 { resolution_factor } else { 1 },
            interval0: if interval0.num >= interval0.den { interval0 } else { Interval { num: 1, den: 1 } },
        }
    }

    /// The same configuration with another resolution factor (raised to at least 1).
    pub fn with_resolution_factor(self, resolution_factor: u32) -> (r: Self)
        requires
            self.wf(),
        ensures
            r.wf(),
            r.resolution_factor == if resolution_factor >= 1 { resolution_factor } else { 1 },
            r.interval0 == self.interval0,
    {
        RadianceCascadesConfig {
            resolution_factor: if resolution_factor >= 1 { resolution_factor } else { 1 },
            interval0: self.interval0,
        }
    }

    /// The same configuration with another cascade 0 interval (raised to at least 1 pixel).
    pub fn with_interval(self, interval0: Interval) -> (r: Self)
        requires
            self.wf(),
            interval0.wf(),
        ensures
            r.wf(),
            r.resolution_factor == self.resolution_factor,
            r.interval0 == if interval0.at_least_one() { interval0 } else { Interval { num: 1, den: 1 } },
    {
        RadianceCascadesConfig {
            resolution_factor: self.resolution_factor,
            interval0: if interval0.num >= interval0.den { interval0 } else { Interval { num: 1, den: 1 } },
        }
    }
}

impl Default for RadianceCascadesConfig {
    /// Resolution factor 1 and a cascade 0 interval of 2 pixels.
    fn default() -> (r: Self)
        ensures
            r.wf(),
            r.resolution_factor == 1,
            r.interval0 == (Interval { num: 2, den: 1 }),
    {
        RadianceCascadesConfig { resolution_factor: 1, interval0: Interval { num: 2, den: 1 } }
    }
}

/// `4^n`.
pub open spec fn pow4(n: nat) -> nat
    decreases n,
{
    if n == 0 {
        1
    } else {
        4 * pow4((n - 1) as nat)
    }
}

proof fn lemma_pow4_monotonic(n: nat, m: nat)
    requires
        n <= m,
    ensures
        1 <= pow4(n) <= pow4(m),
    decreases m,
{
    if m > 0 {
        if n < m {
            lemma_pow4_monotonic(n, (m - 1) as nat);
        } else {
            lemma_pow4_monotonic(0, (m - 1) as nat);
        }
    }
}

proof fn lemma_pow4_bound(n: nat)
    requires
        n <= 15,
    ensures
        1 <= pow4(n) <= 0x4000_0000,
{
    reveal_with_fuel(pow4, 16);
    lemma_pow4_monotonic(n, 15);
}

/// Whether cascades `0..n`, whose intervals start at `interval0 = num / den`
/// and grow four times per cascade, together reach a diagonal of length
/// `sqrt(diag_sq)`: `interval0 * (4^n - 1) / 3 >= sqrt(diag_sq)`, written without
/// roots or fractions.
pub open spec fn reaches(n: nat, diag_sq: nat, num: nat, den: nat) -> bool {
    let a = (pow4(n) - 1) * num;
    a * a >= 9 * diag_sq * (den * den)
}

/// The least `n` from `k` on (below `MAX_CASCADE_COUNT`) with `reaches(n, ..)`,
/// else `MAX_CASCADE_COUNT`.
pub open spec fn first_reaching(k: nat, diag_sq: nat, num: nat, den: nat) -> nat
    decreases MAX_CASCADE_COUNT - k,
{
    if k >= MAX_CASCADE_COUNT {
        MAX_CASCADE_COUNT as nat
    } else if reaches(k, diag_sq, num, den) {
        k
    } else {
        first_reaching(k + 1, diag_sq, num, den)
    }
}

/// Number of cascades of an image of `width` by `height` pixels:
/// `ceil(log4(1 + 3 D / interval0))` for the diagonal `D`, clamped to `MAX_CASCADE_COUNT`.
pub open spec fn cascade_count_spec(width: nat, height: nat, interval0: Interval) -> nat {
    let diag_sq = (width * width + height * height) as nat;
    first_reaching(0, diag_sq, interval0.num as nat, interval0.den as nat)
}

/// `x / y >= k` exactly when `x >= k * y`.
proof fn lemma_div_ge(x: int, y: int, k: int)
    requires
        x >= 0,
        y > 0,
        k >= 0,
    ensures
        x / y >= k <==> x >= k * y,
{
    let q = x / y;
    let r = x % y;
    vstd::arithmetic::div_mod::lemma_fundamental_div_mod(x, y);
    vstd::arithmetic::mul::lemma_mul_is_commutative(y, q);
    if q >= k {
        vstd::arithmetic::mul::lemma_mul_inequality(k, q, y);
    } else {
        vstd::arithmetic::mul::lemma_mul_inequality(q + 1, k, y);
        vstd::arithmetic::mul::lemma_mul_is_distributive_add_other_way(y, q, 1);
    }
}

/// Number of cascades of an image of `width` by `height` pixels with cascade 0
/// interval `interval0`.
pub fn cascade_count(width: u32, height: u32, interval0: Interval) -> (r: usize)
    requires
        interval0.wf(),
    ensures
        r == cascade_count_spec(width as nat, height as nat, interval0),
        r <= MAX_CASCADE_COUNT,
        r == 0 <==> width == 0 && height == 0,
{
    proof {
        let s = (width * width + height * height) as nat;
        let d = interval0.den as nat;
        lemma_first_reaching_at_least(1, s, interval0.num as nat, d);
        assert(width * width + height * height > 0 <==> !(width == 0 && height == 0)) by (nonlinear_arith);
        assert(s > 0 ==> 9 * s * (d * d) > 0) by (nonlinear_arith)
            requires
                d > 0,
        ;
        assert(s == 0 ==> 9 * s * (d * d) == 0) by (nonlinear_arith);
        assert(pow4(0) == 1);
        assert((pow4(0) - 1) * interval0.num == 0);
        assert(reaches(0, s, interval0.num as nat, d) <==> s == 0);
        assert(cascade_count_spec(width as nat, height as nat, interval0) == 0 <==> s == 0);
    }
    let ghost diag_sq = (width * width + height * height) as nat;
    let ghost num = interval0.num as nat;
    let ghost den = interval0.den as nat;
    let w = width as u128;
    let h = height as u128;
    assert(w * w <= 0xffff_ffff_ffff_ffff_ffff && h * h <= 0xffff_ffff_ffff_ffff_ffff)
        by (nonlinear_arith)
        requires
            w <= 0xffff_ffff,
            h <= 0xffff_ffff,
    ;
    let rhs: u128 = 9 * (w * w + h * h);
    let d = interval0.den as u128;
    let n0 = interval0.num as u128;
    assert(d * d <= 0xffff_ffff_ffff_ffff_ffff && d * d > 0) by (nonlinear_arith)
        requires
            0 < d <= 0xffff_ffff,
    ;
    let den_sq: u128 = d * d;
    let mut four_pow: u128 = 1;
    let mut n: usize = 0;
    while n < MAX_CASCADE_COUNT
        invariant
            n <= MAX_CASCADE_COUNT,
            four_pow == pow4(n as nat),
            four_pow <= 0x1_0000_0000,
            first_reaching(0, diag_sq, num, den) == first_reaching(n as nat, diag_sq, num, den),
            rhs == 9 * diag_sq,
            den_sq == den * den,
            den_sq > 0,
            n0 == num,
            n0 <= 0xffff_ffff,
            diag_sq == (width * width + height * height) as nat,
            cascade_count_spec(width as nat, height as nat, interval0) == 0 <==> width == 0
                && height == 0,
            num == interval0.num,
            den == interval0.den,
        decreases MAX_CASCADE_COUNT - n,
    {
        proof {
            lemma_pow4_bound(n as nat);
        }
        assert((four_pow - 1) * n0 <= 0x4000_0000_0000_0000) by (nonlinear_arith)
            requires
                1 <= four_pow <= 0x4000_0000,
                n0 <= 0xffff_ffff,
        ;
        let a: u128 = (four_pow - 1) * n0;
        assert(a * a <= 0x1000_0000_0000_0000_0000_0000_0000_0000) by (nonlinear_arith)
            requires
                a <= 0x4000_0000_0000_0000,
        ;
        let a_sq: u128 = a * a;
        proof {
            lemma_div_ge(a_sq as int, den_sq as int, rhs as int);
            assert(9 * diag_sq * (den * den) == rhs * den_sq) by (nonlinear_arith)
                requires
                    rhs == 9 * diag_sq,
                    den_sq == den * den,
            ;
            assert(reaches(n as nat, diag_sq, num, den) <==> a_sq / den_sq >= rhs);
        }
        if a_sq / den_sq >= rhs {
            assert(first_reaching(n as nat, diag_sq, num, den) == n);
            return n;
        }
        proof {
            if n + 1 <= 15 {
                lemma_pow4_bound((n + 1) as nat);
            }
        }
        four_pow = four_pow * 4;
        n = n + 1;
    }
    MAX_CASCADE_COUNT
}

proof fn lemma_first_reaching_at_least(k: nat, diag_sq: nat, num: nat, den: nat)
    ensures
        k <= MAX_CASCADE_COUNT ==> k <= first_reaching(k, diag_sq, num, den),
        first_reaching(k, diag_sq, num, den) <= MAX_CASCADE_COUNT,
    decreases MAX_CASCADE_COUNT - k,
{
    if k < MAX_CASCADE_COUNT {
        lemma_first_reaching_at_least(k + 1, diag_sq, num, den);
    }
}

/// Where the second parameters reach in every number of cascades that the
/// first reach, the first need no more cascades than the second.
proof fn lemma_first_reaching_ordered(
    k: nat,
    s1: nat,
    num1: nat,
    den1: nat,
    s2: nat,
    num2: nat,
    den2: nat,
)
    requires
        forall|n: nat| #[trigger] reaches(n, s2, num2, den2) ==> reaches(n, s1, num1, den1),
    ensures
        first_reaching(k, s1, num1, den1) <= first_reaching(k, s2, num2, den2),
    decreases MAX_CASCADE_COUNT - k,
{
    lemma_first_reaching_at_least(k, s1, num1, den1);
    lemma_first_reaching_at_least(k, s2, num2, den2);
    if k < MAX_CASCADE_COUNT {
        lemma_first_reaching_ordered(k + 1, s1, num1, den1, s2, num2, den2);
        lemma_first_reaching_at_least(k + 1, s2, num2, den2);
    }
}

/// The cascade count never decreases as the diagonal grows, never grows as the
/// cascade 0 interval grows, and stays within `0..=MAX_CASCADE_COUNT`.
pub proof fn lemma_cascade_count_monotonic(
    w1: nat,
    h1: nat,
    w2: nat,
    h2: nat,
    i1: Interval,
    i2: Interval,
)
    requires
        i1.wf(),
        i2.wf(),
    ensures
        cascade_count_spec(w1, h1, i1) <= MAX_CASCADE_COUNT,
        w1 * w1 + h1 * h1 <= w2 * w2 + h2 * h2 ==> cascade_count_spec(w1, h1, i1)
            <= cascade_count_spec(w2, h2, i1),
        i1.num * i2.den <= i2.num * i1.den ==> cascade_count_spec(w1, h1, i2)
            <= cascade_count_spec(w1, h1, i1),
{
    let s1 = (w1 * w1 + h1 * h1) as nat;
    let s2 = (w2 * w2 + h2 * h2) as nat;
    let (n1, d1, n2, d2) = (i1.num as nat, i1.den as nat, i2.num as nat, i2.den as nat);
    lemma_first_reaching_at_least(0, s1, n1, d1);
    if s1 <= s2 {
        assert forall|n: nat| #[trigger] reaches(n, s2, n1, d1) implies reaches(n, s1, n1, d1) by {
            assert(9 * s1 * (d1 * d1) <= 9 * s2 * (d1 * d1)) by (nonlinear_arith)
                requires
                    s1 <= s2,
            ;
        }
        lemma_first_reaching_ordered(0, s1, n1, d1, s2, n1, d1);
    }
    if n1 * d2 <= n2 * d1 {
        assert forall|n: nat| #[trigger] reaches(n, s1, n1, d1) implies reaches(n, s1, n2, d2) by {
            lemma_pow4_monotonic(0, n);
            let c = pow4(n) - 1;
            lemma_reaches_interval(c, s1 as int, n1 as int, d1 as int, n2 as int, d2 as int);
        }
        lemma_first_reaching_ordered(0, s1, n2, d2, s1, n1, d1);
    }
}

proof fn lemma_reaches_interval(c: int, s: int, n1: int, d1: int, n2: int, d2: int)
    requires
        c >= 0,
        s >= 0,
        n1 >= 0,
        n2 >= 0,
        d1 > 0,
        d2 > 0,
        n1 * d2 <= n2 * d1,
        (c * n1) * (c * n1) >= 9 * s * (d1 * d1),
    ensures
        (c * n2) * (c * n2) >= 9 * s * (d2 * d2),
{
    let a1 = n1 * d2;
    let a2 = n2 * d1;
    assert(a1 * a1 <= a2 * a2) by (nonlinear_arith)
        requires
            0 <= a1 <= a2,
    ;
    assert((c * a1) * (c * a1) >= 9 * s * (d1 * d1) * (d2 * d2)) by (nonlinear_arith)
        requires
            (c * n1) * (c * n1) >= 9 * s * (d1 * d1),
            a1 == n1 * d2,
    ;
    assert((c * a2) * (c * a2) >= (c * a1) * (c * a1)) by (nonlinear_arith)
        requires
            a1 * a1 <= a2 * a2,
    ;
    assert((d1 * d1) * ((c * n2) * (c * n2)) >= (d1 * d1) * (9 * s * (d2 * d2))) by (nonlinear_arith)
        requires
            (c * a2) * (c * a2) >= 9 * s * (d1 * d1) * (d2 * d2),
            a2 == n2 * d1,
    ;
    assert((c * n2) * (c * n2) >= 9 * s * (d2 * d2)) by (nonlinear_arith)
        requires
            (d1 * d1) * ((c * n2) * (c * n2)) >= (d1 * d1) * (9 * s * (d2 * d2)),
            d1 > 0,
    ;
}

/// Parameters of the probes of one cascade. `start` and `range` are lengths in
/// units of `1 / interval0.den` pixels, where `interval0` is the cascade 0
/// interval of the configuration they were built from.
#[derive(Clone, Copy, Debug, PartialEq, Eq, Structural)]
pub struct Probe {
    /// Angular resolution: the number of directions of each probe.
    pub width: u32,
    /// Distance from the probe at which its rays start.
    pub start: u64,
    /// Length of its rays.
    pub range: u64,
}

/// Angular resolution of cascade `c`: `2^(c + resolution_factor)`.
pub open spec fn probe_width(c: nat, resolution_factor: nat) -> nat {
    pow2(c + resolution_factor)
}

/// Start of the rays of cascade `c`: `interval0 * (4^c - 1) / 3`, over `den`.
pub open spec fn probe_start(c: nat, num: nat) -> nat {
    (num * (pow4(c) - 1) / 3) as nat
}

/// Length of the rays of cascade `c`: `interval0 * 4^c`, over `den`.
pub open spec fn probe_range(c: nat, num: nat) -> nat {
    num * pow4(c)
}

pub open spec fn probe_spec(c: nat, config: RadianceCascadesConfig) -> Probe {
    Probe {
        width: probe_width(c, config.resolution_factor as nat) as u32,
        start: probe_start(c, config.interval0.num as nat) as u64,
        range: probe_range(c, config.interval0.num as nat) as u64,
    }
}

/// Sum of the ray lengths of cascades `0..n`.
pub open spec fn sum_of_ranges(n: nat, num: nat) -> nat
    decreases n,
{
    if n == 0 {
        0
    } else {
        sum_of_ranges((n - 1) as nat, num) + probe_range((n - 1) as nat, num)
    }
}

proof fn lemma_pow4_minus_one_divisible(c: nat)
    ensures
        pow4(c) >= 1,
        (pow4(c) - 1) % 3 == 0,
    decreases c,
{
    if c > 0 {
        lemma_pow4_minus_one_divisible((c - 1) as nat);
        let q = (pow4((c - 1) as nat) - 1) / 3;
        assert(pow4(c) - 1 == 3 * (4 * q + 1));
        vstd::arithmetic::div_mod::lemma_fundamental_div_mod_converse(pow4(c) - 1, 3, 4 * q + 1, 0);
    }
}

/// The rays of each cascade start where those of the cascades before it end:
/// the start of cascade `n` is the sum of the ray lengths of cascades `0..n`,
/// the geometric series `interval0 * (4^n - 1) / 3`.
pub proof fn lemma_starts_are_partial_sums(n: nat, num: nat)
    ensures
        sum_of_ranges(n, num) == probe_start(n, num),
        3 * probe_start(n, num) == num * (pow4(n) - 1),
    decreases n,
{
    lemma_pow4_minus_one_divisible(n);
    let q = (pow4(n) - 1) / 3;
    assert(num * (pow4(n) - 1) == 3 * (num * q)) by (nonlinear_arith)
        requires
            pow4(n) - 1 == 3 * q,
    ;
    vstd::arithmetic::div_mod::lemma_fundamental_div_mod_converse(num * (pow4(n) - 1), 3, num * q, 0);
    if n > 0 {
        lemma_starts_are_partial_sums((n - 1) as nat, num);
        let p = pow4((n - 1) as nat);
        assert(num * (pow4(n) - 1) == 4 * (num * (p - 1)) + 3 * num) by (nonlinear_arith)
            requires
                pow4(n) == 4 * p,
        ;
        assert(num * p == num * (p - 1) + num) by (nonlinear_arith);
        assert(probe_range((n - 1) as nat, num) == num * p);
    }
}

/// The probe parameters of cascades `0..cascade_count`, indexed by cascade.
pub fn probe_table(config: &RadianceCascadesConfig, cascade_count: usize) -> (r: Vec<Probe>)
    requires
        config.wf(),
        cascade_count <= MAX_CASCADE_COUNT,
        config.resolution_factor + cascade_count <= 32,
    ensures
        r@.len() == cascade_count,
        forall|c: int| 0 <= c < cascade_count ==> #[trigger] r@[c] == probe_spec(c as nat, *config),
{
    let num = config.interval0.num as u64;
    let rf = config.resolution_factor;
    let mut probes: Vec<Probe> = Vec::with_capacity(cascade_count);
    let mut four_pow: u64 = 1;
    let mut c: usize = 0;
    while c < cascade_count
        invariant
            config.wf(),
            cascade_count <= MAX_CASCADE_COUNT,
            config.resolution_factor + cascade_count <= 32,
            num == config.interval0.num,
            rf == config.resolution_factor,
            c <= cascade_count,
            four_pow == pow4(c as nat),
            probes@.len() == c,
            forall|k: int| 0 <= k < c ==> #[trigger] probes@[k] == probe_spec(k as nat, *config),
        decreases cascade_count - c,
    {
        proof {
            lemma_pow4_bound(c as nat);
            lemma_starts_are_partial_sums(c as nat, num as nat);
            lemma_pow4_minus_one_divisible(c as nat);
            vstd::bits::lemma_u32_pow2_no_overflow((c as u32 + rf) as nat);
            vstd::bits::lemma_u32_shl_is_mul(1u32, (c as u32 + rf) as u32);
        }
        let width: u32 = 1u32 << (c as u32 + rf);
        let third: u64 = (four_pow - 1) / 3;
        assert(num * third <= 0x4000_0000_0000_0000 && num * four_pow <= 0x4000_0000_0000_0000) by (nonlinear_arith)
            requires
                third <= four_pow,
                four_pow <= 0x4000_0000,
                num <= 0xffff_ffff,
        ;
        let start: u64 = num * third;
        let range: u64 = num * four_pow;
        proof {
            assert(3 * start == num * (four_pow - 1)) by (nonlinear_arith)
                requires
                    start == num * third,
                    four_pow - 1 == 3 * third,
            ;
        }
        probes.push(Probe { width, start, range });
        proof {
            reveal_with_fuel(pow4, 2);
        }
        four_pow = four_pow * 4;
        c = c + 1;
    }
    probes
}

/// The textures of the cascade stage: the distance field, and the cascade pair.
/// The coarsest cascade reads `radiance_cascades_texture1` and writes
/// `radiance_cascades_texture0`; every finer cascade writes the other texture of
/// the pair than it reads.
pub struct RadianceCascadesTextures<T> {
    pub dist_field_texture: T,
    pub radiance_cascades_texture0: T,
    pub radiance_cascades_texture1: T,
    /// Whether `radiance_cascades_texture0` holds the finest cascade.
    pub is_texture0: bool,
}

impl<T> RadianceCascadesTextures<T> {
    /// The textures for a stage of `cascade_count` cascades.
    pub fn new(
        dist_field_texture: T,
        radiance_cascades_texture0: T,
        radiance_cascades_texture1: T,
        cascade_count: usize,
    ) -> (r: Self)
        ensures
            r.dist_field_texture == dist_field_texture,
            r.radiance_cascades_texture0 == radiance_cascades_texture0,
            r.radiance_cascades_texture1 == radiance_cascades_texture1,
            r.is_texture0 == (current_after(1, cascade_count as nat) == 0),
    {
        RadianceCascadesTextures {
            dist_field_texture,
            radiance_cascades_texture0,
            radiance_cascades_texture1,
            is_texture0: cascade_count % 2 != 0,
        }
    }

    /// The texture that the finest cascade wrote.
    pub fn main_texture(&self) -> (r: &T)
        ensures
            *r == if self.is_texture0 {
                self.radiance_cascades_texture0
            } else {
                self.radiance_cascades_texture1
            },
    {
        if self.is_texture0 {
            &self.radiance_cascades_texture0
        } else {
            &self.radiance_cascades_texture1
        }
    }
}

} // verus!
