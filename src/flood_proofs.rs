use vstd::arithmetic::power2::pow2;
use vstd::prelude::*;

use crate::jfa::{
    best_of, candidate, flood, iteration_count_spec, jfa_pass_spec, jump_flood_spec,
    lemma_iteration_count_is_log2_ceil, lemma_pixel_index_in_grid, lemma_pixel_of_index,
    mask_pass_spec, pixel_index, axis_offset, Seed, MAX_EXTENT,
};

verus! {

/// Whether the signed distance `a` is a multiple of `m`.
pub open spec fn aligned(a: int, m: int) -> bool {
    (if a >= 0 { a } else { -a }) % m == 0
}

/// Once some candidate holds a seed, the choice holds one.
proof fn lemma_best_of_some(
    t: Seq<Option<Seed>>,
    w: nat,
    h: nat,
    x: int,
    y: int,
    s: int,
    k: nat,
    j: int,
)
    requires
        0 <= j < k,
        candidate(t, w, h, x, y, s, j) is Some,
    ensures
        best_of(t, w, h, x, y, s, k) is Some,
    decreases k,
{
    if j < k - 1 {
        lemma_best_of_some(t, w, h, x, y, s, (k - 1) as nat, j);
    }
}

/// A multiple of `s` is a multiple of `2 s`, or is one after taking `s` off.
proof fn lemma_mod_halving(a: int, s: int)
    requires
        a >= 0,
        s >= 1,
        a % s == 0,
    ensures
        a % (2 * s) == 0 || (a >= s && (a - s) % (2 * s) == 0),
{
    let q = a / s;
    vstd::arithmetic::div_mod::lemma_fundamental_div_mod(a, s);
    assert(q >= 0) by {
        vstd::arithmetic::div_mod::lemma_div_pos_is_pos(a, s);
    }
    let q2 = q / 2;
    assert(q == 2 * q2 + q % 2);
    if q % 2 == 0 {
        assert(a == (2 * s) * q2) by (nonlinear_arith)
            requires
                a == s * q,
                q == 2 * q2,
        ;
        vstd::arithmetic::div_mod::lemma_fundamental_div_mod_converse(a, 2 * s, q2, 0);
    } else {
        assert(a - s == (2 * s) * q2 && a >= s) by (nonlinear_arith)
            requires
                a == s * q,
                q == 2 * q2 + 1,
                q2 >= 0,
                s >= 1,
        ;
        vstd::arithmetic::div_mod::lemma_fundamental_div_mod_converse(a - s, 2 * s, q2, 0);
    }
}

/// One step towards `target` along an axis: the neighbour column (0, 1 or 2)
/// that brings a distance aligned to `s` to one aligned to `2 s`.
spec fn toward(p: int, target: int, s: int) -> int {
    if aligned(target - p, 2 * s) {
        1
    } else if target > p {
        2
    } else {
        0
    }
}

proof fn lemma_toward(p: int, target: int, s: int, n: int)
    requires
        0 <= p < n,
        0 <= target < n,
        s >= 1,
        aligned(target - p, s),
    ensures
        0 <= toward(p, target, s) <= 2,
        0 <= p + axis_offset(toward(p, target, s), s) < n,
        aligned(target - (p + axis_offset(toward(p, target, s), s)), 2 * s),
{
    let d = target - p;
    if d >= 0 {
        lemma_mod_halving(d, s);
    } else {
        lemma_mod_halving(-d, s);
    }
}


/// Whether every seed recorded in `t` is a pixel of the `w` by `h` grid that
/// the mask marks as an occluder.
pub open spec fn seeds_are_occluders(mask: Seq<u16>, w: nat, h: nat, t: Seq<Option<Seed>>) -> bool {
    forall|i: int|
        0 <= i < t.len() ==> match #[trigger] t[i] {
            Some(s) => s.x < w && s.y < h && mask[pixel_index(s.x as int, s.y as int, w as int)]
                != 0,
            None => true,
        }
}

/// If every value of `t` is nothing or an occluder pixel, so is the choice
/// among the candidates of any pixel.
proof fn lemma_best_of_occluder(
    mask: Seq<u16>,
    t: Seq<Option<Seed>>,
    w: nat,
    h: nat,
    x: int,
    y: int,
    s: int,
    k: nat,
)
    requires
        t.len() == w * h,
        seeds_are_occluders(mask, w, h, t),
    ensures
        seeds_are_occluders(mask, w, h, seq![best_of(t, w, h, x, y, s, k)]),
    decreases k,
{
    if k > 0 {
        lemma_best_of_occluder(mask, t, w, h, x, y, s, (k - 1) as nat);
        let cx = x + axis_offset((k - 1) % 3, s);
        let cy = y + axis_offset((k - 1) / 3, s);
        if 0 <= cx < w && 0 <= cy < h {
            lemma_pixel_index_in_grid(cx, cy, w as int, h as int);
        }
        assert(seq![best_of(t, w, h, x, y, s, (k - 1) as nat)][0] == best_of(
            t,
            w,
            h,
            x,
            y,
            s,
            (k - 1) as nat,
        ));
    }
}

/// Every seed that the passes record is an occluder pixel.
proof fn lemma_flood_records_occluders(mask: Seq<u16>, w: nat, h: nat, n: nat, j: nat)
    requires
        1 <= w <= MAX_EXTENT,
        h <= MAX_EXTENT,
        mask.len() == w * h,
    ensures
        flood(mask_pass_spec(mask, w), w, h, n, j).len() == w * h,
        seeds_are_occluders(mask, w, h, flood(mask_pass_spec(mask, w), w, h, n, j)),
    decreases j,
{
    let t = flood(mask_pass_spec(mask, w), w, h, n, j);
    if j == 0 {
        assert forall|i: int| 0 <= i < t.len() implies match #[trigger] t[i] {
            Some(s) => s.x < w && s.y < h && mask[pixel_index(s.x as int, s.y as int, w as int)]
                != 0,
            None => true,
        } by {
            lemma_pixel_of_index(i, w as int, h as int);
        }
    } else {
        let prev = flood(mask_pass_spec(mask, w), w, h, n, (j - 1) as nat);
        lemma_flood_records_occluders(mask, w, h, n, (j - 1) as nat);
        let s = pow2((n - j) as nat) as int;
        assert forall|i: int| 0 <= i < t.len() implies match #[trigger] t[i] {
            Some(s) => s.x < w && s.y < h && mask[pixel_index(s.x as int, s.y as int, w as int)]
                != 0,
            None => true,
        } by {
            let b = best_of(prev, w, h, i % w as int, i / w as int, s, 9);
            lemma_best_of_occluder(mask, prev, w, h, i % w as int, i / w as int, s, 9);
            assert(seq![b][0] == b);
        }
    }
}

/// Once the mask holds an occluder at `(x0, y0)`, after `j` of `n` passes every
/// pixel whose distance to it is a multiple of `2^(n - j)` on both axes holds a
/// seed.
proof fn lemma_flood_reaches(mask: Seq<u16>, w: nat, h: nat, x0: nat, y0: nat, n: nat, j: nat)
    requires
        w >= 1,
        h >= 1,
        mask.len() == w * h,
        x0 < w,
        y0 < h,
        x0 <= u32::MAX,
        y0 <= u32::MAX,
        mask[pixel_index(x0 as int, y0 as int, w as int)] != 0,
        w <= pow2(n),
        h <= pow2(n),
        j <= n,
    ensures
        ({
            let t = flood(mask_pass_spec(mask, w), w, h, n, j);
            &&& t.len() == w * h
            &&& forall|px: int, py: int|
                0 <= px < w && 0 <= py < h && aligned(x0 - px, pow2((n - j) as nat) as int)
                    && aligned(y0 - py, pow2((n - j) as nat) as int) ==> #[trigger] t[pixel_index(
                    px,
                    py,
                    w as int,
                )] is Some
        }),
    decreases j,
{
    let init = mask_pass_spec(mask, w);
    let t = flood(init, w, h, n, j);
    if j == 0 {
        lemma_pixel_index_in_grid(x0 as int, y0 as int, w as int, h as int);
        assert forall|px: int, py: int|
            0 <= px < w && 0 <= py < h && aligned(x0 - px, pow2(n) as int) && aligned(
                y0 - py,
                pow2(n) as int,
            ) implies #[trigger] t[pixel_index(px, py, w as int)] is Some by {
            let dx = if x0 - px >= 0 { x0 - px } else { px - x0 };
            let dy = if y0 - py >= 0 { y0 - py } else { py - y0 };
            vstd::arithmetic::div_mod::lemma_small_mod(dx as nat, pow2(n));
            vstd::arithmetic::div_mod::lemma_small_mod(dy as nat, pow2(n));
            assert(px == x0 && py == y0);
        }
    } else {
        let prev = flood(init, w, h, n, (j - 1) as nat);
        lemma_flood_reaches(mask, w, h, x0, y0, n, (j - 1) as nat);
        let s = pow2((n - j) as nat) as int;
        vstd::arithmetic::power2::lemma_pow2_unfold((n - j + 1) as nat);
        vstd::arithmetic::power2::lemma_pow2_pos((n - j) as nat);
        assert(pow2((n - (j - 1)) as nat) == 2 * s);
        assert(t == jfa_pass_spec(prev, w, h, s));
        assert forall|px: int, py: int|
            0 <= px < w && 0 <= py < h && aligned(x0 - px, s) && aligned(
                y0 - py,
                s,
            ) implies #[trigger] t[pixel_index(px, py, w as int)] is Some by {
            lemma_pixel_index_in_grid(px, py, w as int, h as int);
            lemma_toward(px, x0 as int, s, w as int);
            lemma_toward(py, y0 as int, s, h as int);
            let ax = toward(px, x0 as int, s);
            let ay = toward(py, y0 as int, s);
            let k = ay * 3 + ax;
            vstd::arithmetic::div_mod::lemma_fundamental_div_mod_converse(k, 3, ay, ax);
            let cx = px + axis_offset(ax, s);
            let cy = py + axis_offset(ay, s);
            assert(prev[pixel_index(cx, cy, w as int)] is Some);
            assert(candidate(prev, w, h, px, py, s, k) is Some);
            lemma_best_of_some(prev, w, h, px, py, s, 9, k);
        }
    }
}

/// Every seed that the whole jump-flood stage records is a pixel that the mask
/// marks as an occluder.
pub proof fn lemma_jump_flood_records_occluders(mask: Seq<u16>, w: nat, h: nat)
    requires
        1 <= w <= MAX_EXTENT,
        h <= MAX_EXTENT,
        mask.len() == w * h,
    ensures
        jump_flood_spec(mask, w, h).len() == w * h,
        seeds_are_occluders(mask, w, h, jump_flood_spec(mask, w, h)),
{
    let n = iteration_count_spec(w, h);
    lemma_flood_records_occluders(mask, w, h, n, n);
}

/// Once the mask holds an occluder, the whole jump-flood stage records a seed
/// for every pixel (for images whose sides are at most `MAX_EXTENT`).
pub proof fn lemma_jump_flood_reaches_every_pixel(
    mask: Seq<u16>,
    w: nat,
    h: nat,
    x0: nat,
    y0: nat,
)
    requires
        1 <= w <= MAX_EXTENT,
        1 <= h <= MAX_EXTENT,
        mask.len() == w * h,
        x0 < w,
        y0 < h,
        mask[pixel_index(x0 as int, y0 as int, w as int)] != 0,
    ensures
        jump_flood_spec(mask, w, h).len() == w * h,
        forall|i: int| 0 <= i < w * h ==> #[trigger] jump_flood_spec(mask, w, h)[i] is Some,
{
    lemma_iteration_count_is_log2_ceil(w, h);
    vstd::arithmetic::power2::lemma2_to64();
    let n = iteration_count_spec(w, h);
    lemma_flood_reaches(mask, w, h, x0, y0, n, n);
    let t = jump_flood_spec(mask, w, h);
    assert forall|i: int| 0 <= i < w * h implies #[trigger] t[i] is Some by {
        lemma_pixel_of_index(i, w as int, h as int);
        let px = i % w as int;
        let py = i / w as int;
        assert(aligned(x0 - px, 1));
        assert(aligned(y0 - py, 1));
        assert(t[pixel_index(px, py, w as int)] is Some);
    }
}

/// With exactly one occluder pixel in the mask, the whole jump-flood stage
/// records that pixel as the nearest seed of every pixel.
pub proof fn lemma_single_seed_is_exact(mask: Seq<u16>, w: nat, h: nat, x0: nat, y0: nat)
    requires
        1 <= w <= MAX_EXTENT,
        1 <= h <= MAX_EXTENT,
        mask.len() == w * h,
        x0 < w,
        y0 < h,
        forall|i: int|
            0 <= i < mask.len() ==> (#[trigger] mask[i] != 0 <==> i == pixel_index(
                x0 as int,
                y0 as int,
                w as int,
            )),
    ensures
        jump_flood_spec(mask, w, h).len() == w * h,
        forall|i: int|
            0 <= i < w * h ==> #[trigger] jump_flood_spec(mask, w, h)[i] == Some(
                Seed { x: x0 as u32, y: y0 as u32 },
            ),
{
    lemma_pixel_index_in_grid(x0 as int, y0 as int, w as int, h as int);
    lemma_jump_flood_reaches_every_pixel(mask, w, h, x0, y0);
    lemma_jump_flood_records_occluders(mask, w, h);
    let t = jump_flood_spec(mask, w, h);
    assert forall|i: int| 0 <= i < w * h implies #[trigger] t[i] == Some(
        Seed { x: x0 as u32, y: y0 as u32 },
    ) by {
        let s = t[i]->Some_0;
        lemma_pixel_index_in_grid(s.x as int, s.y as int, w as int, h as int);
        assert(pixel_index(s.x as int, s.y as int, w as int) == pixel_index(
            x0 as int,
            y0 as int,
            w as int,
        ));
    }
}

} // verus!
