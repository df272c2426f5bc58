use vstd::arithmetic::power2::pow2;
use vstd::prelude::*;

use crate::math_util::{fast_log2_ceil, log2_ceil};
use crate::ping_pong::current_after;

verus! {

/// Largest number of jump-flood passes, and the length of the step-size table.
pub const MAX_ITER: usize = 16;

/// Largest texture extent whose texel coordinates fit the 16-bit channels of
/// the seed texture.
pub const MAX_EXTENT: u32 = 65536;

/// Number of jump-flood passes for an image of `width` by `height` pixels:
/// `ceil(log2(max(width, height)))`, clamped to `MAX_ITER`.
pub open spec fn iteration_count_spec(width: nat, height: nat) -> nat {
    let m = if width >= height { width } else { height };
    let n = log2_ceil(m);
    if n <= MAX_ITER { n } else { MAX_ITER as nat }
}

/// Number of jump-flood passes for an image of `width` by `height` pixels.
pub fn jfa_iteration_count(width: u32, height: u32) -> (r: usize)
    ensures
        r == iteration_count_spec(width as nat, height as nat),
        r <= MAX_ITER,
{
    let m = if width >= height { width } else { height };
    let n = fast_log2_ceil(m) as usize;
    if n <= MAX_ITER { n } else { MAX_ITER }
}

/// For an image of at least one pixel whose larger side `m` is at most
/// `MAX_EXTENT`, the iteration count is `ceil(log2(m))`: the least `n` with
/// `m <= 2^n`. It does not depend on which side is the larger.
pub proof fn lemma_iteration_count_is_log2_ceil(width: nat, height: nat)
    requires
        1 <= width <= MAX_EXTENT,
        1 <= height <= MAX_EXTENT,
    ensures
        ({
            let m = if width >= height { width } else { height };
            let n = iteration_count_spec(width, height);
            &&& n == log2_ceil(m)
            &&& m <= pow2(n)
            &&& n >= 1 ==> pow2((n - 1) as nat) < m
            &&& n == iteration_count_spec(height, width)
        }),
{
    let m = if width >= height { width } else { height };
    let l = log2_ceil(m);
    crate::math_util::lemma_log2_ceil_bounds(m);
    vstd::arithmetic::power2::lemma2_to64();
    assert(l <= 16) by {
        if l > 16 {
            if l - 1 > 16 {
                vstd::arithmetic::power2::lemma_pow2_strictly_increases(16, (l - 1) as nat);
            }
        }
    }
}

/// The step sizes of every possible pass, uploaded once: entry `i` is `2^i`.
pub fn jfa_step_sizes() -> (r: Vec<u32>)
    ensures
        r@.len() == MAX_ITER,
        forall|i: int| 0 <= i < MAX_ITER ==> #[trigger] r@[i] == pow2(i as nat),
{
    let mut r: Vec<u32> = Vec::with_capacity(MAX_ITER);
    let mut step: u32 = 1;
    let mut i: usize = 0;
    proof {
        vstd::arithmetic::power2::lemma2_to64();
    }
    while i < MAX_ITER
        invariant
            i <= MAX_ITER,
            r@.len() == i,
            i < MAX_ITER ==> step == pow2(i as nat),
            forall|j: int| 0 <= j < i ==> #[trigger] r@[j] == pow2(j as nat),
        decreases MAX_ITER - i,
    {
        r.push(step);
        proof {
            vstd::arithmetic::power2::lemma_pow2_unfold((i + 1) as nat);
            vstd::arithmetic::power2::lemma2_to64();
        }
        if i + 1 < MAX_ITER {
            step = step * 2;
        }
        i = i + 1;
    }
    r
}

/// A texel coordinate recorded as the nearest seed of a pixel.
#[derive(Clone, Copy, Debug, PartialEq, Eq, Structural)]
pub struct Seed {
    pub x: u32,
    pub y: u32,
}

/// Single-channel occluder mask: a nonzero texel is a light-blocking pixel.
/// Texels are stored row by row.
pub struct OccluderMask {
    pub width: u32,
    pub height: u32,
    pub texels: Vec<u16>,
}

impl OccluderMask {
    pub open spec fn wf(&self) -> bool {
        &&& self.width <= MAX_EXTENT
        &&& self.height <= MAX_EXTENT
        &&& self.texels@.len() == self.width * self.height
    }

    /// An empty mask of the given size.
    pub fn new(width: u32, height: u32) -> (r: OccluderMask)
        requires
            width <= MAX_EXTENT,
            height <= MAX_EXTENT,
            width * height <= usize::MAX,
        ensures
            r.wf(),
            r.width == width,
            r.height == height,
            forall|i: int| 0 <= i < r.texels@.len() ==> #[trigger] r.texels@[i] == 0,
    {
        let len = width as usize * height as usize;
        let mut texels: Vec<u16> = Vec::with_capacity(len);
        let mut i: usize = 0;
        while i < len
            invariant
                i <= len,
                texels@.len() == i,
                forall|j: int| 0 <= j < i ==> #[trigger] texels@[j] == 0,
            decreases len - i,
        {
            texels.push(0);
            i = i + 1;
        }
        OccluderMask { width, height, texels }
    }

    /// Writes `value` at pixel `(x, y)`.
    pub fn set(&mut self, x: u32, y: u32, value: u16)
        requires
            old(self).wf(),
            x < old(self).width,
            y < old(self).height,
        ensures
            final(self).wf(),
            final(self).width == old(self).width,
            final(self).height == old(self).height,
            final(self).texels@ == old(self).texels@.update(
                pixel_index(x as int, y as int, old(self).width as int),
                value,
            ),
    {
        proof {
            lemma_pixel_index_in_grid(x as int, y as int, self.width as int, self.height as int);
        }
        let len = self.texels.len();
        assert((y as usize) * (self.width as usize) + (x as usize) < len);
        let i = y as usize * self.width as usize + x as usize;
        self.texels.set(i, value);
    }
}

/// Row-major index of pixel `(x, y)` in a grid `width` pixels wide.
pub open spec fn pixel_index(x: int, y: int, width: int) -> int {
    y * width + x
}

pub proof fn lemma_pixel_index_in_grid(x: int, y: int, w: int, h: int)
    requires
        0 <= x < w,
        0 <= y < h,
    ensures
        0 <= pixel_index(x, y, w) < w * h,
        pixel_index(x, y, w) % w == x,
        pixel_index(x, y, w) / w == y,
{
    assert(0 <= y * w + x < w * h) by (nonlinear_arith)
        requires
            0 <= x < w,
            0 <= y < h,
    ;
    vstd::arithmetic::div_mod::lemma_fundamental_div_mod_converse(y * w + x, w, y, x);
}

pub proof fn lemma_pixel_of_index(i: int, w: int, h: int)
    requires
        0 <= i < w * h,
        w > 0,
    ensures
        0 <= i % w < w,
        0 <= i / w < h,
        pixel_index(i % w, i / w, w) == i,
{
    vstd::arithmetic::div_mod::lemma_fundamental_div_mod(i, w);
    vstd::arithmetic::div_mod::lemma_div_pos_is_pos(i, w);
    let q = i / w;
    let r = i % w;
    assert(q < h) by (nonlinear_arith)
        requires
            i == w * q + r,
            0 <= r,
            i < w * h,
            w > 0,
    ;
    vstd::arithmetic::mul::lemma_mul_is_commutative(w, i / w);
}

/// The seed texture: per pixel, the nearest seed found so far, or `None` where
/// no seed has reached the pixel yet. Texels are stored row by row.
pub struct SeedMap {
    pub width: u32,
    pub height: u32,
    pub texels: Vec<Option<Seed>>,
}

/// Every recorded seed is a pixel of the `w` by `h` grid.
pub open spec fn seeds_in_grid(t: Seq<Option<Seed>>, w: nat, h: nat) -> bool {
    forall|i: int|
        0 <= i < t.len() ==> match #[trigger] t[i] {
            Some(s) => s.x < w && s.y < h,
            None => true,
        }
}

impl SeedMap {
    pub open spec fn wf(&self) -> bool {
        &&& self.width <= MAX_EXTENT
        &&& self.height <= MAX_EXTENT
        &&& self.texels@.len() == self.width * self.height
        &&& seeds_in_grid(self.texels@, self.width as nat, self.height as nat)
    }

    /// The seed recorded at pixel `(x, y)`.
    pub fn get(&self, x: u32, y: u32) -> (r: Option<Seed>)
        requires
            self.wf(),
            x < self.width,
            y < self.height,
        ensures
            r == self.texels@[pixel_index(x as int, y as int, self.width as int)],
    {
        proof {
            lemma_pixel_index_in_grid(x as int, y as int, self.width as int, self.height as int);
        }
        let len = self.texels.len();
        assert((y as usize) * (self.width as usize) + (x as usize) < len);
        self.texels[y as usize * self.width as usize + x as usize]
    }
}

/// Squared Euclidean distance from seed `s` to pixel `(x, y)`.
pub open spec fn sq_dist(s: Seed, x: int, y: int) -> int {
    (s.x - x) * (s.x - x) + (s.y - y) * (s.y - y)
}

/// The mask pass: an occluder pixel records itself, every other pixel nothing.
pub open spec fn mask_pass_spec(mask: Seq<u16>, w: nat) -> Seq<Option<Seed>> {
    Seq::new(
        mask.len(),
        |i: int|
            if mask[i] != 0 {
                Some(Seed { x: (i % w as int) as u32, y: (i / w as int) as u32 })
            } else {
                None
            },
    )
}

/// Offset along one axis of neighbour column or row `a` (0, 1 or 2) at step `s`.
pub open spec fn axis_offset(a: int, s: int) -> int {
    if a == 0 {
        -s
    } else if a == 1 {
        0
    } else {
        s
    }
}

/// The value that pixel `(x, y)` reads as its `k`-th candidate (`k` in `0..9`,
/// row by row over the offsets `-s, 0, s`); a read outside the grid yields nothing.
pub open spec fn candidate(
    t: Seq<Option<Seed>>,
    w: nat,
    h: nat,
    x: int,
    y: int,
    s: int,
    k: int,
) -> Option<Seed> {
    let cx = x + axis_offset(k % 3, s);
    let cy = y + axis_offset(k / 3, s);
    if 0 <= cx < w && 0 <= cy < h {
        t[pixel_index(cx, cy, w as int)]
    } else {
        None
    }
}

/// Whether candidate `c` replaces the current choice `b` for pixel `(x, y)`:
/// it holds a seed, and `b` holds none or one strictly farther away.
pub open spec fn closer(c: Option<Seed>, b: Option<Seed>, x: int, y: int) -> bool {
    match c {
        None => false,
        Some(cs) => match b {
            None => true,
            Some(bs) => sq_dist(cs, x, y) < sq_dist(bs, x, y),
        },
    }
}

/// The nearest seed among the first `k` candidates of pixel `(x, y)`; on a tie
/// the earlier candidate stays.
pub open spec fn best_of(
    t: Seq<Option<Seed>>,
    w: nat,
    h: nat,
    x: int,
    y: int,
    s: int,
    k: nat,
) -> Option<Seed>
    decreases k,
{
    if k == 0 {
        None
    } else {
        let b = best_of(t, w, h, x, y, s, (k - 1) as nat);
        let c = candidate(t, w, h, x, y, s, k - 1);
        if closer(c, b, x, y) {
            c
        } else {
            b
        }
    }
}

/// One jump-flood pass with step `s`: every pixel keeps the nearest seed among
/// its own value and the eight values at offsets of `s`.
pub open spec fn jfa_pass_spec(t: Seq<Option<Seed>>, w: nat, h: nat, s: int) -> Seq<Option<Seed>> {
    Seq::new(t.len(), |i: int| best_of(t, w, h, i % w as int, i / w as int, s, 9))
}

/// Squared distance between a seed and a pixel, both within `MAX_EXTENT`.
fn seed_sq_dist(s: Seed, x: u32, y: u32) -> (r: u64)
    requires
        s.x < MAX_EXTENT,
        s.y < MAX_EXTENT,
        x < MAX_EXTENT,
        y < MAX_EXTENT,
    ensures
        r == sq_dist(s, x as int, y as int),
{
    let dx: u64 = if s.x >= x { (s.x - x) as u64 } else { (x - s.x) as u64 };
    let dy: u64 = if s.y >= y { (s.y - y) as u64 } else { (y - s.y) as u64 };
    assert(dx * dx <= 0x1_0000_0000 && dy * dy <= 0x1_0000_0000) by (nonlinear_arith)
        requires
            dx < 0x10000,
            dy < 0x10000,
    ;
    assert(dx * dx == (s.x - x) * (s.x - x)) by (nonlinear_arith)
        requires
            dx == s.x - x || dx == x - s.x,
    ;
    assert(dy * dy == (s.y - y) * (s.y - y)) by (nonlinear_arith)
        requires
            dy == s.y - y || dy == y - s.y,
    ;
    dx * dx + dy * dy
}

/// The `k`-th candidate of pixel `(x, y)` at step `step`.
fn read_candidate(src: &SeedMap, x: u32, y: u32, step: u32, k: u32) -> (r: Option<Seed>)
    requires
        src.wf(),
        x < src.width,
        y < src.height,
        k < 9,
    ensures
        r == candidate(
            src.texels@,
            src.width as nat,
            src.height as nat,
            x as int,
            y as int,
            step as int,
            k as int,
        ),
{
    let ox: i64 = if k % 3 == 0 {
        -(step as i64)
    } else if k % 3 == 1 {
        0
    } else {
        step as i64
    };
    let oy: i64 = if k / 3 == 0 {
        -(step as i64)
    } else if k / 3 == 1 {
        0
    } else {
        step as i64
    };
    let cx: i64 = x as i64 + ox;
    let cy: i64 = y as i64 + oy;
    if 0 <= cx && cx < src.width as i64 && 0 <= cy && cy < src.height as i64 {
        src.get(cx as u32, cy as u32)
    } else {
        None
    }
}

/// The nearest seed among the nine candidates of pixel `(x, y)`.
fn nearest_candidate(src: &SeedMap, x: u32, y: u32, step: u32) -> (r: Option<Seed>)
    requires
        src.wf(),
        x < src.width,
        y < src.height,
    ensures
        r == best_of(
            src.texels@,
            src.width as nat,
            src.height as nat,
            x as int,
            y as int,
            step as int,
            9,
        ),
        seeds_in_grid(seq![r], src.width as nat, src.height as nat),
{
    let ghost t = src.texels@;
    let ghost w = src.width as nat;
    let ghost h = src.height as nat;
    let mut best: Option<Seed> = None;
    let mut k: u32 = 0;
    while k < 9
        invariant
            src.wf(),
            x < src.width,
            y < src.height,
            t == src.texels@,
            w == src.width,
            h == src.height,
            k <= 9,
            best == best_of(t, w, h, x as int, y as int, step as int, k as nat),
            seeds_in_grid(seq![best], w, h),
        decreases 9 - k,
    {
        let c = read_candidate(src, x, y, step, k);
        proof {
            let cx = x as int + axis_offset(k as int % 3, step as int);
            let cy = y as int + axis_offset(k as int / 3, step as int);
            if 0 <= cx < w && 0 <= cy < h {
                lemma_pixel_index_in_grid(cx, cy, w as int, h as int);
            }
            assert(seq![best][0] == best);
        }
        let replace = match c {
            None => false,
            Some(cs) => match best {
                None => true,
                Some(bs) => seed_sq_dist(cs, x, y) < seed_sq_dist(bs, x, y),
            },
        };
        if replace {
            best = c;
        }
        proof {
            assert(seq![best][0] == best);
        }
        k = k + 1;
    }
    best
}

/// One jump-flood pass with step `step` from `src` into a new seed texture.
pub fn jfa_pass(src: &SeedMap, step: u32) -> (dst: SeedMap)
    requires
        src.wf(),
    ensures
        dst.wf(),
        dst.width == src.width,
        dst.height == src.height,
        dst.texels@ == jfa_pass_spec(
            src.texels@,
            src.width as nat,
            src.height as nat,
            step as int,
        ),
{
    let w = src.width;
    let h = src.height;
    let ghost t = src.texels@;
    let len = src.texels.len();
    let mut out: Vec<Option<Seed>> = Vec::with_capacity(len);
    let mut y: u32 = 0;
    while y < h
        invariant
            src.wf(),
            w == src.width,
            h == src.height,
            t == src.texels@,
            len == t.len(),
            y <= h,
            out@.len() == y * w,
            forall|i: int|
                0 <= i < out@.len() ==> #[trigger] out@[i] == best_of(
                    t,
                    w as nat,
                    h as nat,
                    i % w as int,
                    i / w as int,
                    step as int,
                    9,
                ),
            seeds_in_grid(out@, w as nat, h as nat),
        decreases h - y,
    {
        let mut x: u32 = 0;
        while x < w
            invariant
                src.wf(),
                w == src.width,
                h == src.height,
                t == src.texels@,
                len == t.len(),
                y < h,
                x <= w,
                out@.len() == y * w + x,
                forall|i: int|
                    0 <= i < out@.len() ==> #[trigger] out@[i] == best_of(
                        t,
                        w as nat,
                        h as nat,
                        i % w as int,
                        i / w as int,
                        step as int,
                        9,
                    ),
                seeds_in_grid(out@, w as nat, h as nat),
            decreases w - x,
        {
            let b = nearest_candidate(src, x, y, step);
            proof {
                lemma_pixel_index_in_grid(x as int, y as int, w as int, h as int);
            }
            out.push(b);
            proof {
                assert(seq![b][0] == b);
                assert(out@.last() == b);
            }
            x = x + 1;
        }
        proof {
            assert(y * w + w == (y + 1) * w) by (nonlinear_arith);
        }
        y = y + 1;
    }
    proof {
        vstd::arithmetic::mul::lemma_mul_is_commutative(w as int, h as int);
        assert(out@.len() == t.len());
    }
    SeedMap { width: w, height: h, texels: out }
}

/// The mask pass: seeds every occluder pixel with its own coordinate.
pub fn mask_pass(mask: &OccluderMask) -> (r: SeedMap)
    requires
        mask.wf(),
    ensures
        r.wf(),
        r.width == mask.width,
        r.height == mask.height,
        r.texels@ == mask_pass_spec(mask.texels@, mask.width as nat),
{
    let w = mask.width;
    let h = mask.height;
    let ghost m = mask.texels@;
    let len = mask.texels.len();
    let mut out: Vec<Option<Seed>> = Vec::with_capacity(len);
    let mut y: u32 = 0;
    while y < h
        invariant
            mask.wf(),
            w == mask.width,
            h == mask.height,
            m == mask.texels@,
            len == m.len(),
            y <= h,
            out@.len() == y * w,
            forall|i: int|
                0 <= i < out@.len() ==> #[trigger] out@[i] == mask_pass_spec(m, w as nat)[i],
            seeds_in_grid(out@, w as nat, h as nat),
        decreases h - y,
    {
        let mut x: u32 = 0;
        while x < w
            invariant
                mask.wf(),
                w == mask.width,
                h == mask.height,
                m == mask.texels@,
                len == m.len(),
                y < h,
                x <= w,
                out@.len() == y * w + x,
                forall|i: int|
                    0 <= i < out@.len() ==> #[trigger] out@[i] == mask_pass_spec(m, w as nat)[i],
                seeds_in_grid(out@, w as nat, h as nat),
            decreases w - x,
        {
            proof {
                lemma_pixel_index_in_grid(x as int, y as int, w as int, h as int);
            }
            assert((y as usize) * (w as usize) + (x as usize) < len);
            let v = mask.texels[y as usize * w as usize + x as usize];
            let b = if v != 0 {
                Some(Seed { x, y })
            } else {
                None
            };
            out.push(b);
            proof {
                assert(out@.last() == b);
            }
            x = x + 1;
        }
        proof {
            assert(y * w + w == (y + 1) * w) by (nonlinear_arith);
        }
        y = y + 1;
    }
    proof {
        vstd::arithmetic::mul::lemma_mul_is_commutative(w as int, h as int);
        assert(out@ =~= mask_pass_spec(m, w as nat));
    }
    SeedMap { width: w, height: h, texels: out }
}

/// The seed texture after the first `j` of `n` jump-flood passes started from
/// `init`; pass `i` (from 0) uses step `2^(n - i - 1)`.
pub open spec fn flood(t: Seq<Option<Seed>>, w: nat, h: nat, n: nat, j: nat) -> Seq<
    Option<Seed>,
>
    decreases j,
{
    if j == 0 {
        t
    } else {
        jfa_pass_spec(flood(t, w, h, n, (j - 1) as nat), w, h, pow2((n - j) as nat) as int)
    }
}

/// The whole jump-flood stage on an occluder mask: the mask pass, then
/// `iteration_count_spec(w, h)` passes with halving steps.
pub open spec fn jump_flood_spec(mask: Seq<u16>, w: nat, h: nat) -> Seq<Option<Seed>> {
    let n = iteration_count_spec(w, h);
    flood(mask_pass_spec(mask, w), w, h, n, n)
}

/// Runs the whole jump-flood stage on `mask`.
pub fn jump_flood(mask: &OccluderMask) -> (r: SeedMap)
    requires
        mask.wf(),
    ensures
        r.wf(),
        r.width == mask.width,
        r.height == mask.height,
        r.texels@ == jump_flood_spec(mask.texels@, mask.width as nat, mask.height as nat),
{
    let ghost w = mask.width as nat;
    let ghost h = mask.height as nat;
    let n = jfa_iteration_count(mask.width, mask.height);
    let steps = jfa_step_sizes();
    let mut current = mask_pass(mask);
    let ghost init = current.texels@;
    let mut i: usize = 0;
    while i < n
        invariant
            n == iteration_count_spec(w, h),
            n <= MAX_ITER,
            steps@.len() == MAX_ITER,
            forall|j: int| 0 <= j < MAX_ITER ==> #[trigger] steps@[j] == pow2(j as nat),
            i <= n,
            current.wf(),
            current.width == w,
            current.height == h,
            current.texels@ == flood(init, w, h, n as nat, i as nat),
        decreases n - i,
    {
        let step = steps[n - i - 1];
        current = jfa_pass(&current, step);
        i = i + 1;
    }
    current
}

/// The jump-flood texture pair: the mask pass writes `jfa_texture0`, every pass
/// after it writes the other texture of the pair than it reads.
pub struct JfaPrepassTextures<T> {
    pub jfa_texture0: T,
    pub jfa_texture1: T,
    /// Whether `jfa_texture0` holds the final result.
    pub is_texture0: bool,
}

impl<T> JfaPrepassTextures<T> {
    /// The pair for a stage of `iter_count` passes after the mask pass.
    pub fn new(jfa_texture0: T, jfa_texture1: T, iter_count: usize) -> (r: Self)
        ensures
            r.jfa_texture0 == jfa_texture0,
            r.jfa_texture1 == jfa_texture1,
            r.is_texture0 == (current_after(0, iter_count as nat) == 0),
    {
        JfaPrepassTextures { jfa_texture0, jfa_texture1, is_texture0: iter_count % 2 == 0 }
    }

    /// The texture that the last pass wrote.
    pub fn main_texture(&self) -> (r: &T)
        ensures
            *r == if self.is_texture0 {
                self.jfa_texture0
            } else {
                self.jfa_texture1
            },
    {
        if self.is_texture0 {
            &self.jfa_texture0
        } else {
            &self.jfa_texture1
        }
    }
}

} // verus!
