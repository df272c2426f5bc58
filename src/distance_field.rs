use vstd::prelude::*;

use crate::jfa::{
    jump_flood_spec, lemma_pixel_index_in_grid, sq_dist, Seed, SeedMap,
};

verus! {

/// Value of a pixel that no seed has reached.
pub const NO_SEED_DISTANCE: u64 = u64::MAX;

/// The distance field value of pixel `i` of a grid `w` pixels wide: the squared
/// Euclidean distance to its recorded seed, in square pixels.
pub open spec fn distance_at(t: Seq<Option<Seed>>, w: nat, i: int) -> int {
    match t[i] {
        Some(s) => sq_dist(s, i % w as int, i / w as int),
        None => NO_SEED_DISTANCE as int,
    }
}

pub open spec fn distance_field_spec(t: Seq<Option<Seed>>, w: nat) -> Seq<int> {
    Seq::new(t.len(), |i: int| distance_at(t, w, i))
}

/// The scalar distance field: per pixel, the squared distance to its nearest
/// seed. Texels are stored row by row.
pub struct DistanceField {
    pub width: u32,
    pub height: u32,
    pub texels: Vec<u64>,
}

/// Converts a seed texture into the distance field: each pixel gets the squared
/// Euclidean distance from itself to its recorded seed, or `NO_SEED_DISTANCE`.
pub fn distance_field(seeds: &SeedMap) -> (r: DistanceField)
    requires
        seeds.wf(),
    ensures
        r.width == seeds.width,
        r.height == seeds.height,
        r.texels@.len() == seeds.texels@.len(),
        forall|i: int|
            0 <= i < r.texels@.len() ==> #[trigger] r.texels@[i] == distance_field_spec(
                seeds.texels@,
                seeds.width as nat,
            )[i],
{
    let w = seeds.width;
    let h = seeds.height;
    let ghost t = seeds.texels@;
    let len = seeds.texels.len();
    let mut out: Vec<u64> = Vec::with_capacity(len);
    let mut y: u32 = 0;
    while y < h
        invariant
            seeds.wf(),
            w == seeds.width,
            h == seeds.height,
            t == seeds.texels@,
            len == t.len(),
            y <= h,
            out@.len() == y * w,
            forall|i: int|
                0 <= i < out@.len() ==> #[trigger] out@[i] == distance_at(t, w as nat, i),
        decreases h - y,
    {
        let mut x: u32 = 0;
        while x < w
            invariant
                seeds.wf(),
                w == seeds.width,
                h == seeds.height,
                t == seeds.texels@,
                len == t.len(),
                y < h,
                x <= w,
                out@.len() == y * w + x,
                forall|i: int|
                    0 <= i < out@.len() ==> #[trigger] out@[i] == distance_at(t, w as nat, i),
            decreases w - x,
        {
            proof {
                lemma_pixel_index_in_grid(x as int, y as int, w as int, h as int);
            }
            let d = match seeds.get(x, y) {
                Some(s) => {
                    proof {
                        let i = y * w + x;
                        assert(t[i] == Some(s));
                        assert(s.x < w && s.y < h);
                    }
                    let dx: u64 = if s.x >= x { (s.x - x) as u64 } else { (x - s.x) as u64 };
                    let dy: u64 = if s.y >= y { (s.y - y) as u64 } else { (y - s.y) as u64 };
                    assert(dx * dx <= 0x1_0000_0000 && dy * dy <= 0x1_0000_0000) by (nonlinear_arith)
                        requires
                            dx <= 0x10000,
                            dy <= 0x10000,
                    ;
                    assert(dx * dx == (s.x - x) * (s.x - x)) by (nonlinear_arith)
                        requires
                            dx == s.x - x || dx == x - s.x,
                    ;
                    assert(dy * dy == (s.y - y) * (s.y - y)) by (nonlinear_arith)
                        requires
                            dy == s.y - y || dy == y - s.y,
                    ;
                    dx * dx + dy * dy
                },
                None => NO_SEED_DISTANCE,
            };
            out.push(d);
            proof {
                assert(out@.last() == d);
            }
            x = x + 1;
        }
        proof {
            assert(y * w + w == (y + 1) * w) by (nonlinear_arith);
        }
        y = y + 1;
    }
    proof {
        vstd::arithmetic::mul::lemma_mul_is_commutative(w as int, h as int);
        assert(out@.len() == t.len());
    }
    DistanceField { width: w, height: h, texels: out }
}

/// Every pixel of the distance field built from the jump-flood stage holds the
/// exact squared distance to the seed that the stage recorded for it.
pub proof fn lemma_distance_matches_seed(mask: Seq<u16>, w: nat, h: nat, x: int, y: int)
    requires
        w >= 1,
        0 <= x < w,
        0 <= y < h,
        jump_flood_spec(mask, w, h).len() == w * h,
    ensures
        ({
            let seeds = jump_flood_spec(mask, w, h);
            let field = distance_field_spec(seeds, w);
            let i = y * w + x;
            &&& field.len() == w * h
            &&& match seeds[i] {
                Some(s) => field[i] == sq_dist(s, x, y),
                None => field[i] == NO_SEED_DISTANCE as int,
            }
        }),
{
    lemma_pixel_index_in_grid(x, y, w as int, h as int);
}

} // verus!
