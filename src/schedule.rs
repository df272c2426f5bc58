use vstd::prelude::*;

use crate::jfa::{iteration_count_spec, jfa_iteration_count};
use crate::math_util::{batch_count, div_ceil, UVec3};
use crate::ping_pong::{current_after, lemma_ping_pong_parity, pass_destination, pass_source};
use crate::radiance_cascades::{cascade_count, cascade_count_spec, RadianceCascadesConfig};

verus! {

/// Side of the square tile of pixels that one compute workgroup covers.
pub const TILE_SIZE: u32 = 8;

/// Compilation state of a pipeline object. Pipelines compile off the hot path;
/// a stage runs only once all its pipelines are `Ready`.
#[derive(Clone, Copy, Debug, PartialEq, Eq, Structural)]
pub enum PipelineState {
    Requested,
    Ready,
    Failed,
}

/// The pipelines of the jump-flood stage.
#[derive(Clone, Copy, Debug, PartialEq, Eq, Structural)]
pub struct JfaPipelines {
    pub mask: PipelineState,
    pub flood: PipelineState,
}

/// The pipelines of the distance field, cascade and composite stages.
#[derive(Clone, Copy, Debug, PartialEq, Eq, Structural)]
pub struct CascadePipelines {
    pub dist_field: PipelineState,
    pub cascade: PipelineState,
    pub merge: PipelineState,
    pub composite: PipelineState,
}

pub open spec fn jfa_ready(p: JfaPipelines) -> bool {
    p.mask == PipelineState::Ready && p.flood == PipelineState::Ready
}

pub open spec fn cascades_ready(p: CascadePipelines) -> bool {
    &&& p.dist_field == PipelineState::Ready
    &&& p.cascade == PipelineState::Ready
    &&& p.merge == PipelineState::Ready
    &&& p.composite == PipelineState::Ready
}

/// The kind of work of one dispatch.
#[derive(Clone, Copy, Debug, PartialEq, Eq, Structural)]
pub enum Pass {
    /// Seeds the jump-flood texture 0 from the occluder mask.
    JfaMask,
    /// One jump-flood pass; `param` indexes the step-size table.
    Jfa,
    /// Converts the jump-flood result (`source`) into the distance field.
    DistanceField,
    /// The coarsest cascade, with nothing to merge; `param` is its level.
    Cascade,
    /// A finer cascade that merges the coarser one it reads; `param` is its level.
    CascadeMerge,
    /// Combines the finest cascade (`source`) with the scene colour, drawing one
    /// full-screen triangle with the probes of cascade 0.
    Composite,
}

/// One unit of GPU work of a frame. `source` and `destination` are indices (0 or
/// 1) into the texture pair of the stage.
#[derive(Clone, Copy, Debug, PartialEq, Eq, Structural)]
pub struct Dispatch {
    pub pass: Pass,
    pub source: usize,
    pub destination: usize,
    pub param: usize,
    pub workgroups: UVec3,
}

/// The workgroups that cover a `width` by `height` image in tiles of `TILE_SIZE`.
pub open spec fn workgroups_spec(width: nat, height: nat) -> UVec3 {
    UVec3 {
        x: div_ceil(width, TILE_SIZE as nat) as u32,
        y: div_ceil(height, TILE_SIZE as nat) as u32,
        z: 1,
    }
}

/// The jump-flood stage: the mask pass, then `n` passes whose steps halve, from
/// table entry `n - 1` down to entry 0.
pub open spec fn jfa_plan(n: nat, wg: UVec3) -> Seq<Dispatch> {
    seq![Dispatch { pass: Pass::JfaMask, source: 0, destination: 0, param: 0, workgroups: wg }]
        + Seq::new(
        n,
        |i: int|
            Dispatch {
                pass: Pass::Jfa,
                source: pass_source(0, i as nat) as usize,
                destination: pass_destination(0, i as nat) as usize,
                param: (n - i - 1) as usize,
                workgroups: wg,
            },
    )
}

/// Dispatch `j` of the cascade chain of `count` cascades: level `count - 1 - j`.
pub open spec fn cascade_dispatch(count: nat, j: int, wg: UVec3) -> Dispatch {
    Dispatch {
        pass: if j == 0 {
            Pass::Cascade
        } else {
            Pass::CascadeMerge
        },
        source: pass_source(1, j as nat) as usize,
        destination: pass_destination(1, j as nat) as usize,
        param: (count - 1 - j) as usize,
        workgroups: wg,
    }
}

/// The cascade stage after a jump-flood stage of `n` passes: the distance field,
/// then the cascades from the coarsest down to the finest, then the composite.
pub open spec fn cascade_plan(n: nat, count: nat, wg: UVec3) -> Seq<Dispatch> {
    seq![
        Dispatch {
            pass: Pass::DistanceField,
            source: current_after(0, n) as usize,
            destination: 0,
            param: 0,
            workgroups: wg,
        },
    ] + Seq::new(count, |j: int| cascade_dispatch(count, j, wg)) + seq![
        Dispatch {
            pass: Pass::Composite,
            source: current_after(1, count) as usize,
            destination: 0,
            param: 0,
            workgroups: wg,
        },
    ]
}

/// The GPU work of one frame of a `width` by `height` view. A zero-area view
/// gets none; a stage whose pipelines are not all ready is left out; the
/// cascade stage is left out when there are no cascades.
pub open spec fn frame_plan_spec(
    width: nat,
    height: nat,
    config: RadianceCascadesConfig,
    jfa: JfaPipelines,
    cascades: CascadePipelines,
) -> Seq<Dispatch> {
    if width == 0 || height == 0 {
        seq![]
    } else {
        let n = iteration_count_spec(width, height);
        let count = cascade_count_spec(width, height, config.interval0);
        let wg = workgroups_spec(width, height);
        (if jfa_ready(jfa) {
            jfa_plan(n, wg)
        } else {
            seq![]
        }) + (if cascades_ready(cascades) && count > 0 {
            cascade_plan(n, count, wg)
        } else {
            seq![]
        })
    }
}

fn is_ready(s: PipelineState) -> (r: bool)
    ensures
        r == (s == PipelineState::Ready),
{
    match s {
        PipelineState::Ready => true,
        _ => false,
    }
}

fn push_jfa_plan(out: &mut Vec<Dispatch>, n: usize, wg: UVec3)
    requires
        n <= 16,
    ensures
        final(out)@ == old(out)@ + jfa_plan(n as nat, wg),
{
    let ghost start = out@;
    out.push(Dispatch { pass: Pass::JfaMask, source: 0, destination: 0, param: 0, workgroups: wg });
    let mut i: usize = 0;
    while i < n
        invariant
            i <= n,
            n <= 16,
            out@ == start + seq![
                Dispatch { pass: Pass::JfaMask, source: 0, destination: 0, param: 0, workgroups: wg },
            ] + Seq::new(
                i as nat,
                |k: int|
                    Dispatch {
                        pass: Pass::Jfa,
                        source: pass_source(0, k as nat) as usize,
                        destination: pass_destination(0, k as nat) as usize,
                        param: (n - k - 1) as usize,
                        workgroups: wg,
                    },
            ),
        decreases n - i,
    {
        out.push(
            Dispatch {
                pass: Pass::Jfa,
                source: i % 2,
                destination: (i + 1) % 2,
                param: n - i - 1,
                workgroups: wg,
            },
        );
        i = i + 1;
        proof {
            assert(out@ =~= start + seq![
                Dispatch { pass: Pass::JfaMask, source: 0, destination: 0, param: 0, workgroups: wg },
            ] + Seq::new(
                i as nat,
                |k: int|
                    Dispatch {
                        pass: Pass::Jfa,
                        source: pass_source(0, k as nat) as usize,
                        destination: pass_destination(0, k as nat) as usize,
                        param: (n - k - 1) as usize,
                        workgroups: wg,
                    },
            ));
        }
    }
    proof {
        assert(out@ =~= start + jfa_plan(n as nat, wg));
    }
}

fn push_cascade_plan(out: &mut Vec<Dispatch>, n: usize, count: usize, wg: UVec3)
    requires
        n <= 16,
        1 <= count <= 16,
    ensures
        final(out)@ == old(out)@ + cascade_plan(n as nat, count as nat, wg),
{
    let ghost start = out@;
    let ghost head = seq![
        Dispatch {
            pass: Pass::DistanceField,
            source: current_after(0, n as nat) as usize,
            destination: 0,
            param: 0,
            workgroups: wg,
        },
    ];
    out.push(
        Dispatch {
            pass: Pass::DistanceField,
            source: n % 2,
            destination: 0,
            param: 0,
            workgroups: wg,
        },
    );
    let mut j: usize = 0;
    while j < count
        invariant
            j <= count,
            count <= 16,
            out@ == start + head + Seq::new(j as nat, |k: int| cascade_dispatch(count as nat, k, wg)),
        decreases count - j,
    {
        let pass = if j == 0 {
            Pass::Cascade
        } else {
            Pass::CascadeMerge
        };
        out.push(
            Dispatch {
                pass,
                source: (j + 1) % 2,
                destination: j % 2,
                param: count - 1 - j,
                workgroups: wg,
            },
        );
        j = j + 1;
        proof {
            assert(out@ =~= start + head + Seq::new(
                j as nat,
                |k: int| cascade_dispatch(count as nat, k, wg),
            ));
        }
    }
    out.push(
        Dispatch {
            pass: Pass::Composite,
            source: (count + 1) % 2,
            destination: 0,
            param: 0,
            workgroups: wg,
        },
    );
    proof {
        assert(out@ =~= start + cascade_plan(n as nat, count as nat, wg));
    }
}

/// Plans the GPU work of one frame of a `width` by `height` view, in the order
/// in which it is to be submitted.
pub fn plan_frame(
    width: u32,
    height: u32,
    config: &RadianceCascadesConfig,
    jfa: &JfaPipelines,
    cascades: &CascadePipelines,
) -> (r: Vec<Dispatch>)
    requires
        config.wf(),
    ensures
        r@ == frame_plan_spec(width as nat, height as nat, *config, *jfa, *cascades),
{
    let mut out: Vec<Dispatch> = Vec::new();
    if width == 0 || height == 0 {
        proof {
            assert(out@ =~= seq![]);
        }
        return out;
    }
    let n = jfa_iteration_count(width, height);
    let count = cascade_count(width, height, config.interval0);
    let wg = batch_count(
        UVec3 { x: width, y: height, z: 1 },
        UVec3 { x: TILE_SIZE, y: TILE_SIZE, z: 1 },
    );
    proof {
        vstd::arithmetic::div_mod::lemma_div_basics(1);
    }
    assert(wg == workgroups_spec(width as nat, height as nat));
    if is_ready(jfa.mask) && is_ready(jfa.flood) {
        push_jfa_plan(&mut out, n, wg);
    }
    let ghost after_jfa = out@;
    if is_ready(cascades.dist_field) && is_ready(cascades.cascade) && is_ready(cascades.merge)
        && is_ready(cascades.composite) && count > 0 {
        push_cascade_plan(&mut out, n, count, wg);
    }
    proof {
        assert(out@ =~= frame_plan_spec(width as nat, height as nat, *config, *jfa, *cascades));
    }
    out
}

/// In the plan of a frame no dispatch of a texture pair reads the texture it
/// writes; each jump-flood pass and each cascade reads what the dispatch before
/// it wrote; the distance field reads what the last jump-flood dispatch wrote,
/// and the composite what the finest cascade wrote.
pub proof fn lemma_plan_chains(n: nat, count: nat, wg: UVec3)
    requires
        count >= 1,
    ensures
        ({
            let j = jfa_plan(n, wg);
            let c = cascade_plan(n, count, wg);
            &&& j.len() == n + 1
            &&& c.len() == count + 2
            &&& forall|i: int| 1 <= i <= n ==> #[trigger] j[i].source != j[i].destination
            &&& forall|i: int| 1 <= i <= n ==> #[trigger] j[i].source == j[i - 1].destination
            &&& c[0].source == j[n as int].destination
            &&& forall|k: int| 1 <= k <= count ==> #[trigger] c[k].source != c[k].destination
            &&& forall|k: int| 2 <= k <= count ==> #[trigger] c[k].source == c[k - 1].destination
            &&& c[count + 1int].source == c[count as int].destination
        }),
{
    lemma_ping_pong_parity(0, n);
    lemma_ping_pong_parity(1, count);
    let j = jfa_plan(n, wg);
    let c = cascade_plan(n, count, wg);
    assert forall|i: int| 1 <= i <= n implies #[trigger] j[i].source == j[i - 1].destination by {
        if i >= 2 {
            assert(pass_source(0, (i - 2 + 1) as nat) == pass_destination(0, (i - 2) as nat));
        }
    }
    assert forall|k: int| 2 <= k <= count implies #[trigger] c[k].source == c[k - 1].destination by {
        assert(pass_source(1, (k - 2 + 1) as nat) == pass_destination(1, (k - 2) as nat));
    }
}

} // verus!
