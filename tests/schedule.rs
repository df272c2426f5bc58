use radiance_cascades_2d::jfa::JfaPrepassTextures;
use radiance_cascades_2d::math_util::UVec3;
use radiance_cascades_2d::radiance_cascades::{Interval, RadianceCascadesConfig};
use radiance_cascades_2d::schedule::{
    plan_frame, CascadePipelines, Dispatch, JfaPipelines, Pass, PipelineState,
};

fn all_jfa(s: PipelineState) -> JfaPipelines {
    JfaPipelines { mask: s, flood: s }
}

fn all_cascades(s: PipelineState) -> CascadePipelines {
    CascadePipelines { dist_field: s, cascade: s, merge: s, composite: s }
}

fn count(plan: &[Dispatch], pass: Pass) -> usize {
    plan.iter().filter(|d| d.pass == pass).count()
}

#[test]
fn end_to_end_scenario_counts() {
    let config = RadianceCascadesConfig::new(1, Interval::new(2, 1));
    let plan = plan_frame(
        256,
        256,
        &config,
        &all_jfa(PipelineState::Ready),
        &all_cascades(PipelineState::Ready),
    );
    assert_eq!(count(&plan, Pass::JfaMask), 1);
    assert_eq!(count(&plan, Pass::Jfa), 8);
    assert_eq!(count(&plan, Pass::DistanceField), 1);
    assert_eq!(count(&plan, Pass::Cascade) + count(&plan, Pass::CascadeMerge), 5);
    assert_eq!(count(&plan, Pass::Cascade), 1);
    assert_eq!(plan.len(), 1 + 8 + 1 + 5 + 1);
    assert_eq!(plan.last().unwrap().pass, Pass::Composite);
    let composite_at = plan.iter().position(|d| d.pass == Pass::Composite).unwrap();
    assert_eq!(composite_at, plan.len() - 1);
    for d in &plan {
        assert_eq!(d.workgroups, UVec3 { x: 32, y: 32, z: 1 });
    }
}

#[test]
fn scenario_dispatch_order_and_parameters() {
    let config = RadianceCascadesConfig::default();
    let plan = plan_frame(
        256,
        256,
        &config,
        &all_jfa(PipelineState::Ready),
        &all_cascades(PipelineState::Ready),
    );
    assert_eq!(plan[0].pass, Pass::JfaMask);
    assert_eq!(plan[0].destination, 0);
    for i in 0..8usize {
        let d = plan[1 + i];
        assert_eq!(d.pass, Pass::Jfa);
        assert_eq!(d.source, i % 2);
        assert_eq!(d.destination, 1 - i % 2);
        assert_eq!(d.param, 8 - i - 1);
    }
    // eight passes leave the result in texture 0
    assert_eq!(plan[9].pass, Pass::DistanceField);
    assert_eq!(plan[9].source, 0);
    let levels: Vec<usize> = plan[10..15].iter().map(|d| d.param).collect();
    assert_eq!(levels, vec![4, 3, 2, 1, 0]);
    assert_eq!((plan[10].source, plan[10].destination), (1, 0));
    for k in 11..15 {
        assert_eq!(plan[k].pass, Pass::CascadeMerge);
        assert_eq!(plan[k].source, plan[k - 1].destination);
        assert_ne!(plan[k].source, plan[k].destination);
    }
    // five cascades leave the finest in texture 0
    assert_eq!(plan[15].source, 0);
    assert_eq!(plan[15].source, plan[14].destination);
}

#[test]
fn zero_area_view_plans_nothing() {
    let config = RadianceCascadesConfig::default();
    for (w, h) in [(0u32, 0u32), (0, 100), (100, 0)] {
        let plan = plan_frame(
            w,
            h,
            &config,
            &all_jfa(PipelineState::Ready),
            &all_cascades(PipelineState::Ready),
        );
        assert!(plan.is_empty());
    }
}

#[test]
fn stages_wait_for_their_pipelines() {
    let config = RadianceCascadesConfig::default();
    let plan = plan_frame(
        64,
        64,
        &config,
        &all_jfa(PipelineState::Requested),
        &all_cascades(PipelineState::Ready),
    );
    assert_eq!(count(&plan, Pass::Jfa), 0);
    assert_eq!(count(&plan, Pass::JfaMask), 0);
    assert_eq!(count(&plan, Pass::Composite), 1);

    let mut cascades = all_cascades(PipelineState::Ready);
    cascades.merge = PipelineState::Failed;
    let plan = plan_frame(64, 64, &config, &all_jfa(PipelineState::Ready), &cascades);
    assert_eq!(plan.len(), 1 + 6);
    assert!(plan.iter().all(|d| d.pass == Pass::JfaMask || d.pass == Pass::Jfa));

    let plan = plan_frame(
        64,
        64,
        &config,
        &all_jfa(PipelineState::Failed),
        &all_cascades(PipelineState::Requested),
    );
    assert!(plan.is_empty());
}

#[test]
fn jfa_textures_parity() {
    for n in [0usize, 1, 2, 15, 16] {
        let t = JfaPrepassTextures::new("t0", "t1", n);
        let expected = if n % 2 == 0 { "t0" } else { "t1" };
        assert_eq!(*t.main_texture(), expected, "after {n} passes");
    }
}

#[test]
fn plan_parity_matches_texture_pairs() {
    let config = RadianceCascadesConfig::default();
    for (w, h) in [(1u32, 1u32), (2, 2), (3, 1), (300, 200), (40000, 65535)] {
        let plan = plan_frame(
            w,
            h,
            &config,
            &all_jfa(PipelineState::Ready),
            &all_cascades(PipelineState::Ready),
        );
        let jfa_passes = plan.iter().filter(|d| d.pass == Pass::Jfa).count();
        let levels = plan
            .iter()
            .filter(|d| d.pass == Pass::Cascade || d.pass == Pass::CascadeMerge)
            .count();
        let jfa = JfaPrepassTextures::new(0usize, 1usize, jfa_passes);
        let df = plan.iter().find(|d| d.pass == Pass::DistanceField).unwrap();
        assert_eq!(df.source, *jfa.main_texture());
        let last_jfa_write = plan.iter().filter(|d| d.pass == Pass::Jfa || d.pass == Pass::JfaMask).last().unwrap().destination;
        assert_eq!(df.source, last_jfa_write);
        let comp = plan.last().unwrap();
        assert_eq!(comp.source, if levels % 2 == 1 { 0 } else { 1 });
    }
}
