use lod_terrain::binding::{bind_entries, layout, BindingError, BindingKind, BindingSlot, ViewResources};
use lod_terrain::pipeline::{
    descriptor, plan_draw, specialization_key, DrawCall, Effect, PipelineCache, SpecializedPipelines,
};

#[test]
fn same_sample_count_gives_same_pipeline_and_different_counts_differ() {
    let mut cache = PipelineCache::new();
    let mut sky = SpecializedPipelines::new(Effect::Sky);
    let a = sky.specialize(&mut cache, 4);
    let b = sky.specialize(&mut cache, 4);
    assert_eq!(a, b);
    assert_eq!(cache.len(), 1);
    let c = sky.specialize(&mut cache, 1);
    assert_ne!(a, c);
    assert_eq!(cache.len(), 2);
    assert_eq!(sky.specialize(&mut cache, 1), c);
    assert_eq!(cache.descriptor_of(a).unwrap().multisample_count, 4);
    assert_eq!(cache.descriptor_of(c).unwrap().multisample_count, 1);
    assert!(cache.descriptor_of(2).is_none());
}

#[test]
fn water_has_a_single_key() {
    let mut cache = PipelineCache::new();
    let mut sky = SpecializedPipelines::new(Effect::Sky);
    let mut water = SpecializedPipelines::new(Effect::Water);
    let s = sky.specialize(&mut cache, 4);
    let w1 = water.specialize(&mut cache, 4);
    let w2 = water.specialize(&mut cache, 1);
    assert_eq!(w1, w2);
    assert_ne!(s, w1);
    assert_eq!(specialization_key(Effect::Water, 8), 0);
    assert_eq!(specialization_key(Effect::Sky, 8), 8);
    let d = cache.descriptor_of(w1).unwrap();
    assert_eq!(d, descriptor(Effect::Water, 0));
    assert_eq!(d.multisample_count, 1);
    assert_eq!(d.effect, Effect::Water);
}

#[test]
fn descriptors_are_full_screen_without_depth_or_blending() {
    for e in [Effect::Sky, Effect::Water] {
        let d = descriptor(e, 4);
        assert_eq!(d.vertex_buffers, 0);
        assert_eq!(d.color_targets, 1);
        assert!(!d.depth_test);
        assert!(!d.blending);
    }
    assert_eq!(descriptor(Effect::Sky, 4).multisample_count, 4);
    assert_eq!(descriptor(Effect::Water, 4).multisample_count, 1);
}

#[test]
fn pass_skips_until_pipeline_is_compiled() {
    let mut cache = PipelineCache::new();
    let mut sky = SpecializedPipelines::new(Effect::Sky);
    let id = sky.specialize(&mut cache, 1);
    assert!(!cache.is_ready(id));
    assert_eq!(plan_draw(&cache, id), None);
    cache.mark_ready(id);
    assert!(cache.is_ready(id));
    assert_eq!(plan_draw(&cache, id), Some(DrawCall { pipeline: id, vertices: 3, instances: 1 }));
    assert_eq!(plan_draw(&cache, id + 1), None);
    cache.mark_ready(id + 7);
    assert_eq!(plan_draw(&cache, id + 7), None);
}

fn all(v: u8) -> ViewResources<u8> {
    ViewResources {
        depth: Some(v),
        color_source: Some(v + 1),
        sampler: Some(v + 2),
        view_uniforms: Some(v + 3),
        globals: Some(v + 4),
    }
}

#[test]
fn layouts_use_fixed_indices() {
    assert_eq!(
        layout(Effect::Sky),
        vec![
            BindingSlot { index: 3, kind: BindingKind::ViewUniform },
            BindingSlot { index: 11, kind: BindingKind::GlobalsUniform },
        ]
    );
    let w: Vec<u32> = layout(Effect::Water).iter().map(|s| s.index).collect();
    assert_eq!(w, vec![0, 1, 2, 3, 11]);
    assert_eq!(layout(Effect::Water)[0].kind, BindingKind::DepthMultisampled);
    assert_eq!(layout(Effect::Water)[1].kind, BindingKind::ColorNonFilterable);
    assert_eq!(layout(Effect::Water)[2].kind, BindingKind::NonFilteringSampler);
}

#[test]
fn binding_sets_follow_the_layout() {
    assert_eq!(bind_entries(Effect::Sky, all(10)).unwrap(), vec![(3, 13), (11, 14)]);
    assert_eq!(
        bind_entries(Effect::Water, all(10)).unwrap(),
        vec![(0, 10), (1, 11), (2, 12), (3, 13), (11, 14)]
    );
    let mut r = all(0);
    r.depth = None;
    assert!(bind_entries(Effect::Sky, r).is_ok());
}

#[test]
fn missing_resources_are_reported() {
    let mut r = all(0);
    r.view_uniforms = None;
    r.globals = None;
    assert_eq!(bind_entries(Effect::Sky, r).unwrap_err(), BindingError::Missing(BindingKind::ViewUniform));
    let mut r = all(0);
    r.globals = None;
    assert_eq!(bind_entries(Effect::Sky, r).unwrap_err(), BindingError::Missing(BindingKind::GlobalsUniform));
    let mut r = all(0);
    r.color_source = None;
    r.view_uniforms = None;
    assert_eq!(
        bind_entries(Effect::Water, r).unwrap_err(),
        BindingError::Missing(BindingKind::ColorNonFilterable)
    );
    let mut r = all(0);
    r.depth = None;
    assert_eq!(bind_entries(Effect::Water, r).unwrap_err(), BindingError::Missing(BindingKind::DepthMultisampled));
    let mut r = all(0);
    r.sampler = None;
    assert_eq!(
        bind_entries(Effect::Water, r).unwrap_err(),
        BindingError::Missing(BindingKind::NonFilteringSampler)
    );
}
