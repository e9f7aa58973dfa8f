//! Pipeline specialization for the two full-screen effects: a queue of
//! pipeline descriptors whose compilation finishes later, a per-effect cache
//! from specialization key to queued pipeline, the binding layouts, and the
//! per-frame decision to draw or to wait.
use vstd::prelude::*;
use std::collections::HashMap;

verus! {

broadcast use vstd::std_specs::hash::group_hash_axioms;

/// The two full-screen effects.
#[derive(Clone, Copy, Debug, PartialEq, Eq, Structural)]
pub enum Effect {
    /// The atmosphere backdrop, drawn before opaque geometry.
    Sky,
    /// The water composite, drawn after tonemapping.
    Water,
}

/// What a compiled full-screen pipeline is built from.
#[derive(Clone, Copy, Debug, PartialEq, Eq, Structural)]
pub struct PipelineDescriptor {
    /// The effect whose fragment program it runs.
    pub effect: Effect,
    pub multisample_count: u32,
    /// Vertex buffers bound: none, the triangle comes from the vertex index.
    pub vertex_buffers: u32,
    /// Colour targets, each in the swapchain's format.
    pub color_targets: u32,
    pub depth_test: bool,
    pub blending: bool,
}

/// The cache key of an effect for a view's sample count: the sky varies with
/// it, the water has a single (unit) key.
pub open spec fn spec_key(effect: Effect, msaa_samples: u32) -> u32 {
    match effect {
        Effect::Sky => msaa_samples,
        Effect::Water => 0,
    }
}

pub fn specialization_key(effect: Effect, msaa_samples: u32) -> (r: u32)
    ensures
        r == spec_key(effect, msaa_samples),
{
    match effect {
        Effect::Sky => msaa_samples,
        Effect::Water => 0,
    }
}

/// The descriptor an effect builds for a key: no vertex buffers, one colour
/// target, no depth test, no blending; the sky takes its sample count from
/// the key, the water uses a single sample.
pub open spec fn spec_descriptor(effect: Effect, key: u32) -> PipelineDescriptor {
    PipelineDescriptor {
        effect,
        multisample_count: match effect {
            Effect::Sky => key,
            Effect::Water => 1,
        },
        vertex_buffers: 0,
        color_targets: 1,
        depth_test: false,
        blending: false,
    }
}

pub fn descriptor(effect: Effect, key: u32) -> (r: PipelineDescriptor)
    ensures
        r == spec_descriptor(effect, key),
{
    let multisample_count = match effect {
        Effect::Sky => key,
        Effect::Water => 1,
    };
    PipelineDescriptor {
        effect,
        multisample_count,
        vertex_buffers: 0,
        color_targets: 1,
        depth_test: false,
        blending: false,
    }
}

/// Queued pipelines, identified by their position in the queue; each becomes
/// usable once its compilation has finished.
pub struct PipelineCache {
    descriptors: Vec<PipelineDescriptor>,
    ready: Vec<bool>,
}

impl PipelineCache {
    pub closed spec fn queued(&self) -> Seq<PipelineDescriptor> {
        self.descriptors@
    }

    pub closed spec fn ready_flags(&self) -> Seq<bool> {
        self.ready@
    }

    pub open spec fn spec_is_ready(&self, id: usize) -> bool {
        id < self.queued().len() && self.ready_flags()[id as int]
    }

    pub closed spec fn wf(&self) -> bool {
        self.descriptors@.len() == self.ready@.len()
    }

    pub fn new() -> (r: PipelineCache)
        ensures
            r.wf(),
            r.queued().len() == 0,
    {
        PipelineCache { descriptors: Vec::new(), ready: Vec::new() }
    }

    pub fn len(&self) -> (r: usize)
        requires
            self.wf(),
        ensures
            r == self.queued().len(),
    {
        self.descriptors.len()
    }

    /// Queues a descriptor for compilation; its id is its position.
    pub fn queue(&mut self, d: PipelineDescriptor) -> (id: usize)
        requires
            old(self).wf(),
        ensures
            final(self).wf(),
            id == old(self).queued().len(),
            final(self).queued() == old(self).queued().push(d),
            final(self).ready_flags() == old(self).ready_flags().push(false),
    {
        let id = self.descriptors.len();
        self.descriptors.push(d);
        self.ready.push(false);
        id
    }

    /// Records that the pipeline `id` has finished compiling.
    pub fn mark_ready(&mut self, id: usize)
        requires
            old(self).wf(),
        ensures
            final(self).wf(),
            final(self).queued() == old(self).queued(),
            id < old(self).queued().len() ==> final(self).ready_flags() == old(
                self,
            ).ready_flags().update(id as int, true),
            id >= old(self).queued().len() ==> final(self).ready_flags() == old(self).ready_flags(),
    {
        if id < self.ready.len() {
            self.ready.set(id, true);
        }
    }

    pub fn is_ready(&self, id: usize) -> (r: bool)
        requires
            self.wf(),
        ensures
            r == self.spec_is_ready(id),
    {
        id < self.ready.len() && self.ready[id]
    }

    /// The descriptor of a queued pipeline.
    pub fn descriptor_of(&self, id: usize) -> (r: Option<PipelineDescriptor>)
        requires
            self.wf(),
        ensures
            r is Some <==> id < self.queued().len(),
            r matches Some(d) ==> d == self.queued()[id as int],
    {
        if id < self.descriptors.len() {
            Some(self.descriptors[id])
        } else {
            None
        }
    }
}

/// One effect's cache from specialization key to queued pipeline id.
pub struct SpecializedPipelines {
    effect: Effect,
    ids: HashMap<u32, usize>,
}

impl SpecializedPipelines {
    pub closed spec fn spec_effect(&self) -> Effect {
        self.effect
    }

    /// The ids handed out so far, by key.
    pub closed spec fn view(&self) -> Map<u32, usize> {
        self.ids@
    }

    /// Every cached id names a queued pipeline built for its key, and no two
    /// keys share an id.
    pub open spec fn wf_for(&self, cache: PipelineCache) -> bool {
        &&& forall|k: u32| #[trigger]
            self@.contains_key(k) ==> self@[k] < cache.queued().len() && cache.queued()[self@[k] as int]
                == spec_descriptor(self.spec_effect(), k)
        &&& forall|k1: u32, k2: u32|
            #[trigger] self@.contains_key(k1) && #[trigger] self@.contains_key(k2) && k1 != k2
                ==> self@[k1] != self@[k2]
    }

    pub fn new(effect: Effect) -> (r: SpecializedPipelines)
        ensures
            r.spec_effect() == effect,
            r@ == Map::<u32, usize>::empty(),
    {
        SpecializedPipelines { effect, ids: HashMap::new() }
    }

    /// The pipeline for a view's sample count: the cached one if its key was
    /// seen before, else a newly queued one, remembered for later calls.
    pub fn specialize(&mut self, cache: &mut PipelineCache, msaa_samples: u32) -> (id: usize)
        requires
            old(self).wf_for(*old(cache)),
            old(cache).wf(),
        ensures
            final(self).wf_for(*final(cache)),
            final(cache).wf(),
            final(self).spec_effect() == old(self).spec_effect(),
            final(self)@.contains_key(spec_key(old(self).spec_effect(), msaa_samples)),
            final(self)@[spec_key(old(self).spec_effect(), msaa_samples)] == id,
            old(self)@.contains_key(spec_key(old(self).spec_effect(), msaa_samples)) ==> {
                &&& final(self)@ == old(self)@
                &&& *final(cache) == *old(cache)
            },
            !old(self)@.contains_key(spec_key(old(self).spec_effect(), msaa_samples)) ==> {
                &&& id == old(cache).queued().len()
                &&& final(self)@ == old(self)@.insert(
                    spec_key(old(self).spec_effect(), msaa_samples),
                    id,
                )
                &&& final(cache).queued() == old(cache).queued().push(
                    spec_descriptor(old(self).spec_effect(), spec_key(old(self).spec_effect(), msaa_samples)),
                )
                &&& final(cache).ready_flags() == old(cache).ready_flags().push(false)
            },
    {
        let key = specialization_key(self.effect, msaa_samples);
        match self.ids.get(&key) {
            Some(id) => *id,
            None => {
                let d = descriptor(self.effect, key);
                let id = cache.queue(d);
                self.ids.insert(key, id);
                proof {
                    assert forall|k: u32| #[trigger] self@.contains_key(k) implies self@[k] < cache.queued().len()
                        && cache.queued()[self@[k] as int] == spec_descriptor(self.spec_effect(), k) by {
                        if k != key {
                            assert(old(self)@.contains_key(k));
                        }
                    }
                    assert forall|k1: u32, k2: u32|
                        #[trigger] self@.contains_key(k1) && #[trigger] self@.contains_key(k2) && k1 != k2
                        implies self@[k1] != self@[k2] by {
                        if k1 != key && k2 != key {
                            assert(old(self)@.contains_key(k1) && old(self)@.contains_key(k2));
                        } else if k1 == key {
                            assert(old(self)@.contains_key(k2));
                        } else {
                            assert(old(self)@.contains_key(k1));
                        }
                    }
                }
                id
            },
        }
    }
}

/// A cache stays consistent when other pipelines are queued after its own.
pub proof fn lemma_wf_for_queue_grows(sp: &SpecializedPipelines, before: PipelineCache, after: PipelineCache)
    requires
        sp.wf_for(before),
        before.queued().is_prefix_of(after.queued()),
    ensures
        sp.wf_for(after),
{
    assert forall|k: u32| #[trigger] sp@.contains_key(k) implies sp@[k] < after.queued().len()
        && after.queued()[sp@[k] as int] == spec_descriptor(sp.spec_effect(), k) by {
        assert(after.queued()[sp@[k] as int] == before.queued()[sp@[k] as int]);
    }
}

/// Two different keys of one effect are never given the same pipeline, and a
/// key once given a pipeline keeps it.
pub proof fn lemma_distinct_keys_distinct_pipelines(
    sp: &SpecializedPipelines,
    cache: PipelineCache,
    k1: u32,
    k2: u32,
)
    requires
        sp.wf_for(cache),
        sp@.contains_key(k1),
        sp@.contains_key(k2),
    ensures
        k1 != k2 <==> sp@[k1] != sp@[k2],
{
}

/// One full-screen draw: a single triangle covering the viewport.
#[derive(Clone, Copy, Debug, PartialEq, Eq, Structural)]
pub struct DrawCall {
    pub pipeline: usize,
    pub vertices: u32,
    pub instances: u32,
}

/// The draw a pass makes this frame: none while its pipeline is still
/// compiling (the pass tries again next frame), else three vertices, one
/// instance.
pub fn plan_draw(cache: &PipelineCache, id: usize) -> (r: Option<DrawCall>)
    requires
        cache.wf(),
    ensures
        r is Some <==> cache.spec_is_ready(id),
        r matches Some(d) ==> d == (DrawCall { pipeline: id, vertices: 3, instances: 1 }),
{
    if cache.is_ready(id) {
        Some(DrawCall { pipeline: id, vertices: 3, instances: 1 })
    } else {
        None
    }
}

} // verus!
