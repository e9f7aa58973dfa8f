//! The resources each effect binds, at fixed indices, and the assembly of a
//! view's binding set from the resources the frame has.
use vstd::prelude::*;
use crate::pipeline::Effect;

verus! {

/// The kinds of resource an effect binds.
#[derive(Clone, Copy, Debug, PartialEq, Eq, Structural)]
pub enum BindingKind {
    /// The view's multisampled depth texture.
    DepthMultisampled,
    /// The colour buffer that tonemapping wrote, sampled without filtering.
    ColorNonFilterable,
    /// A non-filtering sampler.
    NonFilteringSampler,
    /// The per-view camera uniform, bound with a dynamic offset.
    ViewUniform,
    /// The process-wide globals uniform (elapsed time and the like).
    GlobalsUniform,
}

/// One entry of a binding layout.
#[derive(Clone, Copy, Debug, PartialEq, Eq, Structural)]
pub struct BindingSlot {
    pub index: u32,
    pub kind: BindingKind,
}

/// Index of the camera uniform, shared by both effects.
pub const VIEW_BINDING: u32 = 3;

/// Index of the globals uniform, shared by both effects.
pub const GLOBALS_BINDING: u32 = 11;

/// The layout of an effect, in binding order. The sky binds only the two
/// uniforms; the water adds depth, the tonemapped colour and a sampler.
pub open spec fn spec_layout(effect: Effect) -> Seq<BindingSlot> {
    match effect {
        Effect::Sky => seq![
            BindingSlot { index: VIEW_BINDING, kind: BindingKind::ViewUniform },
            BindingSlot { index: GLOBALS_BINDING, kind: BindingKind::GlobalsUniform },
        ],
        Effect::Water => seq![
            BindingSlot { index: 0, kind: BindingKind::DepthMultisampled },
            BindingSlot { index: 1, kind: BindingKind::ColorNonFilterable },
            BindingSlot { index: 2, kind: BindingKind::NonFilteringSampler },
            BindingSlot { index: VIEW_BINDING, kind: BindingKind::ViewUniform },
            BindingSlot { index: GLOBALS_BINDING, kind: BindingKind::GlobalsUniform },
        ],
    }
}

pub fn layout(effect: Effect) -> (r: Vec<BindingSlot>)
    ensures
        r@ == spec_layout(effect),
{
    let mut r: Vec<BindingSlot> = Vec::new();
    match effect {
        Effect::Sky => {
            r.push(BindingSlot { index: VIEW_BINDING, kind: BindingKind::ViewUniform });
            r.push(BindingSlot { index: GLOBALS_BINDING, kind: BindingKind::GlobalsUniform });
        },
        Effect::Water => {
            r.push(BindingSlot { index: 0, kind: BindingKind::DepthMultisampled });
            r.push(BindingSlot { index: 1, kind: BindingKind::ColorNonFilterable });
            r.push(BindingSlot { index: 2, kind: BindingKind::NonFilteringSampler });
            r.push(BindingSlot { index: VIEW_BINDING, kind: BindingKind::ViewUniform });
            r.push(BindingSlot { index: GLOBALS_BINDING, kind: BindingKind::GlobalsUniform });
        },
    }
    assert(r@ =~= spec_layout(effect));
    r
}

/// The resources a view has this frame; `None` where one was not made.
pub struct ViewResources<R> {
    pub depth: Option<R>,
    pub color_source: Option<R>,
    pub sampler: Option<R>,
    pub view_uniforms: Option<R>,
    pub globals: Option<R>,
}

pub open spec fn resource_of<R>(res: &ViewResources<R>, kind: BindingKind) -> Option<R> {
    match kind {
        BindingKind::DepthMultisampled => res.depth,
        BindingKind::ColorNonFilterable => res.color_source,
        BindingKind::NonFilteringSampler => res.sampler,
        BindingKind::ViewUniform => res.view_uniforms,
        BindingKind::GlobalsUniform => res.globals,
    }
}

/// A binding set could not be built: the resource is missing.
#[derive(Clone, Copy, Debug, PartialEq, Eq, Structural)]
pub enum BindingError {
    Missing(BindingKind),
}

/// The kind of the first slot, from position `i` on, whose resource is missing.
pub open spec fn first_missing<R>(slots: Seq<BindingSlot>, res: &ViewResources<R>, i: int) -> Option<
    BindingKind,
>
    decreases slots.len() - i,
{
    if i < 0 || i >= slots.len() {
        None
    } else if resource_of(res, slots[i].kind) is None {
        Some(slots[i].kind)
    } else {
        first_missing(slots, res, i + 1)
    }
}

/// The binding set of an effect: one `(index, resource)` entry per layout
/// slot, in layout order. Fails, naming the first slot of the layout whose
/// resource is missing, if any is.
pub fn bind_entries<R>(effect: Effect, res: ViewResources<R>) -> (r: Result<Vec<(u32, R)>, BindingError>)
    ensures
        match first_missing(spec_layout(effect), &res, 0) {
            Some(k) => r == Err::<Vec<(u32, R)>, BindingError>(BindingError::Missing(k)),
            None => r is Ok,
        },
        r is Ok <==> forall|i: int|
            0 <= i < spec_layout(effect).len() ==> (#[trigger] resource_of(&res, spec_layout(effect)[i].kind)) is Some,
        r matches Ok(v) ==> {
            &&& v@.len() == spec_layout(effect).len()
            &&& forall|i: int|
                0 <= i < v@.len() ==> (#[trigger] v@[i]).0 == spec_layout(effect)[i].index && Some(v@[i].1)
                    == resource_of(&res, spec_layout(effect)[i].kind)
        },
{
    let ghost l = spec_layout(effect);
    let ghost g = res;
    proof {
        reveal_with_fuel(first_missing, 6);
    }
    let ViewResources { depth, color_source, sampler, view_uniforms, globals } = res;
    let mut v: Vec<(u32, R)> = Vec::new();
    match effect {
        Effect::Sky => {
            match view_uniforms {
                None => {
                    assert(resource_of(&g, l[0].kind) is None);
                    return Err(BindingError::Missing(BindingKind::ViewUniform));
                },
                Some(u) => v.push((VIEW_BINDING, u)),
            }
            match globals {
                None => {
                    assert(resource_of(&g, l[1].kind) is None);
                    return Err(BindingError::Missing(BindingKind::GlobalsUniform));
                },
                Some(u) => v.push((GLOBALS_BINDING, u)),
            }
        },
        Effect::Water => {
            match depth {
                None => {
                    assert(resource_of(&g, l[0].kind) is None);
                    return Err(BindingError::Missing(BindingKind::DepthMultisampled));
                },
                Some(u) => v.push((0, u)),
            }
            match color_source {
                None => {
                    assert(resource_of(&g, l[1].kind) is None);
                    return Err(BindingError::Missing(BindingKind::ColorNonFilterable));
                },
                Some(u) => v.push((1, u)),
            }
            match sampler {
                None => {
                    assert(resource_of(&g, l[2].kind) is None);
                    return Err(BindingError::Missing(BindingKind::NonFilteringSampler));
                },
                Some(u) => v.push((2, u)),
            }
            match view_uniforms {
                None => {
                    assert(resource_of(&g, l[3].kind) is None);
                    return Err(BindingError::Missing(BindingKind::ViewUniform));
                },
                Some(u) => v.push((VIEW_BINDING, u)),
            }
            match globals {
                None => {
                    assert(resource_of(&g, l[4].kind) is None);
                    return Err(BindingError::Missing(BindingKind::GlobalsUniform));
                },
                Some(u) => v.push((GLOBALS_BINDING, u)),
            }
        },
    }
    Ok(v)
}

} // verus!
