//! The level-of-detail mesh cache: six meshes of decreasing subdivision,
//! selected by the squared planar distance from the observer.
use vstd::prelude::*;

verus! {

/// Number of level-of-detail brackets.
pub const LOD_COUNT: usize = 6;

/// Subdivision count of the finest mesh; each coarser level halves it.
pub const BASE_SUBDIVISIONS: u32 = 1024;

/// Exclusive upper bound, in squared world distance, of bracket `k` (for `k < 5`).
pub open spec fn bracket_upper(k: nat) -> int {
    if k == 0 {
        40000
    } else if k == 1 {
        160000
    } else if k == 2 {
        640000
    } else if k == 3 {
        2560000
    } else {
        10240000
    }
}

/// Inclusive lower bound, in squared world distance, of bracket `k`.
pub open spec fn bracket_lower(k: nat) -> int {
    if k == 0 {
        0
    } else {
        bracket_upper((k - 1) as nat)
    }
}

/// The bracket (0 = finest, 5 = coarsest) for a squared planar distance.
pub open spec fn bracket_of(dist_sq: int) -> nat {
    if dist_sq < 40000 {
        0
    } else if dist_sq < 160000 {
        1
    } else if dist_sq < 640000 {
        2
    } else if dist_sq < 2560000 {
        3
    } else if dist_sq < 10240000 {
        4
    } else {
        5
    }
}

/// Selects the level-of-detail bracket for a squared distance.
pub fn lod_bracket(dist_sq: u128) -> (r: usize)
    ensures
        r == bracket_of(dist_sq as int),
        r < LOD_COUNT,
{
    if dist_sq < 40000 {
        0
    } else if dist_sq < 160000 {
        1
    } else if dist_sq < 640000 {
        2
    } else if dist_sq < 2560000 {
        3
    } else if dist_sq < 10240000 {
        4
    } else {
        5
    }
}

/// Every non-negative squared distance falls in exactly one bracket: bracket
/// `k` holds exactly the distances from `bracket_lower(k)` up to (but not
/// including) `bracket_upper(k)`, the last one being unbounded above; and a
/// larger distance never selects a finer bracket.
pub proof fn lemma_brackets_partition(d: int, e: int)
    requires
        0 <= d,
    ensures
        bracket_of(d) < LOD_COUNT,
        forall|k: nat|
            k < LOD_COUNT ==> (bracket_of(d) == k <==> (bracket_lower(k) <= d && (k == 5
                || d < bracket_upper(k)))),
        d <= e ==> bracket_of(d) <= bracket_of(e),
{
}

/// The subdivision count of level `i`: the base halved `i` times.
pub open spec fn halved(base: nat, i: nat) -> nat
    decreases i,
{
    if i == 0 {
        base
    } else {
        halved(base, (i - 1) as nat) / 2
    }
}

/// The subdivision counts of the six levels, finest first.
pub fn lod_subdivisions(base: u32) -> (r: Vec<u32>)
    ensures
        r@.len() == LOD_COUNT,
        forall|i: int| 0 <= i < LOD_COUNT ==> r@[i] == halved(base as nat, i as nat),
{
    let mut r: Vec<u32> = Vec::new();
    let mut cur: u32 = base;
    let mut i: usize = 0;
    while i < LOD_COUNT
        invariant
            i <= LOD_COUNT,
            r@.len() == i,
            cur == halved(base as nat, i as nat),
            forall|j: int| 0 <= j < i ==> r@[j] == halved(base as nat, j as nat),
        decreases LOD_COUNT - i,
    {
        r.push(cur);
        cur = cur / 2;
        i = i + 1;
    }
    r
}

/// Six mesh handles, finest first, selected by squared distance.
pub struct LodMeshes<H> {
    meshes: Vec<H>,
}

impl<H> LodMeshes<H> {
    /// The handles, finest first.
    pub closed spec fn view(&self) -> Seq<H> {
        self.meshes@
    }

    pub closed spec fn wf(&self) -> bool {
        self.meshes@.len() == LOD_COUNT
    }

    /// Takes exactly six handles, finest first; any other count is refused.
    pub fn from_handles(meshes: Vec<H>) -> (r: Option<LodMeshes<H>>)
        ensures
            meshes@.len() == LOD_COUNT <==> r is Some,
            r matches Some(c) ==> c.wf() && c.view() == meshes@,
    {
        if meshes.len() == LOD_COUNT {
            Some(LodMeshes { meshes })
        } else {
            None
        }
    }

    /// The handle for the bracket of a squared distance.
    pub fn get(&self, dist_sq: u128) -> (r: &H)
        requires
            self.wf(),
        ensures
            *r == self.view()[bracket_of(dist_sq as int) as int],
    {
        let i = lod_bracket(dist_sq);
        &self.meshes[i]
    }

    /// The handle of level `i`.
    pub fn level(&self, i: usize) -> (r: &H)
        requires
            self.wf(),
            i < LOD_COUNT,
        ensures
            *r == self.view()[i as int],
    {
        &self.meshes[i]
    }
}

} // verus!
