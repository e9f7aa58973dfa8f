//! The frame's render stages: a directed graph of "runs before" edges,
//! resolved once into a linear execution order.
use vstd::prelude::*;

verus! {

/// The stages of a frame's main 3D path, with the two effects injected.
#[derive(Clone, Copy, Debug, PartialEq, Eq, Structural)]
pub enum Stage {
    Sky,
    MainOpaque,
    MainTransparent,
    Tonemapping,
    Water,
    EndPostProcessing,
    Upscaling,
}

/// `o` runs every one of the `n` stages exactly once, and each edge's first
/// stage before its second.
pub open spec fn is_topo_order(n: nat, edges: Seq<(usize, usize)>, o: Seq<usize>) -> bool {
    &&& o.len() == n
    &&& o.no_duplicates()
    &&& forall|i: int| 0 <= i < o.len() ==> #[trigger] o[i] < n
    &&& forall|v: usize| v < n ==> #[trigger] o.contains(v)
    &&& forall|k: int, i: int, j: int|
        #![trigger edges[k], o[i], o[j]]
        0 <= k < edges.len() && 0 <= i < o.len() && 0 <= j < o.len() && o[i] == edges[k].0 && o[j]
            == edges[k].1 ==> i < j
}

/// The graph has some execution order.
pub open spec fn is_acyclic(n: nat, edges: Seq<(usize, usize)>) -> bool {
    exists|o: Seq<usize>| is_topo_order(n, edges, o)
}

pub open spec fn count_true(s: Seq<bool>) -> nat
    decreases s.len(),
{
    if s.len() == 0 {
        0
    } else {
        count_true(s.drop_last()) + if s.last() {
            1nat
        } else {
            0nat
        }
    }
}

proof fn lemma_count_true_set(s: Seq<bool>, v: int)
    requires
        0 <= v < s.len(),
        !s[v],
    ensures
        count_true(s.update(v, true)) == count_true(s) + 1,
    decreases s.len(),
{
    let t = s.update(v, true);
    if v == s.len() - 1 {
        assert(t.drop_last() =~= s.drop_last());
    } else {
        assert(t.drop_last() =~= s.drop_last().update(v, true));
        lemma_count_true_set(s.drop_last(), v);
    }
}

proof fn lemma_count_true_full(s: Seq<bool>)
    requires
        count_true(s) == s.len(),
    ensures
        forall|i: int| 0 <= i < s.len() ==> s[i],
    decreases s.len(),
{
    if s.len() > 0 {
        lemma_count_true_bound(s.drop_last());
        lemma_count_true_full(s.drop_last());
        assert forall|i: int| 0 <= i < s.len() implies s[i] by {
            if i < s.len() - 1 {
                assert(s[i] == s.drop_last()[i]);
            }
        }
    }
}

proof fn lemma_count_true_bound(s: Seq<bool>)
    ensures
        count_true(s) <= s.len(),
    decreases s.len(),
{
    if s.len() > 0 {
        lemma_count_true_bound(s.drop_last());
    }
}

proof fn lemma_count_true_missing(s: Seq<bool>)
    requires
        count_true(s) < s.len(),
    ensures
        exists|i: int| 0 <= i < s.len() && !s[i],
    decreases s.len(),
{
    if !s.last() {
        assert(!s[s.len() - 1]);
    } else {
        lemma_count_true_missing(s.drop_last());
        let i = choose|i: int| 0 <= i < s.drop_last().len() && !s.drop_last()[i];
        assert(!s[i]);
    }
}

/// Every edge into `v` comes from a placed stage.
pub open spec fn preds_placed(edges: Seq<(usize, usize)>, placed: Seq<bool>, v: usize) -> bool {
    forall|k: int| 0 <= k < edges.len() && #[trigger] edges[k].1 == v ==> placed[edges[k].0 as int]
}

proof fn lemma_first_unplaced(o: Seq<usize>, placed: Seq<bool>, i0: int)
    requires
        0 <= i0 < o.len(),
        forall|i: int| 0 <= i < o.len() ==> #[trigger] o[i] < placed.len(),
        !placed[o[i0] as int],
    ensures
        exists|i: int|
            0 <= i <= i0 && !placed[o[i] as int] && forall|j: int| 0 <= j < i ==> placed[#[trigger] o[j] as int],
    decreases i0,
{
    if exists|j: int| 0 <= j < i0 && !placed[o[j] as int] {
        let j = choose|j: int| 0 <= j < i0 && !placed[o[j] as int];
        lemma_first_unplaced(o, placed, j);
    }
}

/// When some stage is unplaced and every unplaced stage waits on an unplaced
/// one, no execution order exists.
proof fn lemma_stuck_means_cycle(n: nat, edges: Seq<(usize, usize)>, placed: Seq<bool>, w: usize)
    requires
        placed.len() == n,
        w < n,
        !placed[w as int],
        forall|k: int| 0 <= k < edges.len() ==> edges[k].0 < n,
        forall|v: usize| v < n && !placed[v as int] ==> !#[trigger] preds_placed(edges, placed, v),
    ensures
        !is_acyclic(n, edges),
{
    if is_acyclic(n, edges) {
        let o = choose|o: Seq<usize>| is_topo_order(n, edges, o);
        assert(o.contains(w));
        let iw = choose|i: int| 0 <= i < o.len() && o[i] == w;
        lemma_first_unplaced(o, placed, iw);
        let i = choose|i: int|
            0 <= i <= iw && !placed[o[i] as int] && forall|j: int| 0 <= j < i ==> placed[#[trigger] o[j] as int];
        let u = o[i];
        assert(!preds_placed(edges, placed, u));
        let k = choose|k: int| 0 <= k < edges.len() && #[trigger] edges[k].1 == u && !placed[edges[k].0 as int];
        let a = edges[k].0;
        assert(o.contains(a));
        let ia = choose|j: int| 0 <= j < o.len() && o[j] == a;
        assert(o[ia] == edges[k].0 && o[i] == edges[k].1);
        assert(ia < i);
        assert(placed[o[ia] as int]);
    }
}

/// Stages and their "runs before" edges.
pub struct StageGraph {
    stages: Vec<Stage>,
    post_process: Vec<bool>,
    edges: Vec<(usize, usize)>,
}

impl StageGraph {
    pub closed spec fn stage_seq(&self) -> Seq<Stage> {
        self.stages@
    }

    /// Whether each stage reads and writes the post-processing buffers.
    pub closed spec fn post_process_seq(&self) -> Seq<bool> {
        self.post_process@
    }

    pub closed spec fn edge_seq(&self) -> Seq<(usize, usize)> {
        self.edges@
    }

    pub open spec fn n(&self) -> nat {
        self.stage_seq().len()
    }

    pub open spec fn wf(&self) -> bool {
        &&& self.post_process_seq().len() == self.n()
        &&& forall|k: int|
            0 <= k < self.edge_seq().len() ==> (#[trigger] self.edge_seq()[k]).0 < self.n()
                && self.edge_seq()[k].1 < self.n()
    }

    pub fn new() -> (r: StageGraph)
        ensures
            r.wf(),
            r.n() == 0,
            r.edge_seq().len() == 0,
    {
        StageGraph { stages: Vec::new(), post_process: Vec::new(), edges: Vec::new() }
    }

    pub fn len(&self) -> (r: usize)
        ensures
            r == self.n(),
    {
        self.stages.len()
    }

    pub fn stage(&self, i: usize) -> (r: Stage)
        requires
            i < self.n(),
        ensures
            r == self.stage_seq()[i as int],
    {
        self.stages[i]
    }

    pub fn is_post_process(&self, i: usize) -> (r: bool)
        requires
            self.wf(),
            i < self.n(),
        ensures
            r == self.post_process_seq()[i as int],
    {
        self.post_process[i]
    }

    /// The "runs before" edges, in the order they were added.
    pub fn edges(&self) -> (r: &Vec<(usize, usize)>)
        ensures
            r@ == self.edge_seq(),
    {
        &self.edges
    }

    /// Registers a stage; its id is its position.
    pub fn add_stage(&mut self, stage: Stage, post_process: bool) -> (id: usize)
        requires
            old(self).wf(),
        ensures
            final(self).wf(),
            id == old(self).n(),
            final(self).stage_seq() == old(self).stage_seq().push(stage),
            final(self).post_process_seq() == old(self).post_process_seq().push(post_process),
            final(self).edge_seq() == old(self).edge_seq(),
    {
        let id = self.stages.len();
        self.stages.push(stage);
        self.post_process.push(post_process);
        assert forall|k: int| 0 <= k < self.edge_seq().len() implies (#[trigger] self.edge_seq()[k]).0 < self.n()
            && self.edge_seq()[k].1 < self.n() by {
            assert(old(self).edge_seq()[k] == self.edge_seq()[k]);
        }
        id
    }

    /// Requires stage `before` to run before stage `after`.
    pub fn add_edge(&mut self, before: usize, after: usize)
        requires
            old(self).wf(),
            before < old(self).n(),
            after < old(self).n(),
        ensures
            final(self).wf(),
            final(self).stage_seq() == old(self).stage_seq(),
            final(self).post_process_seq() == old(self).post_process_seq(),
            final(self).edge_seq() == old(self).edge_seq().push((before, after)),
    {
        self.edges.push((before, after));
        assert forall|k: int| 0 <= k < self.edge_seq().len() implies (#[trigger] self.edge_seq()[k]).0 < self.n()
            && self.edge_seq()[k].1 < self.n() by {
            if k < old(self).edge_seq().len() {
                assert(old(self).edge_seq()[k] == self.edge_seq()[k]);
            }
        }
    }

    /// Requires each stage of `chain` to run before the next.
    pub fn add_chain(&mut self, chain: &Vec<usize>)
        requires
            old(self).wf(),
            forall|i: int| 0 <= i < chain@.len() ==> #[trigger] chain@[i] < old(self).n(),
        ensures
            final(self).wf(),
            final(self).stage_seq() == old(self).stage_seq(),
            final(self).post_process_seq() == old(self).post_process_seq(),
            final(self).edge_seq() == old(self).edge_seq() + Seq::new(
                (if chain@.len() == 0 {
                    0
                } else {
                    chain@.len() - 1
                }) as nat,
                |i: int| (chain@[i], chain@[i + 1]),
            ),
    {
        let ghost e0 = self.edges@;
        let n = chain.len();
        if n == 0 {
            assert(self.edges@ =~= e0 + Seq::new(0, |i: int| (chain@[i], chain@[i + 1])));
            return;
        }
        let mut i: usize = 1;
        while i < n
            invariant
                1 <= i <= n,
                n == chain@.len(),
                self.wf(),
                forall|j: int| 0 <= j < chain@.len() ==> #[trigger] chain@[j] < self.n(),
                self.stage_seq() == old(self).stage_seq(),
                self.post_process_seq() == old(self).post_process_seq(),
                self.edges@ == e0 + Seq::new((i - 1) as nat, |j: int| (chain@[j], chain@[j + 1])),
            decreases n - i,
        {
            self.add_edge(chain[i - 1], chain[i]);
            assert(self.edges@ =~= e0 + Seq::new(i as nat, |j: int| (chain@[j], chain@[j + 1])));
            i = i + 1;
        }
    }

    /// Whether every edge into `v` starts at a placed stage.
    fn preds_done(&self, placed: &Vec<bool>, v: usize) -> (r: bool)
        requires
            self.wf(),
            placed@.len() == self.n(),
        ensures
            r == preds_placed(self.edge_seq(), placed@, v),
    {
        let m = self.edges.len();
        let mut k: usize = 0;
        while k < m
            invariant
                m == self.edge_seq().len(),
                k <= m,
                self.wf(),
                placed@.len() == self.n(),
                forall|q: int| 0 <= q < k && #[trigger] self.edge_seq()[q].1 == v ==> placed@[self.edge_seq()[q].0 as int],
            decreases m - k,
        {
            let (a, b) = self.edges[k];
            if b == v && !placed[a] {
                return false;
            }
            k = k + 1;
        }
        true
    }

    /// An execution order of all stages that honours every edge, or `None`
    /// exactly when there is none (the edges form a cycle).
    pub fn resolve(&self) -> (r: Option<Vec<usize>>)
        requires
            self.wf(),
        ensures
            r is Some <==> is_acyclic(self.n(), self.edge_seq()),
            r matches Some(o) ==> is_topo_order(self.n(), self.edge_seq(), o@),
    {
        let n = self.stages.len();
        let mut placed: Vec<bool> = Vec::new();
        let mut z: usize = 0;
        while z < n
            invariant
                z <= n,
                placed@.len() == z,
                forall|i: int| 0 <= i < z ==> !placed@[i],
                count_true(placed@) == 0,
            decreases n - z,
        {
            proof {
                assert(placed@.push(false).drop_last() =~= placed@);
            }
            placed.push(false);
            z = z + 1;
        }
        let mut order: Vec<usize> = Vec::new();
        while order.len() < n
            invariant
                n == self.n(),
                self.wf(),
                placed@.len() == n,
                order@.len() <= n,
                count_true(placed@) == order@.len(),
                order@.no_duplicates(),
                forall|i: int| 0 <= i < order@.len() ==> #[trigger] order@[i] < n,
                forall|v: usize| v < n ==> (placed@[v as int] <==> #[trigger] order@.contains(v)),
                forall|v: usize| v < n && #[trigger] placed@[v as int] ==> preds_placed(self.edge_seq(), placed@, v),
                forall|k: int, i: int, j: int|
                    #![trigger self.edge_seq()[k], order@[i], order@[j]]
                    0 <= k < self.edge_seq().len() && 0 <= i < order@.len() && 0 <= j < order@.len()
                        && order@[i] == self.edge_seq()[k].0 && order@[j] == self.edge_seq()[k].1 ==> i < j,
            decreases n - order@.len(),
        {
            proof {
                lemma_count_true_missing(placed@);
            }
            let mut v: usize = 0;
            let mut found = false;
            while v < n
                invariant
                    n == self.n(),
                    self.wf(),
                    placed@.len() == n,
                    v <= n,
                    forall|u: usize| u < v && !placed@[u as int] ==> !#[trigger] preds_placed(self.edge_seq(), placed@, u),
                    found ==> v < n && !placed@[v as int] && preds_placed(self.edge_seq(), placed@, v),
                ensures
                    forall|u: usize| u < v && !placed@[u as int] ==> !#[trigger] preds_placed(self.edge_seq(), placed@, u),
                    found ==> v < n && !placed@[v as int] && preds_placed(self.edge_seq(), placed@, v),
                    !found ==> v == n,
                decreases n - v,
            {
                if !placed[v] && self.preds_done(&placed, v) {
                    found = true;
                    break;
                }
                v = v + 1;
            }
            if !found {
                proof {
                    let w = choose|i: int| 0 <= i < placed@.len() && !placed@[i];
                    lemma_stuck_means_cycle(n as nat, self.edge_seq(), placed@, w as usize);
                }
                return None;
            }
            let ghost old_placed = placed@;
            let ghost old_order = order@;
            proof {
                lemma_count_true_set(placed@, v as int);
            }
            placed.set(v, true);
            order.push(v);
            proof {
                assert forall|u: usize| u < n implies (placed@[u as int] <==> #[trigger] order@.contains(u)) by {
                    if u != v {
                        if order@.contains(u) {
                            let i = choose|i: int| 0 <= i < order@.len() && order@[i] == u;
                            assert(old_order[i] == u);
                        }
                        if old_order.contains(u) {
                            let i = choose|i: int| 0 <= i < old_order.len() && old_order[i] == u;
                            assert(order@[i] == u);
                        }
                    } else {
                        assert(order@[order@.len() - 1] == v);
                    }
                }
                assert(!old_order.contains(v));
                assert forall|a: int, b: int| 0 <= a < b < order@.len() implies order@[a] != order@[b] by {
                    if b == order@.len() - 1 {
                        assert(old_order[a] == order@[a]);
                        assert(old_order.contains(order@[a]));
                    } else {
                        assert(old_order[a] == order@[a] && old_order[b] == order@[b]);
                    }
                }
                assert forall|u: usize| u < n && #[trigger] placed@[u as int] implies preds_placed(self.edge_seq(), placed@, u) by {
                    if u != v {
                        assert(old_placed[u as int]);
                        assert(preds_placed(self.edge_seq(), old_placed, u));
                    } else {
                        assert(preds_placed(self.edge_seq(), old_placed, v));
                    }
                    assert forall|k: int| 0 <= k < self.edge_seq().len() && #[trigger] self.edge_seq()[k].1 == u
                        implies placed@[self.edge_seq()[k].0 as int] by {
                        assert(old_placed[self.edge_seq()[k].0 as int]);
                    }
                }
                assert forall|k: int, i: int, j: int|
                    #![trigger self.edge_seq()[k], order@[i], order@[j]]
                    0 <= k < self.edge_seq().len() && 0 <= i < order@.len() && 0 <= j < order@.len()
                        && order@[i] == self.edge_seq()[k].0 && order@[j] == self.edge_seq()[k].1 implies i < j by {
                    let last = order@.len() - 1;
                    if i < last && j < last {
                        assert(old_order[i] == order@[i] && old_order[j] == order@[j]);
                    } else if j == last {
                        if i == last {
                            assert(preds_placed(self.edge_seq(), old_placed, v));
                            assert(old_placed[self.edge_seq()[k].0 as int]);
                        }
                    } else {
                        let w = order@[j];
                        assert(old_order[j] == w);
                        assert(old_order.contains(w));
                        assert(old_placed[w as int]);
                        assert(preds_placed(self.edge_seq(), old_placed, w));
                        assert(old_placed[v as int]);
                    }
                }
            }
        }
        proof {
            lemma_count_true_full(placed@);
            assert(is_topo_order(n as nat, self.edge_seq(), order@));
        }
        Some(order)
    }
}

} // verus!
