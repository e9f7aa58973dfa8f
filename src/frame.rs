//! The frame's stage graph with the two effects injected, and the ping-pong
//! pair of post-processing buffers that the stages pass the picture through.
use vstd::prelude::*;
use crate::graph::{is_acyclic, is_topo_order, Stage, StageGraph};

verus! {

/// The pair of post-processing buffers (`0` and `1`) and which one holds
/// the current picture.
pub struct PostProcessChain {
    front: u8,
}

impl PostProcessChain {
    pub closed spec fn view(&self) -> nat {
        self.front as nat
    }

    pub fn new() -> (r: PostProcessChain)
        ensures
            r@ == 0,
    {
        PostProcessChain { front: 0 }
    }

    /// The buffer that holds the current picture.
    pub fn current(&self) -> (r: u8)
        ensures
            r == self@,
    {
        self.front
    }

    /// Hands a post-processing stage its source (the current picture) and its
    /// destination (the other buffer), which then holds the picture.
    pub fn post_process_write(&mut self) -> (r: (u8, u8))
        requires
            old(self)@ < 2,
        ensures
            r.0 == old(self)@,
            r.1 == 1 - old(self)@,
            final(self)@ == r.1,
    {
        let source = self.front;
        let destination: u8 = 1 - self.front;
        self.front = destination;
        (source, destination)
    }
}

/// The buffer holding the picture when the stage at position `i` of order `o`
/// starts: each post-processing stage before it has swapped the pair.
pub open spec fn front_before(pp: Seq<bool>, o: Seq<usize>, i: int) -> int
    decreases i,
{
    if i <= 0 {
        0
    } else if pp[o[i - 1] as int] {
        1 - front_before(pp, o, i - 1)
    } else {
        front_before(pp, o, i - 1)
    }
}

/// What a stage reads from and writes into the buffer pair.
#[derive(Clone, Copy, Debug, PartialEq, Eq, Structural)]
pub struct BufferUse {
    pub stage: usize,
    /// The post-processing source; none for a stage that only draws.
    pub reads: Option<u8>,
    pub writes: u8,
}

/// The buffer use of each stage of an execution order, in that order.
pub fn plan_buffers(g: &StageGraph, order: &Vec<usize>) -> (r: Vec<BufferUse>)
    requires
        g.wf(),
        forall|i: int| 0 <= i < order@.len() ==> #[trigger] order@[i] < g.n(),
    ensures
        r@.len() == order@.len(),
        forall|i: int|
            0 <= i < r@.len() ==> {
                let pp = g.post_process_seq()[order@[i] as int];
                let f = front_before(g.post_process_seq(), order@, i);
                &&& (#[trigger] r@[i]).stage == order@[i]
                &&& r@[i].reads == (if pp {
                    Some(f as u8)
                } else {
                    None
                })
                &&& r@[i].writes == (if pp {
                    1 - f
                } else {
                    f
                })
            },
{
    let mut chain = PostProcessChain::new();
    let mut r: Vec<BufferUse> = Vec::new();
    let n = order.len();
    let mut i: usize = 0;
    while i < n
        invariant
            n == order@.len(),
            i <= n,
            g.wf(),
            forall|k: int| 0 <= k < order@.len() ==> #[trigger] order@[k] < g.n(),
            chain@ == front_before(g.post_process_seq(), order@, i as int),
            chain@ < 2,
            r@.len() == i,
            forall|k: int|
                0 <= k < r@.len() ==> {
                    let pp = g.post_process_seq()[order@[k] as int];
                    let f = front_before(g.post_process_seq(), order@, k);
                    &&& (#[trigger] r@[k]).stage == order@[k]
                    &&& r@[k].reads == (if pp {
                        Some(f as u8)
                    } else {
                        None
                    })
                    &&& r@[k].writes == (if pp {
                        1 - f
                    } else {
                        f
                    })
                },
        decreases n - i,
    {
        let s = order[i];
        let u = if g.is_post_process(s) {
            let (src, dst) = chain.post_process_write();
            BufferUse { stage: s, reads: Some(src), writes: dst }
        } else {
            BufferUse { stage: s, reads: None, writes: chain.current() }
        };
        r.push(u);
        i = i + 1;
    }
    r
}

proof fn lemma_front_is_bit(pp: Seq<bool>, o: Seq<usize>, i: int)
    ensures
        0 <= front_before(pp, o, i) < 2,
    decreases i,
{
    if i > 0 {
        lemma_front_is_bit(pp, o, i - 1);
    }
}

proof fn lemma_front_after_post_process(pp: Seq<bool>, o: Seq<usize>, h: int, i: int)
    requires
        0 <= h < i,
        pp[o[h] as int],
        forall|m: int| h < m < i ==> !pp[#[trigger] o[m] as int],
    ensures
        front_before(pp, o, i) == 1 - front_before(pp, o, h),
    decreases i - h,
{
    if i - 1 > h {
        lemma_front_after_post_process(pp, o, h, i - 1);
    }
}

/// In any execution order of the stages, a post-processing stage `w` that
/// must run after post-processing stage `t` runs later, and when no other
/// post-processing stage runs between them, `w` reads exactly the buffer `t`
/// wrote and writes the other one: it never reads a buffer it is writing.
pub proof fn lemma_reads_finished_output(
    n: nat,
    edges: Seq<(usize, usize)>,
    pp: Seq<bool>,
    o: Seq<usize>,
    t: usize,
    w: usize,
    h: int,
    i: int,
)
    requires
        is_topo_order(n, edges, o),
        edges.contains((t, w)),
        0 <= h < o.len(),
        0 <= i < o.len(),
        o[h] == t,
        o[i] == w,
        pp[t as int],
        pp[w as int],
        forall|m: int| h < m < i ==> !pp[#[trigger] o[m] as int],
    ensures
        h < i,
        front_before(pp, o, i) == 1 - front_before(pp, o, h),
        front_before(pp, o, i) != 1 - front_before(pp, o, i),
{
    let k = choose|k: int| 0 <= k < edges.len() && edges[k] == (t, w);
    assert(o[h] == edges[k].0 && o[i] == edges[k].1);
    lemma_front_after_post_process(pp, o, h, i);
    lemma_front_is_bit(pp, o, i);
}

/// The frame graph and the ids of its stages.
pub struct FrameStages {
    pub graph: StageGraph,
    pub sky: usize,
    pub main_opaque: usize,
    pub main_transparent: usize,
    pub tonemapping: usize,
    pub water: usize,
    pub end_post_processing: usize,
    pub upscaling: usize,
}

/// The main 3D path (opaque, transparent, tonemapping, end of
/// post-processing, upscaling), with the sky injected before the opaque pass
/// and the water between tonemapping and the end of post-processing.
pub fn frame_graph() -> (r: FrameStages)
    ensures
        r.graph.wf(),
        r.graph.n() == 7,
        r.graph.stage_seq() == seq![
            Stage::Sky,
            Stage::MainOpaque,
            Stage::MainTransparent,
            Stage::Tonemapping,
            Stage::Water,
            Stage::EndPostProcessing,
            Stage::Upscaling,
        ],
        r.graph.post_process_seq() == seq![false, false, false, true, true, false, false],
        r.sky == 0 && r.main_opaque == 1 && r.main_transparent == 2 && r.tonemapping == 3
            && r.water == 4 && r.end_post_processing == 5 && r.upscaling == 6,
        r.graph.edge_seq() == seq![
            (1usize, 2usize),
            (2usize, 3usize),
            (3usize, 5usize),
            (5usize, 6usize),
            (0usize, 1usize),
            (3usize, 4usize),
            (4usize, 5usize),
        ],
        is_acyclic(r.graph.n(), r.graph.edge_seq()),
{
    let mut g = StageGraph::new();
    let sky = g.add_stage(Stage::Sky, false);
    let main_opaque = g.add_stage(Stage::MainOpaque, false);
    let main_transparent = g.add_stage(Stage::MainTransparent, false);
    let tonemapping = g.add_stage(Stage::Tonemapping, true);
    let water = g.add_stage(Stage::Water, true);
    let end_post_processing = g.add_stage(Stage::EndPostProcessing, false);
    let upscaling = g.add_stage(Stage::Upscaling, false);
    let mut core: Vec<usize> = Vec::new();
    core.push(main_opaque);
    core.push(main_transparent);
    core.push(tonemapping);
    core.push(end_post_processing);
    core.push(upscaling);
    g.add_chain(&core);
    g.add_edge(sky, main_opaque);
    g.add_edge(tonemapping, water);
    g.add_edge(water, end_post_processing);
    proof {
        assert(g.stage_seq() =~= seq![
            Stage::Sky,
            Stage::MainOpaque,
            Stage::MainTransparent,
            Stage::Tonemapping,
            Stage::Water,
            Stage::EndPostProcessing,
            Stage::Upscaling,
        ]);
        assert(g.post_process_seq() =~= seq![false, false, false, true, true, false, false]);
        let e = seq![
            (1usize, 2usize),
            (2usize, 3usize),
            (3usize, 5usize),
            (5usize, 6usize),
            (0usize, 1usize),
            (3usize, 4usize),
            (4usize, 5usize),
        ];
        assert(g.edge_seq() =~= e);
        let o = seq![0usize, 1, 2, 3, 4, 5, 6];
        assert forall|v: usize| v < 7 implies #[trigger] o.contains(v) by {
            assert(o[v as int] == v);
        }
        assert forall|a: int, b: int| 0 <= a < b < o.len() implies o[a] != o[b] by {
        }
        assert(is_topo_order(7, e, o));
    }
    FrameStages {
        graph: g,
        sky,
        main_opaque,
        main_transparent,
        tonemapping,
        water,
        end_post_processing,
        upscaling,
    }
}

} // verus!
