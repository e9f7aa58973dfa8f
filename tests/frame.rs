use lod_terrain::frame::{frame_graph, plan_buffers, BufferUse, PostProcessChain};
use lod_terrain::graph::{Stage, StageGraph};

fn pos(order: &[usize], id: usize) -> usize {
    order.iter().position(|&s| s == id).unwrap()
}

#[test]
fn frame_order_puts_sky_before_opaque_and_water_after_tonemapping() {
    let f = frame_graph();
    let order = f.graph.resolve().unwrap();
    assert_eq!(order.len(), 7);
    assert!(pos(&order, f.sky) < pos(&order, f.main_opaque));
    assert!(pos(&order, f.main_opaque) < pos(&order, f.main_transparent));
    assert!(pos(&order, f.tonemapping) < pos(&order, f.water));
    assert!(pos(&order, f.water) < pos(&order, f.end_post_processing));
    assert!(pos(&order, f.end_post_processing) < pos(&order, f.upscaling));
    assert_eq!(f.graph.stage(f.water), Stage::Water);
    assert!(f.graph.is_post_process(f.water));
    assert!(!f.graph.is_post_process(f.sky));
}

#[test]
fn water_reads_the_buffer_tonemapping_wrote() {
    let f = frame_graph();
    let order = f.graph.resolve().unwrap();
    let uses = plan_buffers(&f.graph, &order);
    let t = uses[pos(&order, f.tonemapping)];
    let w = uses[pos(&order, f.water)];
    assert_eq!(t, BufferUse { stage: f.tonemapping, reads: Some(0), writes: 1 });
    assert_eq!(w, BufferUse { stage: f.water, reads: Some(1), writes: 0 });
    assert_eq!(w.reads, Some(t.writes));
    assert_ne!(w.reads, Some(w.writes));
    let sky = uses[pos(&order, f.sky)];
    assert_eq!(sky.reads, None);
    assert_eq!(sky.writes, 0);
    let up = uses[pos(&order, f.upscaling)];
    assert_eq!(up.writes, 0);
}

#[test]
fn chain_alternates_buffers() {
    let mut c = PostProcessChain::new();
    assert_eq!(c.current(), 0);
    assert_eq!(c.post_process_write(), (0, 1));
    assert_eq!(c.current(), 1);
    assert_eq!(c.post_process_write(), (1, 0));
    assert_eq!(c.post_process_write(), (0, 1));
}

#[test]
fn cycles_have_no_order() {
    let mut g = StageGraph::new();
    let a = g.add_stage(Stage::MainOpaque, false);
    let b = g.add_stage(Stage::Tonemapping, true);
    let c = g.add_stage(Stage::Water, true);
    g.add_chain(&vec![a, b, c]);
    assert_eq!(g.resolve(), Some(vec![a, b, c]));
    g.add_edge(c, a);
    assert_eq!(g.resolve(), None);
    let mut h = StageGraph::new();
    let s = h.add_stage(Stage::Sky, false);
    h.add_edge(s, s);
    assert_eq!(h.resolve(), None);
}

#[test]
fn order_respects_edges_added_out_of_registration_order() {
    let mut g = StageGraph::new();
    let a = g.add_stage(Stage::Upscaling, false);
    let b = g.add_stage(Stage::EndPostProcessing, false);
    let c = g.add_stage(Stage::Sky, false);
    g.add_edge(c, b);
    g.add_edge(b, a);
    assert_eq!(g.len(), 3);
    assert_eq!(g.resolve(), Some(vec![c, b, a]));
    let empty = StageGraph::new();
    assert_eq!(empty.resolve(), Some(vec![]));
}
