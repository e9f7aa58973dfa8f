//! The chunk streaming engine: keeps a disc of terrain tiles around a moving
//! observer, each tile carrying the level of detail for its distance.
//!
//! Positions are whole world units on the horizontal plane (`x`, `z`); a tile
//! is identified by its grid cell, and its world position is the cell times
//! the tile size. Tiles are kept ordered by cell (row `z` first, then `x`),
//! which makes every existence check a merge step rather than a scan.
use vstd::prelude::*;
use vstd::arithmetic::div_mod::lemma_fundamental_div_mod;
use vstd::arithmetic::div_mod::lemma_fundamental_div_mod_converse;
use crate::lod::{bracket_of, lod_bracket, LOD_COUNT};

verus! {

/// Largest magnitude of a cell coordinate that a tile may have.
pub const CELL_LIMIT: i64 = 0x1_0000_0000;

/// A grid cell on the horizontal plane.
#[derive(Clone, Copy, Debug, PartialEq, Eq, Hash, Structural)]
pub struct GridCell {
    pub x: i64,
    pub z: i64,
}

impl GridCell {
    /// The world position of the cell's tile on the horizontal plane.
    pub fn world_position(&self, tile_size: u16) -> (r: (i64, i64))
        requires
            cell_in_bounds(*self),
        ensures
            r.0 == self.x * tile_size,
            r.1 == self.z * tile_size,
    {
        assert(-0x1_0000_0000_0000 <= self.x * tile_size <= 0x1_0000_0000_0000) by (nonlinear_arith)
            requires
                -0x1_0000_0000 <= self.x <= 0x1_0000_0000,
                0 <= tile_size <= 0xffff,
        ;
        assert(-0x1_0000_0000_0000 <= self.z * tile_size <= 0x1_0000_0000_0000) by (nonlinear_arith)
            requires
                -0x1_0000_0000 <= self.z <= 0x1_0000_0000,
                0 <= tile_size <= 0xffff,
        ;
        (self.x * tile_size as i64, self.z * tile_size as i64)
    }
}

/// One terrain tile: its cell and the level of detail of its mesh.
#[derive(Clone, Copy, Debug, PartialEq, Eq, Structural)]
pub struct Tile {
    pub cell: GridCell,
    pub lod: usize,
}

/// Tile size in world units and streaming radius in tiles.
#[derive(Clone, Copy, Debug, PartialEq, Eq, Structural)]
pub struct StreamConfig {
    pub tile_size: u16,
    pub radius: u16,
}

pub open spec fn cell_in_bounds(c: GridCell) -> bool {
    -CELL_LIMIT <= c.x <= CELL_LIMIT && -CELL_LIMIT <= c.z <= CELL_LIMIT
}

/// `round(p / s)`, halves rounded away from zero.
pub open spec fn snap(p: int, s: int) -> int {
    if p >= 0 {
        (2 * p + s) / (2 * s)
    } else {
        -((-2 * p + s) / (2 * s))
    }
}

/// Squared planar distance from the observer at `(px, pz)` to the world
/// position of cell `c`.
pub open spec fn dist_sq(cfg: StreamConfig, c: GridCell, px: int, pz: int) -> int {
    let dx = c.x * cfg.tile_size - px;
    let dz = c.z * cfg.tile_size - pz;
    dx * dx + dz * dz
}

/// Squared streaming reach in world units: `(R * S)^2`.
pub open spec fn reach_sq(cfg: StreamConfig) -> int {
    (cfg.radius * cfg.tile_size) * (cfg.radius * cfg.tile_size)
}

/// A tile at `c` survives the eviction pass.
pub open spec fn in_reach(cfg: StreamConfig, c: GridCell, px: int, pz: int) -> bool {
    dist_sq(cfg, c, px, pz) <= reach_sq(cfg)
}

/// Cell `c` is one that the spawn pass visits and keeps: its offset from the
/// observer's snapped cell lies in `[-R, R) x [-R, R)` and has squared length
/// at most `R^2`.
pub open spec fn in_footprint(cfg: StreamConfig, c: GridCell, px: int, pz: int) -> bool {
    let r = cfg.radius as int;
    let ox = c.x - snap(px, cfg.tile_size as int);
    let oz = c.z - snap(pz, cfg.tile_size as int);
    &&& -r <= ox < r
    &&& -r <= oz < r
    &&& ox * ox + oz * oz <= r * r
}

/// The cells that the spawn pass fills around the observer.
pub open spec fn footprint(cfg: StreamConfig, px: int, pz: int) -> Set<GridCell> {
    Set::new(|c: GridCell| in_footprint(cfg, c, px, pz))
}

/// Cells of `before` that the eviction pass destroys.
pub open spec fn evicted_cells(cfg: StreamConfig, before: Set<GridCell>, px: int, pz: int) -> Set<
    GridCell,
> {
    before.filter(|c: GridCell| !in_reach(cfg, c, px, pz))
}

/// Cells of `before` that the eviction pass keeps.
pub open spec fn kept_cells(cfg: StreamConfig, before: Set<GridCell>, px: int, pz: int) -> Set<
    GridCell,
> {
    before.filter(|c: GridCell| in_reach(cfg, c, px, pz))
}

/// Cells that the spawn pass creates: footprint cells with no surviving tile.
pub open spec fn spawned_cells(cfg: StreamConfig, before: Set<GridCell>, px: int, pz: int) -> Set<
    GridCell,
> {
    footprint(cfg, px, pz).difference(kept_cells(cfg, before, px, pz))
}

/// The tile cells after one streaming pass from `before` at `(px, pz)`.
pub open spec fn streamed_cells(cfg: StreamConfig, before: Set<GridCell>, px: int, pz: int) -> Set<
    GridCell,
> {
    kept_cells(cfg, before, px, pz).union(footprint(cfg, px, pz))
}

/// The tile has the level of detail for its distance and a cell in bounds.
pub open spec fn tile_fits(cfg: StreamConfig, t: Tile, px: int, pz: int) -> bool {
    &&& t.lod == bracket_of(dist_sq(cfg, t.cell, px, pz))
    &&& cell_in_bounds(t.cell)
}

/// Row-major order on cells: `z` first, then `x`.
pub open spec fn cell_lt(a: GridCell, b: GridCell) -> bool {
    a.z < b.z || (a.z == b.z && a.x < b.x)
}

pub open spec fn sorted_cells(s: Seq<Tile>) -> bool {
    forall|i: int, j: int| 0 <= i < j < s.len() ==> cell_lt(s[i].cell, s[j].cell)
}

pub open spec fn has_cell(s: Seq<Tile>, c: GridCell) -> bool {
    exists|i: int| 0 <= i < s.len() && (#[trigger] s[i]).cell == c
}

pub open spec fn cells_of(s: Seq<Tile>) -> Set<GridCell> {
    Set::new(|c: GridCell| has_cell(s, c))
}

proof fn lemma_has_cell_push(s: Seq<Tile>, t: Tile, c: GridCell)
    ensures
        has_cell(s.push(t), c) <==> (has_cell(s, c) || t.cell == c),
{
    let s2 = s.push(t);
    if has_cell(s2, c) {
        let i = choose|i: int| 0 <= i < s2.len() && (#[trigger] s2[i]).cell == c;
        if i < s.len() {
            assert(s[i] == s2[i]);
        }
    }
    if has_cell(s, c) {
        let i = choose|i: int| 0 <= i < s.len() && (#[trigger] s[i]).cell == c;
        assert(s2[i] == s[i]);
    }
    if t.cell == c {
        assert(s2[s.len() as int] == t);
    }
}

proof fn lemma_has_cell_prefix(s: Seq<Tile>, k: int, c: GridCell)
    requires
        0 <= k < s.len(),
    ensures
        has_cell(s.subrange(0, k + 1), c) <==> (has_cell(s.subrange(0, k), c) || s[k].cell == c),
{
    assert(s.subrange(0, k + 1) =~= s.subrange(0, k).push(s[k]));
    lemma_has_cell_push(s.subrange(0, k), s[k], c);
}

proof fn lemma_snap_bounds(p: int, s: int)
    requires
        1 <= s,
    ensures
        p >= 0 ==> 0 <= snap(p, s) <= p + 1,
        p < 0 ==> p - 1 <= snap(p, s) <= 0,
{
    let d = 2 * s;
    let n = if p >= 0 {
        2 * p + s
    } else {
        -2 * p + s
    };
    let a = if p >= 0 {
        p
    } else {
        -p
    };
    lemma_fundamental_div_mod(n, d);
    let q = n / d;
    let r = n % d;
    assert(0 <= r < d);
    assert(q >= 0) by (nonlinear_arith)
        requires
            n == d * q + r,
            0 <= r < d,
            n >= 0,
    ;
    assert(q <= a + 1) by (nonlinear_arith)
        requires
            n == d * q + r,
            0 <= r,
            n == 2 * a + s,
            d == 2 * s,
            s >= 1,
            a >= 0,
    ;
}

/// The observer's snapped cell coordinate: `round(p / s)`.
pub fn snap_cell(p: i32, s: u16) -> (r: i64)
    requires
        s >= 1,
    ensures
        r == snap(p as int, s as int),
        -0x8000_0001 <= r <= 0x8000_0001,
{
    proof {
        lemma_snap_bounds(p as int, s as int);
    }
    let d: i64 = 2 * (s as i64);
    if p >= 0 {
        let num: i64 = 2 * (p as i64) + s as i64;
        assert(num >= 0 && d > 0);
        num / d
    } else {
        let num: i64 = -2 * (p as i64) + s as i64;
        assert(num >= 0 && d > 0);
        let q: i64 = num / d;
        assert(q == (-2 * p + s) / (2 * s));
        -q
    }
}

/// Squared planar distance from the observer to a cell's world position.
pub fn cell_dist_sq(cfg: StreamConfig, c: GridCell, px: i32, pz: i32) -> (r: u128)
    requires
        cell_in_bounds(c),
    ensures
        r == dist_sq(cfg, c, px as int, pz as int),
{
    let s = cfg.tile_size;
    assert(-0x1_0000_0000_0000 <= c.x * s <= 0x1_0000_0000_0000) by (nonlinear_arith)
        requires
            -0x1_0000_0000 <= c.x <= 0x1_0000_0000,
            0 <= s <= 0xffff,
    ;
    assert(-0x1_0000_0000_0000 <= c.z * s <= 0x1_0000_0000_0000) by (nonlinear_arith)
        requires
            -0x1_0000_0000 <= c.z <= 0x1_0000_0000,
            0 <= s <= 0xffff,
    ;
    let dx: i128 = (c.x as i128) * (s as i128) - (px as i128);
    let dz: i128 = (c.z as i128) * (s as i128) - (pz as i128);
    assert(0 <= dx * dx <= 0x4_0000_0000_0000_0000_0000_0000) by (nonlinear_arith)
        requires
            -0x2_0000_0000_0000 <= dx <= 0x2_0000_0000_0000,
    ;
    assert(0 <= dz * dz <= 0x4_0000_0000_0000_0000_0000_0000) by (nonlinear_arith)
        requires
            -0x2_0000_0000_0000 <= dz <= 0x2_0000_0000_0000,
    ;
    (dx * dx + dz * dz) as u128
}

/// The squared streaming reach `(R * S)^2`.
pub fn reach_sq_of(cfg: StreamConfig) -> (r: u128)
    ensures
        r == reach_sq(cfg),
{
    let r = cfg.radius;
    let s = cfg.tile_size;
    assert(0 <= r * s <= 0xffff * 0xffff) by (nonlinear_arith)
        requires
            0 <= r <= 0xffff,
            0 <= s <= 0xffff,
    ;
    let rs: u64 = (r as u64) * (s as u64);
    assert(rs * rs <= 0x1_0000_0000_0000_0000) by (nonlinear_arith)
        requires
            rs <= 0x1_0000_0000,
            rs >= 0,
    ;
    (rs as u128) * (rs as u128)
}

/// Row-major comparison of two cells.
pub fn cell_before(a: GridCell, b: GridCell) -> (r: bool)
    ensures
        r == cell_lt(a, b),
{
    a.z < b.z || (a.z == b.z && a.x < b.x)
}


proof fn lemma_contains_push(s: Seq<GridCell>, x: GridCell, c: GridCell)
    ensures
        s.push(x).contains(c) <==> (s.contains(c) || x == c),
{
    let s2 = s.push(x);
    if s2.contains(c) {
        let i = choose|i: int| 0 <= i < s2.len() && s2[i] == c;
        if i < s.len() {
            assert(s[i] == s2[i]);
        }
    }
    if s.contains(c) {
        let i = choose|i: int| 0 <= i < s.len() && s[i] == c;
        assert(s2[i] == s[i]);
    }
    if x == c {
        assert(s2[s.len() as int] == x);
    }
}

/// The eviction pass: drops the tiles out of reach, re-resolves the level of
/// detail of the others, and lists the cells dropped.
fn evict_far(cfg: StreamConfig, tiles: &Vec<Tile>, px: i32, pz: i32) -> (r: (Vec<Tile>, Vec<GridCell>))
    requires
        sorted_cells(tiles@),
        forall|i: int| 0 <= i < tiles@.len() ==> cell_in_bounds(#[trigger] tiles@[i].cell),
    ensures
        sorted_cells(r.0@),
        forall|i: int| 0 <= i < r.0@.len() ==> tile_fits(cfg, #[trigger] r.0@[i], px as int, pz as int),
        forall|c: GridCell|
            has_cell(r.0@, c) <==> (has_cell(tiles@, c) && in_reach(cfg, c, px as int, pz as int)),
        forall|c: GridCell|
            r.1@.contains(c) <==> (has_cell(tiles@, c) && !in_reach(cfg, c, px as int, pz as int)),
{
    let reach = reach_sq_of(cfg);
    let mut kept: Vec<Tile> = Vec::new();
    let mut evicted: Vec<GridCell> = Vec::new();
    let n = tiles.len();
    let mut i: usize = 0;
    while i < n
        invariant
            n == tiles@.len(),
            i <= n,
            reach == reach_sq(cfg),
            sorted_cells(tiles@),
            forall|k: int| 0 <= k < tiles@.len() ==> cell_in_bounds(#[trigger] tiles@[k].cell),
            sorted_cells(kept@),
            forall|a: int, b: int|
                0 <= a < kept@.len() && i <= b < n ==> cell_lt(kept@[a].cell, tiles@[b].cell),
            forall|a: int| 0 <= a < kept@.len() ==> tile_fits(cfg, #[trigger] kept@[a], px as int, pz as int),
            forall|c: GridCell|
                has_cell(kept@, c) <==> (has_cell(tiles@.subrange(0, i as int), c) && in_reach(
                    cfg,
                    c,
                    px as int,
                    pz as int,
                )),
            forall|c: GridCell|
                evicted@.contains(c) <==> (has_cell(tiles@.subrange(0, i as int), c) && !in_reach(
                    cfg,
                    c,
                    px as int,
                    pz as int,
                )),
        decreases n - i,
    {
        let t = tiles[i];
        let d = cell_dist_sq(cfg, t.cell, px, pz);
        let ghost old_kept = kept@;
        let ghost old_evicted = evicted@;
        if d > reach {
            evicted.push(t.cell);
            proof {
                assert forall|c: GridCell| has_cell(kept@, c) <==> (has_cell(tiles@.subrange(0, i + 1), c) && in_reach(cfg, c, px as int, pz as int)) by {
                    lemma_has_cell_prefix(tiles@, i as int, c);
                }
                assert forall|c: GridCell| evicted@.contains(c) <==> (has_cell(tiles@.subrange(0, i + 1), c) && !in_reach(cfg, c, px as int, pz as int)) by {
                    lemma_has_cell_prefix(tiles@, i as int, c);
                    lemma_contains_push(old_evicted, t.cell, c);
                }
            }
        } else {
            let lod = lod_bracket(d);
            kept.push(Tile { cell: t.cell, lod });
            proof {
                let nt = Tile { cell: t.cell, lod };
                assert forall|c: GridCell| has_cell(kept@, c) <==> (has_cell(tiles@.subrange(0, i + 1), c) && in_reach(cfg, c, px as int, pz as int)) by {
                    lemma_has_cell_prefix(tiles@, i as int, c);
                    lemma_has_cell_push(old_kept, nt, c);
                }
                assert forall|c: GridCell| evicted@.contains(c) <==> (has_cell(tiles@.subrange(0, i + 1), c) && !in_reach(cfg, c, px as int, pz as int)) by {
                    lemma_has_cell_prefix(tiles@, i as int, c);
                }
            }
        }
        i = i + 1;
    }
    assert(tiles@.subrange(0, n as int) =~= tiles@);
    (kept, evicted)
}

/// The spawn candidates: one tile for each footprint cell, in row-major order,
/// each with the level of detail for its distance.
fn footprint_tiles(cfg: StreamConfig, px: i32, pz: i32) -> (r: Vec<Tile>)
    requires
        cfg.tile_size >= 1,
    ensures
        sorted_cells(r@),
        forall|i: int| 0 <= i < r@.len() ==> tile_fits(cfg, #[trigger] r@[i], px as int, pz as int),
        forall|c: GridCell| has_cell(r@, c) <==> in_footprint(cfg, c, px as int, pz as int),
{
    let sx = snap_cell(px, cfg.tile_size);
    let sz = snap_cell(pz, cfg.tile_size);
    let rr: i64 = cfg.radius as i64;
    let mut out: Vec<Tile> = Vec::new();
    let mut oz: i64 = -rr;
    while oz < rr
        invariant
            cfg.tile_size >= 1,
            rr == cfg.radius,
            sx == snap(px as int, cfg.tile_size as int),
            sz == snap(pz as int, cfg.tile_size as int),
            -0x8000_0001 <= sx <= 0x8000_0001,
            -0x8000_0001 <= sz <= 0x8000_0001,
            -rr <= oz <= rr,
            sorted_cells(out@),
            forall|a: int| 0 <= a < out@.len() ==> tile_fits(cfg, #[trigger] out@[a], px as int, pz as int),
            forall|a: int| 0 <= a < out@.len() ==> (#[trigger] out@[a]).cell.z - sz < oz,
            forall|c: GridCell|
                has_cell(out@, c) <==> (in_footprint(cfg, c, px as int, pz as int) && c.z - sz < oz),
        decreases rr - oz,
    {
        let mut ox: i64 = -rr;
        while ox < rr
            invariant
                cfg.tile_size >= 1,
                rr == cfg.radius,
                sx == snap(px as int, cfg.tile_size as int),
                sz == snap(pz as int, cfg.tile_size as int),
                -0x8000_0001 <= sx <= 0x8000_0001,
                -0x8000_0001 <= sz <= 0x8000_0001,
                -rr <= oz < rr,
                -rr <= ox <= rr,
                sorted_cells(out@),
                forall|a: int| 0 <= a < out@.len() ==> tile_fits(cfg, #[trigger] out@[a], px as int, pz as int),
                forall|a: int|
                    0 <= a < out@.len() ==> (#[trigger] out@[a]).cell.z - sz < oz || (out@[a].cell.z - sz
                        == oz && out@[a].cell.x - sx < ox),
                forall|c: GridCell|
                    has_cell(out@, c) <==> (in_footprint(cfg, c, px as int, pz as int) && (c.z - sz < oz
                        || (c.z - sz == oz && c.x - sx < ox))),
            decreases rr - ox,
        {
            assert(0 <= ox * ox <= 0x1_0000_0000 && 0 <= oz * oz <= 0x1_0000_0000
                && rr * rr <= 0x1_0000_0000) by (nonlinear_arith)
                requires
                    -rr <= ox <= rr,
                    -rr <= oz <= rr,
                    0 <= rr <= 0xffff,
            ;
            let ghost old_out = out@;
            if ox * ox + oz * oz <= rr * rr {
                let cell = GridCell { x: sx + ox, z: sz + oz };
                let d = cell_dist_sq(cfg, cell, px, pz);
                let lod = lod_bracket(d);
                let t = Tile { cell, lod };
                out.push(t);
                proof {
                    assert forall|c: GridCell|
                        has_cell(out@, c) <==> (in_footprint(cfg, c, px as int, pz as int) && (c.z - sz < oz
                            || (c.z - sz == oz && c.x - sx < ox + 1))) by {
                        lemma_has_cell_push(old_out, t, c);
                    }
                    assert forall|a: int, b: int|
                        0 <= a < b < out@.len() implies cell_lt(out@[a].cell, out@[b].cell) by {
                        if b == out@.len() - 1 {
                            assert(old_out[a] == out@[a]);
                        } else {
                            assert(old_out[a] == out@[a] && old_out[b] == out@[b]);
                        }
                    }
                }
            } else {
                proof {
                    assert forall|c: GridCell|
                        has_cell(out@, c) <==> (in_footprint(cfg, c, px as int, pz as int) && (c.z - sz < oz
                            || (c.z - sz == oz && c.x - sx < ox + 1))) by {
                        if c.z - sz == oz && c.x - sx == ox {
                            assert(!in_footprint(cfg, c, px as int, pz as int));
                        }
                    }
                }
            }
            ox = ox + 1;
        }
        oz = oz + 1;
    }
    out
}

/// Merges the surviving tiles with the spawn candidates, both in row-major
/// order; a candidate whose cell already holds a surviving tile is skipped.
/// Returns the merged tiles and the candidates that were new.
fn merge_tiles(cfg: StreamConfig, kept: &Vec<Tile>, cand: &Vec<Tile>, px: i32, pz: i32) -> (r: (
    Vec<Tile>,
    Vec<Tile>,
))
    requires
        sorted_cells(kept@),
        sorted_cells(cand@),
        forall|i: int| 0 <= i < kept@.len() ==> tile_fits(cfg, #[trigger] kept@[i], px as int, pz as int),
        forall|i: int| 0 <= i < cand@.len() ==> tile_fits(cfg, #[trigger] cand@[i], px as int, pz as int),
    ensures
        sorted_cells(r.0@),
        forall|i: int| 0 <= i < r.0@.len() ==> tile_fits(cfg, #[trigger] r.0@[i], px as int, pz as int),
        forall|c: GridCell| has_cell(r.0@, c) <==> (has_cell(kept@, c) || has_cell(cand@, c)),
        forall|c: GridCell| has_cell(r.1@, c) <==> (has_cell(cand@, c) && !has_cell(kept@, c)),
        forall|i: int| 0 <= i < r.1@.len() ==> tile_fits(cfg, #[trigger] r.1@[i], px as int, pz as int),
{
    let kn = kept.len();
    let cn = cand.len();
    let mut out: Vec<Tile> = Vec::new();
    let mut fresh: Vec<Tile> = Vec::new();
    let mut i: usize = 0;
    let mut j: usize = 0;
    while i < kn || j < cn
        invariant
            kn == kept@.len(),
            cn == cand@.len(),
            i <= kn,
            j <= cn,
            sorted_cells(kept@),
            sorted_cells(cand@),
            forall|k: int| 0 <= k < kept@.len() ==> tile_fits(cfg, #[trigger] kept@[k], px as int, pz as int),
            forall|k: int| 0 <= k < cand@.len() ==> tile_fits(cfg, #[trigger] cand@[k], px as int, pz as int),
            sorted_cells(out@),
            forall|a: int| 0 <= a < out@.len() ==> tile_fits(cfg, #[trigger] out@[a], px as int, pz as int),
            forall|a: int| 0 <= a < fresh@.len() ==> tile_fits(cfg, #[trigger] fresh@[a], px as int, pz as int),
            forall|a: int|
                0 <= a < out@.len() ==> (i < kn ==> cell_lt((#[trigger] out@[a]).cell, kept@[i as int].cell))
                    && (j < cn ==> cell_lt(out@[a].cell, cand@[j as int].cell)),
            forall|a: int| 0 <= a < i && j < cn ==> cell_lt((#[trigger] kept@[a]).cell, cand@[j as int].cell),
            forall|b: int| 0 <= b < j && i < kn ==> cell_lt((#[trigger] cand@[b]).cell, kept@[i as int].cell),
            forall|c: GridCell|
                has_cell(out@, c) <==> (has_cell(kept@.subrange(0, i as int), c) || has_cell(
                    cand@.subrange(0, j as int),
                    c,
                )),
            forall|c: GridCell|
                has_cell(fresh@, c) <==> (has_cell(cand@.subrange(0, j as int), c) && !has_cell(kept@, c)),
        decreases kn - i + cn - j,
    {
        let ghost old_out = out@;
        let ghost old_fresh = fresh@;
        if j >= cn || (i < kn && cell_before(kept[i].cell, cand[j].cell)) {
            let t = kept[i];
            out.push(t);
            proof {
                if i + 1 < kn {
                    assert(cell_lt(kept@[i as int].cell, kept@[i + 1].cell));
                }
                assert forall|c: GridCell|
                    has_cell(out@, c) <==> (has_cell(kept@.subrange(0, i + 1), c) || has_cell(
                        cand@.subrange(0, j as int),
                        c,
                    )) by {
                    lemma_has_cell_push(old_out, t, c);
                    lemma_has_cell_prefix(kept@, i as int, c);
                }
                assert forall|a: int, b: int|
                    0 <= a < b < out@.len() implies cell_lt(out@[a].cell, out@[b].cell) by {
                    assert(old_out[a] == out@[a]);
                    if b < old_out.len() {
                        assert(old_out[b] == out@[b]);
                    }
                }
                assert forall|a: int| 0 <= a < out@.len() implies tile_fits(cfg, #[trigger] out@[a], px as int, pz as int) by {
                    if a < old_out.len() {
                        assert(old_out[a] == out@[a]);
                    }
                }
            }
            i = i + 1;
        } else if i >= kn || cell_before(cand[j].cell, kept[i].cell) {
            let t = cand[j];
            out.push(t);
            fresh.push(t);
            proof {
                if j + 1 < cn {
                    assert(cell_lt(cand@[j as int].cell, cand@[j + 1].cell));
                }
                assert(!has_cell(kept@, t.cell)) by {
                    if has_cell(kept@, t.cell) {
                        let k = choose|k: int| 0 <= k < kept@.len() && (#[trigger] kept@[k]).cell == t.cell;
                        if k < i {
                        } else {
                            assert(k == i || cell_lt(kept@[i as int].cell, kept@[k].cell));
                        }
                    }
                }
                assert forall|c: GridCell|
                    has_cell(out@, c) <==> (has_cell(kept@.subrange(0, i as int), c) || has_cell(
                        cand@.subrange(0, j + 1),
                        c,
                    )) by {
                    lemma_has_cell_push(old_out, t, c);
                    lemma_has_cell_prefix(cand@, j as int, c);
                }
                assert forall|a: int| 0 <= a < fresh@.len() implies tile_fits(cfg, #[trigger] fresh@[a], px as int, pz as int) by {
                    if a < old_fresh.len() {
                        assert(old_fresh[a] == fresh@[a]);
                    }
                }
                assert forall|c: GridCell|
                    has_cell(fresh@, c) <==> (has_cell(cand@.subrange(0, j + 1), c) && !has_cell(kept@, c)) by {
                    lemma_has_cell_push(old_fresh, t, c);
                    lemma_has_cell_prefix(cand@, j as int, c);
                }
                assert forall|a: int, b: int|
                    0 <= a < b < out@.len() implies cell_lt(out@[a].cell, out@[b].cell) by {
                    assert(old_out[a] == out@[a]);
                    if b < old_out.len() {
                        assert(old_out[b] == out@[b]);
                    }
                }
                assert forall|a: int| 0 <= a < out@.len() implies tile_fits(cfg, #[trigger] out@[a], px as int, pz as int) by {
                    if a < old_out.len() {
                        assert(old_out[a] == out@[a]);
                    }
                }
            }
            j = j + 1;
        } else {
            let t = kept[i];
            out.push(t);
            proof {
                if i + 1 < kn {
                    assert(cell_lt(kept@[i as int].cell, kept@[i + 1].cell));
                }
                if j + 1 < cn {
                    assert(cell_lt(cand@[j as int].cell, cand@[j + 1].cell));
                }
                assert(t.cell == cand@[j as int].cell);
                assert forall|c: GridCell|
                    has_cell(out@, c) <==> (has_cell(kept@.subrange(0, i + 1), c) || has_cell(
                        cand@.subrange(0, j + 1),
                        c,
                    )) by {
                    lemma_has_cell_push(old_out, t, c);
                    lemma_has_cell_prefix(kept@, i as int, c);
                    lemma_has_cell_prefix(cand@, j as int, c);
                }
                assert(has_cell(kept@, t.cell)) by {
                    assert(kept@[i as int] == t);
                }
                assert forall|c: GridCell|
                    has_cell(fresh@, c) <==> (has_cell(cand@.subrange(0, j + 1), c) && !has_cell(kept@, c)) by {
                    lemma_has_cell_prefix(cand@, j as int, c);
                }
                assert forall|a: int, b: int|
                    0 <= a < b < out@.len() implies cell_lt(out@[a].cell, out@[b].cell) by {
                    assert(old_out[a] == out@[a]);
                    if b < old_out.len() {
                        assert(old_out[b] == out@[b]);
                    }
                }
                assert forall|a: int| 0 <= a < out@.len() implies tile_fits(cfg, #[trigger] out@[a], px as int, pz as int) by {
                    if a < old_out.len() {
                        assert(old_out[a] == out@[a]);
                    }
                }
            }
            i = i + 1;
            j = j + 1;
        }
    }
    assert(kept@.subrange(0, kn as int) =~= kept@);
    assert(cand@.subrange(0, cn as int) =~= cand@);
    (out, fresh)
}

/// What one streaming pass changed: the cells whose tiles were destroyed and
/// the tiles that were created.
pub struct StreamChanges {
    pub evicted: Vec<GridCell>,
    pub spawned: Vec<Tile>,
}

/// The set of active terrain tiles, at most one per grid cell.
pub struct ChunkField {
    config: StreamConfig,
    tiles: Vec<Tile>,
}

impl ChunkField {
    pub closed spec fn spec_config(&self) -> StreamConfig {
        self.config
    }

    /// The tiles in row-major order of their cells.
    pub closed spec fn tile_seq(&self) -> Seq<Tile> {
        self.tiles@
    }

    /// The cells that hold a tile.
    pub open spec fn cells(&self) -> Set<GridCell> {
        cells_of(self.tile_seq())
    }

    pub closed spec fn wf(&self) -> bool {
        &&& self.config.tile_size >= 1
        &&& sorted_cells(self.tiles@)
        &&& forall|i: int|
            0 <= i < self.tiles@.len() ==> cell_in_bounds(#[trigger] self.tiles@[i].cell)
                && self.tiles@[i].lod < LOD_COUNT
    }

    /// An empty field; the tile size must be at least one world unit.
    pub fn new(config: StreamConfig) -> (r: ChunkField)
        requires
            config.tile_size >= 1,
        ensures
            r.wf(),
            r.spec_config() == config,
            r.tile_seq().len() == 0,
            r.cells() == Set::<GridCell>::empty(),
    {
        let r = ChunkField { config, tiles: Vec::new() };
        assert(r.cells() =~= Set::<GridCell>::empty());
        r
    }

    pub fn config(&self) -> (r: StreamConfig)
        ensures
            r == self.spec_config(),
    {
        self.config
    }

    pub fn tiles(&self) -> (r: &Vec<Tile>)
        ensures
            r@ == self.tile_seq(),
    {
        &self.tiles
    }

    /// One streaming pass for an observer at `(px, pz)`: destroys the tiles
    /// out of reach, gives the others the level of detail for their distance,
    /// then creates a tile on every footprint cell that has none.
    pub fn update(&mut self, px: i32, pz: i32) -> (ch: StreamChanges)
        requires
            old(self).wf(),
        ensures
            final(self).wf(),
            final(self).spec_config() == old(self).spec_config(),
            final(self).cells() == streamed_cells(
                old(self).spec_config(),
                old(self).cells(),
                px as int,
                pz as int,
            ),
            forall|i: int|
                0 <= i < final(self).tile_seq().len() ==> (#[trigger] final(self).tile_seq()[i]).lod
                    == bracket_of(
                    dist_sq(old(self).spec_config(), final(self).tile_seq()[i].cell, px as int, pz as int),
                ),
            cells_of(ch.spawned@) == spawned_cells(
                old(self).spec_config(),
                old(self).cells(),
                px as int,
                pz as int,
            ),
            forall|i: int|
                0 <= i < ch.spawned@.len() ==> (#[trigger] ch.spawned@[i]).lod == bracket_of(
                    dist_sq(old(self).spec_config(), ch.spawned@[i].cell, px as int, pz as int),
                ),
            ch.evicted@.to_set() == evicted_cells(
                old(self).spec_config(),
                old(self).cells(),
                px as int,
                pz as int,
            ),
    {
        let cfg = self.config;
        let ghost before = self.cells();
        let ghost old_tiles = self.tiles@;
        let (kept, evicted) = evict_far(cfg, &self.tiles, px, pz);
        let cand = footprint_tiles(cfg, px, pz);
        let (merged, spawned) = merge_tiles(cfg, &kept, &cand, px, pz);
        self.tiles = merged;
        proof {
            let (fx, fz) = (px as int, pz as int);
            assert forall|c: GridCell|
                self.cells().contains(c) <==> streamed_cells(cfg, before, fx, fz).contains(c) by {
                assert(before.contains(c) <==> has_cell(old_tiles, c));
                assert(self.cells().contains(c) <==> has_cell(merged@, c));
                assert(footprint(cfg, fx, fz).contains(c) <==> in_footprint(cfg, c, fx, fz));
            }
            assert(self.cells() =~= streamed_cells(cfg, before, fx, fz));
            assert forall|c: GridCell|
                cells_of(spawned@).contains(c) <==> spawned_cells(cfg, before, fx, fz).contains(c) by {
                assert(before.contains(c) <==> has_cell(old_tiles, c));
                assert(footprint(cfg, fx, fz).contains(c) <==> in_footprint(cfg, c, fx, fz));
            }
            assert(cells_of(spawned@) =~= spawned_cells(cfg, before, fx, fz));
            assert forall|c: GridCell|
                evicted@.to_set().contains(c) <==> evicted_cells(cfg, before, fx, fz).contains(c) by {
                assert(evicted@.to_set().contains(c) <==> evicted@.contains(c));
                assert(before.contains(c) <==> has_cell(old_tiles, c));
            }
            assert(evicted@.to_set() =~= evicted_cells(cfg, before, fx, fz));
        }
        StreamChanges { evicted, spawned }
    }
}

/// No two tiles of a well-formed field share a cell.
pub proof fn lemma_tiles_unique(f: &ChunkField)
    requires
        f.wf(),
    ensures
        forall|i: int, j: int|
            0 <= i < f.tile_seq().len() && 0 <= j < f.tile_seq().len() && i != j ==> f.tile_seq()[i].cell
                != f.tile_seq()[j].cell,
{
    reveal(ChunkField::wf);
    assert forall|i: int, j: int|
        0 <= i < f.tile_seq().len() && 0 <= j < f.tile_seq().len() && i != j implies f.tile_seq()[i].cell
            != f.tile_seq()[j].cell by {
        if i < j {
            assert(cell_lt(f.tiles@[i].cell, f.tiles@[j].cell));
        } else {
            assert(cell_lt(f.tiles@[j].cell, f.tiles@[i].cell));
        }
    }
}

/// Every footprint cell lies within reach of the observer.
pub open spec fn footprint_in_reach(cfg: StreamConfig, px: int, pz: int) -> bool {
    forall|c: GridCell| #[trigger] in_footprint(cfg, c, px, pz) ==> in_reach(cfg, c, px, pz)
}

/// Once the surviving tiles all lie in the footprint (in particular, from an
/// empty field), a pass leaves exactly the footprint cells, and a further
/// pass from the same place leaves them again.
pub proof fn lemma_settled_pass_fills_footprint(
    cfg: StreamConfig,
    before: Set<GridCell>,
    px: int,
    pz: int,
)
    requires
        kept_cells(cfg, before, px, pz).subset_of(footprint(cfg, px, pz)),
    ensures
        streamed_cells(cfg, before, px, pz) == footprint(cfg, px, pz),
        streamed_cells(cfg, streamed_cells(cfg, before, px, pz), px, pz) == footprint(cfg, px, pz),
{
    let fp = footprint(cfg, px, pz);
    assert(streamed_cells(cfg, before, px, pz) =~= fp);
    assert(kept_cells(cfg, fp, px, pz).subset_of(fp));
    assert(streamed_cells(cfg, fp, px, pz) =~= fp);
}

/// For an observer whose footprint lies within reach, a second pass from the
/// same place creates no tile, destroys none, and leaves the cells unchanged.
pub proof fn lemma_stationary_pass_is_stable(
    cfg: StreamConfig,
    before: Set<GridCell>,
    px: int,
    pz: int,
)
    requires
        footprint_in_reach(cfg, px, pz),
    ensures
        evicted_cells(cfg, streamed_cells(cfg, before, px, pz), px, pz) == Set::<GridCell>::empty(),
        spawned_cells(cfg, streamed_cells(cfg, before, px, pz), px, pz) == Set::<GridCell>::empty(),
        streamed_cells(cfg, streamed_cells(cfg, before, px, pz), px, pz) == streamed_cells(
            cfg,
            before,
            px,
            pz,
        ),
{
    let after = streamed_cells(cfg, before, px, pz);
    assert(evicted_cells(cfg, after, px, pz) =~= Set::<GridCell>::empty());
    assert(spawned_cells(cfg, after, px, pz) =~= Set::<GridCell>::empty());
    assert(streamed_cells(cfg, after, px, pz) =~= after);
}

/// An observer standing exactly on a grid point has its whole footprint
/// within reach.
pub proof fn lemma_grid_point_footprint_in_reach(cfg: StreamConfig, kx: int, kz: int)
    requires
        cfg.tile_size >= 1,
    ensures
        footprint_in_reach(cfg, kx * cfg.tile_size, kz * cfg.tile_size),
{
    let s = cfg.tile_size as int;
    lemma_snap_grid_point(kx, s);
    lemma_snap_grid_point(kz, s);
    let r = cfg.radius as int;
    assert forall|c: GridCell| #[trigger]
        in_footprint(cfg, c, kx * s, kz * s) implies in_reach(cfg, c, kx * s, kz * s) by {
        let ox = c.x - kx;
        let oz = c.z - kz;
        assert(c.x * s - kx * s == ox * s) by (nonlinear_arith)
            requires
                ox == c.x - kx,
        ;
        assert(c.z * s - kz * s == oz * s) by (nonlinear_arith)
            requires
                oz == c.z - kz,
        ;
        assert((ox * s) * (ox * s) + (oz * s) * (oz * s) <= (r * s) * (r * s)) by (nonlinear_arith)
            requires
                ox * ox + oz * oz <= r * r,
        ;
    }
}

proof fn lemma_snap_grid_point(k: int, s: int)
    requires
        s >= 1,
    ensures
        snap(k * s, s) == k,
{
    if k >= 0 {
        assert(2 * (k * s) + s == k * (2 * s) + s) by (nonlinear_arith);
        assert(k * s >= 0) by (nonlinear_arith)
            requires
                k >= 0,
                s >= 1,
        ;
        lemma_fundamental_div_mod_converse(2 * (k * s) + s, 2 * s, k, s);
    } else {
        assert(-2 * (k * s) + s == (-k) * (2 * s) + s) by (nonlinear_arith);
        assert(k * s < 0) by (nonlinear_arith)
            requires
                k < 0,
                s >= 1,
        ;
        lemma_fundamental_div_mod_converse(-2 * (k * s) + s, 2 * s, -k, s);
    }
}

} // verus!
