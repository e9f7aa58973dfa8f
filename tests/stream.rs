use lod_terrain::stream::{cell_dist_sq, reach_sq_of, snap_cell, ChunkField, GridCell, StreamConfig};

fn cfg(tile_size: u16, radius: u16) -> StreamConfig {
    StreamConfig { tile_size, radius }
}

fn cells(f: &ChunkField) -> Vec<(i64, i64)> {
    f.tiles().iter().map(|t| (t.cell.x, t.cell.z)).collect()
}

#[test]
fn snapping_rounds_half_away_from_zero() {
    assert_eq!(snap_cell(0, 200), 0);
    assert_eq!(snap_cell(99, 200), 0);
    assert_eq!(snap_cell(100, 200), 1);
    assert_eq!(snap_cell(299, 200), 1);
    assert_eq!(snap_cell(300, 200), 2);
    assert_eq!(snap_cell(-99, 200), 0);
    assert_eq!(snap_cell(-100, 200), -1);
    assert_eq!(snap_cell(-301, 200), -2);
    assert_eq!(snap_cell(i32::MAX, 1), i32::MAX as i64);
    assert_eq!(snap_cell(i32::MIN, 1), i32::MIN as i64);
}

#[test]
fn distances_and_reach() {
    let c = cfg(200, 32);
    assert_eq!(cell_dist_sq(c, GridCell { x: 1, z: 0 }, 0, 0), 40_000);
    assert_eq!(cell_dist_sq(c, GridCell { x: 1, z: 1 }, 50, -50), 150 * 150 + 250 * 250);
    assert_eq!(reach_sq_of(c), 6400 * 6400);
    assert_eq!(reach_sq_of(cfg(u16::MAX, u16::MAX)), (65535u128 * 65535) * (65535 * 65535));
}

#[test]
fn origin_tile_200_radius_2_spawns_circular_footprint() {
    let mut f = ChunkField::new(cfg(200, 2));
    let ch = f.update(0, 0);
    // Offsets in [-2, 2) x [-2, 2) with squared length at most 4.
    let expected = vec![
        (0, -2),
        (-1, -1),
        (0, -1),
        (1, -1),
        (-2, 0),
        (-1, 0),
        (0, 0),
        (1, 0),
        (-1, 1),
        (0, 1),
        (1, 1),
    ];
    assert_eq!(cells(&f), expected);
    assert_eq!(ch.spawned.len(), 11);
    assert!(ch.evicted.is_empty());
    for t in f.tiles() {
        let (wx, wz) = t.cell.world_position(200);
        assert_eq!(wx % 200, 0);
        assert_eq!(wz % 200, 0);
        assert_eq!(wx, t.cell.x * 200);
        assert_eq!(wz, t.cell.z * 200);
    }
    let lod_of = |x: i64, z: i64| f.tiles().iter().find(|t| t.cell == GridCell { x, z }).unwrap().lod;
    assert_eq!(lod_of(0, 0), 0);
    assert_eq!(lod_of(1, 0), 1);
    assert_eq!(lod_of(1, 1), 1);
    assert_eq!(lod_of(0, -2), 2);
}

#[test]
fn settled_set_is_exactly_the_footprint_without_duplicates() {
    let c = cfg(200, 32);
    let mut f = ChunkField::new(c);
    f.update(1234, -5678);
    f.update(1234, -5678);
    let sx = snap_cell(1234, 200);
    let sz = snap_cell(-5678, 200);
    let mut expected = Vec::new();
    for oz in -32i64..32 {
        for ox in -32i64..32 {
            if ox * ox + oz * oz <= 32 * 32 {
                expected.push((sx + ox, sz + oz));
            }
        }
    }
    let got = cells(&f);
    assert_eq!(got, expected);
    let mut dedup = got.clone();
    dedup.dedup();
    assert_eq!(dedup.len(), got.len());
}

#[test]
fn stationary_passes_create_and_destroy_nothing() {
    let mut f = ChunkField::new(cfg(200, 4));
    let first = f.update(400, 800);
    assert!(!first.spawned.is_empty());
    let before = cells(&f);
    for _ in 0..3 {
        let ch = f.update(400, 800);
        assert!(ch.spawned.is_empty());
        assert!(ch.evicted.is_empty());
        assert_eq!(cells(&f), before);
    }
}

#[test]
fn moving_far_evicts_every_old_tile() {
    let mut f = ChunkField::new(cfg(200, 2));
    f.update(0, 0);
    let old = cells(&f);
    let ch = f.update(100_000, 0);
    let mut evicted: Vec<(i64, i64)> = ch.evicted.iter().map(|c| (c.x, c.z)).collect();
    evicted.sort_by_key(|&(x, z)| (z, x));
    assert_eq!(evicted, old);
    assert_eq!(ch.spawned.len(), 11);
    assert!(cells(&f).iter().all(|&(x, _)| x >= 498 && x <= 501));
}

#[test]
fn small_move_keeps_near_tiles_and_remeshes_them() {
    let mut f = ChunkField::new(cfg(200, 2));
    f.update(0, 0);
    let ch = f.update(200, 0);
    // The old (-2, 0) tile is now 600 away, beyond the reach of 400.
    let evicted: Vec<(i64, i64)> = ch.evicted.iter().map(|c| (c.x, c.z)).collect();
    assert!(evicted.contains(&(-2, 0)));
    assert!(!evicted.contains(&(-1, 0)));
    let spawned: Vec<(i64, i64)> = ch.spawned.iter().map(|t| (t.cell.x, t.cell.z)).collect();
    assert!(spawned.contains(&(2, 0)));
    assert!(!spawned.contains(&(1, 0)));
    let t = f.tiles().iter().find(|t| t.cell == GridCell { x: 1, z: 0 }).unwrap();
    assert_eq!(t.lod, 0);
    let t = f.tiles().iter().find(|t| t.cell == GridCell { x: -1, z: 0 }).unwrap();
    assert_eq!(t.lod, 2);
}

#[test]
fn zero_radius_spawns_nothing() {
    let mut f = ChunkField::new(cfg(200, 0));
    let ch = f.update(10, 10);
    assert!(f.tiles().is_empty());
    assert!(ch.spawned.is_empty());
    assert_eq!(f.config(), cfg(200, 0));
}
