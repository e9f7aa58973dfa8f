use lod_terrain::lod::{lod_bracket, lod_subdivisions, LodMeshes, BASE_SUBDIVISIONS, LOD_COUNT};

#[test]
fn brackets_at_literal_boundaries() {
    assert_eq!(lod_bracket(0), 0);
    assert_eq!(lod_bracket(39_999), 0);
    assert_eq!(lod_bracket(40_000), 1);
    assert_eq!(lod_bracket(159_999), 1);
    assert_eq!(lod_bracket(160_000), 2);
    assert_eq!(lod_bracket(639_999), 2);
    assert_eq!(lod_bracket(640_000), 3);
    assert_eq!(lod_bracket(2_559_999), 3);
    assert_eq!(lod_bracket(2_560_000), 4);
    assert_eq!(lod_bracket(10_239_999), 4);
    assert_eq!(lod_bracket(10_240_000), 5);
    assert_eq!(lod_bracket(u128::MAX), 5);
}

#[test]
fn brackets_never_decrease_with_distance() {
    let mut prev = 0;
    for d in (0u128..12_000_000).step_by(997) {
        let b = lod_bracket(d);
        assert!(b < LOD_COUNT);
        assert!(b >= prev);
        prev = b;
    }
}

#[test]
fn subdivisions_halve_from_base() {
    assert_eq!(lod_subdivisions(BASE_SUBDIVISIONS), vec![1024, 512, 256, 128, 64, 32]);
    assert_eq!(lod_subdivisions(5), vec![5, 2, 1, 0, 0, 0]);
}

#[test]
fn mesh_cache_takes_exactly_six_handles() {
    assert!(LodMeshes::from_handles(vec!["a", "b", "c", "d", "e"]).is_none());
    assert!(LodMeshes::from_handles(vec![1, 2, 3, 4, 5, 6, 7]).is_none());
    let c = LodMeshes::from_handles(vec!["l0", "l1", "l2", "l3", "l4", "l5"]).unwrap();
    assert_eq!(*c.get(0), "l0");
    assert_eq!(*c.get(40_000), "l1");
    assert_eq!(*c.get(200_000), "l2");
    assert_eq!(*c.get(1_000_000), "l3");
    assert_eq!(*c.get(3_000_000), "l4");
    assert_eq!(*c.get(99_999_999), "l5");
    assert_eq!(*c.level(3), "l3");
}
