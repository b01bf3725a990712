use vivarium::config::{respawn_count, Config};
use vivarium::spatial::{Cell, SpatialIndex};

/// The grid cell of a point for a given cell size.
fn cell_of(p: (f32, f32, f32), size: f32) -> Cell {
    (
        (p.0 / size).floor() as i32,
        (p.1 / size).floor() as i32,
        (p.2 / size).floor() as i32,
    )
}

#[test]
fn config_insect_count_is_reasonable() {
    assert!(
        Config::INSECT_COUNT >= 50,
        "INSECT_COUNT should be at least 50, got {}",
        Config::INSECT_COUNT
    );
}

#[test]
fn config_bird_count_is_reasonable() {
    assert!(
        Config::BIRD_COUNT >= 5,
        "BIRD_COUNT should be at least 5, got {}",
        Config::BIRD_COUNT
    );
}

#[test]
fn config_respawn_threshold_less_than_initial_count() {
    assert!(
        Config::MIN_INSECT_COUNT < Config::INSECT_COUNT,
        "MIN_INSECT_COUNT ({}) should be less than INSECT_COUNT ({})",
        Config::MIN_INSECT_COUNT,
        Config::INSECT_COUNT
    );
}

#[test]
fn respawn_batch_only_below_minimum() {
    assert_eq!(respawn_count(Config::MIN_INSECT_COUNT), 0);
    assert_eq!(respawn_count(Config::INSECT_COUNT), 0);
    assert_eq!(respawn_count(Config::MIN_INSECT_COUNT - 1), Config::INSECT_RESPAWN_BATCH);
    assert_eq!(respawn_count(0), 10);
}

#[test]
fn spatial_index_insert_and_retrieve_nearby() {
    let mut index = SpatialIndex::new();
    let entity = 1u64;
    index.insert(entity, cell_of((5.0, 5.0, 5.0), 10.0));

    let nearby = index.get_nearby(cell_of((5.0, 5.0, 5.0), 10.0));
    assert!(
        nearby.contains(&entity),
        "Entity inserted at (5,5,5) should be found near (5,5,5)"
    );
}

#[test]
fn spatial_index_finds_entity_in_adjacent_cell() {
    let mut index = SpatialIndex::new();
    let entity = 1u64;
    // Insert at position just inside cell (0,0,0)
    index.insert(entity, cell_of((1.0, 1.0, 1.0), 10.0));

    // Query from adjacent cell (1,0,0) — position 15.0 is in cell 1
    let nearby = index.get_nearby(cell_of((15.0, 1.0, 1.0), 10.0));
    assert!(
        nearby.contains(&entity),
        "Entity in adjacent cell should be found via get_nearby"
    );
}

#[test]
fn spatial_index_does_not_find_distant_entity() {
    let mut index = SpatialIndex::new();
    let entity = 1u64;
    index.insert(entity, cell_of((0.0, 0.0, 0.0), 10.0));

    // Query from far away — cell (5,5,5) is not adjacent to (0,0,0)
    let nearby = index.get_nearby(cell_of((50.0, 50.0, 50.0), 10.0));
    assert!(
        !nearby.contains(&entity),
        "Entity at origin should NOT be found near (50,50,50)"
    );
}

#[test]
fn spatial_index_clear_removes_all_entities() {
    let mut index = SpatialIndex::new();
    index.insert(1, cell_of((5.0, 5.0, 5.0), 10.0));
    index.insert(2, cell_of((15.0, 15.0, 15.0), 10.0));

    index.clear();

    let nearby = index.get_nearby(cell_of((5.0, 5.0, 5.0), 10.0));
    assert!(nearby.is_empty(), "After clear, no entities should be found");
}

#[test]
fn spatial_index_handles_negative_positions() {
    let mut index = SpatialIndex::new();
    let entity = 1u64;
    index.insert(entity, cell_of((-5.0, -5.0, -5.0), 10.0));

    let nearby = index.get_nearby(cell_of((-5.0, -5.0, -5.0), 10.0));
    assert!(
        nearby.contains(&entity),
        "Entity at negative position should be retrievable"
    );
}

#[test]
fn spatial_index_multiple_entities_same_cell() {
    let mut index = SpatialIndex::new();
    let e1 = 1u64;
    let e2 = 2u64;
    index.insert(e1, cell_of((1.0, 1.0, 1.0), 10.0));
    index.insert(e2, cell_of((2.0, 2.0, 2.0), 10.0));

    let nearby = index.get_nearby(cell_of((1.0, 1.0, 1.0), 10.0));
    assert!(nearby.contains(&e1));
    assert!(nearby.contains(&e2));
}

#[test]
fn rebuild_spatial_index_populates_from_entities() {
    // an insect at (10,10,10) and a bird at (20,20,20), cell size 40
    let mut spatial = SpatialIndex::new();
    spatial.clear();
    spatial.insert(7, cell_of((10.0, 10.0, 10.0), 40.0));
    spatial.insert(8, cell_of((20.0, 20.0, 20.0), 40.0));

    let nearby_insect = spatial.get_nearby(cell_of((10.0, 10.0, 10.0), 40.0));
    let nearby_bird = spatial.get_nearby(cell_of((20.0, 20.0, 20.0), 40.0));
    assert!(
        !nearby_insect.is_empty(),
        "Spatial index should contain insect after rebuild"
    );
    assert!(
        !nearby_bird.is_empty(),
        "Spatial index should contain bird after rebuild"
    );
}

#[test]
fn spatial_nearby_lists_block_in_offset_order() {
    let mut index = SpatialIndex::new();
    index.insert(3, (1, 1, 1)); // offset (+1,+1,+1): last of the block
    index.insert(1, (-1, -1, -1)); // offset (-1,-1,-1): first of the block
    index.insert(2, (0, 0, 0)); // centre
    index.insert(4, (0, 0, 0)); // centre, after 2
    index.insert(9, (2, 0, 0)); // outside the block
    assert_eq!(index.get_nearby((0, 0, 0)), vec![1, 2, 4, 3]);
}

#[test]
fn spatial_nearby_at_edge_of_coordinate_range() {
    let mut index = SpatialIndex::new();
    index.insert(5, (i32::MAX, i32::MIN, 0));
    index.insert(6, (i32::MAX - 1, i32::MIN + 1, 1));
    assert_eq!(index.get_nearby((i32::MAX, i32::MIN, 0)), vec![6, 5]);
    assert!(index.get_nearby((i32::MIN, i32::MIN, 0)).is_empty());
}

#[test]
fn spatial_inserts_found_exactly_in_block() {
    let mut index = SpatialIndex::new();
    let inserts: Vec<(u64, Cell)> = vec![
        (1, (0, 0, 0)),
        (2, (1, -1, 1)),
        (3, (2, 0, 0)),
        (4, (-1, 0, 0)),
        (5, (0, 0, -2)),
        (6, (0, 1, 0)),
    ];
    for &(e, c) in &inserts {
        index.insert(e, c);
    }
    let mut found = index.get_nearby((0, 0, 0));
    found.sort();
    assert_eq!(found, vec![1, 2, 4, 6]);
    let mut found = index.get_nearby((2, 0, 0));
    found.sort();
    assert_eq!(found, vec![2, 3]);
}
