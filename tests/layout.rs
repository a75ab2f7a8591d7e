use idgraph::{normalize, rank_scale, sorted_unique, GraphStore, IndexMapping, Point, SCORE_ONE};

fn store_with(count: usize, picks: &[(usize, usize)]) -> GraphStore {
    let mut store = GraphStore::new();
    let points: Vec<Point> = (0..count as i64).map(|k| Point::new(k, 2 * k, -3 * k)).collect();
    store.spawn_identifiers(&points);
    store.spawn_connections(&picks.to_vec(), picks.len());
    store
}

#[test]
fn mapping_sorts_and_dedups_endpoints() {
    let m = IndexMapping::from_edges(&vec![(7, 3), (3, 9), (7, 9)]);
    assert_eq!(m.ids, vec![3, 7, 9]);
    assert_eq!(m.edges, vec![(1, 0), (0, 2), (1, 2)]);
    assert_eq!(m.index_of(9), Some(2));
    assert_eq!(m.index_of(4), None);
    assert_eq!(m.len(), 3);
}

#[test]
fn mapping_of_no_edges_is_empty() {
    let m = IndexMapping::from_edges(&vec![]);
    assert!(m.ids.is_empty());
    assert!(m.edges.is_empty());
}

#[test]
fn sorted_unique_values() {
    assert_eq!(sorted_unique(&vec![5, 1, 5, 3, 1, 9, 0]), vec![0, 1, 3, 5, 9]);
    assert_eq!(sorted_unique(&vec![]), Vec::<u64>::new());
}

#[test]
fn store_mapping_covers_connected_identifiers() {
    let store = store_with(5, &[(3, 1), (1, 4)]);
    assert_eq!(store.connection_pairs(), vec![(3, 1), (1, 4)]);
    let m = store.index_mapping();
    assert_eq!(m.ids, vec![1, 3, 4]);
    assert_eq!(m.edges, vec![(1, 0), (0, 2)]);
}

#[test]
fn layout_of_its_own_seeds_changes_nothing() {
    let mut store = store_with(4, &[(0, 1), (1, 2)]);
    let before = store.identifiers().clone();
    let m = store.index_mapping();
    let seeds = store.layout_seeds(&m);
    assert_eq!(seeds, vec![Point::new(0, 0, 0), Point::new(1, 2, -3), Point::new(2, 4, -6)]);
    store.apply_layout(&m, &seeds);
    assert_eq!(store.identifiers(), &before);
}

#[test]
fn isolated_identifier_keeps_its_position() {
    let mut store = store_with(4, &[(0, 1), (1, 2)]);
    let m = store.index_mapping();
    let moved = vec![Point::new(100, 0, 0), Point::new(0, 100, 0), Point::new(0, 0, 100)];
    store.apply_layout(&m, &moved);
    let positions: Vec<Point> = store.identifiers().iter().map(|n| n.position).collect();
    assert_eq!(
        positions,
        vec![Point::new(100, 0, 0), Point::new(0, 100, 0), Point::new(0, 0, 100), Point::new(3, 6, -9)]
    );
    assert!(store.identifiers().iter().all(|n| n.scale == idgraph::SPAWN_SCALE));
}

#[test]
fn layout_without_a_result_skips_the_identifier() {
    let mut store = store_with(3, &[(0, 1), (1, 2)]);
    let m = store.index_mapping();
    store.apply_layout(&m, &vec![Point::new(9, 9, 9)]);
    let positions: Vec<Point> = store.identifiers().iter().map(|n| n.position).collect();
    assert_eq!(positions, vec![Point::new(9, 9, 9), Point::new(1, 2, -3), Point::new(2, 4, -6)]);
}

#[test]
fn normalisation_maps_extremes_to_one_and_zero() {
    assert_eq!(normalize(&vec![5, 10, 20]), vec![0, 333_333, SCORE_ONE]);
    assert_eq!(normalize(&vec![40, 7]), vec![SCORE_ONE, 0]);
}

#[test]
fn normalisation_keeps_equal_scores() {
    assert_eq!(normalize(&vec![250_000, 250_000]), vec![250_000, 250_000]);
    assert_eq!(normalize(&vec![]), Vec::<u64>::new());
}

#[test]
fn scale_from_score() {
    assert_eq!(rank_scale(0), 500);
    assert_eq!(rank_scale(SCORE_ONE), 3_500);
    assert_eq!(rank_scale(500_000), 2_000);
    assert_eq!(rank_scale(u64::MAX), 55_340_232_221_128_654 + 500);
}

#[test]
fn ranking_resizes_and_keeps_positions() {
    let mut store = store_with(4, &[(0, 1), (1, 2)]);
    let m = store.index_mapping();
    store.apply_ranking(&m, &vec![100, 400, 250]);
    let scales: Vec<u64> = store.identifiers().iter().map(|n| n.scale).collect();
    assert_eq!(scales, vec![500, 3_500, 2_000, idgraph::SPAWN_SCALE]);
    assert_eq!(store.identifiers()[1].position, Point::new(1, 2, -3));
}

#[test]
fn moving_identifiers_to_new_points() {
    let mut store = store_with(3, &[]);
    store.move_identifiers(&vec![Point::new(5, 5, 5), Point::new(6, 6, 6)]);
    let positions: Vec<Point> = store.identifiers().iter().map(|n| n.position).collect();
    assert_eq!(positions, vec![Point::new(5, 5, 5), Point::new(6, 6, 6), Point::new(2, 4, -6)]);
}

#[test]
fn connection_endpoints_follow_their_identifiers() {
    let mut store = store_with(3, &[(2, 0)]);
    assert_eq!(store.connection_endpoints(0), Some((Point::new(2, 4, -6), Point::new(0, 0, 0))));
    assert_eq!(store.connection_endpoints(1), None);
    store.move_identifiers(&vec![Point::new(1, 1, 1)]);
    assert_eq!(store.connection_endpoints(0), Some((Point::new(2, 4, -6), Point::new(1, 1, 1))));
}
