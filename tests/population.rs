use idgraph::{Configuration, GraphStore, Highlight, Point, SPAWN_SCALE};

fn ring_points(count: i64, radius: i64) -> Vec<Point> {
    (0..count)
        .map(|k| Point::new(radius * (k % 3 - 1) / 2, radius * (k % 2) / 3, -radius / (k + 2)))
        .collect()
}

#[test]
fn five_identifiers_and_four_connections() {
    let mut store = GraphStore::new();
    let points = ring_points(5, 10_000);
    assert!(points.iter().all(|p| p.within_radius(10_000)));
    store.spawn_identifiers(&points);
    store.add_connections(4);
    assert_eq!(store.identifier_count(), 5);
    assert!(store.identifiers().iter().all(|n| n.position.within_radius(10_000)));
    assert_eq!(store.connection_count(), 4);
    for c in store.connections() {
        assert_ne!(c.from, c.to);
        assert!(store.find_identifier(c.from).is_some());
        assert!(store.find_identifier(c.to).is_some());
    }
}

#[test]
fn spawned_identifiers_are_numbered_in_order() {
    let mut store = GraphStore::new();
    let points = vec![Point::new(1, 2, 3), Point::new(-4, 5, -6)];
    store.spawn_identifiers(&points);
    let ids: Vec<u64> = store.identifiers().iter().map(|n| n.id).collect();
    assert_eq!(ids, vec![0, 1]);
    assert_eq!(store.identifiers()[1].position, Point::new(-4, 5, -6));
    assert_eq!(store.identifiers()[0].scale, SPAWN_SCALE);
    assert_eq!(store.identifiers()[0].highlight, Highlight::Normal);
}

#[test]
fn connections_need_two_identifiers() {
    let mut store = GraphStore::new();
    store.add_connections(3);
    assert_eq!(store.connection_count(), 0);
    store.spawn_identifiers(&vec![Point::origin()]);
    store.add_connections(3);
    assert_eq!(store.connection_count(), 0);
    store.spawn_identifiers(&vec![Point::new(1, 0, 0)]);
    store.add_connections(3);
    assert_eq!(store.connection_count(), 3);
    for c in store.connections() {
        assert!((c.from, c.to) == (0, 1) || (c.from, c.to) == (1, 0));
    }
}

#[test]
fn coinciding_picks_are_rejected() {
    let mut store = GraphStore::new();
    store.spawn_identifiers(&ring_points(3, 100));
    let added = store.spawn_connections(&vec![(1, 1), (0, 2), (2, 2), (5, 0), (2, 1)], 10);
    assert_eq!(added, 2);
    let pairs: Vec<(u64, u64)> = store.connections().iter().map(|c| (c.from, c.to)).collect();
    assert_eq!(pairs, vec![(0, 2), (2, 1)]);
    assert!(store.connections().iter().all(|c| c.from != c.to && c.visible));
}

#[test]
fn spawn_connections_stops_at_limit() {
    let mut store = GraphStore::new();
    store.spawn_identifiers(&ring_points(3, 100));
    let added = store.spawn_connections(&vec![(0, 1), (1, 2), (2, 0)], 2);
    assert_eq!(added, 2);
    assert_eq!(store.connection_count(), 2);
}

#[test]
fn reconcile_reaches_targets() {
    let mut store = GraphStore::new();
    let points = ring_points(6, 4_000);
    let picks = vec![(0, 1), (1, 1), (2, 3), (3, 4), (4, 5), (5, 0)];
    store.reconcile(6, 4, &points, &picks);
    assert_eq!(store.identifier_count(), 6);
    assert_eq!(store.connection_count(), 4);
    store.reconcile(6, 2, &points, &picks);
    assert_eq!(store.connection_count(), 2);
}

#[test]
fn reconcile_with_targets_met_changes_nothing() {
    let mut store = GraphStore::new();
    let points = ring_points(4, 1_000);
    let picks = vec![(0, 1), (2, 3)];
    store.reconcile(4, 2, &points, &picks);
    let nodes = store.identifiers().clone();
    let edges = store.connections().clone();
    store.reconcile(4, 2, &points, &picks);
    assert_eq!(store.identifiers(), &nodes);
    assert_eq!(store.connections(), &edges);
}

#[test]
fn shrinking_drops_dangling_connections() {
    let mut store = GraphStore::new();
    store.spawn_identifiers(&ring_points(4, 1_000));
    store.spawn_connections(&vec![(0, 1), (1, 3), (2, 0), (3, 2)], 4);
    store.reconcile_identifiers(2, &vec![]);
    assert_eq!(store.identifier_count(), 2);
    let pairs: Vec<(u64, u64)> = store.connections().iter().map(|c| (c.from, c.to)).collect();
    assert_eq!(pairs, vec![(0, 1)]);
}

#[test]
fn growing_uses_only_the_missing_points() {
    let mut store = GraphStore::new();
    store.reconcile_identifiers(3, &ring_points(5, 1_000));
    assert_eq!(store.identifier_count(), 3);
    store.reconcile_identifiers(10, &ring_points(2, 1_000));
    assert_eq!(store.identifier_count(), 5);
}

#[test]
fn random_reconciliation_of_connections() {
    let mut store = GraphStore::new();
    store.spawn_identifiers(&ring_points(5, 1_000));
    store.reconcile_connections(7);
    assert_eq!(store.connection_count(), 7);
    assert!(store.connections().iter().all(|c| c.from != c.to));
    store.reconcile_connections(3);
    assert_eq!(store.connection_count(), 3);
}

#[test]
fn despawn_removes_identifier_and_its_connections() {
    let mut store = GraphStore::new();
    store.spawn_identifiers(&ring_points(3, 1_000));
    store.spawn_connections(&vec![(0, 1), (1, 2), (2, 0)], 3);
    store.despawn_identifier(1);
    let ids: Vec<u64> = store.identifiers().iter().map(|n| n.id).collect();
    assert_eq!(ids, vec![0, 2]);
    let pairs: Vec<(u64, u64)> = store.connections().iter().map(|c| (c.from, c.to)).collect();
    assert_eq!(pairs, vec![(2, 0)]);
    store.despawn_identifier(42);
    assert_eq!(store.identifier_count(), 2);
}

#[test]
fn truncating_connections_keeps_the_oldest() {
    let mut store = GraphStore::new();
    store.spawn_identifiers(&ring_points(3, 1_000));
    store.spawn_connections(&vec![(0, 1), (1, 2), (2, 0)], 3);
    store.truncate_connections(1);
    let pairs: Vec<(u64, u64)> = store.connections().iter().map(|c| (c.from, c.to)).collect();
    assert_eq!(pairs, vec![(0, 1)]);
}

#[test]
fn points_inside_and_outside_the_container() {
    assert!(Point::new(3, 4, 0).within_radius(5));
    assert!(!Point::new(3, 4, 1).within_radius(5));
    assert!(Point::origin().within_radius(0));
    assert!(!Point::new(i64::MIN, i64::MIN, i64::MIN).within_radius(1u64 << 63));
    assert!(Point::new(i64::MIN, i64::MIN, i64::MIN).within_radius(u64::MAX));
    assert!(Point::new(i64::MAX, 0, 0).within_radius(u64::MAX));
}

#[test]
fn default_configuration() {
    let c = Configuration::default();
    assert_eq!(c.container_size, 4_000);
    assert_eq!(c.animation_duration, 2);
}
