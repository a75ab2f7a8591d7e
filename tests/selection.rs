use idgraph::{
    GraphStore, Highlight, HighlightProjector, Point, SelectedIdentifier, SelectionEvent,
    SCALE_HALF, SCALE_ONE,
};

fn store_with(count: usize, picks: &[(usize, usize)]) -> GraphStore {
    let mut store = GraphStore::new();
    let points: Vec<Point> = (0..count as i64).map(|k| Point::new(k * 10, -k, 2 * k)).collect();
    store.spawn_identifiers(&points);
    store.spawn_connections(&picks.to_vec(), picks.len());
    store
}

#[test]
fn deselect_from_any_state() {
    let mut s = SelectedIdentifier(Some(3));
    s.deselect();
    assert_eq!(s, SelectedIdentifier(None));
    s.deselect();
    assert_eq!(s.0, None);
}

#[test]
fn random_connected_without_selection_does_nothing() {
    let store = store_with(3, &[(0, 1), (1, 2)]);
    let mut s = SelectedIdentifier::new();
    s.select_random_connected(&store);
    assert_eq!(s.0, None);
}

#[test]
fn random_connected_without_touching_connections_does_nothing() {
    let store = store_with(3, &[(0, 1)]);
    let mut s = SelectedIdentifier(Some(2));
    s.select_random_connected(&store);
    assert_eq!(s.0, Some(2));
}

#[test]
fn random_connected_moves_to_a_neighbour() {
    let store = store_with(4, &[(0, 1), (2, 1), (2, 3)]);
    let mut s = SelectedIdentifier(Some(1));
    s.select_random_connected(&store);
    assert!(s.0 == Some(0) || s.0 == Some(2));
    let mut only = SelectedIdentifier(Some(3));
    only.select_random_connected(&store);
    assert_eq!(only.0, Some(2));
}

#[test]
fn connected_nth_follows_store_order() {
    let store = store_with(4, &[(0, 1), (2, 1), (2, 3)]);
    let mut s = SelectedIdentifier(Some(2));
    s.select_connected_nth(&store, 1);
    assert_eq!(s.0, Some(3));
    let mut t = SelectedIdentifier(Some(2));
    t.select_connected_nth(&store, 0);
    assert_eq!(t.0, Some(1));
    let mut u = SelectedIdentifier(Some(2));
    u.select_connected_nth(&store, 2);
    assert_eq!(u.0, Some(2));
}

#[test]
fn random_selection_picks_a_present_identifier() {
    let mut s = SelectedIdentifier::new();
    s.select_random(&GraphStore::new());
    assert_eq!(s.0, None);
    let one = store_with(1, &[]);
    s.select_random(&one);
    assert_eq!(s.0, Some(0));
    let many = store_with(6, &[]);
    s.select_random(&many);
    assert!(matches!(s.0, Some(id) if id < 6));
}

#[test]
fn events_apply_in_order() {
    let store = store_with(3, &[(0, 1)]);
    let mut s = SelectedIdentifier::new();
    for e in [SelectionEvent::Select(1), SelectionEvent::SelectRandomConnected] {
        s.apply(&store, e);
    }
    assert_eq!(s.0, Some(0));
    s.apply(&store, SelectionEvent::Deselect);
    assert_eq!(s.0, None);
}

#[test]
fn explicit_selection_of_the_middle_identifier() {
    let mut store = store_with(3, &[(0, 1), (1, 2)]);
    let mut s = SelectedIdentifier::new();
    s.select(1);
    store.project_selection(s.0);
    let classes: Vec<Highlight> = store.identifiers().iter().map(|n| n.highlight).collect();
    assert_eq!(classes, vec![Highlight::Connected, Highlight::Selected, Highlight::Connected]);
    assert!(store.connections().iter().all(|c| c.visible));
    assert!(store.identifiers().iter().all(|n| n.scale == SCALE_ONE));
}

#[test]
fn exactly_one_identifier_is_selected() {
    let mut store = store_with(5, &[(0, 1), (1, 2), (3, 4)]);
    store.project_selection(Some(3));
    let classes: Vec<Highlight> = store.identifiers().iter().map(|n| n.highlight).collect();
    assert_eq!(
        classes,
        vec![
            Highlight::Dimmed,
            Highlight::Dimmed,
            Highlight::Dimmed,
            Highlight::Selected,
            Highlight::Connected
        ]
    );
    assert_eq!(store.identifiers()[0].scale, SCALE_HALF);
    let shown: Vec<bool> = store.connections().iter().map(|c| c.visible).collect();
    assert_eq!(shown, vec![false, false, true]);
    store.project_selection(None);
    assert!(store.identifiers().iter().all(|n| n.highlight == Highlight::Normal && n.scale == SCALE_ONE));
    assert!(store.connections().iter().all(|c| c.visible));
}

#[test]
fn selecting_an_absent_identity_marks_none_selected() {
    let mut store = store_with(2, &[(0, 1)]);
    store.project_selection(Some(9));
    assert!(store.identifiers().iter().all(|n| n.highlight == Highlight::Dimmed));
    assert!(store.connections().iter().all(|c| !c.visible));
}

#[test]
fn projector_refreshes_only_on_change() {
    let mut store = store_with(3, &[(0, 1)]);
    let mut projector = HighlightProjector::new();
    let s = SelectedIdentifier(Some(0));
    assert!(projector.refresh(&mut store, &s));
    assert_eq!(store.identifiers()[0].highlight, Highlight::Selected);
    store.project_selection(None);
    assert!(!projector.refresh(&mut store, &s));
    assert_eq!(store.identifiers()[0].highlight, Highlight::Normal);
    assert!(projector.refresh(&mut store, &SelectedIdentifier(None)));
}

#[test]
fn selected_position_for_framing() {
    let store = store_with(3, &[]);
    assert_eq!(SelectedIdentifier(Some(2)).selected_position(&store), Some(Point::new(20, -2, 4)));
    assert_eq!(SelectedIdentifier(Some(7)).selected_position(&store), None);
    assert_eq!(SelectedIdentifier(None).selected_position(&store), None);
}
