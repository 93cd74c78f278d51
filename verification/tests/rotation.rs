use aura::rotation::RotationManager;
use aura::sources::{ImageCandidate, Origin};
use aura::state::PersistedState;
use std::collections::HashSet;

fn candidate(id: &str) -> ImageCandidate {
    ImageCandidate::local(id.to_string(), Origin::Directory, format!("{id}.jpg"), None)
}

fn remote(id: &str) -> ImageCandidate {
    ImageCandidate::rss(
        id.to_string(),
        format!("http://example.com/{id}.jpg"),
        "cache".to_string(),
        None,
    )
}

fn resolved(rotation: &RotationManager) -> Vec<(String, String)> {
    rotation
        .candidates()
        .iter()
        .map(|candidate| (candidate.id.clone(), format!("{}.jpg", candidate.id)))
        .collect()
}

#[test]
fn no_repeat_before_cycle_reset() {
    let mut rotation = RotationManager::new();
    rotation.rebuild_pool(vec![candidate("a"), candidate("b"), candidate("c")]);
    let mut seen = HashSet::new();

    for _ in 0..3 {
        let next = rotation.next().unwrap();
        assert!(seen.insert(next.id));
    }
}

#[test]
fn local_candidates_come_first_in_cycle() {
    let mut rotation = RotationManager::new();
    let local_a = candidate("a");
    let local_b = candidate("b");
    let remote = ImageCandidate::rss(
        "r".to_string(),
        "http://example.com/r.jpg".to_string(),
        "cache".to_string(),
        None,
    );
    rotation.rebuild_pool(vec![remote.clone(), local_a.clone(), local_b.clone()]);

    // The cycle is locals-first: the first two picks must be the local
    // wallpapers (in either order); the remote one only shows up after.
    let first = rotation.next().unwrap();
    let second = rotation.next().unwrap();
    let third = rotation.next().unwrap();
    assert!(first.is_local() && second.is_local());
    assert!(!third.is_local());
}

#[test]
fn remove_by_path_drops_matching_candidate() {
    let mut rotation = RotationManager::new();
    rotation.rebuild_pool(vec![candidate("a"), candidate("b"), candidate("c")]);
    assert_eq!(rotation.pool_size(), 3);

    let paths = resolved(&rotation);
    assert!(rotation.remove_by_path("b.jpg", &paths));
    assert_eq!(rotation.pool_size(), 2);
    let paths = resolved(&rotation);
    assert!(rotation.remove_by_path("missing.jpg", &paths) == false);
    assert_eq!(rotation.pool_size(), 2);
}

#[test]
fn empty_rotation_has_nothing_to_show() {
    let mut rotation = RotationManager::default();
    assert_eq!(rotation.pool_size(), 0);
    assert!(rotation.next().is_none());
    assert!(rotation.peek_next().is_none());
    assert!(rotation.candidates().is_empty());
}

#[test]
fn every_cycle_shows_the_whole_pool_locals_first() {
    let mut rotation = RotationManager::new();
    rotation.rebuild_pool(vec![
        remote("r1"),
        candidate("a"),
        remote("r2"),
        candidate("b"),
        candidate("c"),
    ]);
    for _ in 0..4 {
        let cycle: Vec<ImageCandidate> = (0..5).map(|_| rotation.next().unwrap()).collect();
        let ids: HashSet<String> = cycle.iter().map(|shown| shown.id.clone()).collect();
        assert_eq!(ids.len(), 5);
        assert!(cycle[..3].iter().all(|shown| shown.is_local()));
        assert!(cycle[3..].iter().all(|shown| !shown.is_local()));
    }
}

#[test]
fn shuffling_changes_the_order() {
    let mut orders = HashSet::new();
    for _ in 0..8 {
        let mut rotation = RotationManager::new();
        rotation.rebuild_pool((0..40).map(|n| candidate(&format!("c{n}"))).collect());
        let order: Vec<String> = (0..40).map(|_| rotation.next().unwrap().id).collect();
        let ids: HashSet<String> = order.iter().cloned().collect();
        assert_eq!(ids.len(), 40);
        orders.insert(order.join(","));
    }
    assert!(orders.len() > 1);
}

#[test]
fn peeking_does_not_advance() {
    let mut rotation = RotationManager::new();
    rotation.rebuild_pool(vec![candidate("a"), candidate("b")]);
    let peeked = rotation.peek_next().unwrap().id;
    assert_eq!(rotation.peek_next().unwrap().id, peeked);
    assert_eq!(rotation.next().unwrap().id, peeked);
}

#[test]
fn later_candidate_with_the_same_id_wins() {
    let mut rotation = RotationManager::new();
    rotation.rebuild_pool(vec![candidate("a"), remote("a")]);
    assert_eq!(rotation.pool_size(), 1);
    assert!(!rotation.next().unwrap().is_local());
}

#[test]
fn new_pool_keeps_the_cycle() {
    let mut rotation = RotationManager::new();
    rotation.rebuild_pool(vec![candidate("a"), candidate("b"), candidate("c")]);
    let shown = rotation.next().unwrap().id;
    let waiting = rotation.export_state().remaining_queue;
    rotation.rebuild_pool(vec![
        candidate("a"),
        candidate("b"),
        candidate("c"),
        remote("r"),
        candidate("d"),
    ]);
    let state = rotation.export_state();
    assert_eq!(state.remaining_queue[..2], waiting[..]);
    assert_eq!(state.remaining_queue[2..], ["d".to_string(), "r".to_string()]);
    assert_eq!(state.shown_ids, vec![shown]);
}

#[test]
fn new_pool_forgets_what_is_gone() {
    let mut rotation = RotationManager::new();
    rotation.rebuild_pool(vec![candidate("a"), candidate("b")]);
    rotation.rebuild_pool(vec![candidate("z")]);
    let state = rotation.export_state();
    assert_eq!(state.remaining_queue, vec!["z".to_string()]);
    assert!(state.shown_ids.is_empty());
}

#[test]
fn saved_cycle_is_restored() {
    let mut rotation = RotationManager::new();
    rotation.rebuild_pool(vec![candidate("a"), candidate("b"), candidate("c")]);
    let first = rotation.next().unwrap().id;
    let state = rotation.export_state();
    assert_eq!(state.shown_ids, vec![first.clone()]);
    assert!(state.last_image_id.is_none());
    assert!(state.favorites.is_empty());

    let mut later = RotationManager::new();
    later.rebuild_pool(vec![candidate("a"), candidate("b"), candidate("c")]);
    later.restore_state(&state);
    let again = later.export_state();
    assert_eq!(again.remaining_queue, state.remaining_queue);
    assert_eq!(again.shown_ids, state.shown_ids);
    let second = later.next().unwrap().id;
    let third = later.next().unwrap().id;
    assert!(second != first && third != first && second != third);
}

#[test]
fn restoring_drops_unknown_ids_and_refills_when_nothing_is_left() {
    let mut rotation = RotationManager::new();
    rotation.rebuild_pool(vec![candidate("a"), candidate("b")]);
    rotation.restore_state(&PersistedState {
        remaining_queue: vec!["gone".to_string()],
        shown_ids: vec!["a".to_string(), "gone".to_string()],
        last_image_id: None,
        favorites: Vec::new(),
    });
    let state = rotation.export_state();
    assert_eq!(state.remaining_queue, vec!["b".to_string()]);
    assert_eq!(state.shown_ids, vec!["a".to_string()]);
}

#[test]
fn removing_the_whole_pool_empties_the_cycle() {
    let mut rotation = RotationManager::new();
    rotation.rebuild_pool(vec![candidate("a"), candidate("b")]);
    let paths = vec![
        ("a".to_string(), "same.jpg".to_string()),
        ("b".to_string(), "same.jpg".to_string()),
        ("c".to_string(), "same.jpg".to_string()),
    ];
    assert!(rotation.remove_by_path("same.jpg", &paths));
    assert_eq!(rotation.pool_size(), 0);
    assert!(rotation.next().is_none());
    assert!(!rotation.remove_by_path("same.jpg", &paths));
}

#[test]
fn removed_candidate_does_not_come_again() {
    let mut rotation = RotationManager::new();
    rotation.rebuild_pool(vec![candidate("a"), candidate("b"), candidate("c")]);
    let paths = resolved(&rotation);
    assert!(rotation.remove_by_path("b.jpg", &paths));
    for _ in 0..10 {
        assert!(rotation.next().unwrap().id != "b");
    }
}
