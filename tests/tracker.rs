use bevy_kissing_godot::preregister::EntityPreregister;
use bevy_kissing_godot::tracker::{GdTracker, GdTrackerId, GodotNodeId, GodotResourceId};

fn node_tracker() -> GdTracker<&'static str, GodotNodeId> {
    GdTracker::new()
}

#[test]
fn scenario_register_remove_reuse() {
    let mut t = node_tracker();
    assert_eq!(t.get_or_register_id_from_node(100, "A").index(), 0);
    assert_eq!(t.get_or_register_id_from_node(200, "B").index(), 1);
    t.remove(100);
    assert!(t.try_get(0).is_none());
    assert_eq!(t.get_or_register_id_from_node(300, "C").index(), 0);
    assert!(t.get_id_from_instance_id(100).is_none());
    assert_eq!(t.get_id_from_instance_id(200).map(|h| h.index()), Some(1));
    assert_eq!(t.get_id_from_instance_id(300).map(|h| h.index()), Some(0));
}

#[test]
fn freed_slot_is_reused_last_freed_first() {
    let mut t = node_tracker();
    for (i, id) in [10u64, 11, 12, 13, 14].iter().enumerate() {
        assert_eq!(t.get_or_register_id_from_node(*id, "x").index(), i);
    }
    t.remove(11);
    t.remove(13);
    assert_eq!(t.get_or_register_id_from_node(99, "new").index(), 3);
    assert_eq!(t.get_or_register_id_from_node(98, "new").index(), 1);
    assert_eq!(t.get_or_register_id_from_node(97, "new").index(), 5);
}

#[test]
fn registering_twice_returns_same_handle() {
    let mut t = node_tracker();
    t.get_or_register_id_from_node(1, "one");
    let a = t.get_or_register_id_from_node(7, "first");
    let b = t.get_or_register_id_from_node(7, "second");
    assert_eq!(a, b);
    assert_eq!(*t.get(a.index()), "first");
    assert!(t.try_get(2).is_none());
}

#[test]
fn handle_resolves_to_registered_reference() {
    let mut t: GdTracker<String, GodotResourceId> = GdTracker::new();
    let h = t.get_or_register_id_from_node(42, "res://icon.png".to_string());
    assert_eq!(t.get(h.index()), "res://icon.png");
    let back = t.get_id_from_instance_id(42).unwrap();
    assert_eq!(back.index(), h.index());
}

#[test]
fn remove_unknown_identity_changes_nothing() {
    let mut t = node_tracker();
    t.get_or_register_id_from_node(5, "five");
    t.remove(6);
    assert_eq!(t.try_get(0), Some(&"five"));
    assert_eq!(t.get_or_register_id_from_node(8, "eight").index(), 1);
}

#[test]
fn try_get_out_of_range_is_none() {
    let t = node_tracker();
    assert!(t.try_get(0).is_none());
    assert_eq!(GodotNodeId::new(4).index(), 4);
}

#[test]
fn preregistered_entity_is_kept_and_taken_once() {
    let mut p = EntityPreregister::new();
    let e = p.get_entity_for_node(9, || 77);
    assert_eq!(e, 77);
    assert_eq!(p.get_entity_for_node(9, || 78), 77);
    assert_eq!(p.take_entity_if_exists(9), Some(77));
    assert_eq!(p.take_entity_if_exists(9), None);
    assert_eq!(p.get_entity_for_node(9, || 79), 79);
}

#[test]
fn handles_stay_unique_under_churn() {
    let mut t = node_tracker();
    let mut live: Vec<u64> = Vec::new();
    for step in 0u64..60 {
        if step % 3 == 2 {
            let gone = live.remove((step as usize * 7) % live.len());
            t.remove(gone);
        } else {
            t.get_or_register_id_from_node(1000 + step, "n");
            live.push(1000 + step);
        }
        let mut seen: Vec<usize> = Vec::new();
        for id in &live {
            let h = t.get_id_from_instance_id(*id).unwrap().index();
            assert!(!seen.contains(&h));
            seen.push(h);
        }
    }
    assert_eq!(live.len(), 20);
}
