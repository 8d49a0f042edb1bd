use physics_rendering_engine::game::entity::{Entity, EntityKind};
use physics_rendering_engine::game::items::{ITEM_IRON_SWORD, ITEM_STONE};
use physics_rendering_engine::game::world::{GameState, World};
use physics_rendering_engine::handles::BodyHandle;

fn rb(i: u32) -> BodyHandle {
    BodyHandle { index: i, generation: 0 }
}

fn world_with_player() -> World {
    World::new(vec![Entity::player(1, rb(1)), Entity::prop(2, rb(2), 0)], 1, 3)
}

#[test]
fn ids_and_lookup() {
    let mut w = world_with_player();
    assert_eq!(w.state, GameState::Playing);
    assert_eq!(w.alloc_id(), 3);
    assert_eq!(w.next_entity_id(), 4);
    assert!(w.player().is_player());
    assert_eq!(w.entity(2).unwrap().kind, EntityKind::Prop);
    assert!(w.entity(9).is_none());
    assert_eq!(w.entity_by_rb(rb(2)).unwrap().id, 2);
    w.add_entity(Entity::item_drop(3, rb(3), 5, ITEM_STONE, 4));
    assert_eq!(w.entity(3).unwrap().drop_item, Some((ITEM_STONE, 4)));
}

#[test]
fn removal_swaps_last_in() {
    let mut w = world_with_player();
    w.add_entity(Entity::prop(3, rb(3), 0));
    let removed = w.remove_by_id(1).unwrap();
    assert_eq!(removed.id, 1);
    assert_eq!(w.entities[0].id, 3);
    assert!(w.entity(1).is_none());
    assert_eq!(w.remove_by_rb(rb(2)).unwrap().id, 2);
    assert!(w.remove_by_rb(rb(2)).is_none());
    assert_eq!(w.entities.len(), 1);
}

#[test]
fn pickup_all_of_a_drop() {
    let mut w = world_with_player();
    w.add_entity(Entity::item_drop(3, rb(3), 5, ITEM_STONE, 40));
    assert!(w.pickup_item(3));
    assert_eq!(w.player().inventory.unwrap().count(ITEM_STONE), 40);
    // Not a drop, or unknown: nothing happens.
    assert!(!w.pickup_item(2));
    assert!(!w.pickup_item(42));
}

#[test]
fn pickup_partially_when_full() {
    let mut w = world_with_player();
    for _ in 0..23 {
        w.add_entity(Entity::item_drop(10, rb(10), 5, ITEM_IRON_SWORD, 1));
        assert!(w.pickup_item(10));
        w.remove_by_id(10);
    }
    w.add_entity(Entity::item_drop(3, rb(3), 5, ITEM_IRON_SWORD, 2));
    assert!(!w.pickup_item(3));
    assert_eq!(w.entity(3).unwrap().drop_item, Some((ITEM_IRON_SWORD, 1)));
    assert_eq!(w.player().inventory.unwrap().count(ITEM_IRON_SWORD), 24);
}

#[test]
fn mutable_access() {
    let mut w = world_with_player();
    w.player_mut().stats.as_mut().unwrap().gold = 7;
    assert_eq!(w.player().stats.unwrap().gold, 7);
    if let Some(e) = w.entity_mut(2) {
        e.mesh_type = 9;
    }
    assert_eq!(w.entity(2).unwrap().mesh_type, 9);
    assert!(w.entity_mut(99).is_none());
}

#[test]
fn duplicate_ids_index_the_latest() {
    // Two entities under ID 5: the later one is indexed.
    let mut w = World::new(
        vec![Entity::player(1, rb(1)), Entity::prop(5, rb(2), 1), Entity::prop(5, rb(3), 2), Entity::prop(6, rb(4), 0)],
        1,
        7,
    );
    assert_eq!(w.entity(5).unwrap().mesh_type, 2);
    // Removing ID 5 takes the indexed one; the last entity moves into its place,
    // and the other entity with ID 5 is no longer found by its ID.
    let removed = w.remove_by_id(5).unwrap();
    assert_eq!(removed.rigid_body, rb(3));
    assert_eq!(w.entities[2].id, 6);
    assert_eq!(w.entity(6).unwrap().rigid_body, rb(4));
    assert!(w.entity(5).is_none());
    assert_eq!(w.entity_by_rb(rb(2)).unwrap().mesh_type, 1);
    // Adding under an ID in use indexes the new entity.
    w.add_entity(Entity::prop(6, rb(9), 3));
    assert_eq!(w.entity(6).unwrap().mesh_type, 3);
}
