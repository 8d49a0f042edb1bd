//! Entities: the game objects that wrap a physics body and optional RPG
//! components.

use vstd::prelude::*;
use crate::game::equipment::EquipmentSlots;
use crate::game::inventory::Inventory;
use crate::game::items::ItemId;
use crate::game::inventory::{ItemStack, INVENTORY_SIZE};
use crate::game::stats::{player_start_stats, StatBlock};
use crate::handles::BodyHandle;

verus! {

pub type EntityId = u32;

#[derive(Debug, Clone, Copy, PartialEq, Eq, Structural)]
pub enum EntityKind {
    /// Scene prop (cube, ball, etc.) with no RPG data.
    Prop,
    /// The player character.
    Player,
    /// An enemy NPC.
    Enemy,
    /// A dropped item on the ground.
    ItemDrop,
    /// An NPC (non-hostile).
    Npc,
}

/// What the game logic reads of an entity: its identity, its physics body,
/// its mesh and its RPG components. How it is drawn (scale, bounding radius)
/// is kept beside it by the renderer.
#[derive(Debug, Clone, Copy)]
pub struct Entity {
    pub id: EntityId,
    pub kind: EntityKind,
    pub rigid_body: BodyHandle,
    pub mesh_type: u32,
    // Optional RPG components (None for simple props)
    pub stats: Option<StatBlock>,
    pub inventory: Option<Inventory>,
    pub equipment: Option<EquipmentSlots>,
    /// For item drops: the item and how many.
    pub drop_item: Option<(ItemId, u16)>,
}

impl Entity {
    /// Create a simple prop entity.
    pub fn prop(id: EntityId, rigid_body: BodyHandle, mesh_type: u32) -> (r: Self)
        ensures
            r == (Entity {
                id,
                kind: EntityKind::Prop,
                rigid_body,
                mesh_type,
                stats: None,
                inventory: None,
                equipment: None,
                drop_item: None,
            }),
    {
        Entity { id, kind: EntityKind::Prop, rigid_body, mesh_type, stats: None, inventory: None, equipment: None, drop_item: None }
    }

    /// Create the player entity with full RPG components: starting stats, an
    /// empty inventory and nothing equipped.
    pub fn player(id: EntityId, rigid_body: BodyHandle) -> (r: Self)
        ensures
            r.id == id,
            r.kind == EntityKind::Player,
            r.rigid_body == rigid_body,
            r.mesh_type == 0,
            r.stats == Some(player_start_stats()),
            r.inventory matches Some(inv) && inv@ == Seq::new(INVENTORY_SIZE as nat, |i: int| None::<ItemStack>),
            r.equipment matches Some(e) && e.weapon is None && e.head is None && e.chest is None && e.legs is None
                && e.boots is None && e.accessory1 is None && e.accessory2 is None && e.cache() is None,
            r.drop_item is None,
    {
        Entity {
            id,
            kind: EntityKind::Player,
            rigid_body,
            mesh_type: 0,
            stats: Some(StatBlock::new_player()),
            inventory: Some(Inventory::default()),
            equipment: Some(EquipmentSlots::default()),
            drop_item: None,
        }
    }

    /// Create an item drop entity holding `count` of `item_id`.
    pub fn item_drop(id: EntityId, rigid_body: BodyHandle, mesh_type: u32, item_id: ItemId, count: u16) -> (r: Self)
        ensures
            r == (Entity {
                id,
                kind: EntityKind::ItemDrop,
                rigid_body,
                mesh_type,
                stats: None,
                inventory: None,
                equipment: None,
                drop_item: Some((item_id, count)),
            }),
    {
        Entity {
            id,
            kind: EntityKind::ItemDrop,
            rigid_body,
            mesh_type,
            stats: None,
            inventory: None,
            equipment: None,
            drop_item: Some((item_id, count)),
        }
    }

    pub fn is_player(&self) -> (r: bool)
        ensures
            r == (self.kind == EntityKind::Player),
    {
        self.kind == EntityKind::Player
    }
}

} // verus!
