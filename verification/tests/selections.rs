use physics_rendering_engine::building::block_type::BlockType;
use physics_rendering_engine::engine::editor::BlockSelection;
use physics_rendering_engine::engine::panels::{crossed_panel, should_preload, teleport_target};
use physics_rendering_engine::game::spells::{SpellCycle, SpellId};

#[test]
fn block_keys() {
    let mut b = BlockSelection::new();
    assert!(b.step(false, true));
    assert_eq!((b.block_type, b.rotation), (BlockType::Cube, 1));
    // Holding V does nothing more.
    assert!(!b.step(false, true));
    assert!(b.step(true, false));
    assert_eq!((b.block_type, b.rotation), (BlockType::Slab, 0));
    assert!(b.step(false, false) == false);
    assert!(b.step(false, true));
    assert_eq!(b.rotation, 1);
    assert!(!b.step(false, false));
    assert!(b.step(false, true));
    assert_eq!(b.rotation, 0);
}

#[test]
fn spell_key() {
    let mut s = SpellCycle::new();
    assert_eq!(s.active_spell, SpellId::Fireball);
    assert!(s.cycle_spell(true));
    assert_eq!(s.active_spell, SpellId::IceShard);
    assert!(!s.cycle_spell(true));
    assert!(!s.cycle_spell(false));
    assert!(s.cycle_spell(true));
    assert_eq!(s.active_spell, SpellId::Heal);
}

#[test]
fn panel_moves() {
    assert_eq!(crossed_panel(false, false, false, false, 0, 0), None);
    assert_eq!(crossed_panel(true, false, true, false, 0, 0), Some((1, 0)));
    assert_eq!(crossed_panel(false, true, false, false, 1, 0), Some((0, 0)));
    assert_eq!(crossed_panel(false, false, false, true, 3, 4), Some((3, 3)));
    assert!(should_preload(1, 0, None, None));
    assert!(!should_preload(1, 0, Some((1, 0)), None));
    assert!(!should_preload(1, 0, None, Some((1, 0))));
    assert!(!should_preload(5, 5, None, None));
    assert_eq!(teleport_target(1, 0, 0), Some((1, 0, true)));
    assert_eq!(teleport_target(0, 0, 0), Some((0, 0, false)));
    assert_eq!(teleport_target(7, 0, 0), None);
}
