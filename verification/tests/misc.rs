use physics_rendering_engine::audio::{desired_music_context, MusicContext};
use physics_rendering_engine::game::npc::{npc_dialogue, npc_name, ActiveDialogue, NpcKind};
use physics_rendering_engine::game::spells::{all_spells, SpellId};
use physics_rendering_engine::game::stats::{StatBlock, StatBonuses};
use physics_rendering_engine::interaction::{Interaction, ToolType};
use physics_rendering_engine::terrain::Biome;

const LINES: &[&str] = &["one", "two", "three", "four", "five"];

#[test]
fn dialogue_pages() {
    let mut d = ActiveDialogue {
        npc_entity_id: 7,
        npc_kind: NpcKind::Hermit,
        npc_name: "Brother Aldric",
        lines: LINES,
        current_line: 0,
    };
    assert_eq!(d.current_text(), &["one", "two", "three"]);
    assert!(!d.advance());
    assert_eq!(d.current_line, 3);
    assert_eq!(d.current_text(), &["four", "five"]);
    assert!(d.advance());
    assert_eq!(NpcKind::Hermit.index(), 2);
    assert_eq!(NpcKind::Oracle.index(), 4);
}

#[test]
fn spells_cycle() {
    let spells = all_spells();
    assert_eq!(spells, [SpellId::Fireball, SpellId::IceShard, SpellId::Heal]);
    for (i, s) in spells.iter().enumerate() {
        assert_eq!(s.index(), i);
        assert_eq!(s.next().next().next(), *s);
    }
    assert_eq!(SpellId::IceShard.name(), "Ice Shard");
    assert_eq!(SpellId::Heal.next(), SpellId::Fireball);
}

#[test]
fn tools_cycle_on_key_press() {
    let mut sel = Interaction::default();
    assert_eq!(sel.equipped_tool, ToolType::Hands);
    assert!(sel.cycle_tool(true));
    assert_eq!(sel.equipped_tool, ToolType::Axe);
    // Holding the key does not cycle again.
    assert!(!sel.cycle_tool(true));
    assert_eq!(sel.equipped_tool, ToolType::Axe);
    assert!(!sel.cycle_tool(false));
    assert!(sel.cycle_tool(true));
    assert_eq!(sel.equipped_tool.name(), "Pickaxe");
    assert_eq!(ToolType::Hammer.next(), ToolType::Hands);
}

#[test]
fn music_choice() {
    assert_eq!(desired_music_context(Biome::Forest, None, true), MusicContext::Biome(Biome::Forest));
    assert_eq!(
        desired_music_context(Biome::Forest, Some("Village"), true),
        MusicContext::Location("Village".to_string())
    );
    assert_eq!(
        desired_music_context(Biome::Desert, Some("Village"), false),
        MusicContext::Biome(Biome::Desert)
    );
}

#[test]
fn stat_blocks() {
    let p = StatBlock::new_player();
    assert_eq!(p.level, 1);
    assert_eq!(p.strength, 10);
    let e = StatBlock::new_enemy(4, 1, 2, 3, 4, 5);
    assert_eq!((e.level, e.strength, e.intelligence, e.dexterity, e.vitality, e.endurance), (4, 1, 2, 3, 4, 5));
    assert_eq!(e.xp, 0);
    let b = StatBonuses::default();
    assert_eq!(b.vitality, 0);
}

#[test]
fn npc_names_and_lines() {
    assert_eq!(npc_name(NpcKind::Hermit), "Brother Aldric");
    assert_eq!(npc_name(NpcKind::Smith), "Dura Stonesong");
    let oracle = npc_dialogue(NpcKind::Oracle);
    assert_eq!(oracle.len(), 5);
    assert_eq!(oracle[0], "The rock remembers everything.");
    assert_eq!(npc_dialogue(NpcKind::Merchant).len(), 4);
    let mut d = ActiveDialogue {
        npc_entity_id: 1,
        npc_kind: NpcKind::Garrison,
        npc_name: npc_name(NpcKind::Garrison),
        lines: npc_dialogue(NpcKind::Garrison),
        current_line: 0,
    };
    assert_eq!(d.current_text().len(), 3);
    assert!(!d.advance());
    assert_eq!(d.current_text(), &["Bring me proof of goblins and I'll", "make it worth your while."]);
    assert!(d.advance());
}
