use glam::Vec3;
use physics_rendering_engine::building::block_type::BlockType;
use physics_rendering_engine::engine::editor::{
    build_fill_region, clamp_group_selection, cycle_palette, next_rotation, select_next_group,
    select_prev_group, DragPlane, PALETTE_LEN,
};
use physics_rendering_engine::engine::menu::{menu_step, MenuAction, MenuState, QUIT_SELECTION};
use physics_rendering_engine::engine::panels::{find_panel, world_panels};

#[test]
fn fill_region_on_floor() {
    let color = Vec3::new(0.5, 0.25, 1.0);
    let cells = build_fill_region((1, 4, 2), (0, 9, 0), DragPlane::FloorXZ(4), BlockType::Slope, 3, color);
    let coords: Vec<(i32, i32, i32)> = cells.iter().map(|c| c.0).collect();
    assert_eq!(
        coords,
        vec![(0, 4, 0), (0, 4, 1), (0, 4, 2), (1, 4, 0), (1, 4, 1), (1, 4, 2)]
    );
    for c in &cells {
        assert_eq!(c.1, BlockType::Slope);
        assert_eq!(c.2, 3);
        assert_eq!(c.3, color);
    }
}

#[test]
fn fill_region_on_walls() {
    let color = Vec3::ONE;
    let xy = build_fill_region((2, 1, 0), (2, 0, 5), DragPlane::WallXY(7), BlockType::Cube, 0, color);
    let coords: Vec<(i32, i32, i32)> = xy.iter().map(|c| c.0).collect();
    assert_eq!(coords, vec![(2, 0, 7), (2, 1, 7)]);
    let yz = build_fill_region((0, 0, 0), (9, 1, -1), DragPlane::WallYZ(-3), BlockType::Cube, 0, color);
    let coords: Vec<(i32, i32, i32)> = yz.iter().map(|c| c.0).collect();
    assert_eq!(coords, vec![(-3, 0, -1), (-3, 0, 0), (-3, 1, -1), (-3, 1, 0)]);
    let one = build_fill_region((5, 5, 5), (5, 5, 5), DragPlane::FloorXZ(5), BlockType::Cube, 0, color);
    assert_eq!(one.len(), 1);
}

#[test]
fn rotation_key() {
    assert_eq!(next_rotation(BlockType::Slab, 0), 1);
    assert_eq!(next_rotation(BlockType::Slab, 1), 0);
    assert_eq!(next_rotation(BlockType::Slab, 3), 0);
    assert_eq!(next_rotation(BlockType::Slope, 0), 1);
    assert_eq!(next_rotation(BlockType::Slope, 3), 0);
    assert_eq!(next_rotation(BlockType::Stairs, 2), 3);
}

#[test]
fn palette_wraps() {
    assert_eq!(cycle_palette(0, true), 1);
    assert_eq!(cycle_palette(PALETTE_LEN - 1, true), 0);
    assert_eq!(cycle_palette(0, false), PALETTE_LEN - 1);
    assert_eq!(cycle_palette(5, false), 4);
}

#[test]
fn group_selection() {
    assert_eq!(select_prev_group(None, 3), 2);
    assert_eq!(select_prev_group(Some(0), 3), 2);
    assert_eq!(select_prev_group(Some(2), 3), 1);
    assert_eq!(select_next_group(None, 3), 0);
    assert_eq!(select_next_group(Some(2), 3), 0);
    assert_eq!(select_next_group(Some(0), 3), 1);
    assert_eq!(clamp_group_selection(Some(5), 3), Some(2));
    assert_eq!(clamp_group_selection(Some(1), 3), Some(1));
    assert_eq!(clamp_group_selection(Some(1), 0), None);
    assert_eq!(clamp_group_selection(None, 3), None);
}

#[test]
fn menu_navigation() {
    let mut s = MenuState { selection: 0, up_prev: false, down_prev: false };
    // Holding down moves once.
    assert_eq!(menu_step(&mut s, false, true, false, true), MenuAction::Stay);
    assert_eq!(s.selection, 1);
    assert_eq!(menu_step(&mut s, false, true, false, true), MenuAction::Stay);
    assert_eq!(s.selection, 1);
    assert_eq!(menu_step(&mut s, false, false, true, true), MenuAction::ContinueSaved);
    // Without a save, entry 1 is Quit.
    let mut t = MenuState { selection: 1, up_prev: false, down_prev: false };
    assert_eq!(menu_step(&mut t, false, false, true, false), MenuAction::Quit);
    assert_eq!(t.selection, QUIT_SELECTION);
    let mut u = MenuState { selection: 1, up_prev: false, down_prev: false };
    assert_eq!(menu_step(&mut u, true, false, true, true), MenuAction::NewGame);
    assert_eq!(u.selection, 0);
    let mut v = MenuState { selection: 2, up_prev: false, down_prev: false };
    assert_eq!(menu_step(&mut v, false, true, false, true), MenuAction::Stay);
    assert_eq!(v.selection, 2);
    assert!(v.down_prev);
}

#[test]
fn panels() {
    let panels = world_panels();
    assert_eq!(panels.len(), 2);
    assert_eq!(panels[0].name, "Starter Island");
    let (i, p) = find_panel(1, 0).unwrap();
    assert_eq!(i, 1);
    assert_eq!(p.name, "Crystal Island");
    assert!(find_panel(0, 1).is_none());
}
