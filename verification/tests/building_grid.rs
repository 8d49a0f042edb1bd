use glam::Vec3;
use physics_rendering_engine::building::block_type::{
    initial_sub_blocks, is_pristine, pristine_sub_blocks, rotate_sub_blocks, BlockType, ALL_SUBS,
    BOTTOM_LAYER_MASK, SECOND_LAYER_MASK,
};
use physics_rendering_engine::building::grid::{offset_blocks, BlockEntry, BuildingGrid};
use physics_rendering_engine::handles::{BodyHandle, ColliderHandle};

fn rb(i: u32) -> BodyHandle {
    BodyHandle { index: i, generation: 0 }
}

fn col(i: u32) -> ColliderHandle {
    ColliderHandle { index: i, generation: 0 }
}

fn gray() -> Vec3 {
    Vec3::new(0.7, 0.7, 0.65)
}

#[test]
fn pristine_masks() {
    for r in 0..4u8 {
        let m = pristine_sub_blocks(BlockType::Slope, r);
        assert_eq!(m, rotate_sub_blocks(initial_sub_blocks(BlockType::Slope, r), r));
        assert!(is_pristine(BlockType::Slope, r, m));
    }
    assert_eq!(pristine_sub_blocks(BlockType::Cube, 2), ALL_SUBS);
    assert!(!is_pristine(BlockType::Cube, 0, ALL_SUBS - 1));
}

#[test]
fn place_read_remove() {
    let mut g = BuildingGrid::new();
    assert!(g.is_empty());
    assert!(!g.is_dirty());
    assert!(g.can_place(0, 0, 0, true, BlockType::Cube, 0));
    g.insert_block(0, 0, 0, BlockType::Cube, 0, gray(), rb(1), col(1));
    assert!(g.is_dirty());
    assert!(g.is_occupied(0, 0, 0));
    assert_eq!(g.cell_count(), 1);
    assert_eq!(g.cell_info(0, 0, 0), Some((BlockType::Cube, 0, ALL_SUBS, gray())));
    assert!(!g.can_place(0, 0, 0, true, BlockType::Cube, 0));
    assert!(g.has_body(rb(1)));
    g.clear_dirty();
    assert_eq!(g.remove(0, 0, 0), Some((rb(1), col(1))));
    assert!(g.is_dirty());
    assert_eq!(g.remove(0, 0, 0), None);
    assert!(g.is_empty());
    assert!(!g.has_body(rb(1)));
}

#[test]
fn support_rules() {
    let mut g = BuildingGrid::new();
    // Floating in the air with nothing around: not supported.
    assert!(!g.is_supported_with(0, 5, 0, false, BlockType::Cube, 0));
    // On the terrain: supported.
    assert!(g.is_supported_with(0, 5, 0, true, BlockType::Cube, 0));
    // A top slab has no bottom layer, so terrain does not hold it.
    assert!(!g.is_supported_with(0, 5, 0, true, BlockType::Slab, 1));
    g.insert_block(0, 5, 0, BlockType::Cube, 0, gray(), rb(1), col(1));
    // Above a full cube: supported from below.
    assert!(g.is_supported_with(0, 6, 0, false, BlockType::Cube, 0));
    // Beside a full cube: supported from the side.
    assert!(g.is_supported_with(1, 5, 0, false, BlockType::Cube, 0));
    assert!(g.is_supported_with(0, 5, -1, false, BlockType::Cube, 0));
    // Diagonal neighbors give no support.
    assert!(!g.is_supported_with(1, 6, 0, false, BlockType::Cube, 0));
    // A bottom slab below leaves nothing to rest on for the cell above.
    g.insert_block(3, 0, 0, BlockType::Slab, 0, gray(), rb(2), col(2));
    assert!(!g.is_supported_with(3, 1, 0, false, BlockType::Cube, 0));
    // A top slab below does.
    g.insert_block(5, 0, 0, BlockType::Slab, 1, gray(), rb(3), col(3));
    assert!(g.is_supported_with(5, 1, 0, false, BlockType::Cube, 0));
}

#[test]
fn group_blocks_support_and_bodies() {
    let mut g = BuildingGrid::new();
    let blocks = vec![BlockEntry { x: 2, y: 0, z: 2, block_type: 0, rotation: 0, sub_blocks: ALL_SUBS, color: gray() }];
    g.load_group(blocks, rb(9), col(9));
    assert_eq!(g.group_count(), 1);
    assert!(!g.is_empty());
    assert!(g.is_supported_with(2, 1, 2, false, BlockType::Cube, 0));
    assert_eq!(g.group_for_body(rb(9)), Some(0));
    assert_eq!(g.group_for_body(rb(8)), None);
    assert!(g.has_body(rb(9)));
    let removed = g.remove_group(0);
    assert_eq!(removed.rigid_body, Some(rb(9)));
    assert_eq!(removed.blocks.len(), 1);
    assert_eq!(g.group_count(), 0);
}

#[test]
fn mining_sub_blocks() {
    let mut g = BuildingGrid::new();
    g.insert_block(0, 0, 0, BlockType::Cube, 0, gray(), rb(1), col(1));
    assert_eq!(g.clear_sub_blocks(0, 0, 0, BOTTOM_LAYER_MASK), Some((rb(1), col(1), ALL_SUBS & !BOTTOM_LAYER_MASK)));
    assert!(g.is_occupied(0, 0, 0));
    assert!(!g.is_solid(0, 0, 0, 1, 0, 1));
    assert!(g.is_solid(0, 0, 0, 1, 1, 1));
    // Sub-block coordinates past the cell refer to the neighbor.
    assert!(g.is_solid(1, 0, 0, -1, 1, 0));
    assert!(!g.is_solid(0, 0, 0, 4, 1, 0));
    g.set_collider(0, 0, 0, col(5));
    assert_eq!(g.clear_sub_blocks(0, 0, 0, ALL_SUBS), Some((rb(1), col(5), 0)));
    assert!(!g.is_occupied(0, 0, 0));
    assert_eq!(g.clear_sub_blocks(0, 0, 0, ALL_SUBS), None);
    let _ = SECOND_LAYER_MASK;
}

#[test]
fn bake_and_clear() {
    let mut g = BuildingGrid::new();
    assert!(g.bake_cells().is_none());
    g.insert_block(0, 0, 0, BlockType::Cube, 0, gray(), rb(1), col(1));
    g.insert_block(0, 1, 0, BlockType::Stairs, 2, gray(), rb(2), col(2));
    let (blocks, handles) = g.bake_cells().unwrap();
    assert_eq!(blocks.len(), 2);
    assert_eq!(handles.len(), 2);
    assert_eq!(g.cell_count(), 0);
    let stairs = blocks.iter().find(|b| b.y == 1).unwrap();
    assert_eq!(stairs.block_type, BlockType::Stairs.to_u8());
    assert_eq!(stairs.rotation, 2);
    assert_eq!(stairs.sub_blocks, pristine_sub_blocks(BlockType::Stairs, 2));
    g.load_group(blocks, rb(7), col(7));
    g.insert_block(4, 0, 0, BlockType::Cube, 0, gray(), rb(3), col(3));
    let mut all = g.clear();
    all.sort_by_key(|h| h.0.index);
    assert_eq!(all, vec![(rb(3), col(3)), (rb(7), col(7))]);
    assert!(g.is_empty());
}

#[test]
fn load_cell_replaces() {
    let mut g = BuildingGrid::new();
    g.load_cell(1, 2, 3, BlockType::Fence, 0, 5, gray(), rb(1), col(1));
    g.load_cell(1, 2, 3, BlockType::Cube, 1, 7, gray(), rb(2), col(2));
    assert_eq!(g.cell_count(), 1);
    assert_eq!(g.cell_info(1, 2, 3), Some((BlockType::Cube, 1, 7, gray())));
    let cells = g.occupied_cells();
    assert_eq!(cells, vec![(1, 2, 3)]);
}

#[test]
fn preview_marks_dirty_only_on_change() {
    let mut g = BuildingGrid::new();
    let cells = vec![((0, 0, 0), BlockType::Cube, 0u8, gray())];
    g.set_preview(cells.clone());
    assert!(g.has_preview());
    assert!(g.is_dirty());
    g.clear_dirty();
    g.set_preview(cells);
    assert!(!g.is_dirty());
    g.clear_preview();
    assert!(!g.has_preview());
    assert!(g.is_dirty());
}

#[test]
fn preview_change_of_color_or_rotation_marks_dirty() {
    let mut g = BuildingGrid::new();
    g.set_preview(vec![((0, 0, 0), BlockType::Cube, 0u8, gray())]);
    g.clear_dirty();
    g.set_preview(vec![((0, 0, 0), BlockType::Cube, 0u8, glam::Vec3::new(1.0, 0.0, 0.0))]);
    assert!(g.is_dirty());
    g.clear_dirty();
    g.set_preview(vec![((0, 0, 0), BlockType::Cube, 1u8, glam::Vec3::new(1.0, 0.0, 0.0))]);
    assert!(g.is_dirty());
    g.clear_dirty();
    g.set_preview(vec![((0, 0, 0), BlockType::Cube, 1u8, glam::Vec3::new(1.0, 0.0, 0.0))]);
    assert!(!g.is_dirty());
}

#[test]
fn offsets() {
    let blocks = [BlockEntry { x: 1, y: 2, z: 3, block_type: 4, rotation: 1, sub_blocks: 9, color: gray() }];
    let moved = offset_blocks(&blocks, 10, -2, 0);
    assert_eq!((moved[0].x, moved[0].y, moved[0].z), (11, 0, 3));
    assert_eq!(moved[0].block_type, 4);
    assert_eq!(moved[0].sub_blocks, 9);
}

#[test]
fn unbake_restores_cells() {
    let mut g = BuildingGrid::new();
    g.insert_block(0, 0, 0, BlockType::Cube, 0, gray(), rb(1), col(1));
    g.insert_block(1, 0, 0, BlockType::Slope, 3, Vec3::new(0.1, 0.2, 0.3), rb(2), col(2));
    g.clear_sub_blocks(1, 0, 0, 1);
    let mut before: Vec<_> = g.occupied_cells().into_iter().map(|k| (k, g.cell_info(k.0, k.1, k.2).unwrap())).collect();
    before.sort_by_key(|e| e.0);
    let (blocks, _) = g.bake_cells().unwrap();
    g.load_group(blocks, rb(9), col(9));
    let group = g.remove_group(0);
    for (i, b) in group.blocks.iter().enumerate() {
        let n = 10 + i as u32;
        g.load_cell(b.x, b.y, b.z, BlockType::from_u8(b.block_type), b.rotation, b.sub_blocks, b.color, rb(n), col(n));
    }
    let mut after: Vec<_> = g.occupied_cells().into_iter().map(|k| (k, g.cell_info(k.0, k.1, k.2).unwrap())).collect();
    after.sort_by_key(|e| e.0);
    assert_eq!(before, after);
    assert_eq!(g.group_count(), 0);
}
