use physics_rendering_engine::building::block_type::{
    present_sub_blocks,
    has_sub, initial_sub_blocks, mirror_sub_blocks_x, mirror_sub_blocks_z, rotate_sub_blocks,
    rotate_xz, sub_bit, wrap, BlockType, ALL_SUBS, BOTTOM_LAYER_MASK, NEG_Z_HALF_MASK,
    SECOND_LAYER_MASK, THIRD_LAYER_MASK, TOP_LAYER_MASK,
};
use physics_rendering_engine::mesh_ids::{MESH_BLOCK_FENCE, MESH_BLOCK_SLAB, MESH_CUBE};

const SLOPE: u64 = 0xF000_FF00_FFF0_FFFF;
const INNER_CORNER: u64 = 0xF888_FFCC_FFFE_FFFF;
const STAIRS: u64 = 0xFF00_FF00_FFFF_FFFF;
const FENCE: u64 = 0x0660_0660_0660_0660;

#[test]
fn initial_masks() {
    assert_eq!(initial_sub_blocks(BlockType::Cube, 0), ALL_SUBS);
    assert_eq!(initial_sub_blocks(BlockType::Slab, 0), BOTTOM_LAYER_MASK | SECOND_LAYER_MASK);
    assert_eq!(initial_sub_blocks(BlockType::Slab, 1), THIRD_LAYER_MASK | TOP_LAYER_MASK);
    assert_eq!(initial_sub_blocks(BlockType::Slab, 2), BOTTOM_LAYER_MASK | SECOND_LAYER_MASK);
    assert_eq!(initial_sub_blocks(BlockType::VerticalSlab, 3), NEG_Z_HALF_MASK);
    assert_eq!(initial_sub_blocks(BlockType::Slope, 0), SLOPE);
    assert_eq!(initial_sub_blocks(BlockType::InnerCornerSlope, 0), INNER_CORNER);
    assert_eq!(initial_sub_blocks(BlockType::Stairs, 0), STAIRS);
    assert_eq!(initial_sub_blocks(BlockType::Fence, 0), FENCE);
}

#[test]
fn rotations_of_slope() {
    assert_eq!(rotate_sub_blocks(SLOPE, 0), SLOPE);
    assert_eq!(rotate_sub_blocks(SLOPE, 1), 0x1111_3333_7777_FFFF);
    assert_eq!(rotate_sub_blocks(SLOPE, 2), 0x000F_00FF_0FFF_FFFF);
    assert_eq!(rotate_sub_blocks(SLOPE, 3), 0x8888_CCCC_EEEE_FFFF);
    assert_eq!(rotate_sub_blocks(NEG_Z_HALF_MASK, 1), 0xCCCC_CCCC_CCCC_CCCC);
}

#[test]
fn rotations_of_other_shapes() {
    assert_eq!(rotate_sub_blocks(INNER_CORNER, 1), 0xF111_FF33_FFF7_FFFF);
    assert_eq!(rotate_sub_blocks(STAIRS, 3), 0xCCCC_CCCC_FFFF_FFFF);
    // Symmetric shapes are unchanged by any rotation.
    for r in 0..4u8 {
        assert_eq!(rotate_sub_blocks(FENCE, r), FENCE);
        assert_eq!(rotate_sub_blocks(ALL_SUBS, r), ALL_SUBS);
    }
}

#[test]
fn rotation_composes() {
    let m = 0x1234_5678_9ABC_DEF0u64;
    assert_eq!(rotate_sub_blocks(rotate_sub_blocks(m, 1), 1), rotate_sub_blocks(m, 2));
    assert_eq!(rotate_sub_blocks(rotate_sub_blocks(m, 1), 3), m);
    let mut x = m;
    for _ in 0..4 {
        x = rotate_sub_blocks(x, 1);
    }
    assert_eq!(x, m);
    assert_eq!(rotate_sub_blocks(m, 5), rotate_sub_blocks(m, 1));
}

#[test]
fn mirrors() {
    assert_eq!(mirror_sub_blocks_x(SLOPE), SLOPE);
    assert_eq!(mirror_sub_blocks_z(SLOPE), 0x000F_00FF_0FFF_FFFF);
    assert_eq!(mirror_sub_blocks_x(INNER_CORNER), 0xF111_FF33_FFF7_FFFF);
    assert_eq!(mirror_sub_blocks_z(INNER_CORNER), 0x888F_CCFF_EFFF_FFFF);
    let m = 0x0123_4567_89AB_CDEFu64;
    assert_eq!(mirror_sub_blocks_x(mirror_sub_blocks_x(m)), m);
    assert_eq!(mirror_sub_blocks_z(mirror_sub_blocks_z(m)), m);
    assert_eq!(mirror_sub_blocks_x(mirror_sub_blocks_z(m)), rotate_sub_blocks(m, 2));
    assert_eq!(mirror_sub_blocks_x(1), 8);
}

#[test]
fn sub_block_helpers() {
    assert_eq!(sub_bit(0, 0, 0), 1);
    assert_eq!(sub_bit(3, 3, 3), 1u64 << 63);
    assert_eq!(sub_bit(1, 2, 3), 1u64 << 45);
    assert!(has_sub(SLOPE, 2, 3, 3));
    assert!(!has_sub(SLOPE, 2, 3, 2));
    assert_eq!(rotate_xz(0, 0, 1), (3, 0));
    assert_eq!(rotate_xz(1, 2, 2), (2, 1));
    assert_eq!(rotate_xz(1, 2, 3), (2, 2));
    assert_eq!(rotate_xz(1, 2, 6), (2, 1));
    assert_eq!(wrap(5, -1), (4, 3));
    assert_eq!(wrap(5, 4), (6, 0));
    assert_eq!(wrap(5, 2), (5, 2));
}

#[test]
fn block_type_cycle_and_codes() {
    let mut bt = BlockType::Cube;
    let names = ["Cube", "Slab", "VSlab", "Slope", "Corner", "Stairs", "Fence"];
    for (i, name) in names.iter().enumerate() {
        assert_eq!(bt.name(), *name);
        assert_eq!(bt.to_u8() as usize, i);
        assert_eq!(BlockType::from_u8(i as u8), bt);
        bt = bt.next();
    }
    assert_eq!(bt, BlockType::Cube);
    assert_eq!(BlockType::from_u8(200), BlockType::Cube);
    assert_eq!(BlockType::Cube.mesh_id(), MESH_CUBE);
    assert_eq!(BlockType::Slab.mesh_id(), MESH_BLOCK_SLAB);
    assert_eq!(BlockType::Fence.mesh_id(), MESH_BLOCK_FENCE);
}

#[test]
fn present_sub_blocks_in_layer_order() {
    let mask = 1u64 | (1u64 << 5) | (1u64 << 63);
    assert_eq!(present_sub_blocks(mask), vec![(0, 0, 0), (1, 0, 1), (3, 3, 3)]);
    assert!(present_sub_blocks(0).is_empty());
    assert_eq!(present_sub_blocks(u64::MAX).len(), 64);
}

#[test]
fn mirror_examples() {
    assert_eq!(mirror_sub_blocks_x(0x1111_1111_1111_1111), 0x8888_8888_8888_8888);
    assert_eq!(mirror_sub_blocks_z(0x00FF_00FF_00FF_00FF), 0xFF00_FF00_FF00_FF00);
}

#[test]
fn mirrors_in_either_order_make_a_half_turn() {
    let m: u64 = 0x0123_4567_89AB_CDEF;
    let half = rotate_sub_blocks(m, 2);
    assert_eq!(mirror_sub_blocks_z(mirror_sub_blocks_x(m)), half);
    assert_eq!(mirror_sub_blocks_x(mirror_sub_blocks_z(m)), half);
}

#[test]
fn turns_and_mirrors_keep_layer_counts() {
    let m: u64 = 0x0001_0137_0F0F_FFFF;
    let layers = |x: u64| [0, 16, 32, 48].map(|s| ((x >> s) & 0xFFFF).count_ones());
    for r in 0..4u8 {
        assert_eq!(layers(rotate_sub_blocks(m, r)), layers(m));
    }
    assert_eq!(layers(mirror_sub_blocks_x(m)), layers(m));
    assert_eq!(layers(mirror_sub_blocks_z(m)), layers(m));
}
