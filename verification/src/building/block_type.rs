//! Block types and the 4x4x4 sub-block masks that describe their shapes.
//!
//! Every building cell is split into 4 sub-blocks per axis; the 64 sub-blocks
//! are the 64 bits of a `u64`, bit `sy * 16 + sz * 4 + sx` for the sub-block at
//! `(sx, sy, sz)`.

use vstd::prelude::*;
use crate::bits::{bit, lemma_and_single, lemma_bit_and, lemma_bit_zero, lemma_bits_ext, lemma_fill_step, lemma_permute_step};
use crate::mesh_ids::{
    MESH_BLOCK_FENCE, MESH_BLOCK_INNER_CORNER, MESH_BLOCK_SLAB, MESH_BLOCK_SLOPE, MESH_BLOCK_STAIRS,
    MESH_BLOCK_VSLAB, MESH_CUBE,
};

verus! {

/// Sub-blocks per axis within each cell.
pub const SUBS: i32 = 4;

/// Every sub-block present.
pub const ALL_SUBS: u64 = 0xFFFF_FFFF_FFFF_FFFF;

/// Layer sy = 3.
pub const TOP_LAYER_MASK: u64 = 0xFFFF_0000_0000_0000;

/// Layer sy = 2.
pub const THIRD_LAYER_MASK: u64 = 0x0000_FFFF_0000_0000;

/// Layer sy = 1.
pub const SECOND_LAYER_MASK: u64 = 0x0000_0000_FFFF_0000;

/// Layer sy = 0.
pub const BOTTOM_LAYER_MASK: u64 = 0x0000_0000_0000_FFFF;

/// Face sx = 3.
pub const POS_X_FACE_MASK: u64 = 0x8888_8888_8888_8888;

/// Face sx = 0.
pub const NEG_X_FACE_MASK: u64 = 0x1111_1111_1111_1111;

/// Face sz = 3.
pub const POS_Z_FACE_MASK: u64 = 0xF000_F000_F000_F000;

/// Face sz = 0.
pub const NEG_Z_FACE_MASK: u64 = 0x000F_000F_000F_000F;

/// Front half: sz = 0 or 1, all sx and sy.
pub const NEG_Z_HALF_MASK: u64 = 0x00FF_00FF_00FF_00FF;

#[derive(Clone, Copy, PartialEq, Eq, Debug, Structural)]
pub enum BlockType {
    Cube,
    Slab,
    VerticalSlab,
    Slope,
    InnerCornerSlope,
    Stairs,
    Fence,
}

/// The display name of a block type.
pub open spec fn block_name(b: BlockType) -> Seq<char> {
    match b {
        BlockType::Cube => "Cube"@,
        BlockType::Slab => "Slab"@,
        BlockType::VerticalSlab => "VSlab"@,
        BlockType::Slope => "Slope"@,
        BlockType::InnerCornerSlope => "Corner"@,
        BlockType::Stairs => "Stairs"@,
        BlockType::Fence => "Fence"@,
    }
}

/// The numeric code of a block type, as stored in saves and blueprints.
pub open spec fn block_code(b: BlockType) -> u8 {
    match b {
        BlockType::Cube => 0,
        BlockType::Slab => 1,
        BlockType::VerticalSlab => 2,
        BlockType::Slope => 3,
        BlockType::InnerCornerSlope => 4,
        BlockType::Stairs => 5,
        BlockType::Fence => 6,
    }
}

/// The block type that follows `b` in the build menu cycle.
/// The block type stored as `v`; unknown codes are cubes.
pub open spec fn block_of_code(v: u8) -> BlockType {
    if v == 1 {
        BlockType::Slab
    } else if v == 2 {
        BlockType::VerticalSlab
    } else if v == 3 {
        BlockType::Slope
    } else if v == 4 {
        BlockType::InnerCornerSlope
    } else if v == 5 {
        BlockType::Stairs
    } else if v == 6 {
        BlockType::Fence
    } else {
        BlockType::Cube
    }
}

pub open spec fn block_after(b: BlockType) -> BlockType {
    match b {
        BlockType::Cube => BlockType::Slab,
        BlockType::Slab => BlockType::VerticalSlab,
        BlockType::VerticalSlab => BlockType::Slope,
        BlockType::Slope => BlockType::InnerCornerSlope,
        BlockType::InnerCornerSlope => BlockType::Stairs,
        BlockType::Stairs => BlockType::Fence,
        BlockType::Fence => BlockType::Cube,
    }
}

impl BlockType {
    pub fn name(self) -> (r: &'static str)
        ensures
            r@ == block_name(self),
    {
        match self {
            BlockType::Cube => "Cube",
            BlockType::Slab => "Slab",
            BlockType::VerticalSlab => "VSlab",
            BlockType::Slope => "Slope",
            BlockType::InnerCornerSlope => "Corner",
            BlockType::Stairs => "Stairs",
            BlockType::Fence => "Fence",
        }
    }

    pub fn next(self) -> (r: Self)
        ensures
            r == block_after(self),
    {
        match self {
            BlockType::Cube => BlockType::Slab,
            BlockType::Slab => BlockType::VerticalSlab,
            BlockType::VerticalSlab => BlockType::Slope,
            BlockType::Slope => BlockType::InnerCornerSlope,
            BlockType::InnerCornerSlope => BlockType::Stairs,
            BlockType::Stairs => BlockType::Fence,
            BlockType::Fence => BlockType::Cube,
        }
    }

    /// Returns the renderer mesh ID for this block type's preview shape.
    pub fn mesh_id(self) -> (r: u32)
        ensures
            r == (match self {
                BlockType::Cube => MESH_CUBE,
                BlockType::Slab => MESH_BLOCK_SLAB,
                BlockType::VerticalSlab => MESH_BLOCK_VSLAB,
                BlockType::Slope => MESH_BLOCK_SLOPE,
                BlockType::InnerCornerSlope => MESH_BLOCK_INNER_CORNER,
                BlockType::Stairs => MESH_BLOCK_STAIRS,
                BlockType::Fence => MESH_BLOCK_FENCE,
            }),
    {
        match self {
            BlockType::Cube => MESH_CUBE,
            BlockType::Slab => MESH_BLOCK_SLAB,
            BlockType::VerticalSlab => MESH_BLOCK_VSLAB,
            BlockType::Slope => MESH_BLOCK_SLOPE,
            BlockType::InnerCornerSlope => MESH_BLOCK_INNER_CORNER,
            BlockType::Stairs => MESH_BLOCK_STAIRS,
            BlockType::Fence => MESH_BLOCK_FENCE,
        }
    }

    /// Decode a stored block type; unknown codes decode to `Cube`.
    pub fn from_u8(v: u8) -> (r: Self)
        ensures
            r == block_of_code(v),
            v <= 6 ==> block_code(r) == v,
            v > 6 ==> r == BlockType::Cube,
    {
        match v {
            1 => BlockType::Slab,
            2 => BlockType::VerticalSlab,
            3 => BlockType::Slope,
            4 => BlockType::InnerCornerSlope,
            5 => BlockType::Stairs,
            6 => BlockType::Fence,
            _ => BlockType::Cube,
        }
    }

    /// Encode a block type for saves and blueprints.
    pub fn to_u8(self) -> (r: u8)
        ensures
            r == block_code(self),
    {
        match self {
            BlockType::Cube => 0,
            BlockType::Slab => 1,
            BlockType::VerticalSlab => 2,
            BlockType::Slope => 3,
            BlockType::InnerCornerSlope => 4,
            BlockType::Stairs => 5,
            BlockType::Fence => 6,
        }
    }
}

// ---------------------------------------------------------------------------
// Sub-block coordinates
// ---------------------------------------------------------------------------

/// Bit index of the sub-block at `(sx, sy, sz)`.
pub open spec fn sub_index(sx: int, sy: int, sz: int) -> int {
    sy * 16 + sz * 4 + sx
}

/// `(sx, sy, sz)` lies inside one cell.
pub open spec fn in_cell(sx: int, sy: int, sz: int) -> bool {
    0 <= sx < 4 && 0 <= sy < 4 && 0 <= sz < 4
}

/// The sub-block at `(sx, sy, sz)` is present in `bits`.
pub open spec fn sub_at(bits: u64, sx: int, sy: int, sz: int) -> bool {
    bit(bits, sub_index(sx, sy, sz) as u64)
}

pub open spec fn idx_x(j: u64) -> int {
    (j % 4) as int
}

pub open spec fn idx_y(j: u64) -> int {
    (j / 16) as int
}

pub open spec fn idx_z(j: u64) -> int {
    ((j / 4) % 4) as int
}

proof fn lemma_index_coords(j: u64)
    requires
        j < 64,
    ensures
        in_cell(idx_x(j), idx_y(j), idx_z(j)),
        sub_index(idx_x(j), idx_y(j), idx_z(j)) == j,
{
}

proof fn lemma_coords_index(sx: int, sy: int, sz: int)
    requires
        in_cell(sx, sy, sz),
    ensures
        0 <= sub_index(sx, sy, sz) < 64,
        idx_x(sub_index(sx, sy, sz) as u64) == sx,
        idx_y(sub_index(sx, sy, sz) as u64) == sy,
        idx_z(sub_index(sx, sy, sz) as u64) == sz,
{
}

/// Two masks that agree on every sub-block of the cell are equal.
pub proof fn lemma_cell_ext(a: u64, b: u64)
    requires
        forall|sx: int, sy: int, sz: int|
            in_cell(sx, sy, sz) ==> #[trigger] sub_at(a, sx, sy, sz) == sub_at(b, sx, sy, sz),
    ensures
        a == b,
{
    assert forall|i: u64| i < 64 implies #[trigger] bit(a, i) == bit(b, i) by {
        lemma_index_coords(i);
        assert(sub_at(a, idx_x(i), idx_y(i), idx_z(i)) == sub_at(b, idx_x(i), idx_y(i), idx_z(i)));
    }
    lemma_bits_ext(a, b);
}

/// A mask filled index by index with the indices that `shape` selects holds,
/// at every sub-block of the cell, exactly what `shape` says.
proof fn lemma_filled_shape(m: u64, shape: spec_fn(int, int, int) -> bool)
    requires
        forall|j: u64| #![trigger bit(m, j)] j < 64 ==> bit(m, j) == (j < 64 && shape(idx_x(j), idx_y(j), idx_z(j))),
    ensures
        forall|sx: int, sy: int, sz: int|
            in_cell(sx, sy, sz) ==> #[trigger] sub_at(m, sx, sy, sz) == shape(sx, sy, sz),
{
    assert forall|sx: int, sy: int, sz: int| in_cell(sx, sy, sz) implies #[trigger] sub_at(m, sx, sy, sz) == shape(sx, sy, sz) by {
        lemma_coords_index(sx, sy, sz);
        let j = sub_index(sx, sy, sz) as u64;
        assert(bit(m, j) == (j < 64 && shape(idx_x(j), idx_y(j), idx_z(j))));
    }
}

// ---------------------------------------------------------------------------
// The sides of a cell
// ---------------------------------------------------------------------------

/// Sub-block `(sx, sy, sz)` lies on the side of the cell where the coordinate
/// along `axis` (0 = x, 1 = y, 2 = z) is `c` (0 for the low side, 3 for the
/// high side).
pub open spec fn on_side(axis: int, c: int, sx: int, sy: int, sz: int) -> bool {
    if axis == 0 {
        sx == c
    } else if axis == 1 {
        sy == c
    } else {
        sz == c
    }
}

/// Every sub-block on that side of the cell is present in `m`.
pub open spec fn side_full(m: u64, axis: int, c: int) -> bool {
    forall|sx: int, sy: int, sz: int| in_cell(sx, sy, sz) && on_side(axis, c, sx, sy, sz) ==> #[trigger] sub_at(m, sx, sy, sz)
}

/// Some sub-block on that side of the cell is present in `m`.
pub open spec fn side_touched(m: u64, axis: int, c: int) -> bool {
    exists|sx: int, sy: int, sz: int| in_cell(sx, sy, sz) && on_side(axis, c, sx, sy, sz) && #[trigger] sub_at(m, sx, sy, sz)
}

/// The bits of `mask` are exactly the sub-blocks on that side of the cell.
pub open spec fn mask_is_side(mask: u64, axis: int, c: int) -> bool {
    forall|i: u64| #![trigger bit(mask, i)] i < 64 ==> bit(mask, i) == on_side(axis, c, idx_x(i), idx_y(i), idx_z(i))
}

/// The six face masks are the six sides of the cell.
pub proof fn lemma_face_masks()
    ensures
        mask_is_side(BOTTOM_LAYER_MASK, 1, 0),
        mask_is_side(TOP_LAYER_MASK, 1, 3),
        mask_is_side(NEG_X_FACE_MASK, 0, 0),
        mask_is_side(POS_X_FACE_MASK, 0, 3),
        mask_is_side(NEG_Z_FACE_MASK, 2, 0),
        mask_is_side(POS_Z_FACE_MASK, 2, 3),
{
    assert forall|i: u64| i < 64 implies #[trigger] bit(BOTTOM_LAYER_MASK, i) == (i / 16 == 0) by {
        assert(i < 64 ==> ((0x0000_0000_0000_FFFFu64 >> i) & 1u64 == 1u64) == (i / 16 == 0)) by (bit_vector);
    }
    assert forall|i: u64| i < 64 implies #[trigger] bit(TOP_LAYER_MASK, i) == (i / 16 == 3) by {
        assert(i < 64 ==> ((0xFFFF_0000_0000_0000u64 >> i) & 1u64 == 1u64) == (i / 16 == 3)) by (bit_vector);
    }
    assert forall|i: u64| i < 64 implies #[trigger] bit(NEG_X_FACE_MASK, i) == (i % 4 == 0) by {
        assert(i < 64 ==> ((0x1111_1111_1111_1111u64 >> i) & 1u64 == 1u64) == (i % 4 == 0)) by (bit_vector);
    }
    assert forall|i: u64| i < 64 implies #[trigger] bit(POS_X_FACE_MASK, i) == (i % 4 == 3) by {
        assert(i < 64 ==> ((0x8888_8888_8888_8888u64 >> i) & 1u64 == 1u64) == (i % 4 == 3)) by (bit_vector);
    }
    assert forall|i: u64| i < 64 implies #[trigger] bit(NEG_Z_FACE_MASK, i) == ((i / 4) % 4 == 0) by {
        assert(i < 64 ==> ((0x000F_000F_000F_000Fu64 >> i) & 1u64 == 1u64) == ((i / 4) % 4 == 0)) by (bit_vector);
    }
    assert forall|i: u64| i < 64 implies #[trigger] bit(POS_Z_FACE_MASK, i) == ((i / 4) % 4 == 3) by {
        assert(i < 64 ==> ((0xF000_F000_F000_F000u64 >> i) & 1u64 == 1u64) == ((i / 4) % 4 == 3)) by (bit_vector);
    }
}

/// For a mask that is a side of the cell, `m & mask == mask` says the side is
/// full in `m`, and `m & mask != 0` says it is touched.
pub proof fn lemma_side_tests(m: u64, mask: u64, axis: int, c: int)
    requires
        mask_is_side(mask, axis, c),
    ensures
        (m & mask == mask) == side_full(m, axis, c),
        (m & mask != 0) == side_touched(m, axis, c),
{
    if m & mask == mask {
        assert forall|sx: int, sy: int, sz: int| in_cell(sx, sy, sz) && on_side(axis, c, sx, sy, sz) implies #[trigger] sub_at(m, sx, sy, sz) by {
            lemma_coords_index(sx, sy, sz);
            let i = sub_index(sx, sy, sz) as u64;
            lemma_bit_and(m, mask, i);
            assert(bit(mask, i));
        }
    }
    if side_full(m, axis, c) {
        assert forall|i: u64| #![trigger bit(m & mask, i)] i < 64 implies bit(m & mask, i) == bit(mask, i) by {
            lemma_bit_and(m, mask, i);
            lemma_index_coords(i);
            if bit(mask, i) {
                assert(sub_at(m, idx_x(i), idx_y(i), idx_z(i)));
            }
        }
        lemma_bits_ext(m & mask, mask);
    }
    if m & mask != 0 {
        if forall|i: u64| #![trigger bit(m & mask, i)] i < 64 ==> !bit(m & mask, i) {
            assert forall|i: u64| #![trigger bit(m & mask, i)] i < 64 implies bit(m & mask, i) == bit(0u64, i) by {
                lemma_bit_zero(i);
            }
            lemma_bits_ext(m & mask, 0u64);
        }
        let i = choose|i: u64| #![trigger bit(m & mask, i)] i < 64 && bit(m & mask, i);
        lemma_bit_and(m, mask, i);
        lemma_index_coords(i);
        assert(sub_at(m, idx_x(i), idx_y(i), idx_z(i)));
    }
    if side_touched(m, axis, c) {
        let (sx, sy, sz) = choose|sx: int, sy: int, sz: int| in_cell(sx, sy, sz) && on_side(axis, c, sx, sy, sz) && #[trigger] sub_at(m, sx, sy, sz);
        lemma_coords_index(sx, sy, sz);
        let i = sub_index(sx, sy, sz) as u64;
        lemma_bit_and(m, mask, i);
        if m & mask == 0 {
            lemma_bit_zero(i);
        }
    }
}

#[inline]
pub fn sub_bit(sx: i32, sy: i32, sz: i32) -> (r: u64)
    requires
        i32::MIN <= sy * 16 <= i32::MAX,
        i32::MIN <= sz * 4 <= i32::MAX,
        i32::MIN <= sy * 16 + sz * 4 <= i32::MAX,
        0 <= sub_index(sx as int, sy as int, sz as int) < 64,
    ensures
        r == 1u64 << (sub_index(sx as int, sy as int, sz as int) as u64),
{
    let idx = (sy * 16 + sz * 4 + sx) as u64;
    1u64 << idx
}

#[inline]
pub fn has_sub(bits: u64, sx: i32, sy: i32, sz: i32) -> (r: bool)
    requires
        i32::MIN <= sy * 16 <= i32::MAX,
        i32::MIN <= sz * 4 <= i32::MAX,
        i32::MIN <= sy * 16 + sz * 4 <= i32::MAX,
        0 <= sub_index(sx as int, sy as int, sz as int) < 64,
    ensures
        r == sub_at(bits, sx as int, sy as int, sz as int),
{
    let b = sub_bit(sx, sy, sz);
    proof {
        lemma_and_single(bits, sub_index(sx as int, sy as int, sz as int) as u64);
    }
    bits & b != 0
}

/// The coordinates `(sx, sy, sz)` of the sub-blocks present in `bits` among
/// the first `n` bit indices, in index order: layer by layer from the bottom,
/// row by row along z, then along x.
pub open spec fn present_subs(bits: u64, n: int) -> Seq<(i32, i32, i32)>
    decreases n,
{
    if n <= 0 {
        Seq::empty()
    } else {
        let j = (n - 1) as u64;
        let s = present_subs(bits, n - 1);
        if bit(bits, j) {
            s.push((idx_x(j) as i32, idx_y(j) as i32, idx_z(j) as i32))
        } else {
            s
        }
    }
}

/// The sub-blocks present in a cell's mask, in the order the physics shape of
/// a carved cell lists its pieces.
pub fn present_sub_blocks(bits: u64) -> (r: Vec<(i32, i32, i32)>)
    ensures
        r@ == present_subs(bits, 64),
{
    let mut r: Vec<(i32, i32, i32)> = Vec::new();
    let mut j: u64 = 0;
    while j < 64
        invariant
            j <= 64,
            r@ == present_subs(bits, j as int),
        decreases 64 - j,
    {
        proof {
            lemma_and_single(bits, j);
        }
        if bits & (1u64 << j) != 0 {
            r.push(((j % 4) as i32, (j / 16) as i32, ((j / 4) % 4) as i32));
        }
        j = j + 1;
    }
    r
}

/// Wrap a sub-block coordinate into [0, SUBS), adjusting the cell index.
pub fn wrap(cell: i32, sub: i32) -> (r: (i32, i32))
    requires
        sub < 0 ==> cell > i32::MIN,
        sub >= SUBS ==> cell < i32::MAX,
    ensures
        sub < 0 ==> r.0 == cell - 1 && r.1 == sub + SUBS,
        sub >= SUBS ==> r.0 == cell + 1 && r.1 == sub - SUBS,
        0 <= sub < SUBS ==> r.0 == cell && r.1 == sub,
{
    if sub < 0 {
        (cell - 1, sub + SUBS)
    } else if sub >= SUBS {
        (cell + 1, sub - SUBS)
    } else {
        (cell, sub)
    }
}

// ---------------------------------------------------------------------------
// Shapes
// ---------------------------------------------------------------------------

/// Ramp: full at the back (sz = 3), one layer lower per step toward the front.
pub open spec fn slope_shape(sx: int, sy: int, sz: int) -> bool {
    sz >= sy
}

/// Concave corner: solid where either slope of the corner is.
pub open spec fn inner_corner_shape(sx: int, sy: int, sz: int) -> bool {
    sz >= sy || sx >= sy
}

/// Bottom half full, top half only at the back.
pub open spec fn stairs_shape(sx: int, sy: int, sz: int) -> bool {
    sy < 2 || sz >= 2
}

/// Center pillar: sx and sz in 1..=2, all heights.
pub open spec fn fence_shape(sx: int, sy: int, sz: int) -> bool {
    1 <= sx < 3 && 1 <= sz < 3
}

/// The unrotated shape of a freshly placed block.
pub open spec fn initial_shape(bt: BlockType, rotation: u8, sx: int, sy: int, sz: int) -> bool {
    match bt {
        BlockType::Cube => true,
        BlockType::Slab => if rotation == 1 {
            sy >= 2
        } else {
            sy < 2
        },
        BlockType::VerticalSlab => sz < 2,
        BlockType::Slope => slope_shape(sx, sy, sz),
        BlockType::InnerCornerSlope => inner_corner_shape(sx, sy, sz),
        BlockType::Stairs => stairs_shape(sx, sy, sz),
        BlockType::Fence => fence_shape(sx, sy, sz),
    }
}

/// `m` holds exactly the sub-blocks that `shape` selects.
pub open spec fn mask_of(m: u64, shape: spec_fn(int, int, int) -> bool) -> bool {
    forall|sx: int, sy: int, sz: int|
        in_cell(sx, sy, sz) ==> #[trigger] sub_at(m, sx, sy, sz) == shape(sx, sy, sz)
}

/// Get the initial sub-block mask for a block type (before rotation).
pub fn initial_sub_blocks(bt: BlockType, rotation: u8) -> (r: u64)
    ensures
        mask_of(r, |sx: int, sy: int, sz: int| initial_shape(bt, rotation, sx, sy, sz)),
{
    match bt {
        BlockType::Cube => {
            proof {
                assert forall|sx: int, sy: int, sz: int| in_cell(sx, sy, sz) implies #[trigger] sub_at(ALL_SUBS, sx, sy, sz) by {
                    let i = sub_index(sx, sy, sz) as u64;
                    assert((0xFFFF_FFFF_FFFF_FFFFu64 >> i) & 1u64 == 1u64) by (bit_vector)
                        requires
                            i < 64,
                    ;
                }
            }
            ALL_SUBS
        },
        BlockType::Slab => {
            if rotation == 1 {
                proof {
                    assert forall|sx: int, sy: int, sz: int| in_cell(sx, sy, sz) implies #[trigger] sub_at(THIRD_LAYER_MASK | TOP_LAYER_MASK, sx, sy, sz) == (sy >= 2) by {
                        let i = sub_index(sx, sy, sz) as u64;
                        assert((((0x0000_FFFF_0000_0000u64 | 0xFFFF_0000_0000_0000u64) >> i) & 1u64
                            == 1u64) == (i >= 32)) by (bit_vector)
                            requires
                                i < 64,
                        ;
                    }
                }
                THIRD_LAYER_MASK | TOP_LAYER_MASK
            } else {
                proof {
                    assert forall|sx: int, sy: int, sz: int| in_cell(sx, sy, sz) implies #[trigger] sub_at(BOTTOM_LAYER_MASK | SECOND_LAYER_MASK, sx, sy, sz) == (sy < 2) by {
                        let i = sub_index(sx, sy, sz) as u64;
                        assert((((0x0000_0000_0000_FFFFu64 | 0x0000_0000_FFFF_0000u64) >> i) & 1u64
                            == 1u64) == (i < 32)) by (bit_vector)
                            requires
                                i < 64,
                        ;
                    }
                }
                BOTTOM_LAYER_MASK | SECOND_LAYER_MASK
            }
        },
        BlockType::VerticalSlab => {
            proof {
                assert forall|sx: int, sy: int, sz: int| in_cell(sx, sy, sz) implies #[trigger] sub_at(NEG_Z_HALF_MASK, sx, sy, sz) == (sz < 2) by {
                    let i = sub_index(sx, sy, sz) as u64;
                    assert(((0x00FF_00FF_00FF_00FFu64 >> i) & 1u64 == 1u64) == (i % 16 < 8)) by (bit_vector)
                        requires
                            i < 64,
                    ;
                }
            }
            NEG_Z_HALF_MASK
        },
        BlockType::Slope => slope_mask(),
        BlockType::InnerCornerSlope => inner_corner_slope_mask(),
        BlockType::Stairs => stairs_mask(),
        BlockType::Fence => fence_mask(),
    }
}

fn slope_mask() -> (r: u64)
    ensures
        mask_of(r, |sx: int, sy: int, sz: int| slope_shape(sx, sy, sz)),
{
    let mut mask = 0u64;
    let mut i: u64 = 0;
    proof {
        assert forall|j: u64| j < 64 implies #[trigger] bit(mask, j) == (j < i && (j < 64 && slope_shape(idx_x(j), idx_y(j), idx_z(j)))) by {
            lemma_bit_zero(j);
        }
    }
    while i < 64
        invariant
            i <= 64,
            forall|j: u64| #![trigger bit(mask, j)] j < 64 ==> bit(mask, j) == (j < i && (j < 64 && slope_shape(idx_x(j), idx_y(j), idx_z(j)))),
        decreases 64 - i,
    {
        let sx = (i % 4) as i32;
        let sz = ((i / 4) % 4) as i32;
        let sy = (i / 16) as i32;
        proof {
            lemma_index_coords(i);
            assert(sx as int == idx_x(i) && sy as int == idx_y(i) && sz as int == idx_z(i));
        }
        let old_mask = mask;
        if sz >= sy {
            mask = mask | sub_bit(sx, sy, sz);
        }
        proof {
            lemma_fill_step(old_mask, mask, i, |j: u64| j < 64 && slope_shape(idx_x(j), idx_y(j), idx_z(j)));
        }
        i = i + 1;
    }
    proof {
        lemma_filled_shape(mask, |sx: int, sy: int, sz: int| slope_shape(sx, sy, sz));
    }
    mask
}

fn inner_corner_slope_mask() -> (r: u64)
    ensures
        mask_of(r, |sx: int, sy: int, sz: int| inner_corner_shape(sx, sy, sz)),
{
    let mut mask = 0u64;
    let mut i: u64 = 0;
    proof {
        assert forall|j: u64| j < 64 implies #[trigger] bit(mask, j) == (j < i && (j < 64 && inner_corner_shape(idx_x(j), idx_y(j), idx_z(j)))) by {
            lemma_bit_zero(j);
        }
    }
    while i < 64
        invariant
            i <= 64,
            forall|j: u64| #![trigger bit(mask, j)] j < 64 ==> bit(mask, j) == (j < i && (j < 64 && inner_corner_shape(idx_x(j), idx_y(j), idx_z(j)))),
        decreases 64 - i,
    {
        let sx = (i % 4) as i32;
        let sz = ((i / 4) % 4) as i32;
        let sy = (i / 16) as i32;
        proof {
            lemma_index_coords(i);
            assert(sx as int == idx_x(i) && sy as int == idx_y(i) && sz as int == idx_z(i));
        }
        let old_mask = mask;
        if sz >= sy || sx >= sy {
            mask = mask | sub_bit(sx, sy, sz);
        }
        proof {
            lemma_fill_step(old_mask, mask, i, |j: u64| j < 64 && inner_corner_shape(idx_x(j), idx_y(j), idx_z(j)));
        }
        i = i + 1;
    }
    proof {
        lemma_filled_shape(mask, |sx: int, sy: int, sz: int| inner_corner_shape(sx, sy, sz));
    }
    mask
}

fn stairs_mask() -> (r: u64)
    ensures
        mask_of(r, |sx: int, sy: int, sz: int| stairs_shape(sx, sy, sz)),
{
    let mut mask = 0u64;
    let mut i: u64 = 0;
    proof {
        assert forall|j: u64| j < 64 implies #[trigger] bit(mask, j) == (j < i && (j < 64 && stairs_shape(idx_x(j), idx_y(j), idx_z(j)))) by {
            lemma_bit_zero(j);
        }
    }
    while i < 64
        invariant
            i <= 64,
            forall|j: u64| #![trigger bit(mask, j)] j < 64 ==> bit(mask, j) == (j < i && (j < 64 && stairs_shape(idx_x(j), idx_y(j), idx_z(j)))),
        decreases 64 - i,
    {
        let sx = (i % 4) as i32;
        let sz = ((i / 4) % 4) as i32;
        let sy = (i / 16) as i32;
        proof {
            lemma_index_coords(i);
            assert(sx as int == idx_x(i) && sy as int == idx_y(i) && sz as int == idx_z(i));
        }
        let old_mask = mask;
        if sy < 2 || sz >= 2 {
            mask = mask | sub_bit(sx, sy, sz);
        }
        proof {
            lemma_fill_step(old_mask, mask, i, |j: u64| j < 64 && stairs_shape(idx_x(j), idx_y(j), idx_z(j)));
        }
        i = i + 1;
    }
    proof {
        lemma_filled_shape(mask, |sx: int, sy: int, sz: int| stairs_shape(sx, sy, sz));
    }
    mask
}

fn fence_mask() -> (r: u64)
    ensures
        mask_of(r, |sx: int, sy: int, sz: int| fence_shape(sx, sy, sz)),
{
    let mut mask = 0u64;
    let mut i: u64 = 0;
    proof {
        assert forall|j: u64| j < 64 implies #[trigger] bit(mask, j) == (j < i && (j < 64 && fence_shape(idx_x(j), idx_y(j), idx_z(j)))) by {
            lemma_bit_zero(j);
        }
    }
    while i < 64
        invariant
            i <= 64,
            forall|j: u64| #![trigger bit(mask, j)] j < 64 ==> bit(mask, j) == (j < i && (j < 64 && fence_shape(idx_x(j), idx_y(j), idx_z(j)))),
        decreases 64 - i,
    {
        let sx = (i % 4) as i32;
        let sz = ((i / 4) % 4) as i32;
        let sy = (i / 16) as i32;
        proof {
            lemma_index_coords(i);
            assert(sx as int == idx_x(i) && sy as int == idx_y(i) && sz as int == idx_z(i));
        }
        let old_mask = mask;
        if 1 <= sx && sx < 3 && 1 <= sz && sz < 3 {
            mask = mask | sub_bit(sx, sy, sz);
        }
        proof {
            lemma_fill_step(old_mask, mask, i, |j: u64| j < 64 && fence_shape(idx_x(j), idx_y(j), idx_z(j)));
        }
        i = i + 1;
    }
    proof {
        lemma_filled_shape(mask, |sx: int, sy: int, sz: int| fence_shape(sx, sy, sz));
    }
    mask
}

// ---------------------------------------------------------------------------
// Rotation and mirroring
// ---------------------------------------------------------------------------

/// X coordinate of `(sx, sz)` after `r` quarter turns clockwise (seen from above).
pub open spec fn rot_x(sx: int, sz: int, r: int) -> int {
    if r % 4 == 0 {
        sx
    } else if r % 4 == 1 {
        3 - sz
    } else if r % 4 == 2 {
        3 - sx
    } else {
        sz
    }
}

/// Z coordinate of `(sx, sz)` after `r` quarter turns clockwise (seen from above).
pub open spec fn rot_z(sx: int, sz: int, r: int) -> int {
    if r % 4 == 0 {
        sz
    } else if r % 4 == 1 {
        sx
    } else if r % 4 == 2 {
        3 - sz
    } else {
        3 - sx
    }
}

/// `result` is `mask` turned by `r` quarter turns around the vertical axis:
/// the sub-block at `(sx, sy, sz)` of `mask` lands at
/// `(rot_x(sx, sz, r), sy, rot_z(sx, sz, r))` of `result`.
pub open spec fn rotation_of(mask: u64, r: int, result: u64) -> bool {
    forall|sx: int, sy: int, sz: int|
        in_cell(sx, sy, sz) ==> #[trigger] sub_at(mask, sx, sy, sz) == sub_at(
            result,
            rot_x(sx, sz, r),
            sy,
            rot_z(sx, sz, r),
        )
}

/// `result` is `mask` mirrored on the X axis (sx becomes 3 - sx).
pub open spec fn mirror_x_of(mask: u64, result: u64) -> bool {
    forall|sx: int, sy: int, sz: int|
        in_cell(sx, sy, sz) ==> #[trigger] sub_at(mask, sx, sy, sz) == sub_at(result, 3 - sx, sy, sz)
}

/// `result` is `mask` mirrored on the Z axis (sz becomes 3 - sz).
pub open spec fn mirror_z_of(mask: u64, result: u64) -> bool {
    forall|sx: int, sy: int, sz: int|
        in_cell(sx, sy, sz) ==> #[trigger] sub_at(mask, sx, sy, sz) == sub_at(result, sx, sy, 3 - sz)
}

/// The number of quarter turns that undoes `r` quarter turns.
pub open spec fn inv_quarter(r: int) -> int {
    (4 - r % 4) % 4
}

/// Bit index that index `k` moves to under `r` quarter turns.
pub open spec fn rot_index(k: u64, r: int) -> u64 {
    sub_index(rot_x(idx_x(k), idx_z(k), r), idx_y(k), rot_z(idx_x(k), idx_z(k), r)) as u64
}

pub open spec fn mirror_x_index(k: u64) -> u64 {
    sub_index(3 - idx_x(k), idx_y(k), idx_z(k)) as u64
}

pub open spec fn mirror_z_index(k: u64) -> u64 {
    sub_index(idx_x(k), idx_y(k), 3 - idx_z(k)) as u64
}

proof fn lemma_rot_coords(sx: int, sz: int, r: int)
    requires
        0 <= sx < 4,
        0 <= sz < 4,
        r >= 0,
    ensures
        0 <= rot_x(sx, sz, r) < 4,
        0 <= rot_z(sx, sz, r) < 4,
        rot_x(rot_x(sx, sz, r), rot_z(sx, sz, r), inv_quarter(r)) == sx,
        rot_z(rot_x(sx, sz, r), rot_z(sx, sz, r), inv_quarter(r)) == sz,
        rot_x(rot_x(sx, sz, inv_quarter(r)), rot_z(sx, sz, inv_quarter(r)), r) == sx,
        rot_z(rot_x(sx, sz, inv_quarter(r)), rot_z(sx, sz, inv_quarter(r)), r) == sz,
{
}

proof fn lemma_rot_perm(r: int)
    requires
        r >= 0,
    ensures
        forall|k: u64| #![trigger rot_index(k, r)] k < 64 ==> rot_index(k, r) < 64 && rot_index(rot_index(k, r), inv_quarter(r)) == k,
        forall|k: u64| #![trigger rot_index(k, inv_quarter(r))] k < 64 ==> rot_index(k, inv_quarter(r)) < 64 && rot_index(rot_index(k, inv_quarter(r)), r) == k,
{
    assert forall|k: u64| k < 64 implies #[trigger] rot_index(k, r) < 64 && rot_index(rot_index(k, r), inv_quarter(r)) == k by {
        lemma_index_coords(k);
        let (x, y, z) = (idx_x(k), idx_y(k), idx_z(k));
        lemma_rot_coords(x, z, r);
        lemma_coords_index(rot_x(x, z, r), y, rot_z(x, z, r));
    }
    assert forall|k: u64| k < 64 implies #[trigger] rot_index(k, inv_quarter(r)) < 64 && rot_index(rot_index(k, inv_quarter(r)), r) == k by {
        lemma_index_coords(k);
        let (x, y, z) = (idx_x(k), idx_y(k), idx_z(k));
        lemma_rot_coords(x, z, r);
        lemma_rot_coords(x, z, inv_quarter(r));
        lemma_coords_index(rot_x(x, z, inv_quarter(r)), y, rot_z(x, z, inv_quarter(r)));
    }
}

/// Rotate (sx, sz) in a 4x4 grid by rotation*90deg CW.
pub fn rotate_xz(sx: i32, sz: i32, rotation: u8) -> (r: (i32, i32))
    requires
        (rotation % 4 == 1 || rotation % 4 == 2) ==> sz >= i32::MIN + 4,
        (rotation % 4 == 2 || rotation % 4 == 3) ==> sx >= i32::MIN + 4,
    ensures
        r.0 == rot_x(sx as int, sz as int, rotation as int),
        r.1 == rot_z(sx as int, sz as int, rotation as int),
{
    let q = rotation % 4;
    if q == 0 {
        (sx, sz)
    } else if q == 1 {
        (3 - sz, sx)
    } else if q == 2 {
        (3 - sx, 3 - sz)
    } else {
        (sz, 3 - sx)
    }
}

/// Rotate a sub-block bitmask by `rotation` * 90deg around Y (clockwise when viewed from above).
pub fn rotate_sub_blocks(mask: u64, rotation: u8) -> (r: u64)
    ensures
        rotation_of(mask, rotation as int, r),
{
    if rotation == 0 {
        return mask;
    }
    let ghost rr = rotation as int;
    proof {
        lemma_rot_perm(rr);
    }
    let mut result = 0u64;
    let mut i: u64 = 0;
    proof {
        assert forall|j: u64| j < 64 implies #[trigger] bit(result, j) == (rot_index(j, inv_quarter(rr)) < i && bit(mask, rot_index(j, inv_quarter(rr)))) by {
            lemma_bit_zero(j);
        }
    }
    while i < 64
        invariant
            i <= 64,
            rr == rotation as int,
            rr >= 0,
            forall|k: u64| #![trigger rot_index(k, rr)] k < 64 ==> rot_index(k, rr) < 64 && rot_index(rot_index(k, rr), inv_quarter(rr)) == k,
            forall|k: u64| #![trigger rot_index(k, inv_quarter(rr))] k < 64 ==> rot_index(k, inv_quarter(rr)) < 64 && rot_index(rot_index(k, inv_quarter(rr)), rr) == k,
            forall|j: u64| #![trigger bit(result, j)] j < 64 ==> bit(result, j) == (rot_index(j, inv_quarter(rr)) < i && bit(mask, rot_index(j, inv_quarter(rr)))),
        decreases 64 - i,
    {
        let sx = (i % 4) as i32;
        let sz = ((i / 4) % 4) as i32;
        let sy = (i / 16) as i32;
        proof {
            lemma_index_coords(i);
            assert(sx as int == idx_x(i) && sy as int == idx_y(i) && sz as int == idx_z(i));
            lemma_rot_coords(sx as int, sz as int, rr);
            lemma_coords_index(rot_x(sx as int, sz as int, rr), sy as int, rot_z(sx as int, sz as int, rr));
        }
        let old_result = result;
        let present = has_sub(mask, sx, sy, sz);
        if present {
            let (nx, nz) = rotate_xz(sx, sz, rotation);
            result = result | sub_bit(nx, sy, nz);
        }
        proof {
            lemma_permute_step(
                mask,
                old_result,
                result,
                i,
                |k: u64| rot_index(k, rr),
                |k: u64| rot_index(k, inv_quarter(rr)),
            );
        }
        i = i + 1;
    }
    proof {
        assert forall|sx: int, sy: int, sz: int| in_cell(sx, sy, sz) implies #[trigger] sub_at(mask, sx, sy, sz) == sub_at(result, rot_x(sx, sz, rr), sy, rot_z(sx, sz, rr)) by {
            lemma_coords_index(sx, sy, sz);
            let k = sub_index(sx, sy, sz) as u64;
            assert(rot_index(k, rr) < 64 && rot_index(rot_index(k, rr), inv_quarter(rr)) == k);
            assert(bit(result, rot_index(k, rr)) == bit(mask, k));
        }
    }
    result
}

/// The sub-blocks of a freshly placed block: its initial shape turned by
/// `rotation` quarter turns.
pub open spec fn pristine_shape(bt: BlockType, rotation: u8, sx: int, sy: int, sz: int) -> bool {
    let back = inv_quarter(rotation as int);
    initial_shape(bt, rotation, rot_x(sx, sz, back), sy, rot_z(sx, sz, back))
}

/// `m` holds exactly the sub-blocks of a freshly placed block.
pub open spec fn is_pristine_mask(m: u64, bt: BlockType, rotation: u8) -> bool {
    mask_of(m, |sx: int, sy: int, sz: int| pristine_shape(bt, rotation, sx, sy, sz))
}

/// The mask of a freshly placed block (the only mask of `pristine_shape`).
pub open spec fn pristine_mask(bt: BlockType, rotation: u8) -> u64 {
    choose|m: u64| #[trigger] is_pristine_mask(m, bt, rotation)
}

/// Only one mask holds exactly the sub-blocks of a shape.
pub proof fn lemma_mask_unique(a: u64, b: u64, shape: spec_fn(int, int, int) -> bool)
    requires
        mask_of(a, shape),
        mask_of(b, shape),
    ensures
        a == b,
{
    assert forall|sx: int, sy: int, sz: int| in_cell(sx, sy, sz) implies #[trigger] sub_at(a, sx, sy, sz) == sub_at(b, sx, sy, sz) by {
        assert(sub_at(a, sx, sy, sz) == shape(sx, sy, sz));
        assert(sub_at(b, sx, sy, sz) == shape(sx, sy, sz));
    }
    lemma_cell_ext(a, b);
}

/// The sub-block mask of a freshly placed block of type `bt` turned by `rotation`.
pub fn pristine_sub_blocks(bt: BlockType, rotation: u8) -> (r: u64)
    ensures
        r == pristine_mask(bt, rotation),
        is_pristine_mask(r, bt, rotation),
{
    let m0 = initial_sub_blocks(bt, rotation);
    let r = rotate_sub_blocks(m0, rotation);
    proof {
        let rr = rotation as int;
        let shape = |sx: int, sy: int, sz: int| pristine_shape(bt, rotation, sx, sy, sz);
        assert forall|sx: int, sy: int, sz: int| in_cell(sx, sy, sz) implies #[trigger] sub_at(r, sx, sy, sz) == shape(sx, sy, sz) by {
            let px = rot_x(sx, sz, inv_quarter(rr));
            let pz = rot_z(sx, sz, inv_quarter(rr));
            lemma_rot_coords(sx, sz, rr);
            lemma_rot_coords(sx, sz, inv_quarter(rr));
            assert(in_cell(px, sy, pz));
            assert(sub_at(m0, px, sy, pz) == sub_at(r, rot_x(px, pz, rr), sy, rot_z(px, pz, rr)));
            assert(sub_at(m0, px, sy, pz) == initial_shape(bt, rotation, px, sy, pz));
        }
        assert(is_pristine_mask(r, bt, rotation));
        let c = pristine_mask(bt, rotation);
        assert(is_pristine_mask(c, bt, rotation));
        lemma_mask_unique(r, c, shape);
    }
    r
}

/// The sub-blocks `sub_blocks` are those of a freshly placed block.
pub fn is_pristine(bt: BlockType, rotation: u8, sub_blocks: u64) -> (r: bool)
    ensures
        r == (sub_blocks == pristine_mask(bt, rotation)),
{
    sub_blocks == pristine_sub_blocks(bt, rotation)
}

proof fn lemma_mirror_x_perm()
    ensures
        forall|k: u64| #![trigger mirror_x_index(k)] k < 64 ==> mirror_x_index(k) < 64 && mirror_x_index(mirror_x_index(k)) == k,
{
    assert forall|k: u64| k < 64 implies #[trigger] mirror_x_index(k) < 64 && mirror_x_index(mirror_x_index(k)) == k by {
        lemma_index_coords(k);
        lemma_coords_index(3 - idx_x(k), idx_y(k), idx_z(k));
    }
}

proof fn lemma_mirror_z_perm()
    ensures
        forall|k: u64| #![trigger mirror_z_index(k)] k < 64 ==> mirror_z_index(k) < 64 && mirror_z_index(mirror_z_index(k)) == k,
{
    assert forall|k: u64| k < 64 implies #[trigger] mirror_z_index(k) < 64 && mirror_z_index(mirror_z_index(k)) == k by {
        lemma_index_coords(k);
        lemma_coords_index(idx_x(k), idx_y(k), 3 - idx_z(k));
    }
}

/// Mirror a sub-block bitmask on the X axis (flip sx: 0<->3, 1<->2).
pub fn mirror_sub_blocks_x(mask: u64) -> (r: u64)
    ensures
        mirror_x_of(mask, r),
{
    proof {
        lemma_mirror_x_perm();
    }
    let mut result = 0u64;
    let mut i: u64 = 0;
    proof {
        assert forall|j: u64| j < 64 implies #[trigger] bit(result, j) == (mirror_x_index(j) < i && bit(mask, mirror_x_index(j))) by {
            lemma_bit_zero(j);
        }
    }
    while i < 64
        invariant
            i <= 64,
            forall|k: u64| #![trigger mirror_x_index(k)] k < 64 ==> mirror_x_index(k) < 64 && mirror_x_index(mirror_x_index(k)) == k,
            forall|j: u64| #![trigger bit(result, j)] j < 64 ==> bit(result, j) == (mirror_x_index(j) < i && bit(mask, mirror_x_index(j))),
        decreases 64 - i,
    {
        let sx = (i % 4) as i32;
        let sz = ((i / 4) % 4) as i32;
        let sy = (i / 16) as i32;
        proof {
            lemma_index_coords(i);
            assert(sx as int == idx_x(i) && sy as int == idx_y(i) && sz as int == idx_z(i));
            lemma_coords_index(3 - sx, sy as int, sz as int);
        }
        let old_result = result;
        if has_sub(mask, sx, sy, sz) {
            result = result | sub_bit(3 - sx, sy, sz);
        }
        proof {
            lemma_permute_step(
                mask,
                old_result,
                result,
                i,
                |k: u64| mirror_x_index(k),
                |k: u64| mirror_x_index(k),
            );
        }
        i = i + 1;
    }
    proof {
        assert forall|sx: int, sy: int, sz: int| in_cell(sx, sy, sz) implies #[trigger] sub_at(mask, sx, sy, sz) == sub_at(result, 3 - sx, sy, sz) by {
            lemma_coords_index(sx, sy, sz);
            let k = sub_index(sx, sy, sz) as u64;
            assert(mirror_x_index(k) < 64 && mirror_x_index(mirror_x_index(k)) == k);
            assert(bit(result, mirror_x_index(k)) == bit(mask, k));
        }
    }
    result
}

/// Mirror a sub-block bitmask on the Z axis (flip sz: 0<->3, 1<->2).
pub fn mirror_sub_blocks_z(mask: u64) -> (r: u64)
    ensures
        mirror_z_of(mask, r),
{
    proof {
        lemma_mirror_z_perm();
    }
    let mut result = 0u64;
    let mut i: u64 = 0;
    proof {
        assert forall|j: u64| j < 64 implies #[trigger] bit(result, j) == (mirror_z_index(j) < i && bit(mask, mirror_z_index(j))) by {
            lemma_bit_zero(j);
        }
    }
    while i < 64
        invariant
            i <= 64,
            forall|k: u64| #![trigger mirror_z_index(k)] k < 64 ==> mirror_z_index(k) < 64 && mirror_z_index(mirror_z_index(k)) == k,
            forall|j: u64| #![trigger bit(result, j)] j < 64 ==> bit(result, j) == (mirror_z_index(j) < i && bit(mask, mirror_z_index(j))),
        decreases 64 - i,
    {
        let sx = (i % 4) as i32;
        let sz = ((i / 4) % 4) as i32;
        let sy = (i / 16) as i32;
        proof {
            lemma_index_coords(i);
            assert(sx as int == idx_x(i) && sy as int == idx_y(i) && sz as int == idx_z(i));
            lemma_coords_index(sx as int, sy as int, 3 - sz);
        }
        let old_result = result;
        if has_sub(mask, sx, sy, sz) {
            result = result | sub_bit(sx, sy, 3 - sz);
        }
        proof {
            lemma_permute_step(
                mask,
                old_result,
                result,
                i,
                |k: u64| mirror_z_index(k),
                |k: u64| mirror_z_index(k),
            );
        }
        i = i + 1;
    }
    proof {
        assert forall|sx: int, sy: int, sz: int| in_cell(sx, sy, sz) implies #[trigger] sub_at(mask, sx, sy, sz) == sub_at(result, sx, sy, 3 - sz) by {
            lemma_coords_index(sx, sy, sz);
            let k = sub_index(sx, sy, sz) as u64;
            assert(mirror_z_index(k) < 64 && mirror_z_index(mirror_z_index(k)) == k);
            assert(bit(result, mirror_z_index(k)) == bit(mask, k));
        }
    }
    result
}

// ---------------------------------------------------------------------------
// Laws of rotation and mirroring
// ---------------------------------------------------------------------------

proof fn lemma_rot_add(sx: int, sz: int, a: int, b: int)
    requires
        a >= 0,
        b >= 0,
    ensures
        rot_x(rot_x(sx, sz, a), rot_z(sx, sz, a), b) == rot_x(sx, sz, a + b),
        rot_z(rot_x(sx, sz, a), rot_z(sx, sz, a), b) == rot_z(sx, sz, a + b),
{
    assert((a + b) % 4 == (a % 4 + b % 4) % 4);
}

/// A mask has only one rotation by a given number of quarter turns.
pub proof fn law_rotation_unique(m: u64, r: int, a: u64, b: u64)
    requires
        r >= 0,
        rotation_of(m, r, a),
        rotation_of(m, r, b),
    ensures
        a == b,
{
    assert forall|sx: int, sy: int, sz: int| in_cell(sx, sy, sz) implies #[trigger] sub_at(a, sx, sy, sz) == sub_at(b, sx, sy, sz) by {
        let px = rot_x(sx, sz, inv_quarter(r));
        let pz = rot_z(sx, sz, inv_quarter(r));
        lemma_rot_coords(sx, sz, r);
        lemma_rot_coords(sx, sz, inv_quarter(r));
        assert(sub_at(m, px, sy, pz) == sub_at(a, rot_x(px, pz, r), sy, rot_z(px, pz, r)));
        assert(sub_at(m, px, sy, pz) == sub_at(b, rot_x(px, pz, r), sy, rot_z(px, pz, r)));
    }
    lemma_cell_ext(a, b);
}

/// Turning by `a` quarter turns and then by `b` is turning by `a + b`.
pub proof fn law_rotation_compose(m: u64, a: int, b: int, m1: u64, m2: u64)
    requires
        a >= 0,
        b >= 0,
        rotation_of(m, a, m1),
        rotation_of(m1, b, m2),
    ensures
        rotation_of(m, a + b, m2),
{
    assert forall|sx: int, sy: int, sz: int| in_cell(sx, sy, sz) implies #[trigger] sub_at(m, sx, sy, sz) == sub_at(m2, rot_x(sx, sz, a + b), sy, rot_z(sx, sz, a + b)) by {
        lemma_rot_coords(sx, sz, a);
        lemma_rot_add(sx, sz, a, b);
        let qx = rot_x(sx, sz, a);
        let qz = rot_z(sx, sz, a);
        assert(sub_at(m1, qx, sy, qz) == sub_at(m2, rot_x(qx, qz, b), sy, rot_z(qx, qz, b)));
    }
}

/// A whole number of full turns leaves a mask unchanged.
pub proof fn law_rotation_full_turn(m: u64, r: int, res: u64)
    requires
        r >= 0,
        r % 4 == 0,
        rotation_of(m, r, res),
    ensures
        res == m,
{
    assert forall|sx: int, sy: int, sz: int| in_cell(sx, sy, sz) implies #[trigger] sub_at(res, sx, sy, sz) == sub_at(m, sx, sy, sz) by {
        assert(sub_at(m, sx, sy, sz) == sub_at(res, rot_x(sx, sz, r), sy, rot_z(sx, sz, r)));
    }
    lemma_cell_ext(res, m);
}

/// Four single quarter turns bring a mask back to where it started.
pub proof fn law_four_quarter_turns(m: u64, m1: u64, m2: u64, m3: u64, m4: u64)
    requires
        rotation_of(m, 1, m1),
        rotation_of(m1, 1, m2),
        rotation_of(m2, 1, m3),
        rotation_of(m3, 1, m4),
    ensures
        m4 == m,
{
    law_rotation_compose(m, 1, 1, m1, m2);
    law_rotation_compose(m, 2, 1, m2, m3);
    law_rotation_compose(m, 3, 1, m3, m4);
    law_rotation_full_turn(m, 4, m4);
}

/// Mirroring twice on the X axis restores the mask.
pub proof fn law_mirror_x_involution(m: u64, a: u64, b: u64)
    requires
        mirror_x_of(m, a),
        mirror_x_of(a, b),
    ensures
        b == m,
{
    assert forall|sx: int, sy: int, sz: int| in_cell(sx, sy, sz) implies #[trigger] sub_at(b, sx, sy, sz) == sub_at(m, sx, sy, sz) by {
        assert(sub_at(m, sx, sy, sz) == sub_at(a, 3 - sx, sy, sz));
        assert(sub_at(a, 3 - sx, sy, sz) == sub_at(b, 3 - (3 - sx), sy, sz));
    }
    lemma_cell_ext(b, m);
}

/// Mirroring twice on the Z axis restores the mask.
pub proof fn law_mirror_z_involution(m: u64, a: u64, b: u64)
    requires
        mirror_z_of(m, a),
        mirror_z_of(a, b),
    ensures
        b == m,
{
    assert forall|sx: int, sy: int, sz: int| in_cell(sx, sy, sz) implies #[trigger] sub_at(b, sx, sy, sz) == sub_at(m, sx, sy, sz) by {
        assert(sub_at(m, sx, sy, sz) == sub_at(a, sx, sy, 3 - sz));
        assert(sub_at(a, sx, sy, 3 - sz) == sub_at(b, sx, sy, 3 - (3 - sz)));
    }
    lemma_cell_ext(b, m);
}

/// Mirroring on X and then on Z is a half turn.
pub proof fn law_mirror_xz_is_half_turn(m: u64, a: u64, b: u64)
    requires
        mirror_x_of(m, a),
        mirror_z_of(a, b),
    ensures
        rotation_of(m, 2, b),
{
    assert forall|sx: int, sy: int, sz: int| in_cell(sx, sy, sz) implies #[trigger] sub_at(m, sx, sy, sz) == sub_at(b, rot_x(sx, sz, 2), sy, rot_z(sx, sz, 2)) by {
        assert(sub_at(m, sx, sy, sz) == sub_at(a, 3 - sx, sy, sz));
        assert(sub_at(a, 3 - sx, sy, sz) == sub_at(b, 3 - sx, sy, 3 - sz));
    }
}

/// Mirroring on Z and then on X is a half turn too.
pub proof fn law_mirror_zx_is_half_turn(m: u64, a: u64, b: u64)
    requires
        mirror_z_of(m, a),
        mirror_x_of(a, b),
    ensures
        rotation_of(m, 2, b),
{
    assert forall|sx: int, sy: int, sz: int| in_cell(sx, sy, sz) implies #[trigger] sub_at(m, sx, sy, sz) == sub_at(b, rot_x(sx, sz, 2), sy, rot_z(sx, sz, 2)) by {
        assert(sub_at(m, sx, sy, sz) == sub_at(a, sx, sy, 3 - sz));
        assert(sub_at(a, sx, sy, 3 - sz) == sub_at(b, 3 - sx, sy, 3 - sz));
    }
}

/// 1 if the sub-block at `(sx, sy, sz)` is present, else 0.
pub open spec fn present(m: u64, sx: int, sy: int, sz: int) -> int {
    if sub_at(m, sx, sy, sz) {
        1
    } else {
        0
    }
}

/// The number of sub-blocks present in row `sz` of layer `sy`.
pub open spec fn row_count(m: u64, sy: int, sz: int) -> int {
    present(m, 0, sy, sz) + present(m, 1, sy, sz) + present(m, 2, sy, sz) + present(m, 3, sy, sz)
}

/// The number of sub-blocks present in layer `sy`.
pub open spec fn layer_count(m: u64, sy: int) -> int {
    row_count(m, sy, 0) + row_count(m, sy, 1) + row_count(m, sy, 2) + row_count(m, sy, 3)
}

/// The number of sub-blocks present in the whole cell.
pub open spec fn sub_count(m: u64) -> int {
    layer_count(m, 0) + layer_count(m, 1) + layer_count(m, 2) + layer_count(m, 3)
}

proof fn lemma_rotation_keeps_layer(m: u64, r: int, res: u64, sy: int)
    requires
        r >= 0,
        0 <= sy < 4,
        rotation_of(m, r, res),
    ensures
        layer_count(res, sy) == layer_count(m, sy),
{
    if r % 4 == 0 {
        assert(present(m, 0, sy, 0) == present(res, 0, sy, 0));
        assert(present(m, 1, sy, 0) == present(res, 1, sy, 0));
        assert(present(m, 2, sy, 0) == present(res, 2, sy, 0));
        assert(present(m, 3, sy, 0) == present(res, 3, sy, 0));
        assert(present(m, 0, sy, 1) == present(res, 0, sy, 1));
        assert(present(m, 1, sy, 1) == present(res, 1, sy, 1));
        assert(present(m, 2, sy, 1) == present(res, 2, sy, 1));
        assert(present(m, 3, sy, 1) == present(res, 3, sy, 1));
        assert(present(m, 0, sy, 2) == present(res, 0, sy, 2));
        assert(present(m, 1, sy, 2) == present(res, 1, sy, 2));
        assert(present(m, 2, sy, 2) == present(res, 2, sy, 2));
        assert(present(m, 3, sy, 2) == present(res, 3, sy, 2));
        assert(present(m, 0, sy, 3) == present(res, 0, sy, 3));
        assert(present(m, 1, sy, 3) == present(res, 1, sy, 3));
        assert(present(m, 2, sy, 3) == present(res, 2, sy, 3));
        assert(present(m, 3, sy, 3) == present(res, 3, sy, 3));
    } else if r % 4 == 1 {
        assert(present(m, 0, sy, 0) == present(res, 3, sy, 0));
        assert(present(m, 1, sy, 0) == present(res, 3, sy, 1));
        assert(present(m, 2, sy, 0) == present(res, 3, sy, 2));
        assert(present(m, 3, sy, 0) == present(res, 3, sy, 3));
        assert(present(m, 0, sy, 1) == present(res, 2, sy, 0));
        assert(present(m, 1, sy, 1) == present(res, 2, sy, 1));
        assert(present(m, 2, sy, 1) == present(res, 2, sy, 2));
        assert(present(m, 3, sy, 1) == present(res, 2, sy, 3));
        assert(present(m, 0, sy, 2) == present(res, 1, sy, 0));
        assert(present(m, 1, sy, 2) == present(res, 1, sy, 1));
        assert(present(m, 2, sy, 2) == present(res, 1, sy, 2));
        assert(present(m, 3, sy, 2) == present(res, 1, sy, 3));
        assert(present(m, 0, sy, 3) == present(res, 0, sy, 0));
        assert(present(m, 1, sy, 3) == present(res, 0, sy, 1));
        assert(present(m, 2, sy, 3) == present(res, 0, sy, 2));
        assert(present(m, 3, sy, 3) == present(res, 0, sy, 3));
    } else if r % 4 == 2 {
        assert(present(m, 0, sy, 0) == present(res, 3, sy, 3));
        assert(present(m, 1, sy, 0) == present(res, 2, sy, 3));
        assert(present(m, 2, sy, 0) == present(res, 1, sy, 3));
        assert(present(m, 3, sy, 0) == present(res, 0, sy, 3));
        assert(present(m, 0, sy, 1) == present(res, 3, sy, 2));
        assert(present(m, 1, sy, 1) == present(res, 2, sy, 2));
        assert(present(m, 2, sy, 1) == present(res, 1, sy, 2));
        assert(present(m, 3, sy, 1) == present(res, 0, sy, 2));
        assert(present(m, 0, sy, 2) == present(res, 3, sy, 1));
        assert(present(m, 1, sy, 2) == present(res, 2, sy, 1));
        assert(present(m, 2, sy, 2) == present(res, 1, sy, 1));
        assert(present(m, 3, sy, 2) == present(res, 0, sy, 1));
        assert(present(m, 0, sy, 3) == present(res, 3, sy, 0));
        assert(present(m, 1, sy, 3) == present(res, 2, sy, 0));
        assert(present(m, 2, sy, 3) == present(res, 1, sy, 0));
        assert(present(m, 3, sy, 3) == present(res, 0, sy, 0));
    } else if r % 4 == 3 {
        assert(present(m, 0, sy, 0) == present(res, 0, sy, 3));
        assert(present(m, 1, sy, 0) == present(res, 0, sy, 2));
        assert(present(m, 2, sy, 0) == present(res, 0, sy, 1));
        assert(present(m, 3, sy, 0) == present(res, 0, sy, 0));
        assert(present(m, 0, sy, 1) == present(res, 1, sy, 3));
        assert(present(m, 1, sy, 1) == present(res, 1, sy, 2));
        assert(present(m, 2, sy, 1) == present(res, 1, sy, 1));
        assert(present(m, 3, sy, 1) == present(res, 1, sy, 0));
        assert(present(m, 0, sy, 2) == present(res, 2, sy, 3));
        assert(present(m, 1, sy, 2) == present(res, 2, sy, 2));
        assert(present(m, 2, sy, 2) == present(res, 2, sy, 1));
        assert(present(m, 3, sy, 2) == present(res, 2, sy, 0));
        assert(present(m, 0, sy, 3) == present(res, 3, sy, 3));
        assert(present(m, 1, sy, 3) == present(res, 3, sy, 2));
        assert(present(m, 2, sy, 3) == present(res, 3, sy, 1));
        assert(present(m, 3, sy, 3) == present(res, 3, sy, 0));
    }
}

/// Turning a mask keeps the number of sub-blocks in each layer, and so in the
/// whole cell.
pub proof fn law_rotation_keeps_counts(m: u64, r: int, res: u64)
    requires
        r >= 0,
        rotation_of(m, r, res),
    ensures
        forall|sy: int| 0 <= sy < 4 ==> #[trigger] layer_count(res, sy) == layer_count(m, sy),
        sub_count(res) == sub_count(m),
{
    assert forall|sy: int| 0 <= sy < 4 implies #[trigger] layer_count(res, sy) == layer_count(m, sy) by {
        lemma_rotation_keeps_layer(m, r, res, sy);
    }
    assert(layer_count(res, 0) == layer_count(m, 0));
    assert(layer_count(res, 1) == layer_count(m, 1));
    assert(layer_count(res, 2) == layer_count(m, 2));
    assert(layer_count(res, 3) == layer_count(m, 3));
}

/// Mirroring a mask on either axis keeps the number of sub-blocks in each
/// layer, and so in the whole cell.
pub proof fn law_mirrors_keep_counts(m: u64, a: u64, b: u64)
    requires
        mirror_x_of(m, a),
        mirror_z_of(m, b),
    ensures
        forall|sy: int| 0 <= sy < 4 ==> #[trigger] layer_count(a, sy) == layer_count(m, sy),
        forall|sy: int| 0 <= sy < 4 ==> #[trigger] layer_count(b, sy) == layer_count(m, sy),
        sub_count(a) == sub_count(m),
        sub_count(b) == sub_count(m),
{
    assert forall|sy: int| 0 <= sy < 4 implies #[trigger] layer_count(a, sy) == layer_count(m, sy) by {
        assert(row_count(a, sy, 0) == row_count(m, sy, 0));
        assert(row_count(a, sy, 1) == row_count(m, sy, 1));
        assert(row_count(a, sy, 2) == row_count(m, sy, 2));
        assert(row_count(a, sy, 3) == row_count(m, sy, 3));
    }
    assert forall|sy: int| 0 <= sy < 4 implies #[trigger] layer_count(b, sy) == layer_count(m, sy) by {
        assert(row_count(b, sy, 0) == row_count(m, sy, 3));
        assert(row_count(b, sy, 1) == row_count(m, sy, 2));
        assert(row_count(b, sy, 2) == row_count(m, sy, 1));
        assert(row_count(b, sy, 3) == row_count(m, sy, 0));
    }
    assert(layer_count(a, 0) == layer_count(m, 0) && layer_count(b, 0) == layer_count(m, 0));
    assert(layer_count(a, 1) == layer_count(m, 1) && layer_count(b, 1) == layer_count(m, 1));
    assert(layer_count(a, 2) == layer_count(m, 2) && layer_count(b, 2) == layer_count(m, 2));
    assert(layer_count(a, 3) == layer_count(m, 3) && layer_count(b, 3) == layer_count(m, 3));
}

/// The cube and the fence post look the same from every side: turning their
/// masks changes nothing.
pub proof fn law_symmetric_shapes_ignore_rotation(bt: BlockType, rotation: u8, m: u64, r: int, res: u64)
    requires
        bt == BlockType::Cube || bt == BlockType::Fence,
        r >= 0,
        mask_of(m, |sx: int, sy: int, sz: int| initial_shape(bt, rotation, sx, sy, sz)),
        rotation_of(m, r, res),
    ensures
        res == m,
{
    assert forall|sx: int, sy: int, sz: int| in_cell(sx, sy, sz) implies #[trigger] sub_at(res, sx, sy, sz) == sub_at(m, sx, sy, sz) by {
        let px = rot_x(sx, sz, inv_quarter(r));
        let pz = rot_z(sx, sz, inv_quarter(r));
        lemma_rot_coords(sx, sz, r);
        lemma_rot_coords(sx, sz, inv_quarter(r));
        assert(sub_at(m, px, sy, pz) == sub_at(res, rot_x(px, pz, r), sy, rot_z(px, pz, r)));
        assert(sub_at(m, px, sy, pz) == initial_shape(bt, rotation, px, sy, pz));
        assert(sub_at(m, sx, sy, sz) == initial_shape(bt, rotation, sx, sy, sz));
    }
    lemma_cell_ext(res, m);
}

/// Different block types have different codes, so decoding a block type's code
/// gives the block type back (what save files rely on).
pub proof fn law_block_code_roundtrip(a: BlockType, b: BlockType)
    ensures
        block_code(a) <= 6,
        block_code(a) == block_code(b) ==> a == b,
        block_of_code(block_code(a)) == a,
{
}

} // verus!
