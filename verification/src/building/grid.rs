//! The building grid: blocks snapped to integer cells, each cell split into
//! 4x4x4 sub-blocks that can be mined away one by one, plus baked groups of
//! blocks that move and break as a unit.
//!
//! Cell (cx, cy, cz) occupies [cx, cx+1] x [cy, cy+1] x [cz, cz+1]. The
//! physics bodies of cells and groups live in the physics world; the grid
//! keeps their handles.

use vstd::prelude::*;
use crate::building::block_type::{
    is_pristine_mask, pristine_mask, pristine_sub_blocks, has_sub, sub_at, wrap, BlockType,
    lemma_face_masks, lemma_side_tests, side_touched,
    block_code, block_of_code, law_block_code_roundtrip, BOTTOM_LAYER_MASK, NEG_X_FACE_MASK, NEG_Z_FACE_MASK, POS_X_FACE_MASK,
    POS_Z_FACE_MASK, SUBS, TOP_LAYER_MASK,
};
use crate::handles::{BodyHandle, ColliderHandle};

verus! {

/// Grid coordinates of a cell.
pub type CellKey = (i32, i32, i32);

/// Data stored per occupied grid cell.
#[derive(Debug, Clone, Copy)]
pub struct CellData {
    pub rigid_body: BodyHandle,
    pub collider: ColliderHandle,
    /// 64-bit mask for the 4x4x4 sub-block grid. All 1s = fully intact.
    pub sub_blocks: u64,
    pub block_type: BlockType,
    pub rotation: u8,
    pub color: glam::Vec3,
}

/// One block of a baked group or a blueprint.
#[derive(Debug, Clone, Copy)]
pub struct BlockEntry {
    pub x: i32,
    pub y: i32,
    pub z: i32,
    /// The block type's code (see `BlockType::to_u8`).
    pub block_type: u8,
    pub rotation: u8,
    pub sub_blocks: u64,
    pub color: glam::Vec3,
}

/// A baked group -- many blocks merged into a single object.
/// One physics body, rendered as a ghost in the editor, destroyed as a unit.
#[derive(Debug, Clone)]
pub struct BakedGroup {
    pub blocks: Vec<BlockEntry>,
    pub rigid_body: Option<BodyHandle>,
    pub collider: Option<ColliderHandle>,
}

/// A cell of the drag-to-fill preview: position, block type, rotation, color.
pub type PreviewCell = ((i32, i32, i32), BlockType, u8, glam::Vec3);

/// A grid-based building system. Blocks snap to integer grid positions.
pub struct BuildingGrid {
    cells: Vec<(CellKey, CellData)>,
    groups: Vec<BakedGroup>,
    dirty: bool,
    /// Temporary preview cells for drag-to-fill. No physics bodies.
    preview_cells: Vec<PreviewCell>,
}

// ---------------------------------------------------------------------------
// Model: the cells as a map from grid position to cell data
// ---------------------------------------------------------------------------

/// No grid position occurs twice.
pub open spec fn keys_unique(s: Seq<(CellKey, CellData)>) -> bool {
    forall|i: int, j: int| 0 <= i < s.len() && 0 <= j < s.len() && i != j ==> #[trigger] s[i].0 != #[trigger] s[j].0
}

/// Some entry of `s` is at position `k`.
pub open spec fn has_key(s: Seq<(CellKey, CellData)>, k: CellKey) -> bool {
    exists|i: int| 0 <= i < s.len() && #[trigger] s[i].0 == k
}

/// An entry of `s` at position `k`.
pub open spec fn key_index(s: Seq<(CellKey, CellData)>, k: CellKey) -> int {
    choose|i: int| 0 <= i < s.len() && #[trigger] s[i].0 == k
}

/// The cells of `s` by grid position.
pub open spec fn cells_map(s: Seq<(CellKey, CellData)>) -> Map<CellKey, CellData> {
    Map::new(|k: CellKey| has_key(s, k), |k: CellKey| s[key_index(s, k)].1)
}

proof fn lemma_map_entry(s: Seq<(CellKey, CellData)>, i: int)
    requires
        keys_unique(s),
        0 <= i < s.len(),
    ensures
        cells_map(s).dom().contains(s[i].0),
        cells_map(s)[s[i].0] == s[i].1,
{
    assert(has_key(s, s[i].0));
    let j = key_index(s, s[i].0);
    assert(0 <= j < s.len() && s[j].0 == s[i].0);
}

proof fn lemma_map_push(s: Seq<(CellKey, CellData)>, k: CellKey, d: CellData)
    requires
        keys_unique(s),
        !has_key(s, k),
    ensures
        keys_unique(s.push((k, d))),
        cells_map(s.push((k, d))) == cells_map(s).insert(k, d),
{
    let t = s.push((k, d));
    assert(keys_unique(t)) by {
        assert forall|i: int, j: int| 0 <= i < t.len() && 0 <= j < t.len() && i != j implies #[trigger] t[i].0 != #[trigger] t[j].0 by {
            if i < s.len() && j < s.len() {
                assert(t[i] == s[i] && t[j] == s[j]);
            } else if i < s.len() {
                assert(t[i] == s[i]);
            } else {
                assert(t[j] == s[j]);
            }
        }
    }
    assert forall|q: CellKey| #[trigger] cells_map(t).dom().contains(q) == cells_map(s).insert(k, d).dom().contains(q) by {
        if has_key(s, q) {
            let i = key_index(s, q);
            assert(t[i] == s[i]);
        }
        if has_key(t, q) && q != k {
            let i = key_index(t, q);
            assert(t[i] == s[i]);
        }
        if q == k {
            assert(t[s.len() as int].0 == k);
        }
    }
    assert forall|q: CellKey| cells_map(t).dom().contains(q) implies #[trigger] cells_map(t)[q] == cells_map(s).insert(k, d)[q] by {
        if q == k {
            lemma_map_entry(t, s.len() as int);
        } else {
            let i = key_index(s, q);
            assert(has_key(s, q)) by {
                let j = key_index(t, q);
                assert(t[j] == s[j]);
            }
            lemma_map_entry(s, i);
            assert(t[i] == s[i]);
            lemma_map_entry(t, i);
        }
    }
    assert(cells_map(t) =~= cells_map(s).insert(k, d));
}

proof fn lemma_map_remove(s: Seq<(CellKey, CellData)>, i: int)
    requires
        keys_unique(s),
        0 <= i < s.len(),
    ensures
        keys_unique(s.remove(i)),
        cells_map(s.remove(i)) == cells_map(s).remove(s[i].0),
{
    let t = s.remove(i);
    let k = s[i].0;
    assert forall|a: int| 0 <= a < t.len() implies #[trigger] t[a] == s[if a < i { a } else { a + 1 }] by {}
    assert(keys_unique(t)) by {
        assert forall|a: int, b: int| 0 <= a < t.len() && 0 <= b < t.len() && a != b implies #[trigger] t[a].0 != #[trigger] t[b].0 by {
            let a2 = if a < i { a } else { a + 1 };
            let b2 = if b < i { b } else { b + 1 };
            assert(t[a] == s[a2] && t[b] == s[b2]);
        }
    }
    assert forall|q: CellKey| #[trigger] cells_map(t).dom().contains(q) == cells_map(s).remove(k).dom().contains(q) by {
        if has_key(t, q) {
            let a = key_index(t, q);
            let a2 = if a < i { a } else { a + 1 };
            assert(t[a] == s[a2]);
            assert(s[a2].0 == q && a2 != i);
        }
        if has_key(s, q) && q != k {
            let a2 = key_index(s, q);
            assert(a2 != i);
            let a = if a2 < i { a2 } else { a2 - 1 };
            assert(t[a] == s[a2]);
        }
    }
    assert forall|q: CellKey| cells_map(t).dom().contains(q) implies #[trigger] cells_map(t)[q] == cells_map(s).remove(k)[q] by {
        let a = key_index(t, q);
        let a2 = if a < i { a } else { a + 1 };
        assert(t[a] == s[a2]);
        lemma_map_entry(t, a);
        lemma_map_entry(s, a2);
    }
    assert(cells_map(t) =~= cells_map(s).remove(k));
}

proof fn lemma_map_update(s: Seq<(CellKey, CellData)>, i: int, d: CellData)
    requires
        keys_unique(s),
        0 <= i < s.len(),
    ensures
        keys_unique(s.update(i, (s[i].0, d))),
        cells_map(s.update(i, (s[i].0, d))) == cells_map(s).insert(s[i].0, d),
{
    let t = s.update(i, (s[i].0, d));
    let k = s[i].0;
    assert(keys_unique(t)) by {
        assert forall|a: int, b: int| 0 <= a < t.len() && 0 <= b < t.len() && a != b implies #[trigger] t[a].0 != #[trigger] t[b].0 by {
            assert(t[a].0 == s[a].0 && t[b].0 == s[b].0);
        }
    }
    assert forall|q: CellKey| #[trigger] cells_map(t).dom().contains(q) == cells_map(s).insert(k, d).dom().contains(q) by {
        if has_key(t, q) {
            let a = key_index(t, q);
            assert(s[a].0 == q);
        }
        if has_key(s, q) {
            let a = key_index(s, q);
            assert(t[a].0 == q);
        }
        if q == k {
            assert(t[i].0 == k);
        }
    }
    assert forall|q: CellKey| cells_map(t).dom().contains(q) implies #[trigger] cells_map(t)[q] == cells_map(s).insert(k, d)[q] by {
        let a = key_index(t, q);
        lemma_map_entry(t, a);
        if a != i {
            assert(t[a] == s[a]);
            lemma_map_entry(s, a);
        }
    }
    assert(cells_map(t) =~= cells_map(s).insert(k, d));
}

proof fn lemma_map_len(s: Seq<(CellKey, CellData)>)
    requires
        keys_unique(s),
    ensures
        cells_map(s).dom().finite(),
        cells_map(s).dom().len() == s.len(),
{
    let ks = s.map_values(|e: (CellKey, CellData)| e.0);
    assert(ks.no_duplicates()) by {
        assert forall|a: int, b: int| 0 <= a < ks.len() && 0 <= b < ks.len() && a != b implies ks[a] != ks[b] by {
            assert(ks[a] == s[a].0 && ks[b] == s[b].0);
        }
    }
    assert forall|q: CellKey| #[trigger] cells_map(s).dom().contains(q) == ks.to_set().contains(q) by {
        if has_key(s, q) {
            let a = key_index(s, q);
            assert(ks[a] == q);
        }
        if ks.to_set().contains(q) {
            let a = choose|a: int| 0 <= a < ks.len() && ks[a] == q;
            assert(s[a].0 == q);
        }
    }
    assert(cells_map(s).dom() =~= ks.to_set());
    ks.unique_seq_to_set();
}

// ---------------------------------------------------------------------------
// Model: baked group blocks and support
// ---------------------------------------------------------------------------

/// Block `b` sits at grid position `k`.
pub open spec fn block_at(b: BlockEntry, k: CellKey) -> bool {
    b.x == k.0 && b.y == k.1 && b.z == k.2
}

/// Sub-blocks of the first block of `bs` at `k`.
pub open spec fn first_block_subs(bs: Seq<BlockEntry>, k: CellKey) -> Option<u64>
    decreases bs.len(),
{
    if bs.len() == 0 {
        None
    } else {
        match first_block_subs(bs.drop_last(), k) {
            Some(m) => Some(m),
            None => if block_at(bs.last(), k) {
                Some(bs.last().sub_blocks)
            } else {
                None
            },
        }
    }
}

/// Sub-blocks of the first block at `k` over the groups of `gs`, in order.
pub open spec fn first_group_subs(gs: Seq<BakedGroup>, k: CellKey) -> Option<u64>
    decreases gs.len(),
{
    if gs.len() == 0 {
        None
    } else {
        match first_group_subs(gs.drop_last(), k) {
            Some(m) => Some(m),
            None => first_block_subs(gs.last().blocks@, k),
        }
    }
}

/// Sub-blocks of a baked group block at `k`, or 0 if none is there.
pub open spec fn group_subs_at(gs: Seq<BakedGroup>, k: CellKey) -> u64 {
    match first_group_subs(gs, k) {
        Some(m) => m,
        None => 0,
    }
}

proof fn lemma_first_block_prefix(bs: Seq<BlockEntry>, n: int, k: CellKey)
    requires
        0 <= n <= bs.len(),
        first_block_subs(bs.take(n), k) is Some,
    ensures
        first_block_subs(bs, k) == first_block_subs(bs.take(n), k),
    decreases bs.len() - n,
{
    if n == bs.len() {
        assert(bs.take(n) =~= bs);
    } else {
        assert(bs.take(n + 1).drop_last() =~= bs.take(n));
        lemma_first_block_prefix(bs, n + 1, k);
    }
}

proof fn lemma_first_group_prefix(gs: Seq<BakedGroup>, n: int, k: CellKey)
    requires
        0 <= n <= gs.len(),
        first_group_subs(gs.take(n), k) is Some,
    ensures
        first_group_subs(gs, k) == first_group_subs(gs.take(n), k),
    decreases gs.len() - n,
{
    if n == gs.len() {
        assert(gs.take(n) =~= gs);
    } else {
        assert(gs.take(n + 1).drop_last() =~= gs.take(n));
        lemma_first_group_prefix(gs, n + 1, k);
    }
}

/// Offset of the neighbor checked in direction `n`: below, +X, -X, +Z, -Z.
pub open spec fn support_dir(n: int) -> (int, int, int) {
    if n == 0 {
        (0, -1, 0)
    } else if n == 1 {
        (1, 0, 0)
    } else if n == 2 {
        (-1, 0, 0)
    } else if n == 3 {
        (0, 0, 1)
    } else {
        (0, 0, -1)
    }
}

/// Sub-blocks of a cell that touch its neighbor in direction `n`.
pub open spec fn own_face(n: int) -> u64 {
    if n == 0 {
        BOTTOM_LAYER_MASK
    } else if n == 1 {
        POS_X_FACE_MASK
    } else if n == 2 {
        NEG_X_FACE_MASK
    } else if n == 3 {
        POS_Z_FACE_MASK
    } else {
        NEG_Z_FACE_MASK
    }
}

/// Sub-blocks of the neighbor in direction `n` that touch the cell.
pub open spec fn neighbor_face(n: int) -> u64 {
    if n == 0 {
        TOP_LAYER_MASK
    } else if n == 1 {
        NEG_X_FACE_MASK
    } else if n == 2 {
        POS_X_FACE_MASK
    } else if n == 3 {
        NEG_Z_FACE_MASK
    } else {
        POS_Z_FACE_MASK
    }
}

/// Grid position of the neighbor of `k` in direction `n`.
pub open spec fn neighbor_key(k: CellKey, n: int) -> CellKey {
    let d = support_dir(n);
    ((k.0 + d.0) as i32, (k.1 + d.1) as i32, (k.2 + d.2) as i32)
}

/// Sub-blocks of the cell at `k`; for a cell not yet placed, those of a fresh
/// block of type `bt` turned by `rotation`.
pub open spec fn own_subs(cells: Map<CellKey, CellData>, k: CellKey, bt: BlockType, rotation: u8) -> u64 {
    if cells.dom().contains(k) {
        cells[k].sub_blocks
    } else {
        pristine_mask(bt, rotation)
    }
}

/// The cell's face toward direction `n` has sub-blocks, and so has the facing
/// side of a loose cell or a group block there.
pub open spec fn side_supports(cells: Map<CellKey, CellData>, gs: Seq<BakedGroup>, k: CellKey, own: u64, n: int) -> bool {
    let nk = neighbor_key(k, n);
    &&& own & own_face(n) != 0
    &&& {
        ||| cells.dom().contains(nk) && cells[nk].sub_blocks & neighbor_face(n) != 0
        ||| group_subs_at(gs, nk) & neighbor_face(n) != 0
    }
}

/// The cell at `k` rests on a neighbor below or beside it, or on the terrain
/// (`terrain_reaches`: the terrain surface reaches the bottom of the cell).
pub open spec fn supported(
    cells: Map<CellKey, CellData>,
    gs: Seq<BakedGroup>,
    k: CellKey,
    terrain_reaches: bool,
    bt: BlockType,
    rotation: u8,
) -> bool {
    let own = own_subs(cells, k, bt, rotation);
    ||| side_supports(cells, gs, k, own, 0)
    ||| side_supports(cells, gs, k, own, 1)
    ||| side_supports(cells, gs, k, own, 2)
    ||| side_supports(cells, gs, k, own, 3)
    ||| side_supports(cells, gs, k, own, 4)
    ||| own & BOTTOM_LAYER_MASK != 0 && terrain_reaches
}

/// The cell at `nk` has a sub-block on the given side: a loose cell there, or
/// a block of a baked group.
pub open spec fn neighbor_touches(cells: Map<CellKey, CellData>, gs: Seq<BakedGroup>, nk: CellKey, axis: int, c: int) -> bool {
    ||| cells.dom().contains(nk) && side_touched(cells[nk].sub_blocks, axis, c)
    ||| side_touched(group_subs_at(gs, nk), axis, c)
}

/// Support is contact with the five neighbors below and beside a cell: it
/// rests on the cell below when its bottom side and that cell's top side
/// both have sub-blocks, on the cell at x + 1 through its +X side and that
/// cell's -X side, on the cell at x - 1 through its -X side and that cell's
/// +X side, on the cell at z + 1 through its +Z side and that cell's -Z
/// side, on the cell at z - 1 through its -Z side and that cell's +Z side;
/// or on the terrain when the terrain reaches it and its bottom side has
/// sub-blocks.
pub proof fn law_support_is_contact(
    cells: Map<CellKey, CellData>,
    gs: Seq<BakedGroup>,
    k: CellKey,
    terrain_reaches: bool,
    bt: BlockType,
    rotation: u8,
)
    requires
        i32::MIN < k.0 < i32::MAX,
        i32::MIN < k.1,
        i32::MIN < k.2 < i32::MAX,
    ensures
        supported(cells, gs, k, terrain_reaches, bt, rotation) == ({
            let own = own_subs(cells, k, bt, rotation);
            ||| side_touched(own, 1, 0) && neighbor_touches(cells, gs, (k.0, (k.1 - 1) as i32, k.2), 1, 3)
            ||| side_touched(own, 0, 3) && neighbor_touches(cells, gs, ((k.0 + 1) as i32, k.1, k.2), 0, 0)
            ||| side_touched(own, 0, 0) && neighbor_touches(cells, gs, ((k.0 - 1) as i32, k.1, k.2), 0, 3)
            ||| side_touched(own, 2, 3) && neighbor_touches(cells, gs, (k.0, k.1, (k.2 + 1) as i32), 2, 0)
            ||| side_touched(own, 2, 0) && neighbor_touches(cells, gs, (k.0, k.1, (k.2 - 1) as i32), 2, 3)
            ||| side_touched(own, 1, 0) && terrain_reaches
        }),
{
    let own = own_subs(cells, k, bt, rotation);
    lemma_face_masks();
    lemma_side_tests(own, BOTTOM_LAYER_MASK, 1, 0);
    lemma_side_tests(own, POS_X_FACE_MASK, 0, 3);
    lemma_side_tests(own, NEG_X_FACE_MASK, 0, 0);
    lemma_side_tests(own, POS_Z_FACE_MASK, 2, 3);
    lemma_side_tests(own, NEG_Z_FACE_MASK, 2, 0);
    let n0 = neighbor_key(k, 0);
    let n1 = neighbor_key(k, 1);
    let n2 = neighbor_key(k, 2);
    let n3 = neighbor_key(k, 3);
    let n4 = neighbor_key(k, 4);
    lemma_side_tests(cells[n0].sub_blocks, TOP_LAYER_MASK, 1, 3);
    lemma_side_tests(group_subs_at(gs, n0), TOP_LAYER_MASK, 1, 3);
    lemma_side_tests(cells[n1].sub_blocks, NEG_X_FACE_MASK, 0, 0);
    lemma_side_tests(group_subs_at(gs, n1), NEG_X_FACE_MASK, 0, 0);
    lemma_side_tests(cells[n2].sub_blocks, POS_X_FACE_MASK, 0, 3);
    lemma_side_tests(group_subs_at(gs, n2), POS_X_FACE_MASK, 0, 3);
    lemma_side_tests(cells[n3].sub_blocks, NEG_Z_FACE_MASK, 2, 0);
    lemma_side_tests(group_subs_at(gs, n3), NEG_Z_FACE_MASK, 2, 0);
    lemma_side_tests(cells[n4].sub_blocks, POS_Z_FACE_MASK, 2, 3);
    lemma_side_tests(group_subs_at(gs, n4), POS_Z_FACE_MASK, 2, 3);
}

/// Neighbor offset, own face and neighbor face for direction `n`.
fn support_neighbor(n: usize) -> (r: ((i32, i32, i32), u64, u64))
    requires
        n < 5,
    ensures
        r.0.0 == support_dir(n as int).0,
        r.0.1 == support_dir(n as int).1,
        r.0.2 == support_dir(n as int).2,
        r.1 == own_face(n as int),
        r.2 == neighbor_face(n as int),
{
    if n == 0 {
        ((0, -1, 0), BOTTOM_LAYER_MASK, TOP_LAYER_MASK)
    } else if n == 1 {
        ((1, 0, 0), POS_X_FACE_MASK, NEG_X_FACE_MASK)
    } else if n == 2 {
        ((-1, 0, 0), NEG_X_FACE_MASK, POS_X_FACE_MASK)
    } else if n == 3 {
        ((0, 0, 1), POS_Z_FACE_MASK, NEG_Z_FACE_MASK)
    } else {
        ((0, 0, -1), NEG_Z_FACE_MASK, POS_Z_FACE_MASK)
    }
}

/// The block entry that stores cell `c` at position `k`.
pub open spec fn entry_of(k: CellKey, c: CellData) -> BlockEntry {
    BlockEntry {
        x: k.0,
        y: k.1,
        z: k.2,
        block_type: block_code(c.block_type),
        rotation: c.rotation,
        sub_blocks: c.sub_blocks,
        color: c.color,
    }
}

/// Grid position of a block entry.
pub open spec fn entry_key(b: BlockEntry) -> CellKey {
    (b.x, b.y, b.z)
}

/// Number of groups that own both a body and a collider.
pub open spec fn bodied_groups(gs: Seq<BakedGroup>) -> nat
    decreases gs.len(),
{
    if gs.len() == 0 {
        0
    } else {
        bodied_groups(gs.drop_last()) + if gs.last().rigid_body is Some && gs.last().collider is Some {
            1nat
        } else {
            0nat
        }
    }
}

/// `(cell, sub)` after moving a sub-block coordinate that left the cell by at
/// most one cell back into [0, SUBS).
pub open spec fn wrapped(cell: int, sub: int) -> (int, int) {
    if sub < 0 {
        (cell - 1, sub + SUBS)
    } else if sub >= SUBS {
        (cell + 1, sub - SUBS)
    } else {
        (cell, sub)
    }
}

/// `b` moved by `(ox, oy, oz)`.
pub open spec fn offset_entry(b: BlockEntry, ox: i32, oy: i32, oz: i32) -> BlockEntry {
    BlockEntry { x: (b.x + ox) as i32, y: (b.y + oy) as i32, z: (b.z + oz) as i32, ..b }
}

/// Moving every block of `blocks` by `(ox, oy, oz)` stays within `i32`.
pub open spec fn offset_fits(blocks: Seq<BlockEntry>, ox: i32, oy: i32, oz: i32) -> bool {
    forall|i: int| 0 <= i < blocks.len() ==> {
        &&& i32::MIN <= #[trigger] blocks[i].x + ox <= i32::MAX
        &&& i32::MIN <= blocks[i].y + oy <= i32::MAX
        &&& i32::MIN <= blocks[i].z + oz <= i32::MAX
    }
}

/// The blocks of a group loaded at an offset (blueprint placement).
pub fn offset_blocks(blocks: &[BlockEntry], ox: i32, oy: i32, oz: i32) -> (r: Vec<BlockEntry>)
    requires
        offset_fits(blocks@, ox, oy, oz),
    ensures
        r@.len() == blocks@.len(),
        forall|i: int| 0 <= i < r@.len() ==> #[trigger] r@[i] == offset_entry(blocks@[i], ox, oy, oz),
{
    let mut r: Vec<BlockEntry> = Vec::new();
    let mut i: usize = 0;
    while i < blocks.len()
        invariant
            i <= blocks@.len(),
            offset_fits(blocks@, ox, oy, oz),
            r@.len() == i,
            forall|j: int| 0 <= j < i ==> #[trigger] r@[j] == offset_entry(blocks@[j], ox, oy, oz),
        decreases blocks@.len() - i,
    {
        let b = blocks[i];
        proof {
            assert(i32::MIN <= blocks@[i as int].x + ox <= i32::MAX);
        }
        r.push(BlockEntry { x: b.x + ox, y: b.y + oy, z: b.z + oz, ..b });
        i = i + 1;
    }
    r
}

/// Whether two colors are equal by glam's `Vec3` equality, which compares the
/// three components as floats.
pub uninterp spec fn colors_equal(a: glam::Vec3, b: glam::Vec3) -> bool;

/// glam's `Vec3` equality (`PartialEq::eq`, derived: the three components
/// compared as floats). Its result is named `colors_equal`; nothing more of
/// it is stated.
#[verifier::external_body]
fn same_color(a: &glam::Vec3, b: &glam::Vec3) -> (r: bool)
    ensures
        r == colors_equal(*a, *b),
{
    a == b
}

/// Two preview cells are the same: same cell, block type and rotation, and
/// equal colors.
pub open spec fn same_preview_cell(a: PreviewCell, b: PreviewCell) -> bool {
    a.0 == b.0 && a.1 == b.1 && a.2 == b.2 && colors_equal(a.3, b.3)
}

/// Two previews are the same: as long, and the same cell by cell.
pub open spec fn same_preview(a: Seq<PreviewCell>, b: Seq<PreviewCell>) -> bool {
    a.len() == b.len() && forall|i: int| 0 <= i < a.len() ==> #[trigger] same_preview_cell(a[i], b[i])
}

/// Compare two previews cell by cell.
fn previews_equal(a: &Vec<PreviewCell>, b: &Vec<PreviewCell>) -> (r: bool)
    ensures
        r == same_preview(a@, b@),
{
    if a.len() != b.len() {
        return false;
    }
    let mut i: usize = 0;
    while i < a.len()
        invariant
            i <= a@.len(),
            a@.len() == b@.len(),
            forall|j: int| 0 <= j < i ==> #[trigger] same_preview_cell(a@[j], b@[j]),
        decreases a@.len() - i,
    {
        let x = a[i];
        let y = b[i];
        let same_cell = x.0.0 == y.0.0 && x.0.1 == y.0.1 && x.0.2 == y.0.2 && x.1 == y.1 && x.2 == y.2;
        if !same_cell || !same_color(&x.3, &y.3) {
            assert(!same_preview_cell(a@[i as int], b@[i as int]));
            return false;
        }
        i = i + 1;
    }
    true
}

impl View for BuildingGrid {
    type V = Map<CellKey, CellData>;

    /// The loose cells by grid position.
    closed spec fn view(&self) -> Map<CellKey, CellData> {
        cells_map(self.cells@)
    }
}

impl BuildingGrid {
    /// No grid position occurs twice among the loose cells.
    pub closed spec fn wf(&self) -> bool {
        keys_unique(self.cells@)
    }

    /// The baked groups, in order.
    pub closed spec fn group_list(&self) -> Seq<BakedGroup> {
        self.groups@
    }

    /// The grid changed since the mesh was last rebuilt.
    pub closed spec fn dirty_flag(&self) -> bool {
        self.dirty
    }

    /// The drag-to-fill preview.
    pub closed spec fn preview(&self) -> Seq<PreviewCell> {
        self.preview_cells@
    }

    pub fn new() -> (r: Self)
        ensures
            r.wf(),
            r@ == Map::<CellKey, CellData>::empty(),
            r.group_list() == Seq::<BakedGroup>::empty(),
            !r.dirty_flag(),
            r.preview() == Seq::<PreviewCell>::empty(),
    {
        let r = BuildingGrid { cells: Vec::new(), groups: Vec::new(), dirty: false, preview_cells: Vec::new() };
        assert(r@ =~= Map::<CellKey, CellData>::empty());
        r
    }

    /// Index of the cell at `k`, if any.
    fn find_cell(&self, k: CellKey) -> (r: Option<usize>)
        requires
            self.wf(),
        ensures
            r is None <==> !self@.dom().contains(k),
            r matches Some(i) ==> i < self.cells@.len() && self.cells@[i as int].0 == k && self@[k] == self.cells@[i as int].1,
    {
        let mut i: usize = 0;
        while i < self.cells.len()
            invariant
                i <= self.cells@.len(),
                self.wf(),
                forall|j: int| 0 <= j < i ==> #[trigger] self.cells@[j].0 != k,
            decreases self.cells@.len() - i,
        {
            let e = self.cells[i];
            if e.0.0 == k.0 && e.0.1 == k.1 && e.0.2 == k.2 {
                proof {
                    lemma_map_entry(self.cells@, i as int);
                }
                return Some(i);
            }
            i = i + 1;
        }
        proof {
            if has_key(self.cells@, k) {
                let j = key_index(self.cells@, k);
                assert(self.cells@[j].0 == k);
            }
        }
        None
    }

    /// No loose cells and no baked groups.
    pub fn is_empty(&self) -> (r: bool)
        requires
            self.wf(),
        ensures
            r == (self@.dom().len() == 0 && self.group_list().len() == 0),
    {
        proof {
            lemma_map_len(self.cells@);
        }
        self.cells.len() == 0 && self.groups.len() == 0
    }

    pub fn is_dirty(&self) -> (r: bool)
        ensures
            r == self.dirty_flag(),
    {
        self.dirty
    }

    pub fn clear_dirty(&mut self)
        ensures
            !final(self).dirty_flag(),
            final(self)@ == old(self)@,
            final(self).wf() == old(self).wf(),
            final(self).group_list() == old(self).group_list(),
            final(self).preview() == old(self).preview(),
    {
        self.dirty = false;
    }

    pub fn mark_dirty(&mut self)
        ensures
            final(self).dirty_flag(),
            final(self)@ == old(self)@,
            final(self).wf() == old(self).wf(),
            final(self).group_list() == old(self).group_list(),
            final(self).preview() == old(self).preview(),
    {
        self.dirty = true;
    }

    pub fn is_occupied(&self, x: i32, y: i32, z: i32) -> (r: bool)
        requires
            self.wf(),
        ensures
            r == self@.dom().contains((x, y, z)),
    {
        self.find_cell((x, y, z)).is_some()
    }

    /// Block type, rotation, sub-blocks and color of a cell (used by save).
    pub fn cell_info(&self, cx: i32, cy: i32, cz: i32) -> (r: Option<(BlockType, u8, u64, glam::Vec3)>)
        requires
            self.wf(),
        ensures
            r == (if self@.dom().contains((cx, cy, cz)) {
                let c = self@[(cx, cy, cz)];
                Some((c.block_type, c.rotation, c.sub_blocks, c.color))
            } else {
                None
            }),
    {
        match self.find_cell((cx, cy, cz)) {
            Some(i) => {
                let c = self.cells[i].1;
                Some((c.block_type, c.rotation, c.sub_blocks, c.color))
            },
            None => None,
        }
    }

    /// Number of occupied cells.
    pub fn cell_count(&self) -> (r: usize)
        requires
            self.wf(),
        ensures
            self@.dom().finite(),
            r == self@.dom().len(),
    {
        proof {
            lemma_map_len(self.cells@);
        }
        self.cells.len()
    }
    /// Grid positions of all loose cells, each once, in no particular order.
    pub fn occupied_cells(&self) -> (r: Vec<CellKey>)
        requires
            self.wf(),
        ensures
            r@.no_duplicates(),
            forall|k: CellKey| r@.contains(k) <==> self@.dom().contains(k),
            r@.len() == self@.dom().len(),
    {
        let mut r: Vec<CellKey> = Vec::new();
        let mut i: usize = 0;
        while i < self.cells.len()
            invariant
                i <= self.cells@.len(),
                self.wf(),
                r@.len() == i,
                forall|j: int| 0 <= j < i ==> #[trigger] r@[j] == self.cells@[j].0,
            decreases self.cells@.len() - i,
        {
            r.push(self.cells[i].0);
            i = i + 1;
        }
        proof {
            let s = self.cells@;
            assert forall|a: int, b: int| 0 <= a < r@.len() && 0 <= b < r@.len() && a != b implies r@[a] != r@[b] by {
                assert(r@[a] == s[a].0 && r@[b] == s[b].0);
            }
            assert forall|k: CellKey| r@.contains(k) <==> self@.dom().contains(k) by {
                if r@.contains(k) {
                    let a = choose|a: int| 0 <= a < r@.len() && r@[a] == k;
                    lemma_map_entry(s, a);
                }
                if self@.dom().contains(k) {
                    let a = key_index(s, k);
                    assert(r@[a] == k);
                }
            }
            lemma_map_len(s);
        }
        r
    }

    /// Store a cell with full data (used by save/load), replacing any cell
    /// already at that position.
    pub fn load_cell(
        &mut self,
        cx: i32,
        cy: i32,
        cz: i32,
        block_type: BlockType,
        rotation: u8,
        sub_blocks: u64,
        color: glam::Vec3,
        rigid_body: BodyHandle,
        collider: ColliderHandle,
    )
        requires
            old(self).wf(),
        ensures
            final(self).wf(),
            final(self)@ == old(self)@.insert((cx, cy, cz), CellData { rigid_body, collider, sub_blocks, block_type, rotation, color }),
            final(self).dirty_flag(),
            final(self).group_list() == old(self).group_list(),
            final(self).preview() == old(self).preview(),
    {
        let k = (cx, cy, cz);
        let d = CellData { rigid_body, collider, sub_blocks, block_type, rotation, color };
        match self.find_cell(k) {
            Some(i) => {
                proof {
                    lemma_map_update(self.cells@, i as int, d);
                }
                self.cells.set(i, (k, d));
            },
            None => {
                proof {
                    lemma_map_push(self.cells@, k, d);
                }
                self.cells.push((k, d));
            },
        }
        self.dirty = true;
    }

    /// Store a freshly placed block: its sub-blocks are those of the block type
    /// turned by `rotation`.
    pub fn insert_block(
        &mut self,
        cx: i32,
        cy: i32,
        cz: i32,
        block_type: BlockType,
        rotation: u8,
        color: glam::Vec3,
        rigid_body: BodyHandle,
        collider: ColliderHandle,
    )
        requires
            old(self).wf(),
        ensures
            final(self).wf(),
            final(self)@ == old(self)@.insert(
                (cx, cy, cz),
                CellData { rigid_body, collider, sub_blocks: pristine_mask(block_type, rotation), block_type, rotation, color },
            ),
            final(self).dirty_flag(),
            final(self).group_list() == old(self).group_list(),
            final(self).preview() == old(self).preview(),
    {
        let sub_blocks = pristine_sub_blocks(block_type, rotation);
        self.load_cell(cx, cy, cz, block_type, rotation, sub_blocks, color, rigid_body, collider);
    }

    /// Remove the block at grid position (cx, cy, cz). Returns the physics
    /// handles of the removed cell, if there was one.
    pub fn remove(&mut self, cx: i32, cy: i32, cz: i32) -> (r: Option<(BodyHandle, ColliderHandle)>)
        requires
            old(self).wf(),
        ensures
            final(self).wf(),
            final(self)@ == old(self)@.remove((cx, cy, cz)),
            r == (if old(self)@.dom().contains((cx, cy, cz)) {
                let c = old(self)@[(cx, cy, cz)];
                Some((c.rigid_body, c.collider))
            } else {
                None::<(BodyHandle, ColliderHandle)>
            }),
            final(self).dirty_flag() == (old(self).dirty_flag() || r is Some),
            final(self).group_list() == old(self).group_list(),
            final(self).preview() == old(self).preview(),
    {
        match self.find_cell((cx, cy, cz)) {
            Some(i) => {
                proof {
                    lemma_map_remove(self.cells@, i as int);
                }
                let (_, c) = self.cells.remove(i);
                self.dirty = true;
                Some((c.rigid_body, c.collider))
            },
            None => {
                assert(old(self)@.remove((cx, cy, cz)) =~= old(self)@);
                None
            },
        }
    }

    /// Clear the sub-blocks of `clear_mask` from the cell at (cx, cy, cz).
    /// Returns the cell's handles and the sub-blocks left; a cell with none
    /// left is removed.
    pub fn clear_sub_blocks(&mut self, cx: i32, cy: i32, cz: i32, clear_mask: u64) -> (r: Option<(BodyHandle, ColliderHandle, u64)>)
        requires
            old(self).wf(),
        ensures
            final(self).wf(),
            final(self).group_list() == old(self).group_list(),
            final(self).preview() == old(self).preview(),
            !old(self)@.dom().contains((cx, cy, cz)) ==> r is None && final(self)@ == old(self)@
                && final(self).dirty_flag() == old(self).dirty_flag(),
            old(self)@.dom().contains((cx, cy, cz)) ==> {
                let c = old(self)@[(cx, cy, cz)];
                let rest = c.sub_blocks & !clear_mask;
                &&& r == Some((c.rigid_body, c.collider, rest))
                &&& final(self).dirty_flag()
                &&& final(self)@ == (if rest == 0 {
                    old(self)@.remove((cx, cy, cz))
                } else {
                    old(self)@.insert((cx, cy, cz), CellData { sub_blocks: rest, ..c })
                })
            },
    {
        match self.find_cell((cx, cy, cz)) {
            Some(i) => {
                let c = self.cells[i].1;
                let rest = c.sub_blocks & !clear_mask;
                if rest == 0 {
                    proof {
                        lemma_map_remove(self.cells@, i as int);
                    }
                    self.cells.remove(i);
                } else {
                    proof {
                        lemma_map_update(self.cells@, i as int, CellData { sub_blocks: rest, ..c });
                    }
                    self.cells.set(i, ((cx, cy, cz), CellData { sub_blocks: rest, ..c }));
                }
                self.dirty = true;
                Some((c.rigid_body, c.collider, rest))
            },
            None => None,
        }
    }

    /// Record the new collider of the cell at (cx, cy, cz), if there is one.
    pub fn set_collider(&mut self, cx: i32, cy: i32, cz: i32, collider: ColliderHandle)
        requires
            old(self).wf(),
        ensures
            final(self).wf(),
            final(self)@ == (if old(self)@.dom().contains((cx, cy, cz)) {
                old(self)@.insert((cx, cy, cz), CellData { collider, ..old(self)@[(cx, cy, cz)] })
            } else {
                old(self)@
            }),
            final(self).dirty_flag() == old(self).dirty_flag(),
            final(self).group_list() == old(self).group_list(),
            final(self).preview() == old(self).preview(),
    {
        match self.find_cell((cx, cy, cz)) {
            Some(i) => {
                let c = self.cells[i].1;
                proof {
                    lemma_map_update(self.cells@, i as int, CellData { collider, ..c });
                }
                self.cells.set(i, ((cx, cy, cz), CellData { collider, ..c }));
            },
            None => {},
        }
    }
    /// Sub-blocks of the first baked group block at (cx, cy, cz), or 0.
    fn group_sub_blocks_at(&self, cx: i32, cy: i32, cz: i32) -> (r: u64)
        ensures
            r == group_subs_at(self.groups@, (cx, cy, cz)),
    {
        let ghost k = (cx, cy, cz);
        let ghost gs = self.groups@;
        let mut i: usize = 0;
        while i < self.groups.len()
            invariant
                i <= gs.len(),
                gs == self.groups@,
                k == (cx, cy, cz),
                first_group_subs(gs.take(i as int), k) is None,
            decreases gs.len() - i,
        {
            let blocks = &self.groups[i].blocks;
            let ghost bs = blocks@;
            let mut j: usize = 0;
            while j < blocks.len()
                invariant
                    j <= bs.len(),
                    i < gs.len(),
                    gs == self.groups@,
                    bs == blocks@,
                    bs == gs[i as int].blocks@,
                    k == (cx, cy, cz),
                    first_group_subs(gs.take(i as int), k) is None,
                    first_block_subs(bs.take(j as int), k) is None,
                decreases bs.len() - j,
            {
                let b = blocks[j];
                proof {
                    assert(bs.take(j + 1).drop_last() =~= bs.take(j as int));
                    assert(bs.take(j + 1).last() == b);
                }
                if b.x == cx && b.y == cy && b.z == cz {
                    proof {
                        lemma_first_block_prefix(bs, j + 1, k);
                        assert(gs.take(i + 1).drop_last() =~= gs.take(i as int));
                        assert(gs.take(i + 1).last() == gs[i as int]);
                        lemma_first_group_prefix(gs, i + 1, k);
                    }
                    return b.sub_blocks;
                }
                j = j + 1;
            }
            proof {
                assert(bs.take(bs.len() as int) =~= bs);
                assert(gs.take(i + 1).drop_last() =~= gs.take(i as int));
                assert(gs.take(i + 1).last() == gs[i as int]);
            }
            i = i + 1;
        }
        proof {
            assert(gs.take(gs.len() as int) =~= gs);
        }
        0
    }

    /// Check if a cell is supported by any neighbor (below or sideways) or by
    /// the terrain; `terrain_reaches` says whether the terrain surface at the
    /// cell's center reaches the bottom of the cell. A cell that does not
    /// exist yet (placement check) takes the sub-blocks of a fresh block of
    /// the given type and rotation.
    pub fn is_supported_with(&self, cx: i32, cy: i32, cz: i32, terrain_reaches: bool, block_type: BlockType, rotation: u8) -> (r: bool)
        requires
            self.wf(),
            i32::MIN < cx < i32::MAX,
            i32::MIN < cy,
            i32::MIN < cz < i32::MAX,
        ensures
            r == supported(self@, self.group_list(), (cx, cy, cz), terrain_reaches, block_type, rotation),
    {
        let ghost k = (cx, cy, cz);
        let own = match self.find_cell((cx, cy, cz)) {
            Some(i) => self.cells[i].1.sub_blocks,
            None => pristine_sub_blocks(block_type, rotation),
        };
        let mut n: usize = 0;
        while n < 5
            invariant
                n <= 5,
                self.wf(),
                k == (cx, cy, cz),
                i32::MIN < cx < i32::MAX,
                i32::MIN < cy,
                i32::MIN < cz < i32::MAX,
                own == own_subs(self@, k, block_type, rotation),
                forall|m: int| 0 <= m < n ==> !#[trigger] side_supports(self@, self.groups@, k, own, m),
            decreases 5 - n,
        {
            let (d, own_mask, neighbor_mask) = support_neighbor(n);
            if own & own_mask != 0 {
                let nx = cx + d.0;
                let ny = cy + d.1;
                let nz = cz + d.2;
                proof {
                    assert((nx, ny, nz) == neighbor_key(k, n as int));
                }
                match self.find_cell((nx, ny, nz)) {
                    Some(j) => {
                        if self.cells[j].1.sub_blocks & neighbor_mask != 0 {
                            return true;
                        }
                    },
                    None => {},
                }
                if self.group_sub_blocks_at(nx, ny, nz) & neighbor_mask != 0 {
                    return true;
                }
            }
            n = n + 1;
        }
        own & BOTTOM_LAYER_MASK != 0 && terrain_reaches
    }

    /// A block of type `block_type` turned by `rotation` may be placed at
    /// (cx, cy, cz): the cell is free and the block would be supported.
    pub fn can_place(&self, cx: i32, cy: i32, cz: i32, terrain_reaches: bool, block_type: BlockType, rotation: u8) -> (r: bool)
        requires
            self.wf(),
            i32::MIN < cx < i32::MAX,
            i32::MIN < cy,
            i32::MIN < cz < i32::MAX,
        ensures
            r == (!self@.dom().contains((cx, cy, cz)) && supported(self@, self.group_list(), (cx, cy, cz), terrain_reaches, block_type, rotation)),
    {
        !self.is_occupied(cx, cy, cz) && self.is_supported_with(cx, cy, cz, terrain_reaches, block_type, rotation)
    }
    /// Set the drag-to-fill preview (visual only, no physics); when it differs
    /// from the current preview it replaces it and the grid is marked dirty,
    /// otherwise nothing changes.
    pub fn set_preview(&mut self, cells: Vec<PreviewCell>)
        requires
            old(self).wf(),
        ensures
            final(self).wf(),
            final(self)@ == old(self)@,
            final(self).group_list() == old(self).group_list(),
            same_preview(old(self).preview(), cells@) ==> {
                &&& final(self).preview() == old(self).preview()
                &&& final(self).dirty_flag() == old(self).dirty_flag()
            },
            !same_preview(old(self).preview(), cells@) ==> {
                &&& final(self).preview() == cells@
                &&& final(self).dirty_flag()
            },
    {
        if !previews_equal(&self.preview_cells, &cells) {
            self.preview_cells = cells;
            self.dirty = true;
        }
    }

    /// Clear the drag preview.
    pub fn clear_preview(&mut self)
        requires
            old(self).wf(),
        ensures
            final(self).wf(),
            final(self)@ == old(self)@,
            final(self).group_list() == old(self).group_list(),
            final(self).preview() == Seq::<PreviewCell>::empty(),
            final(self).dirty_flag() == (old(self).dirty_flag() || old(self).preview().len() > 0),
    {
        if self.preview_cells.len() > 0 {
            self.preview_cells.clear();
            self.dirty = true;
        }
    }

    /// Whether the grid has any preview cells.
    pub fn has_preview(&self) -> (r: bool)
        ensures
            r == (self.preview().len() > 0),
    {
        self.preview_cells.len() > 0
    }

    /// Check if a sub-block is solid; sub-block coordinates one cell outside
    /// the cell refer to the neighboring cell.
    pub fn is_solid(&self, cx: i32, cy: i32, cz: i32, sx: i32, sy: i32, sz: i32) -> (r: bool)
        requires
            self.wf(),
            -SUBS <= sx < 2 * SUBS,
            -SUBS <= sy < 2 * SUBS,
            -SUBS <= sz < 2 * SUBS,
            sx < 0 ==> cx > i32::MIN,
            sx >= SUBS ==> cx < i32::MAX,
            sy < 0 ==> cy > i32::MIN,
            sy >= SUBS ==> cy < i32::MAX,
            sz < 0 ==> cz > i32::MIN,
            sz >= SUBS ==> cz < i32::MAX,
        ensures
            r == ({
                let (x, ssx) = wrapped(cx as int, sx as int);
                let (y, ssy) = wrapped(cy as int, sy as int);
                let (z, ssz) = wrapped(cz as int, sz as int);
                let k = (x as i32, y as i32, z as i32);
                self@.dom().contains(k) && sub_at(self@[k].sub_blocks, ssx, ssy, ssz)
            }),
    {
        let (wx, wsx) = wrap(cx, sx);
        let (wy, wsy) = wrap(cy, sy);
        let (wz, wsz) = wrap(cz, sz);
        match self.find_cell((wx, wy, wz)) {
            Some(i) => has_sub(self.cells[i].1.sub_blocks, wsx, wsy, wsz),
            None => false,
        }
    }

    /// Move all loose cells out of the grid, to be baked into a group: one
    /// block entry per cell and the cells' physics handles, in the same order.
    /// With no loose cells nothing happens and `None` is returned.
    pub fn bake_cells(&mut self) -> (r: Option<(Vec<BlockEntry>, Vec<(BodyHandle, ColliderHandle)>)>)
        requires
            old(self).wf(),
        ensures
            final(self).wf(),
            final(self).group_list() == old(self).group_list(),
            final(self).preview() == old(self).preview(),
            old(self)@.dom().len() == 0 ==> r is None && final(self)@ == old(self)@ && final(self).dirty_flag() == old(self).dirty_flag(),
            old(self)@.dom().len() > 0 ==> {
                &&& final(self)@ == Map::<CellKey, CellData>::empty()
                &&& final(self).dirty_flag()
                &&& r matches Some((blocks, handles)) && {
                    &&& blocks@.len() == old(self)@.dom().len()
                    &&& handles@.len() == blocks@.len()
                    &&& forall|i: int| 0 <= i < blocks@.len() ==> {
                        let k = entry_key(#[trigger] blocks@[i]);
                        &&& old(self)@.dom().contains(k)
                        &&& blocks@[i] == entry_of(k, old(self)@[k])
                        &&& handles@[i] == (old(self)@[k].rigid_body, old(self)@[k].collider)
                    }
                    &&& forall|k: CellKey| #[trigger] old(self)@.dom().contains(k) ==> exists|i: int| 0 <= i < blocks@.len() && entry_key(#[trigger] blocks@[i]) == k
                    &&& forall|i: int, j: int| 0 <= i < blocks@.len() && 0 <= j < blocks@.len() && i != j ==> entry_key(#[trigger] blocks@[i]) != entry_key(#[trigger] blocks@[j])
                }
            },
    {
        proof {
            lemma_map_len(self.cells@);
        }
        if self.cells.len() == 0 {
            return None;
        }
        let ghost s = self.cells@;
        let mut blocks: Vec<BlockEntry> = Vec::new();
        let mut handles: Vec<(BodyHandle, ColliderHandle)> = Vec::new();
        let mut i: usize = 0;
        while i < self.cells.len()
            invariant
                i <= s.len(),
                s == self.cells@,
                keys_unique(s),
                blocks@.len() == i,
                handles@.len() == i,
                forall|j: int| 0 <= j < i ==> #[trigger] blocks@[j] == entry_of(s[j].0, s[j].1),
                forall|j: int| 0 <= j < i ==> #[trigger] handles@[j] == (s[j].1.rigid_body, s[j].1.collider),
            decreases s.len() - i,
        {
            let (k, c) = self.cells[i];
            blocks.push(BlockEntry {
                x: k.0,
                y: k.1,
                z: k.2,
                block_type: c.block_type.to_u8(),
                rotation: c.rotation,
                sub_blocks: c.sub_blocks,
                color: c.color,
            });
            handles.push((c.rigid_body, c.collider));
            i = i + 1;
        }
        proof {
            let m = cells_map(s);
            assert forall|j: int| 0 <= j < blocks@.len() implies {
                let k = entry_key(#[trigger] blocks@[j]);
                &&& m.dom().contains(k)
                &&& blocks@[j] == entry_of(k, m[k])
                &&& handles@[j] == (m[k].rigid_body, m[k].collider)
            } by {
                lemma_map_entry(s, j);
                assert(entry_key(blocks@[j]) == s[j].0);
            }
            assert forall|k: CellKey| #[trigger] m.dom().contains(k) implies exists|j: int| 0 <= j < blocks@.len() && entry_key(#[trigger] blocks@[j]) == k by {
                let j = key_index(s, k);
                assert(entry_key(blocks@[j]) == k);
            }
            assert forall|a: int, b: int| 0 <= a < blocks@.len() && 0 <= b < blocks@.len() && a != b implies entry_key(#[trigger] blocks@[a]) != entry_key(#[trigger] blocks@[b]) by {
                assert(entry_key(blocks@[a]) == s[a].0 && entry_key(blocks@[b]) == s[b].0);
            }
        }
        self.cells = Vec::new();
        self.dirty = true;
        proof {
            assert(self@ =~= Map::<CellKey, CellData>::empty());
        }
        Some((blocks, handles))
    }

    /// Add a baked group with its compound physics body.
    pub fn load_group(&mut self, blocks: Vec<BlockEntry>, rigid_body: BodyHandle, collider: ColliderHandle)
        requires
            old(self).wf(),
        ensures
            final(self).wf(),
            final(self)@ == old(self)@,
            final(self).group_list() == old(self).group_list().push(
                BakedGroup { blocks, rigid_body: Some(rigid_body), collider: Some(collider) },
            ),
            final(self).dirty_flag(),
            final(self).preview() == old(self).preview(),
    {
        self.groups.push(BakedGroup { blocks, rigid_body: Some(rigid_body), collider: Some(collider) });
        self.dirty = true;
    }

    /// Index of the first baked group whose body is `rb`.
    pub fn group_for_body(&self, rb: BodyHandle) -> (r: Option<usize>)
        ensures
            r is None <==> forall|i: int| 0 <= i < self.group_list().len() ==> #[trigger] self.group_list()[i].rigid_body != Some(rb),
            r matches Some(i) ==> i < self.group_list().len() && self.group_list()[i as int].rigid_body == Some(rb)
                && forall|j: int| 0 <= j < i ==> #[trigger] self.group_list()[j].rigid_body != Some(rb),
    {
        let mut i: usize = 0;
        while i < self.groups.len()
            invariant
                i <= self.groups@.len(),
                forall|j: int| 0 <= j < i ==> #[trigger] self.groups@[j].rigid_body != Some(rb),
            decreases self.groups@.len() - i,
        {
            match self.groups[i].rigid_body {
                Some(b) => {
                    if b == rb {
                        return Some(i);
                    }
                },
                None => {},
            }
            i = i + 1;
        }
        None
    }

    /// Check if a rigid body belongs to a loose cell or a baked group.
    pub fn has_body(&self, rb: BodyHandle) -> (r: bool)
        requires
            self.wf(),
        ensures
            r == ((exists|k: CellKey| #[trigger] self@.dom().contains(k) && self@[k].rigid_body == rb)
                || exists|i: int| 0 <= i < self.group_list().len() && #[trigger] self.group_list()[i].rigid_body == Some(rb)),
    {
        let mut i: usize = 0;
        while i < self.cells.len()
            invariant
                i <= self.cells@.len(),
                self.wf(),
                forall|j: int| 0 <= j < i ==> #[trigger] self.cells@[j].1.rigid_body != rb,
            decreases self.cells@.len() - i,
        {
            if self.cells[i].1.rigid_body == rb {
                proof {
                    lemma_map_entry(self.cells@, i as int);
                    assert(self@.dom().contains(self.cells@[i as int].0));
                }
                return true;
            }
            i = i + 1;
        }
        proof {
            assert forall|k: CellKey| #[trigger] self@.dom().contains(k) implies self@[k].rigid_body != rb by {
                let j = key_index(self.cells@, k);
                lemma_map_entry(self.cells@, j);
            }
        }
        let g = self.group_for_body(rb);
        proof {
            if g is None {
                assert forall|i: int| 0 <= i < self.group_list().len() implies #[trigger] self.group_list()[i].rigid_body != Some(rb) by {}
            }
        }
        g.is_some()
    }

    /// Remove a baked group by index and hand it back (to unbake or destroy it).
    pub fn remove_group(&mut self, group_idx: usize) -> (r: BakedGroup)
        requires
            old(self).wf(),
            group_idx < old(self).group_list().len(),
        ensures
            final(self).wf(),
            final(self)@ == old(self)@,
            r == old(self).group_list()[group_idx as int],
            final(self).group_list() == old(self).group_list().remove(group_idx as int),
            final(self).dirty_flag(),
            final(self).preview() == old(self).preview(),
    {
        let g = self.groups.remove(group_idx);
        self.dirty = true;
        g
    }

    /// Number of baked groups.
    pub fn group_count(&self) -> (r: usize)
        ensures
            r == self.group_list().len(),
    {
        self.groups.len()
    }

    /// The baked groups (for save).
    pub fn groups(&self) -> (r: &[BakedGroup])
        ensures
            r@ == self.group_list(),
    {
        self.groups.as_slice()
    }

    /// Remove all cells and groups. Returns the physics handles to remove:
    /// those of every loose cell, then those of every group that has both.
    pub fn clear(&mut self) -> (r: Vec<(BodyHandle, ColliderHandle)>)
        requires
            old(self).wf(),
        ensures
            final(self).wf(),
            final(self)@ == Map::<CellKey, CellData>::empty(),
            final(self).group_list() == Seq::<BakedGroup>::empty(),
            final(self).dirty_flag(),
            final(self).preview() == old(self).preview(),
            r@.len() == old(self)@.dom().len() + bodied_groups(old(self).group_list()),
            forall|k: CellKey| #[trigger] old(self)@.dom().contains(k) ==> r@.contains((old(self)@[k].rigid_body, old(self)@[k].collider)),
            forall|i: int| 0 <= i < old(self).group_list().len() && (#[trigger] old(self).group_list()[i]).rigid_body is Some
                && old(self).group_list()[i].collider is Some ==> r@.contains(
                (old(self).group_list()[i].rigid_body->Some_0, old(self).group_list()[i].collider->Some_0),
            ),
            forall|h: (BodyHandle, ColliderHandle)| #[trigger] r@.contains(h) ==> (exists|k: CellKey| #[trigger] old(self)@.dom().contains(k)
                && h == (old(self)@[k].rigid_body, old(self)@[k].collider)) || (exists|i: int| 0 <= i < old(self).group_list().len()
                && #[trigger] old(self).group_list()[i].rigid_body == Some(h.0) && old(self).group_list()[i].collider == Some(h.1)),
    {
        let ghost s = self.cells@;
        let ghost gs = self.groups@;
        let mut r: Vec<(BodyHandle, ColliderHandle)> = Vec::new();
        let mut i: usize = 0;
        while i < self.cells.len()
            invariant
                i <= s.len(),
                s == self.cells@,
                keys_unique(s),
                r@.len() == i,
                forall|j: int| 0 <= j < i ==> #[trigger] r@[j] == (s[j].1.rigid_body, s[j].1.collider),
            decreases s.len() - i,
        {
            let c = self.cells[i].1;
            r.push((c.rigid_body, c.collider));
            i = i + 1;
        }
        let n = self.cells.len();
        let mut g: usize = 0;
        while g < self.groups.len()
            invariant
                g <= gs.len(),
                gs == self.groups@,
                n == s.len(),
                r@.len() == n + bodied_groups(gs.take(g as int)),
                forall|j: int| 0 <= j < n ==> #[trigger] r@[j] == (s[j].1.rigid_body, s[j].1.collider),
                forall|j: int| 0 <= j < g && (#[trigger] gs[j]).rigid_body is Some && gs[j].collider is Some ==> r@.contains(
                    (gs[j].rigid_body->Some_0, gs[j].collider->Some_0),
                ),
                forall|t: int| #![trigger r@[t]] n <= t < r@.len() ==> exists|j: int| 0 <= j < g && #[trigger] gs[j].rigid_body == Some(r@[t].0) && gs[j].collider == Some(r@[t].1),
            decreases gs.len() - g,
        {
            let ghost before = r@;
            proof {
                assert(gs.take(g + 1).drop_last() =~= gs.take(g as int));
            }
            match (self.groups[g].rigid_body, self.groups[g].collider) {
                (Some(rb), Some(col)) => {
                    r.push((rb, col));
                    proof {
                        assert(r@[before.len() as int] == (rb, col));
                        assert forall|j: int| 0 <= j < g + 1 && (#[trigger] gs[j]).rigid_body is Some && gs[j].collider is Some implies r@.contains(
                            (gs[j].rigid_body->Some_0, gs[j].collider->Some_0),
                        ) by {
                            if j < g {
                                let t = choose|t: int| 0 <= t < before.len() && before[t] == (gs[j].rigid_body->Some_0, gs[j].collider->Some_0);
                                assert(r@[t] == before[t]);
                            } else {
                                assert(r@[before.len() as int] == (gs[j].rigid_body->Some_0, gs[j].collider->Some_0));
                            }
                        }
                        assert forall|t: int| #![trigger r@[t]] n <= t < r@.len() implies exists|j: int| 0 <= j < g + 1 && #[trigger] gs[j].rigid_body == Some(r@[t].0) && gs[j].collider == Some(r@[t].1) by {
                            if t < before.len() {
                                assert(r@[t] == before[t]);
                            } else {
                                assert(gs[g as int].rigid_body == Some(r@[t].0));
                            }
                        }
                    }
                },
                _ => {},
            }
            g = g + 1;
        }
        proof {
            assert(gs.take(gs.len() as int) =~= gs);
            lemma_map_len(s);
            let m = cells_map(s);
            assert forall|k: CellKey| #[trigger] m.dom().contains(k) implies r@.contains((m[k].rigid_body, m[k].collider)) by {
                let j = key_index(s, k);
                lemma_map_entry(s, j);
                assert(r@[j] == (m[k].rigid_body, m[k].collider));
            }
            assert forall|h: (BodyHandle, ColliderHandle)| #[trigger] r@.contains(h) implies (exists|k: CellKey| #[trigger] m.dom().contains(k)
                && h == (m[k].rigid_body, m[k].collider)) || (exists|i: int| 0 <= i < gs.len()
                && #[trigger] gs[i].rigid_body == Some(h.0) && gs[i].collider == Some(h.1)) by {
                let t = choose|t: int| 0 <= t < r@.len() && r@[t] == h;
                if t < n {
                    lemma_map_entry(s, t);
                    assert(m.dom().contains(s[t].0));
                }
            }
        }
        self.cells = Vec::new();
        self.groups = Vec::new();
        self.dirty = true;
        proof {
            assert(self@ =~= Map::<CellKey, CellData>::empty());
        }
        r
    }
}

// ---------------------------------------------------------------------------
// Laws
// ---------------------------------------------------------------------------

/// Removing a block right after placing it on a free cell gives back the grid
/// as it was.
pub proof fn law_remove_undoes_place(m: Map<CellKey, CellData>, k: CellKey, d: CellData)
    requires
        !m.dom().contains(k),
    ensures
        m.insert(k, d).remove(k) == m,
{
    assert(m.insert(k, d).remove(k) =~= m);
}

/// A cell read back after it was stored gives what was stored.
pub proof fn law_load_then_read(m: Map<CellKey, CellData>, k: CellKey, d: CellData)
    ensures
        m.insert(k, d).dom().contains(k),
        m.insert(k, d)[k] == d,
{
}

/// Placing a block somewhere else never takes support away from a cell.
pub proof fn law_support_survives_placement(
    m: Map<CellKey, CellData>,
    gs: Seq<BakedGroup>,
    k: CellKey,
    terrain_reaches: bool,
    bt: BlockType,
    rotation: u8,
    k2: CellKey,
    d: CellData,
)
    requires
        k2 != k,
        !m.dom().contains(k2),
        supported(m, gs, k, terrain_reaches, bt, rotation),
    ensures
        supported(m.insert(k2, d), gs, k, terrain_reaches, bt, rotation),
{
    let m2 = m.insert(k2, d);
    let own = own_subs(m, k, bt, rotation);
    assert(own_subs(m2, k, bt, rotation) == own);
    assert forall|n: int| side_supports(m, gs, k, own, n) implies #[trigger] side_supports(m2, gs, k, own, n) by {
        let nk = neighbor_key(k, n);
        if m.dom().contains(nk) {
            assert(nk != k2);
            assert(m2[nk] == m[nk]);
        }
    }
    assert(side_supports(m, gs, k, own, 0) ==> side_supports(m2, gs, k, own, 0));
    assert(side_supports(m, gs, k, own, 1) ==> side_supports(m2, gs, k, own, 1));
    assert(side_supports(m, gs, k, own, 2) ==> side_supports(m2, gs, k, own, 2));
    assert(side_supports(m, gs, k, own, 3) ==> side_supports(m2, gs, k, own, 3));
    assert(side_supports(m, gs, k, own, 4) ==> side_supports(m2, gs, k, own, 4));
}

/// A cell whose bottom layer has sub-blocks is supported wherever the
/// terrain reaches it.
pub proof fn law_terrain_supports(
    m: Map<CellKey, CellData>,
    gs: Seq<BakedGroup>,
    k: CellKey,
    bt: BlockType,
    rotation: u8,
)
    requires
        own_subs(m, k, bt, rotation) & BOTTOM_LAYER_MASK != 0,
    ensures
        supported(m, gs, k, true, bt, rotation),
{
}

/// Mining only ever removes sub-blocks, and a mask that covers every
/// remaining sub-block empties the cell.
pub proof fn law_mining_removes_only(sub_blocks: u64, clear_mask: u64)
    ensures
        (sub_blocks & !clear_mask) & !sub_blocks == 0,
        (sub_blocks & !clear_mask) & clear_mask == 0,
        sub_blocks & clear_mask == sub_blocks ==> sub_blocks & !clear_mask == 0,
{
    assert((sub_blocks & !clear_mask) & !sub_blocks == 0) by (bit_vector);
    assert((sub_blocks & !clear_mask) & clear_mask == 0) by (bit_vector);
    assert(sub_blocks & clear_mask == sub_blocks ==> sub_blocks & !clear_mask == 0) by (bit_vector);
}

/// The cells after loading `blocks` one by one into `m`, block `i` with the
/// physics handles `hs[i]` (unbaking a group, loading a blueprint).
pub open spec fn after_loading(
    m: Map<CellKey, CellData>,
    blocks: Seq<BlockEntry>,
    hs: Seq<(BodyHandle, ColliderHandle)>,
) -> Map<CellKey, CellData>
    decreases blocks.len(),
{
    if blocks.len() == 0 {
        m
    } else {
        let b = blocks.last();
        let h = hs[blocks.len() - 1];
        after_loading(m, blocks.drop_last(), hs).insert(
            entry_key(b),
            CellData {
                rigid_body: h.0,
                collider: h.1,
                sub_blocks: b.sub_blocks,
                block_type: block_of_code(b.block_type),
                rotation: b.rotation,
                color: b.color,
            },
        )
    }
}

proof fn lemma_after_loading(blocks: Seq<BlockEntry>, hs: Seq<(BodyHandle, ColliderHandle)>, m: Map<CellKey, CellData>, n: int)
    requires
        0 <= n <= blocks.len(),
        hs.len() == blocks.len(),
        forall|i: int, j: int| 0 <= i < blocks.len() && 0 <= j < blocks.len() && i != j ==> entry_key(#[trigger] blocks[i]) != entry_key(#[trigger] blocks[j]),
        forall|i: int| 0 <= i < blocks.len() ==> {
            let k = entry_key(#[trigger] blocks[i]);
            &&& m.dom().contains(k)
            &&& blocks[i] == entry_of(k, m[k])
        },
    ensures
        forall|k: CellKey| #[trigger] after_loading(Map::empty(), blocks.take(n), hs).dom().contains(k)
            <==> exists|i: int| 0 <= i < n && entry_key(#[trigger] blocks[i]) == k,
        forall|i: int| 0 <= i < n ==> #[trigger] after_loading(Map::empty(), blocks.take(n), hs)[entry_key(blocks[i])] == (CellData {
            rigid_body: hs[i].0,
            collider: hs[i].1,
            ..m[entry_key(blocks[i])]
        }),
    decreases n,
{
    let cur = after_loading(Map::empty(), blocks.take(n), hs);
    if n == 0 {
        assert(cur =~= Map::empty());
    } else {
        lemma_after_loading(blocks, hs, m, n - 1);
        assert(blocks.take(n).drop_last() =~= blocks.take(n - 1));
        let prev = after_loading(Map::empty(), blocks.take(n - 1), hs);
        let b = blocks[n - 1];
        let k = entry_key(b);
        assert(blocks.take(n).last() == b);
        let d = m[k];
        law_block_code_roundtrip(d.block_type, d.block_type);
        assert(cur == prev.insert(k, CellData {
            rigid_body: hs[n - 1].0,
            collider: hs[n - 1].1,
            sub_blocks: b.sub_blocks,
            block_type: block_of_code(b.block_type),
            rotation: b.rotation,
            color: b.color,
        }));
        assert forall|q: CellKey| #[trigger] cur.dom().contains(q) <==> exists|i: int| 0 <= i < n && entry_key(#[trigger] blocks[i]) == q by {
            if cur.dom().contains(q) && q != k {
                assert(prev.dom().contains(q));
            }
            if exists|i: int| 0 <= i < n && entry_key(#[trigger] blocks[i]) == q {
                let i = choose|i: int| 0 <= i < n && entry_key(#[trigger] blocks[i]) == q;
                if i < n - 1 {
                    assert(prev.dom().contains(q));
                }
            }
        }
        assert forall|i: int| 0 <= i < n implies #[trigger] cur[entry_key(blocks[i])] == (CellData {
            rigid_body: hs[i].0,
            collider: hs[i].1,
            ..m[entry_key(blocks[i])]
        }) by {
            if i < n - 1 {
                assert(entry_key(blocks[i]) != k);
                assert(prev[entry_key(blocks[i])] == (CellData { rigid_body: hs[i].0, collider: hs[i].1, ..m[entry_key(blocks[i])] }));
            }
        }
    }
}

/// Unbaking restores what was baked: loading the blocks that `bake_cells`
/// handed out, each with new physics handles, gives back every cell with its
/// sub-blocks, block type, rotation and color, and no other cell.
pub proof fn law_unbake_restores(
    m: Map<CellKey, CellData>,
    blocks: Seq<BlockEntry>,
    hs: Seq<(BodyHandle, ColliderHandle)>,
)
    requires
        hs.len() == blocks.len(),
        forall|i: int| 0 <= i < blocks.len() ==> {
            let k = entry_key(#[trigger] blocks[i]);
            &&& m.dom().contains(k)
            &&& blocks[i] == entry_of(k, m[k])
        },
        forall|k: CellKey| #[trigger] m.dom().contains(k) ==> exists|i: int| 0 <= i < blocks.len() && entry_key(#[trigger] blocks[i]) == k,
        forall|i: int, j: int| 0 <= i < blocks.len() && 0 <= j < blocks.len() && i != j ==> entry_key(#[trigger] blocks[i]) != entry_key(#[trigger] blocks[j]),
    ensures
        after_loading(Map::empty(), blocks, hs).dom() == m.dom(),
        forall|k: CellKey| #[trigger] m.dom().contains(k) ==> {
            let c = after_loading(Map::empty(), blocks, hs)[k];
            &&& c.sub_blocks == m[k].sub_blocks
            &&& c.block_type == m[k].block_type
            &&& c.rotation == m[k].rotation
            &&& c.color == m[k].color
        },
{
    lemma_after_loading(blocks, hs, m, blocks.len() as int);
    assert(blocks.take(blocks.len() as int) =~= blocks);
    let r = after_loading(Map::empty(), blocks, hs);
    assert forall|k: CellKey| #[trigger] r.dom().contains(k) <==> m.dom().contains(k) by {
        if r.dom().contains(k) {
            let i = choose|i: int| 0 <= i < blocks.len() && entry_key(#[trigger] blocks[i]) == k;
            assert(m.dom().contains(entry_key(blocks[i])));
        }
    }
    assert(r.dom() =~= m.dom());
    assert forall|k: CellKey| #[trigger] m.dom().contains(k) implies {
        let c = r[k];
        &&& c.sub_blocks == m[k].sub_blocks
        &&& c.block_type == m[k].block_type
        &&& c.rotation == m[k].rotation
        &&& c.color == m[k].color
    } by {
        let i = choose|i: int| 0 <= i < blocks.len() && entry_key(#[trigger] blocks[i]) == k;
        assert(r[entry_key(blocks[i])] == (CellData { rigid_body: hs[i].0, collider: hs[i].1, ..m[entry_key(blocks[i])] }));
    }
}

} // verus!
