//! Which faces of the sub-blocks of a mined cell are drawn: a face shows
//! where the neighboring sub-block (possibly in the next cell) is empty.

use vstd::prelude::*;
use crate::building::block_type::{has_sub, idx_x, idx_y, idx_z, sub_at, wrap, SUBS};
use crate::building::greedy::{subs_at, subs_of};
use crate::building::grid::{wrapped, CellKey};

verus! {

/// A drawn face of one sub-block. `face`: 0 = +X, 1 = -X, 2 = +Y, 3 = -Y,
/// 4 = +Z, 5 = -Z. Exterior faces take the block's color, the others the
/// darker interior color.
#[derive(Debug, Clone, Copy, PartialEq, Eq)]
pub struct SubFace {
    pub sx: i32,
    pub sy: i32,
    pub sz: i32,
    pub face: u8,
    pub exterior: bool,
}

/// Offset of the neighboring sub-block across face `f`.
pub open spec fn sub_face_offset(f: int) -> (int, int, int) {
    if f == 0 {
        (1, 0, 0)
    } else if f == 1 {
        (-1, 0, 0)
    } else if f == 2 {
        (0, 1, 0)
    } else if f == 3 {
        (0, -1, 0)
    } else if f == 4 {
        (0, 0, 1)
    } else {
        (0, 0, -1)
    }
}

/// Face `f` of sub-block `(sx, sy, sz)` lies on the surface of the cell.
pub open spec fn on_cell_edge(f: int, sx: int, sy: int, sz: int) -> bool {
    if f == 0 {
        sx == SUBS - 1
    } else if f == 1 {
        sx == 0
    } else if f == 2 {
        sy == SUBS - 1
    } else if f == 3 {
        sy == 0
    } else if f == 4 {
        sz == SUBS - 1
    } else {
        sz == 0
    }
}

/// The sub-block at `(sx, sy, sz)` of cell `c`, where coordinates one cell
/// outside refer to the neighboring cell, is present in `all`.
pub open spec fn solid_at(all: Seq<(CellKey, u64)>, c: CellKey, sx: int, sy: int, sz: int) -> bool {
    let (x, a) = wrapped(c.0 as int, sx);
    let (y, b) = wrapped(c.1 as int, sy);
    let (z, d) = wrapped(c.2 as int, sz);
    match subs_at(all, (x as i32, y as i32, z as i32)) {
        Some(m) => sub_at(m, a, b, d),
        None => false,
    }
}

/// The faces among the first `f` of sub-block `(sx, sy, sz)` that are drawn.
pub open spec fn faces_from(all: Seq<(CellKey, u64)>, c: CellKey, sx: int, sy: int, sz: int, interior: bool, f: int) -> Seq<SubFace>
    decreases f,
{
    if f <= 0 {
        seq![]
    } else {
        let p = faces_from(all, c, sx, sy, sz, interior, f - 1);
        let d = sub_face_offset(f - 1);
        if solid_at(all, c, sx + d.0, sy + d.1, sz + d.2) {
            p
        } else {
            p.push(SubFace {
                sx: sx as i32,
                sy: sy as i32,
                sz: sz as i32,
                face: (f - 1) as u8,
                exterior: on_cell_edge(f - 1, sx, sy, sz) && !interior,
            })
        }
    }
}

/// The drawn faces of the present sub-blocks among the first `k` (in bit
/// order: by layer, then row, then column).
pub open spec fn sub_faces(all: Seq<(CellKey, u64)>, c: CellKey, sub_blocks: u64, interior: bool, k: int) -> Seq<SubFace>
    decreases k,
{
    if k <= 0 {
        seq![]
    } else {
        let p = sub_faces(all, c, sub_blocks, interior, k - 1);
        let j = (k - 1) as u64;
        if sub_at(sub_blocks, idx_x(j), idx_y(j), idx_z(j)) {
            p + faces_from(all, c, idx_x(j), idx_y(j), idx_z(j), interior, 6)
        } else {
            p
        }
    }
}

fn face_offset_of(f: u8) -> (r: (i32, i32, i32))
    requires
        f < 6,
    ensures
        r.0 == sub_face_offset(f as int).0,
        r.1 == sub_face_offset(f as int).1,
        r.2 == sub_face_offset(f as int).2,
{
    if f == 0 {
        (1, 0, 0)
    } else if f == 1 {
        (-1, 0, 0)
    } else if f == 2 {
        (0, 1, 0)
    } else if f == 3 {
        (0, -1, 0)
    } else if f == 4 {
        (0, 0, 1)
    } else {
        (0, 0, -1)
    }
}

/// The sub-block at `(sx, sy, sz)` of cell `(cx, cy, cz)` is present, looking
/// into the neighboring cell for coordinates one cell outside.
pub fn solid_sub(all: &Vec<(CellKey, u64)>, cx: i32, cy: i32, cz: i32, sx: i32, sy: i32, sz: i32) -> (r: bool)
    requires
        i32::MIN < cx < i32::MAX,
        i32::MIN < cy < i32::MAX,
        i32::MIN < cz < i32::MAX,
        -SUBS <= sx < 2 * SUBS,
        -SUBS <= sy < 2 * SUBS,
        -SUBS <= sz < 2 * SUBS,
    ensures
        r == solid_at(all@, (cx, cy, cz), sx as int, sy as int, sz as int),
{
    let (wx, wsx) = wrap(cx, sx);
    let (wy, wsy) = wrap(cy, sy);
    let (wz, wsz) = wrap(cz, sz);
    match subs_of(all, (wx, wy, wz)) {
        Some(m) => has_sub(m, wsx, wsy, wsz),
        None => false,
    }
}

/// The faces to draw for a mined cell at `(cx, cy, cz)` with sub-blocks
/// `sub_blocks`, against the cells `all` (its own included). `interior`:
/// the cell is not pristine, so no face takes the exterior color.
pub fn exposed_sub_faces(all: &Vec<(CellKey, u64)>, cx: i32, cy: i32, cz: i32, sub_blocks: u64, interior: bool) -> (r: Vec<SubFace>)
    requires
        i32::MIN < cx < i32::MAX,
        i32::MIN < cy < i32::MAX,
        i32::MIN < cz < i32::MAX,
    ensures
        r@ == sub_faces(all@, (cx, cy, cz), sub_blocks, interior, 64),
{
    let ghost c = (cx, cy, cz);
    let mut r: Vec<SubFace> = Vec::new();
    let mut i: u64 = 0;
    while i < 64
        invariant
            i <= 64,
            c == (cx, cy, cz),
            i32::MIN < cx < i32::MAX,
            i32::MIN < cy < i32::MAX,
            i32::MIN < cz < i32::MAX,
            r@ == sub_faces(all@, c, sub_blocks, interior, i as int),
        decreases 64 - i,
    {
        let sx = (i % 4) as i32;
        let sz = ((i / 4) % 4) as i32;
        let sy = (i / 16) as i32;
        proof {
            assert(sx as int == idx_x(i) && sy as int == idx_y(i) && sz as int == idx_z(i));
        }
        if has_sub(sub_blocks, sx, sy, sz) {
            let ghost base = r@;
            let mut f: u8 = 0;
            while f < 6
                invariant
                    f <= 6,
                    0 <= sx < 4,
                    0 <= sy < 4,
                    0 <= sz < 4,
                    c == (cx, cy, cz),
                    i32::MIN < cx < i32::MAX,
                    i32::MIN < cy < i32::MAX,
                    i32::MIN < cz < i32::MAX,
                    r@ == base + faces_from(all@, c, sx as int, sy as int, sz as int, interior, f as int),
                decreases 6 - f,
            {
                let d = face_offset_of(f);
                if !solid_sub(all, cx, cy, cz, sx + d.0, sy + d.1, sz + d.2) {
                    let edge = if f == 0 {
                        sx == SUBS - 1
                    } else if f == 1 {
                        sx == 0
                    } else if f == 2 {
                        sy == SUBS - 1
                    } else if f == 3 {
                        sy == 0
                    } else if f == 4 {
                        sz == SUBS - 1
                    } else {
                        sz == 0
                    };
                    r.push(SubFace { sx, sy, sz, face: f, exterior: edge && !interior });
                    proof {
                        assert(r@ =~= base + faces_from(all@, c, sx as int, sy as int, sz as int, interior, f + 1));
                    }
                }
                f = f + 1;
            }
        }
        i = i + 1;
    }
    r
}

} // verus!
