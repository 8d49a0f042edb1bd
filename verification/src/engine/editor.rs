//! Structure editor: drag-to-fill regions, block rotation, palette and group
//! selection.

use vstd::prelude::*;
use crate::building::block_type::{block_after, BlockType};

verus! {

/// Number of colors in the editor palette.
pub const PALETTE_LEN: usize = 12;

/// Which plane the drag-to-fill rectangle lives on.
#[derive(Debug, Clone, Copy, PartialEq, Eq, Structural)]
pub enum DragPlane {
    /// Floor: fill XZ at fixed Y.
    FloorXZ(i32),
    /// Wall: fill XY at fixed Z.
    WallXY(i32),
    /// Wall: fill YZ at fixed X.
    WallYZ(i32),
}

pub open spec fn min_i(a: i32, b: i32) -> int {
    if a <= b {
        a as int
    } else {
        b as int
    }
}

pub open spec fn max_i(a: i32, b: i32) -> int {
    if a <= b {
        b as int
    } else {
        a as int
    }
}

/// Row `a` of a rectangle: `(a, b)` for `b` from `b0` to `b1`.
pub open spec fn rect_row(a: int, b0: int, b1: int) -> Seq<(int, int)> {
    Seq::new(if b1 >= b0 {
        (b1 - b0 + 1) as nat
    } else {
        0
    }, |k: int| (a, b0 + k))
}

/// All `(a, b)` with `a0 <= a <= a1` and `b0 <= b <= b1`, rows in order of `a`.
pub open spec fn rect_pairs(a0: int, a1: int, b0: int, b1: int) -> Seq<(int, int)>
    decreases a1 - a0 + 1,
{
    if a1 < a0 {
        seq![]
    } else {
        rect_pairs(a0, a1 - 1, b0, b1) + rect_row(a1, b0, b1)
    }
}

/// The cell of `plane` at free coordinates `p`.
pub open spec fn plane_cell(plane: DragPlane, p: (int, int)) -> (int, int, int) {
    match plane {
        DragPlane::FloorXZ(y) => (p.0, y as int, p.1),
        DragPlane::WallXY(z) => (p.0, p.1, z as int),
        DragPlane::WallYZ(x) => (x as int, p.0, p.1),
    }
}

/// The free coordinates of the rectangle between `start` and `end` on `plane`.
pub open spec fn plane_rect(start: (i32, i32, i32), end: (i32, i32, i32), plane: DragPlane) -> Seq<(int, int)> {
    match plane {
        DragPlane::FloorXZ(_) => rect_pairs(min_i(start.0, end.0), max_i(start.0, end.0), min_i(start.2, end.2), max_i(start.2, end.2)),
        DragPlane::WallXY(_) => rect_pairs(min_i(start.0, end.0), max_i(start.0, end.0), min_i(start.1, end.1), max_i(start.1, end.1)),
        DragPlane::WallYZ(_) => rect_pairs(min_i(start.1, end.1), max_i(start.1, end.1), min_i(start.2, end.2), max_i(start.2, end.2)),
    }
}

/// Cells of the fill region in the order they are placed.
pub open spec fn fill_cells(start: (i32, i32, i32), end: (i32, i32, i32), plane: DragPlane) -> Seq<(int, int, int)> {
    plane_rect(start, end, plane).map_values(|p: (int, int)| plane_cell(plane, p))
}

/// All `(a, b)` pairs of a rectangle, rows in order of `a`.
fn rect(a0: i32, a1: i32, b0: i32, b1: i32) -> (r: Vec<(i32, i32)>)
    requires
        a0 <= a1,
        b0 <= b1,
    ensures
        r@.len() == rect_pairs(a0 as int, a1 as int, b0 as int, b1 as int).len(),
        forall|k: int| 0 <= k < r@.len() ==> (#[trigger] r@[k].0 as int, r@[k].1 as int) == rect_pairs(a0 as int, a1 as int, b0 as int, b1 as int)[k],
{
    let mut out: Vec<(i32, i32)> = Vec::new();
    let mut a: i64 = a0 as i64;
    while a <= a1 as i64
        invariant
            a0 <= a <= a1 as int + 1,
            a0 <= a1,
            b0 <= b1,
            out@.len() == rect_pairs(a0 as int, a - 1, b0 as int, b1 as int).len(),
            forall|k: int| 0 <= k < out@.len() ==> (#[trigger] out@[k].0 as int, out@[k].1 as int) == rect_pairs(a0 as int, a - 1, b0 as int, b1 as int)[k],
        decreases a1 as int + 1 - a,
    {
        let ghost before = out@;
        let ghost prefix = rect_pairs(a0 as int, a - 1, b0 as int, b1 as int);
        let mut b: i64 = b0 as i64;
        while b <= b1 as i64
            invariant
                a0 <= a <= a1,
                b0 <= b <= b1 as int + 1,
                b0 <= b1,
                out@.len() == before.len() + (b - b0),
                before.len() == prefix.len(),
                forall|k: int| 0 <= k < before.len() ==> #[trigger] out@[k] == before[k],
                forall|k: int| 0 <= k < before.len() ==> (#[trigger] before[k].0 as int, before[k].1 as int) == prefix[k],
                forall|k: int| before.len() <= k < out@.len() ==> (#[trigger] out@[k].0 as int, out@[k].1 as int) == (a as int, b0 + (k - before.len())),
            decreases b1 as int + 1 - b,
        {
            out.push((a as i32, b as i32));
            b = b + 1;
        }
        proof {
            let row = rect_row(a as int, b0 as int, b1 as int);
            assert(rect_pairs(a0 as int, a as int, b0 as int, b1 as int) == prefix + row);
            assert forall|k: int| 0 <= k < out@.len() implies (#[trigger] out@[k].0 as int, out@[k].1 as int) == rect_pairs(a0 as int, a as int, b0 as int, b1 as int)[k] by {
                if k < before.len() {
                    assert(out@[k] == before[k]);
                }
            }
        }
        a = a + 1;
    }
    out
}

/// One entry of a fill region: the cell, and the block to place there.
pub open spec fn fill_entry_is(
    e: ((i32, i32, i32), BlockType, u8, glam::Vec3),
    cell: (int, int, int),
    block_type: BlockType,
    rotation: u8,
    color: glam::Vec3,
) -> bool {
    &&& (e.0.0 as int, e.0.1 as int, e.0.2 as int) == cell
    &&& e.1 == block_type
    &&& e.2 == rotation
    &&& e.3 == color
}

/// Build the list of cells that fill the rectangle between `start` and `end` on the given plane.
pub fn build_fill_region(
    start: (i32, i32, i32),
    end: (i32, i32, i32),
    plane: DragPlane,
    block_type: BlockType,
    rotation: u8,
    color: glam::Vec3,
) -> (r: Vec<((i32, i32, i32), BlockType, u8, glam::Vec3)>)
    ensures
        r@.len() == fill_cells(start, end, plane).len(),
        forall|k: int| 0 <= k < r@.len() ==> fill_entry_is(#[trigger] r@[k], fill_cells(start, end, plane)[k], block_type, rotation, color),
{
    let pairs = match plane {
        DragPlane::FloorXZ(_) => {
            let (x0, x1) = if start.0 <= end.0 { (start.0, end.0) } else { (end.0, start.0) };
            let (z0, z1) = if start.2 <= end.2 { (start.2, end.2) } else { (end.2, start.2) };
            rect(x0, x1, z0, z1)
        },
        DragPlane::WallXY(_) => {
            let (x0, x1) = if start.0 <= end.0 { (start.0, end.0) } else { (end.0, start.0) };
            let (y0, y1) = if start.1 <= end.1 { (start.1, end.1) } else { (end.1, start.1) };
            rect(x0, x1, y0, y1)
        },
        DragPlane::WallYZ(_) => {
            let (y0, y1) = if start.1 <= end.1 { (start.1, end.1) } else { (end.1, start.1) };
            let (z0, z1) = if start.2 <= end.2 { (start.2, end.2) } else { (end.2, start.2) };
            rect(y0, y1, z0, z1)
        },
    };
    let ghost rect_spec = plane_rect(start, end, plane);
    let mut cells: Vec<((i32, i32, i32), BlockType, u8, glam::Vec3)> = Vec::new();
    let mut k: usize = 0;
    while k < pairs.len()
        invariant
            k <= pairs@.len(),
            pairs@.len() == rect_spec.len(),
            rect_spec == plane_rect(start, end, plane),
            forall|j: int| 0 <= j < pairs@.len() ==> (#[trigger] pairs@[j].0 as int, pairs@[j].1 as int) == rect_spec[j],
            cells@.len() == k,
            forall|j: int| 0 <= j < k ==> fill_entry_is(#[trigger] cells@[j], plane_cell(plane, rect_spec[j]), block_type, rotation, color),
        decreases pairs@.len() - k,
    {
        let (a, b) = pairs[k];
        proof {
            assert((pairs@[k as int].0 as int, pairs@[k as int].1 as int) == rect_spec[k as int]);
        }
        let cell = match plane {
            DragPlane::FloorXZ(y) => (a, y, b),
            DragPlane::WallXY(z) => (a, b, z),
            DragPlane::WallYZ(x) => (x, a, b),
        };
        let ghost before = cells@;
        cells.push((cell, block_type, rotation, color));
        proof {
            assert(fill_entry_is(cells@[k as int], plane_cell(plane, rect_spec[k as int]), block_type, rotation, color));
            assert forall|j: int| 0 <= j < k + 1 implies fill_entry_is(#[trigger] cells@[j], plane_cell(plane, rect_spec[j]), block_type, rotation, color) by {
                if j < k {
                    assert(cells@[j] == before[j]);
                }
            }
        }
        k = k + 1;
    }
    proof {
        assert forall|j: int| 0 <= j < cells@.len() implies fill_cells(start, end, plane)[j] == plane_cell(plane, rect_spec[j]) by {}
    }
    cells
}

/// Rotation after pressing the rotate key: a slab flips between bottom (0)
/// and top (1); other blocks turn a quarter turn.
pub fn next_rotation(block_type: BlockType, rotation: u8) -> (r: u8)
    requires
        block_type != BlockType::Slab ==> rotation < 255,
    ensures
        block_type == BlockType::Slab ==> r == (if rotation == 0 {
            1u8
        } else {
            0u8
        }),
        block_type != BlockType::Slab ==> r == (rotation + 1) % 4,
{
    if block_type == BlockType::Slab {
        if rotation == 0 {
            1
        } else {
            0
        }
    } else {
        (rotation + 1) % 4
    }
}

/// Palette index after a scroll step up (`forward`) or down, wrapping around.
pub fn cycle_palette(index: usize, forward: bool) -> (r: usize)
    ensures
        r < PALETTE_LEN,
        forward ==> r == (index + 1) % (PALETTE_LEN as int),
        !forward ==> r == (index + PALETTE_LEN - 1) % (PALETTE_LEN as int),
{
    let i = index % PALETTE_LEN;
    if forward {
        (i + 1) % PALETTE_LEN
    } else {
        (i + PALETTE_LEN - 1) % PALETTE_LEN
    }
}

/// Group selected after pressing "previous group" (`group_count > 0`).
pub fn select_prev_group(selected: Option<usize>, group_count: usize) -> (r: usize)
    requires
        group_count > 0,
    ensures
        r == (match selected {
            Some(cur) => if cur == 0 {
                group_count - 1
            } else {
                cur - 1
            },
            None => group_count - 1,
        }),
{
    let cur = match selected {
        Some(c) => c,
        None => 0,
    };
    if cur == 0 {
        group_count - 1
    } else {
        cur - 1
    }
}

/// Group selected after pressing "next group" (`group_count > 0`).
pub fn select_next_group(selected: Option<usize>, group_count: usize) -> (r: usize)
    requires
        group_count > 0,
        selected matches Some(cur) ==> cur < usize::MAX,
    ensures
        r == (match selected {
            Some(cur) => (cur + 1) % (group_count as int),
            None => 0,
        }),
{
    let cur = match selected {
        Some(c) => c,
        None => group_count - 1,
    };
    proof {
        let n = group_count as int;
        assert(n % n == 0) by (nonlinear_arith)
            requires
                n > 0,
        ;
    }
    (cur + 1) % group_count
}

/// Keep a group selection inside the current number of groups.
pub fn clamp_group_selection(selected: Option<usize>, group_count: usize) -> (r: Option<usize>)
    ensures
        group_count == 0 ==> r is None,
        group_count > 0 ==> r == (match selected {
            Some(sel) => if sel >= group_count {
                Some((group_count - 1) as usize)
            } else {
                Some(sel)
            },
            None => None,
        }),
{
    if group_count == 0 {
        None
    } else {
        match selected {
            Some(sel) => if sel >= group_count {
                Some(group_count - 1)
            } else {
                Some(sel)
            },
            None => None,
        }
    }
}

/// The drag-to-fill rectangle is exactly the cells between the two corners:
/// `width * height` entries, each inside the rectangle, each cell of the
/// rectangle present, none twice.
pub proof fn law_rect_is_exact(a0: int, a1: int, b0: int, b1: int)
    requires
        a0 <= a1 + 1,
        b0 <= b1 + 1,
    ensures
        rect_pairs(a0, a1, b0, b1).len() == (a1 - a0 + 1) * (b1 - b0 + 1),
        forall|k: int| 0 <= k < rect_pairs(a0, a1, b0, b1).len() ==> {
            let p = #[trigger] rect_pairs(a0, a1, b0, b1)[k];
            a0 <= p.0 <= a1 && b0 <= p.1 <= b1
        },
        forall|a: int, b: int| a0 <= a <= a1 && b0 <= b <= b1 ==> #[trigger] rect_pairs(a0, a1, b0, b1).contains((a, b)),
        rect_pairs(a0, a1, b0, b1).no_duplicates(),
    decreases a1 - a0 + 1,
{
    let w = b1 - b0 + 1;
    if a1 >= a0 {
        law_rect_is_exact(a0, a1 - 1, b0, b1);
        let prev = rect_pairs(a0, a1 - 1, b0, b1);
        let row = rect_row(a1, b0, b1);
        let all = rect_pairs(a0, a1, b0, b1);
        assert(all == prev + row);
        assert((a1 - a0 + 1) * w == (a1 - 1 - a0 + 1) * w + w) by (nonlinear_arith);
        assert forall|a: int, b: int| a0 <= a <= a1 && b0 <= b <= b1 implies #[trigger] all.contains((a, b)) by {
            if a < a1 {
                assert(prev.contains((a, b)));
                let k = choose|k: int| 0 <= k < prev.len() && prev[k] == (a, b);
                assert(all[k] == (a, b));
            } else {
                assert(all[prev.len() + (b - b0)] == (a, b));
            }
        }
        assert forall|i: int, j: int| 0 <= i < all.len() && 0 <= j < all.len() && i != j implies all[i] != all[j] by {
            if i < prev.len() && j < prev.len() {
            } else if i >= prev.len() && j >= prev.len() {
            } else if i < prev.len() {
                assert(prev[i].0 <= a1 - 1);
            } else {
                assert(prev[j].0 <= a1 - 1);
            }
        }
    }
}

/// `v` lies between `a` and `b`, whichever is larger.
pub open spec fn between(v: int, a: int, b: int) -> bool {
    (a <= v && v <= b) || (b <= v && v <= a)
}

/// The number of values between `a` and `b`, both included.
pub open spec fn span(a: int, b: int) -> int {
    if a <= b {
        b - a + 1
    } else {
        a - b + 1
    }
}

/// The cells that dragging from `start` to `end` on `plane` covers: on a floor
/// at height y, every (x, y, z) with x between the two corners' x and z
/// between their z; on a wall at depth z, every (x, y, z) with x and y
/// between theirs; on a wall at x, every (x, y, z) with y and z between
/// theirs.
pub open spec fn in_drag_region(start: (i32, i32, i32), end: (i32, i32, i32), plane: DragPlane, c: (int, int, int)) -> bool {
    match plane {
        DragPlane::FloorXZ(y) => c.1 == y && between(c.0, start.0 as int, end.0 as int) && between(c.2, start.2 as int, end.2 as int),
        DragPlane::WallXY(z) => c.2 == z && between(c.0, start.0 as int, end.0 as int) && between(c.1, start.1 as int, end.1 as int),
        DragPlane::WallYZ(x) => c.0 == x && between(c.1, start.1 as int, end.1 as int) && between(c.2, start.2 as int, end.2 as int),
    }
}

/// The size of that region: the product of the spans of the two free
/// coordinates.
pub open spec fn drag_region_size(start: (i32, i32, i32), end: (i32, i32, i32), plane: DragPlane) -> int {
    match plane {
        DragPlane::FloorXZ(_) => span(start.0 as int, end.0 as int) * span(start.2 as int, end.2 as int),
        DragPlane::WallXY(_) => span(start.0 as int, end.0 as int) * span(start.1 as int, end.1 as int),
        DragPlane::WallYZ(_) => span(start.1 as int, end.1 as int) * span(start.2 as int, end.2 as int),
    }
}

/// The fill region of a drag is exactly the rectangle between the two
/// corners on the drag plane: every cell of it is in the rectangle, every
/// cell of the rectangle is in it once, and so it has as many cells as the
/// rectangle.
pub proof fn law_fill_region_is_the_rectangle(start: (i32, i32, i32), end: (i32, i32, i32), plane: DragPlane)
    ensures
        fill_cells(start, end, plane).len() == drag_region_size(start, end, plane),
        forall|k: int| 0 <= k < fill_cells(start, end, plane).len() ==> in_drag_region(start, end, plane, #[trigger] fill_cells(start, end, plane)[k]),
        forall|c: (int, int, int)| in_drag_region(start, end, plane, c) ==> #[trigger] fill_cells(start, end, plane).contains(c),
        fill_cells(start, end, plane).no_duplicates(),
{
    let (a0, a1, b0, b1) = match plane {
        DragPlane::FloorXZ(_) => (min_i(start.0, end.0), max_i(start.0, end.0), min_i(start.2, end.2), max_i(start.2, end.2)),
        DragPlane::WallXY(_) => (min_i(start.0, end.0), max_i(start.0, end.0), min_i(start.1, end.1), max_i(start.1, end.1)),
        DragPlane::WallYZ(_) => (min_i(start.1, end.1), max_i(start.1, end.1), min_i(start.2, end.2), max_i(start.2, end.2)),
    };
    let rect = rect_pairs(a0, a1, b0, b1);
    assert(plane_rect(start, end, plane) == rect);
    law_rect_is_exact(a0, a1, b0, b1);
    let cells = fill_cells(start, end, plane);
    assert(cells.len() == rect.len());
    assert forall|k: int| 0 <= k < cells.len() implies #[trigger] cells[k] == plane_cell(plane, rect[k]) by {}
    assert(drag_region_size(start, end, plane) == (a1 - a0 + 1) * (b1 - b0 + 1));
    assert forall|k: int| 0 <= k < cells.len() implies in_drag_region(start, end, plane, #[trigger] cells[k]) by {
        assert(cells[k] == plane_cell(plane, rect[k]));
        let p = rect[k];
        assert(a0 <= p.0 <= a1 && b0 <= p.1 <= b1);
    }
    assert forall|c: (int, int, int)| in_drag_region(start, end, plane, c) implies #[trigger] cells.contains(c) by {
        let p: (int, int) = match plane {
            DragPlane::FloorXZ(_) => (c.0, c.2),
            DragPlane::WallXY(_) => (c.0, c.1),
            DragPlane::WallYZ(_) => (c.1, c.2),
        };
        assert(a0 <= p.0 <= a1 && b0 <= p.1 <= b1);
        assert(rect.contains(p));
        let k = choose|k: int| 0 <= k < rect.len() && rect[k] == p;
        assert(cells[k] == plane_cell(plane, p));
        assert(plane_cell(plane, p) == c);
    }
    assert forall|i: int, j: int| 0 <= i < cells.len() && 0 <= j < cells.len() && i != j implies cells[i] != cells[j] by {
        assert(rect[i] != rect[j]);
        assert(cells[i] == plane_cell(plane, rect[i]));
        assert(cells[j] == plane_cell(plane, rect[j]));
    }
}

/// The block type and rotation chosen for building, with the state of the
/// cycle (B) and rotate (V) keys on the previous frame.
#[derive(Debug, Clone, Copy)]
pub struct BlockSelection {
    pub block_type: BlockType,
    pub rotation: u8,
    pub cycle_prev: bool,
    pub rotate_prev: bool,
}

impl BlockSelection {
    pub fn new() -> (r: Self)
        ensures
            r.block_type == BlockType::Cube,
            r.rotation == 0,
            !r.cycle_prev,
            !r.rotate_prev,
    {
        BlockSelection { block_type: BlockType::Cube, rotation: 0, cycle_prev: false, rotate_prev: false }
    }

    /// One frame of the build keys: pressing B picks the next block type at
    /// rotation 0, then pressing V turns it (a slab flips between bottom and
    /// top). Returns true if the selection changed.
    pub fn step(&mut self, cycle_pressed: bool, rotate_pressed: bool) -> (r: bool)
        requires
            old(self).rotation < 255,
        ensures
            ({
                let cycle = cycle_pressed && !old(self).cycle_prev;
                let rotate = rotate_pressed && !old(self).rotate_prev;
                let bt = if cycle {
                    block_after(old(self).block_type)
                } else {
                    old(self).block_type
                };
                let rot = if cycle {
                    0u8
                } else {
                    old(self).rotation
                };
                &&& r == (cycle || rotate)
                &&& final(self).block_type == bt
                &&& final(self).rotation == (if !rotate {
                    rot
                } else if bt == BlockType::Slab {
                    if rot == 0 {
                        1u8
                    } else {
                        0u8
                    }
                } else {
                    ((rot + 1) % 4) as u8
                })
            }),
            final(self).cycle_prev == cycle_pressed,
            final(self).rotate_prev == rotate_pressed,
            final(self).rotation < 4 || final(self).rotation == old(self).rotation,
    {
        let cycle = cycle_pressed && !self.cycle_prev;
        self.cycle_prev = cycle_pressed;
        if cycle {
            self.block_type = self.block_type.next();
            self.rotation = 0;
        }
        let rotate = rotate_pressed && !self.rotate_prev;
        self.rotate_prev = rotate_pressed;
        if rotate {
            self.rotation = next_rotation(self.block_type, self.rotation);
        }
        cycle || rotate
    }
}

} // verus!
