//! Greedy meshing of the visible faces of pristine cubes: on each slice of
//! the grid, neighboring faces of the same color are merged into rectangles.
//!
//! Faces are cells `(u, v)` of one slice; colors are compared by their bit
//! patterns (`ColorKey`), so equal keys mean exactly the same color.

use vstd::prelude::*;
use crate::building::block_type::{
    lemma_face_masks, lemma_side_tests, side_full,
    BOTTOM_LAYER_MASK, NEG_X_FACE_MASK, NEG_Z_FACE_MASK, POS_X_FACE_MASK, POS_Z_FACE_MASK,
    TOP_LAYER_MASK,
};
use crate::building::grid::CellKey;

verus! {

/// The bit patterns of a color's three channels.
pub type ColorKey = (u32, u32, u32);

/// A visible face at cell `(u, v)` of a slice, with its color.
#[derive(Debug, Clone, Copy)]
pub struct FaceCell {
    pub u: i32,
    pub v: i32,
    pub key: ColorKey,
}

/// A merged rectangle of faces: cells `u0 <= u < u1`, `v0 <= v < v1`.
#[derive(Debug, Clone, Copy, PartialEq, Eq)]
pub struct Quad {
    pub u0: i32,
    pub v0: i32,
    pub u1: i32,
    pub v1: i32,
    pub key: ColorKey,
}

/// Cell `(u, v)` lies in quad `q`.
pub open spec fn in_quad(q: Quad, u: int, v: int) -> bool {
    q.u0 <= u < q.u1 && q.v0 <= v < q.v1
}

/// Some quad of `s` holds cell `(u, v)`.
pub open spec fn covered(s: Seq<Quad>, u: int, v: int) -> bool {
    exists|i: int| 0 <= i < s.len() && #[trigger] in_quad(s[i], u, v)
}

/// The color of the face at `(u, v)`: the last face of `fs` there, as when
/// the faces are put into a map one after the other.
pub open spec fn face_at(fs: Seq<FaceCell>, u: int, v: int) -> Option<ColorKey>
    decreases fs.len(),
{
    if fs.len() == 0 {
        None
    } else if fs.last().u == u && fs.last().v == v {
        Some(fs.last().key)
    } else {
        face_at(fs.drop_last(), u, v)
    }
}

/// `fs` has a face at `(u, v)` with color `key`.
pub open spec fn is_face(fs: Seq<FaceCell>, u: int, v: int, key: ColorKey) -> bool {
    face_at(fs, u, v) == Some(key)
}

/// A face of color `key` at `(u, v)` that no quad of `s` has taken yet.
pub open spec fn free(fs: Seq<FaceCell>, s: Seq<Quad>, u: int, v: int, key: ColorKey) -> bool {
    is_face(fs, u, v, key) && !covered(s, u, v)
}

/// Cell `(u1, v1)` comes before `(u2, v2)`: rows by `v`, then by `u`.
pub open spec fn precedes(u1: int, v1: int, u2: int, v2: int) -> bool {
    v1 < v2 || (v1 == v2 && u1 < u2)
}

/// Quad `q` starts at the first face (in row order) that no quad of `before`
/// has taken.
pub open spec fn starts_first(fs: Seq<FaceCell>, before: Seq<Quad>, q: Quad) -> bool {
    forall|j: int| 0 <= j < fs.len() && !covered(before, fs[j].u as int, fs[j].v as int) ==> !#[trigger] precedes(fs[j].u as int, fs[j].v as int, q.u0 as int, q.v0 as int)
}

/// Every cell of `q` is a face of `q`'s color that no quad of `before` has taken.
pub open spec fn cells_free(fs: Seq<FaceCell>, before: Seq<Quad>, q: Quad) -> bool {
    forall|u: int, v: int| #[trigger] in_quad(q, u, v) ==> free(fs, before, u, v, q.key)
}

/// `q` cannot be widened: the cell right of its first row is not free.
pub open spec fn width_maximal(fs: Seq<FaceCell>, before: Seq<Quad>, q: Quad) -> bool {
    !free(fs, before, q.u1 as int, q.v0 as int, q.key)
}

/// `q` cannot be made taller: some cell of the row above it is not free.
pub open spec fn height_maximal(fs: Seq<FaceCell>, before: Seq<Quad>, q: Quad) -> bool {
    exists|u: int| q.u0 <= u < q.u1 && !#[trigger] free(fs, before, u, q.v1 as int, q.key)
}

/// Quad `qs[i]` is the one the greedy merge makes after `qs[..i]`: it starts
/// at the first face (in row order) that no earlier quad has taken, holds only
/// untaken faces of that face's color, is as wide as its first row allows, and
/// is as tall as whole rows of that width allow.
pub open spec fn greedy_quad(fs: Seq<FaceCell>, qs: Seq<Quad>, i: int) -> bool {
    &&& qs[i].u0 < qs[i].u1 && qs[i].v0 < qs[i].v1
    &&& starts_first(fs, qs.take(i), qs[i])
    &&& cells_free(fs, qs.take(i), qs[i])
    &&& width_maximal(fs, qs.take(i), qs[i])
    &&& height_maximal(fs, qs.take(i), qs[i])
}

/// Number of the first `k` faces that no quad of `s` has taken.
pub open spec fn untaken_count(fs: Seq<FaceCell>, s: Seq<Quad>, k: int) -> int
    decreases k,
{
    if k <= 0 {
        0
    } else {
        untaken_count(fs, s, k - 1) + if covered(s, fs[k - 1].u as int, fs[k - 1].v as int) {
            0int
        } else {
            1int
        }
    }
}

proof fn lemma_untaken_count(fs: Seq<FaceCell>, s: Seq<Quad>, q: Quad, j0: int, k: int)
    requires
        0 <= k <= fs.len(),
        0 <= j0 < fs.len(),
        !covered(s, fs[j0].u as int, fs[j0].v as int),
        in_quad(q, fs[j0].u as int, fs[j0].v as int),
    ensures
        untaken_count(fs, s.push(q), k) <= untaken_count(fs, s, k),
        j0 < k ==> untaken_count(fs, s.push(q), k) < untaken_count(fs, s, k),
        untaken_count(fs, s.push(q), k) >= 0,
    decreases k,
{
    if k > 0 {
        lemma_untaken_count(fs, s, q, j0, k - 1);
        let t = s.push(q);
        let (u, v) = (fs[k - 1].u as int, fs[k - 1].v as int);
        if covered(s, u, v) {
            let i = choose|i: int| 0 <= i < s.len() && #[trigger] in_quad(s[i], u, v);
            assert(t[i] == s[i]);
            assert(in_quad(t[i], u, v));
        }
        if k - 1 == j0 {
            assert(t[s.len() as int] == q);
            assert(in_quad(t[s.len() as int], u, v));
        }
    }
}

proof fn lemma_face_at_index(fs: Seq<FaceCell>, b: int)
    requires
        0 <= b < fs.len(),
    ensures
        face_at(fs, fs[b].u as int, fs[b].v as int) is Some,
    decreases fs.len(),
{
    if !(fs.last().u == fs[b].u && fs.last().v == fs[b].v) {
        assert(fs.drop_last()[b] == fs[b]);
        lemma_face_at_index(fs.drop_last(), b);
    }
}

proof fn lemma_face_at_witness(fs: Seq<FaceCell>, u: int, v: int) -> (t: int)
    requires
        face_at(fs, u, v) is Some,
    ensures
        0 <= t < fs.len(),
        fs[t].u == u && fs[t].v == v,
        face_at(fs, u, v) == Some(fs[t].key),
    decreases fs.len(),
{
    if fs.last().u == u && fs.last().v == v {
        fs.len() - 1
    } else {
        let t = lemma_face_at_witness(fs.drop_last(), u, v);
        assert(fs.drop_last()[t] == fs[t]);
        t
    }
}

/// The color of the face at `(u, v)`, if there is one.
fn face_key_at(faces: &Vec<FaceCell>, u: i32, v: i32) -> (r: Option<ColorKey>)
    ensures
        r == face_at(faces@, u as int, v as int),
{
    let ghost fs = faces@;
    let mut j: usize = faces.len();
    proof {
        assert(fs.take(j as int) =~= fs);
    }
    while j > 0
        invariant
            j <= fs.len(),
            fs == faces@,
            face_at(fs, u as int, v as int) == face_at(fs.take(j as int), u as int, v as int),
        decreases j,
    {
        let f = faces[j - 1];
        proof {
            assert(fs.take(j as int).drop_last() =~= fs.take(j - 1));
            assert(fs.take(j as int).last() == f);
        }
        if f.u == u && f.v == v {
            return Some(f.key);
        }
        j = j - 1;
    }
    proof {
        assert(fs.take(0) =~= Seq::<FaceCell>::empty());
    }
    None
}

/// Some quad of `quads` holds cell `(u, v)`.
fn is_covered(quads: &Vec<Quad>, u: i32, v: i32) -> (r: bool)
    ensures
        r == covered(quads@, u as int, v as int),
{
    let mut i: usize = 0;
    while i < quads.len()
        invariant
            i <= quads@.len(),
            forall|t: int| 0 <= t < i ==> !#[trigger] in_quad(quads@[t], u as int, v as int),
        decreases quads@.len() - i,
    {
        let q = quads[i];
        if q.u0 <= u && u < q.u1 && q.v0 <= v && v < q.v1 {
            assert(in_quad(quads@[i as int], u as int, v as int));
            return true;
        }
        i = i + 1;
    }
    false
}

/// A face of color `key` at `(u, v)` that no quad has taken yet.
fn is_free(faces: &Vec<FaceCell>, quads: &Vec<Quad>, u: i32, v: i32, key: ColorKey) -> (r: bool)
    ensures
        r == free(faces@, quads@, u as int, v as int, key),
{
    match face_key_at(faces, u, v) {
        Some(k) => {
            if k.0 == key.0 && k.1 == key.1 && k.2 == key.2 {
                !is_covered(quads, u, v)
            } else {
                false
            }
        },
        None => false,
    }
}

/// Merge the faces of one slice into rectangles of one color each, greedily:
/// take the first face not yet merged (rows by `v`, then by `u`), widen the
/// rectangle along its row while the next face has the same color, then add
/// whole rows of that width while they match. Every face ends up in exactly
/// one rectangle, and every rectangle holds only faces of its color.
pub fn greedy_quads(faces: &Vec<FaceCell>) -> (r: Vec<Quad>)
    requires
        forall|j: int| 0 <= j < faces@.len() ==> #[trigger] faces@[j].u < i32::MAX && faces@[j].v < i32::MAX,
    ensures
        forall|i: int| 0 <= i < r@.len() ==> #[trigger] greedy_quad(faces@, r@, i),
        forall|j: int| 0 <= j < faces@.len() ==> covered(r@, #[trigger] faces@[j].u as int, faces@[j].v as int),
        forall|i: int, u: int, v: int| 0 <= i < r@.len() && #[trigger] in_quad(r@[i], u, v) ==> is_face(faces@, u, v, r@[i].key),
        forall|i: int, k: int, u: int, v: int| 0 <= i < k < r@.len() && #[trigger] in_quad(r@[i], u, v) ==> !#[trigger] in_quad(r@[k], u, v),
{
    let ghost fs = faces@;
    let mut quads: Vec<Quad> = Vec::new();
    loop
        invariant
            fs == faces@,
            forall|j: int| 0 <= j < fs.len() ==> #[trigger] fs[j].u < i32::MAX && fs[j].v < i32::MAX,
            forall|i: int| 0 <= i < quads@.len() ==> #[trigger] greedy_quad(fs, quads@, i),
        ensures
            forall|i: int| 0 <= i < quads@.len() ==> #[trigger] greedy_quad(fs, quads@, i),
            forall|j: int| 0 <= j < fs.len() ==> covered(quads@, #[trigger] fs[j].u as int, fs[j].v as int),
        decreases untaken_count(fs, quads@, fs.len() as int),
    {
        // The first face, in row order, that no quad has taken.
        let mut best: Option<usize> = None;
        let mut j: usize = 0;
        while j < faces.len()
            invariant
                fs == faces@,
                j <= fs.len(),
                best matches Some(b) ==> b < j && !covered(quads@, fs[b as int].u as int, fs[b as int].v as int),
                best is None ==> forall|t: int| 0 <= t < j ==> covered(quads@, #[trigger] fs[t].u as int, fs[t].v as int),
                best matches Some(b) ==> forall|t: int| 0 <= t < j && !covered(quads@, fs[t].u as int, fs[t].v as int) ==> !#[trigger] precedes(fs[t].u as int, fs[t].v as int, fs[b as int].u as int, fs[b as int].v as int),
            decreases fs.len() - j,
        {
            let f = faces[j];
            if !is_covered(&quads, f.u, f.v) {
                match best {
                    None => {
                        best = Some(j);
                    },
                    Some(b) => {
                        let g = faces[b];
                        if f.v < g.v || (f.v == g.v && f.u < g.u) {
                            proof {
                                assert forall|t: int| 0 <= t < j + 1 && !covered(quads@, fs[t].u as int, fs[t].v as int) implies !#[trigger] precedes(fs[t].u as int, fs[t].v as int, f.u as int, f.v as int) by {
                                    if t < j {
                                        assert(!precedes(fs[t].u as int, fs[t].v as int, g.u as int, g.v as int));
                                    }
                                }
                            }
                            best = Some(j);
                        }
                    },
                }
            }
            j = j + 1;
        }
        let b = match best {
            Some(b) => b,
            None => {
                break;
            },
        };
        let start = faces[b];
        let (u, v) = (start.u, start.v);
        proof {
            lemma_face_at_index(fs, b as int);
            assert(fs[b as int].u < i32::MAX && fs[b as int].v < i32::MAX);
        }
        let key = face_key_at(faces, u, v).unwrap();
        let ghost before = quads@;
        // Widen along the row: `u_end` is the first cell past the quad.
        let mut u_end: i32 = u + 1;
        while is_free(faces, &quads, u_end, v, key)
            invariant
                fs == faces@,
                    before == quads@,
                forall|j: int| 0 <= j < fs.len() ==> #[trigger] fs[j].u < i32::MAX && fs[j].v < i32::MAX,
                u < u_end,
                forall|x: int| u <= x < u_end ==> #[trigger] free(fs, before, x, v as int, key),
            decreases i32::MAX - u_end,
        {
            proof {
                let t = lemma_face_at_witness(fs, u_end as int, v as int);
                assert(fs[t].u < i32::MAX);
            }
            u_end = u_end + 1;
        }
        // Add whole rows of that width: `v_end` is the first row past the quad.
        let mut v_end: i32 = v + 1;
        loop
            invariant
                fs == faces@,
                    before == quads@,
                forall|j: int| 0 <= j < fs.len() ==> #[trigger] fs[j].u < i32::MAX && fs[j].v < i32::MAX,
                u < u_end,
                v < v_end,
                forall|x: int, y: int| u <= x < u_end && v <= y < v_end ==> #[trigger] free(fs, before, x, y, key),
            ensures
                v < v_end,
                forall|x: int, y: int| u <= x < u_end && v <= y < v_end ==> #[trigger] free(fs, before, x, y, key),
                exists|x: int| u <= x < u_end && !#[trigger] free(fs, before, x, v_end as int, key),
            decreases i32::MAX - v_end,
        {
            let mut x: i32 = u;
            let mut full = true;
            while x < u_end
                invariant
                    fs == faces@,
                            before == quads@,
                    u <= x <= u_end,
                    full ==> forall|d: int| u <= d < x ==> #[trigger] free(fs, before, d, v_end as int, key),
                    !full ==> exists|d: int| u <= d < u_end && !#[trigger] free(fs, before, d, v_end as int, key),
                decreases u_end - x,
            {
                if full && !is_free(faces, &quads, x, v_end, key) {
                    full = false;
                    assert(!free(fs, before, x as int, v_end as int, key));
                }
                x = x + 1;
            }
            if !full {
                break;
            }
            proof {
                assert(free(fs, before, u as int, v_end as int, key));
                let t = lemma_face_at_witness(fs, u as int, v_end as int);
                assert(fs[t].v < i32::MAX);
                assert forall|xx: int, yy: int| u <= xx < u_end && v <= yy < v_end + 1 implies #[trigger] free(fs, before, xx, yy, key) by {
                    if yy == v_end {
                        assert(free(fs, before, xx, v_end as int, key));
                    }
                }
            }
            v_end = v_end + 1;
        }
        let q = Quad { u0: u, v0: v, u1: u_end, v1: v_end, key };
        quads.push(q);
        proof {
            let n = before.len() as int;
            assert(quads@.take(n) =~= before);
            assert(quads@[n] == q);
            assert(starts_first(fs, before, q));
            assert(cells_free(fs, before, q)) by {
                assert forall|xx: int, yy: int| #[trigger] in_quad(q, xx, yy) implies free(fs, before, xx, yy, q.key) by {
                    assert(free(fs, before, xx, yy, key));
                }
            }
            assert(width_maximal(fs, before, q));
            assert(height_maximal(fs, before, q)) by {
                let d = choose|d: int| u <= d < u_end && !#[trigger] free(fs, before, d, v_end as int, key);
                assert(!free(fs, before, d, q.v1 as int, q.key));
            }
            assert forall|i: int| 0 <= i < quads@.len() implies #[trigger] greedy_quad(fs, quads@, i) by {
                if i < n {
                    assert(quads@.take(i) =~= before.take(i));
                    assert(quads@[i] == before[i]);
                    assert(greedy_quad(fs, before, i));
                }
            }
            lemma_untaken_count(fs, before, q, b as int, fs.len() as int);
            assert(in_quad(q, fs[b as int].u as int, fs[b as int].v as int));
        }
    }
    proof {
        let r = quads@;
        assert forall|i: int, uu: int, vv: int| 0 <= i < r.len() && #[trigger] in_quad(r[i], uu, vv) implies is_face(fs, uu, vv, r[i].key) by {
            assert(greedy_quad(fs, r, i));
            assert(cells_free(fs, r.take(i), r[i]));
        }
        assert forall|i: int, k: int, uu: int, vv: int| 0 <= i < k < r.len() && #[trigger] in_quad(r[i], uu, vv) implies !#[trigger] in_quad(r[k], uu, vv) by {
            assert(greedy_quad(fs, r, k));
            if in_quad(r[k], uu, vv) {
                assert(cells_free(fs, r.take(k), r[k]));
                assert(free(fs, r.take(k), uu, vv, r[k].key));
                assert(r.take(k)[i] == r[i]);
                assert(in_quad(r.take(k)[i], uu, vv));
            }
        }
    }
    quads
}

// ---------------------------------------------------------------------------
// Visible faces of pristine cubes
// ---------------------------------------------------------------------------

/// Offset of the neighbor in face direction `fi`: +Y, -Y, +X, -X, +Z, -Z.
pub open spec fn face_offset(fi: int) -> (int, int, int) {
    if fi == 0 {
        (0, 1, 0)
    } else if fi == 1 {
        (0, -1, 0)
    } else if fi == 2 {
        (1, 0, 0)
    } else if fi == 3 {
        (-1, 0, 0)
    } else if fi == 4 {
        (0, 0, 1)
    } else {
        (0, 0, -1)
    }
}

/// The neighbor's sub-blocks that must all be present to hide a cube's face
/// in direction `fi`.
pub open spec fn hiding_mask(fi: int) -> u64 {
    if fi == 0 {
        BOTTOM_LAYER_MASK
    } else if fi == 1 {
        TOP_LAYER_MASK
    } else if fi == 2 {
        NEG_X_FACE_MASK
    } else if fi == 3 {
        POS_X_FACE_MASK
    } else if fi == 4 {
        NEG_Z_FACE_MASK
    } else {
        POS_Z_FACE_MASK
    }
}

/// Sub-blocks of the cell at `k`: the last entry of `all` there, as when the
/// cells are put into a map one after the other.
pub open spec fn subs_at(all: Seq<(CellKey, u64)>, k: CellKey) -> Option<u64>
    decreases all.len(),
{
    if all.len() == 0 {
        None
    } else if all.last().0 == k {
        Some(all.last().1)
    } else {
        subs_at(all.drop_last(), k)
    }
}

/// The neighbor of `pos` in direction `fi`.
pub open spec fn neighbor_of(pos: CellKey, fi: int) -> CellKey {
    let d = face_offset(fi);
    ((pos.0 + d.0) as i32, (pos.1 + d.1) as i32, (pos.2 + d.2) as i32)
}

/// The face of the cube at `pos` in direction `fi` is hidden by a neighbor
/// whose touching side is complete.
pub open spec fn hidden(all: Seq<(CellKey, u64)>, pos: CellKey, fi: int) -> bool {
    match subs_at(all, neighbor_of(pos, fi)) {
        Some(m) => m & hiding_mask(fi) == hiding_mask(fi),
        None => false,
    }
}

/// The face of the cube at `pos` in direction `fi` as a cell of its slice:
/// Y faces (slice y, u = x, v = z), X faces (slice x, u = z, v = y), Z faces
/// (slice z, u = x, v = y).
pub open spec fn slice_face(pos: CellKey, key: ColorKey, fi: int) -> (i32, FaceCell) {
    if fi == 0 || fi == 1 {
        (pos.1, FaceCell { u: pos.0, v: pos.2, key })
    } else if fi == 2 || fi == 3 {
        (pos.0, FaceCell { u: pos.2, v: pos.1, key })
    } else {
        (pos.2, FaceCell { u: pos.0, v: pos.1, key })
    }
}

/// The visible faces in direction `fi` of the cubes of `cubes`, in order.
pub open spec fn visible_faces(all: Seq<(CellKey, u64)>, cubes: Seq<(CellKey, ColorKey)>, fi: int) -> Seq<(i32, FaceCell)>
    decreases cubes.len(),
{
    if cubes.len() == 0 {
        seq![]
    } else {
        let p = visible_faces(all, cubes.drop_last(), fi);
        if hidden(all, cubes.last().0, fi) {
            p
        } else {
            p.push(slice_face(cubes.last().0, cubes.last().1, fi))
        }
    }
}

/// The cell at `k` is in `all` and the given side of it is full.
pub open spec fn side_covered(all: Seq<(CellKey, u64)>, k: CellKey, axis: int, c: int) -> bool {
    match subs_at(all, k) {
        Some(m) => side_full(m, axis, c),
        None => false,
    }
}

/// Each face direction looks outward: a cube's face toward +Y (0) is hidden
/// exactly when the cell above it has its whole bottom side, toward -Y (1)
/// when the cell below has its whole top side, toward +X (2) when the cell at
/// x + 1 has its whole -X side, toward -X (3) when the cell at x - 1 has its
/// whole +X side, toward +Z (4) when the cell at z + 1 has its whole -Z side,
/// toward -Z (5) when the cell at z - 1 has its whole +Z side. A face that is
/// not hidden is drawn in the slice of the cube's own coordinate on that
/// axis, after the faces of the cubes before it.
pub proof fn law_cube_faces_look_outward(all: Seq<(CellKey, u64)>, cubes: Seq<(CellKey, ColorKey)>, p: CellKey, key: ColorKey)
    requires
        i32::MIN < p.0 < i32::MAX,
        i32::MIN < p.1 < i32::MAX,
        i32::MIN < p.2 < i32::MAX,
    ensures
        visible_faces(all, cubes.push((p, key)), 0) == visible_faces(all, cubes, 0) + if side_covered(all, (p.0, (p.1 + 1) as i32, p.2), 1, 0) {
            seq![]
        } else {
            seq![(p.1, FaceCell { u: p.0, v: p.2, key })]
        },
        visible_faces(all, cubes.push((p, key)), 1) == visible_faces(all, cubes, 1) + if side_covered(all, (p.0, (p.1 - 1) as i32, p.2), 1, 3) {
            seq![]
        } else {
            seq![(p.1, FaceCell { u: p.0, v: p.2, key })]
        },
        visible_faces(all, cubes.push((p, key)), 2) == visible_faces(all, cubes, 2) + if side_covered(all, ((p.0 + 1) as i32, p.1, p.2), 0, 0) {
            seq![]
        } else {
            seq![(p.0, FaceCell { u: p.2, v: p.1, key })]
        },
        visible_faces(all, cubes.push((p, key)), 3) == visible_faces(all, cubes, 3) + if side_covered(all, ((p.0 - 1) as i32, p.1, p.2), 0, 3) {
            seq![]
        } else {
            seq![(p.0, FaceCell { u: p.2, v: p.1, key })]
        },
        visible_faces(all, cubes.push((p, key)), 4) == visible_faces(all, cubes, 4) + if side_covered(all, (p.0, p.1, (p.2 + 1) as i32), 2, 0) {
            seq![]
        } else {
            seq![(p.2, FaceCell { u: p.0, v: p.1, key })]
        },
        visible_faces(all, cubes.push((p, key)), 5) == visible_faces(all, cubes, 5) + if side_covered(all, (p.0, p.1, (p.2 - 1) as i32), 2, 3) {
            seq![]
        } else {
            seq![(p.2, FaceCell { u: p.0, v: p.1, key })]
        },
{
    let t = cubes.push((p, key));
    assert(t.drop_last() =~= cubes);
    lemma_face_masks();
    assert forall|fi: int| 0 <= fi < 6 implies #[trigger] hidden(all, p, fi) == ({
        let n = neighbor_of(p, fi);
        match subs_at(all, n) {
            Some(m) => m & hiding_mask(fi) == hiding_mask(fi),
            None => false,
        }
    }) by {}
    match subs_at(all, neighbor_of(p, 0)) {
        Some(m) => { lemma_side_tests(m, BOTTOM_LAYER_MASK, 1, 0); },
        None => {},
    }
    match subs_at(all, neighbor_of(p, 1)) {
        Some(m) => { lemma_side_tests(m, TOP_LAYER_MASK, 1, 3); },
        None => {},
    }
    match subs_at(all, neighbor_of(p, 2)) {
        Some(m) => { lemma_side_tests(m, NEG_X_FACE_MASK, 0, 0); },
        None => {},
    }
    match subs_at(all, neighbor_of(p, 3)) {
        Some(m) => { lemma_side_tests(m, POS_X_FACE_MASK, 0, 3); },
        None => {},
    }
    match subs_at(all, neighbor_of(p, 4)) {
        Some(m) => { lemma_side_tests(m, NEG_Z_FACE_MASK, 2, 0); },
        None => {},
    }
    match subs_at(all, neighbor_of(p, 5)) {
        Some(m) => { lemma_side_tests(m, POS_Z_FACE_MASK, 2, 3); },
        None => {},
    }
    assert(visible_faces(all, t, 0) == visible_faces(all, cubes, 0) + if side_covered(all, (p.0, (p.1 + 1) as i32, p.2), 1, 0) {
        seq![]
    } else {
        seq![(p.1, FaceCell { u: p.0, v: p.2, key })]
    });
    assert(visible_faces(all, t, 1) == visible_faces(all, cubes, 1) + if side_covered(all, (p.0, (p.1 - 1) as i32, p.2), 1, 3) {
        seq![]
    } else {
        seq![(p.1, FaceCell { u: p.0, v: p.2, key })]
    });
    assert(visible_faces(all, t, 2) == visible_faces(all, cubes, 2) + if side_covered(all, ((p.0 + 1) as i32, p.1, p.2), 0, 0) {
        seq![]
    } else {
        seq![(p.0, FaceCell { u: p.2, v: p.1, key })]
    });
    assert(visible_faces(all, t, 3) == visible_faces(all, cubes, 3) + if side_covered(all, ((p.0 - 1) as i32, p.1, p.2), 0, 3) {
        seq![]
    } else {
        seq![(p.0, FaceCell { u: p.2, v: p.1, key })]
    });
    assert(visible_faces(all, t, 4) == visible_faces(all, cubes, 4) + if side_covered(all, (p.0, p.1, (p.2 + 1) as i32), 2, 0) {
        seq![]
    } else {
        seq![(p.2, FaceCell { u: p.0, v: p.1, key })]
    });
    assert(visible_faces(all, t, 5) == visible_faces(all, cubes, 5) + if side_covered(all, (p.0, p.1, (p.2 - 1) as i32), 2, 3) {
        seq![]
    } else {
        seq![(p.2, FaceCell { u: p.0, v: p.1, key })]
    });
}

/// Neighbor offset and hiding mask for face direction `fi`.
fn face_dir(fi: usize) -> (r: ((i32, i32, i32), u64))
    requires
        fi < 6,
    ensures
        r.0.0 == face_offset(fi as int).0,
        r.0.1 == face_offset(fi as int).1,
        r.0.2 == face_offset(fi as int).2,
        r.1 == hiding_mask(fi as int),
{
    if fi == 0 {
        ((0, 1, 0), BOTTOM_LAYER_MASK)
    } else if fi == 1 {
        ((0, -1, 0), TOP_LAYER_MASK)
    } else if fi == 2 {
        ((1, 0, 0), NEG_X_FACE_MASK)
    } else if fi == 3 {
        ((-1, 0, 0), POS_X_FACE_MASK)
    } else if fi == 4 {
        ((0, 0, 1), NEG_Z_FACE_MASK)
    } else {
        ((0, 0, -1), POS_Z_FACE_MASK)
    }
}

/// Sub-blocks of the cell at `k`, if any.
pub(crate) fn subs_of(all: &Vec<(CellKey, u64)>, k: CellKey) -> (r: Option<u64>)
    ensures
        r == subs_at(all@, k),
{
    let ghost s = all@;
    let mut j: usize = all.len();
    proof {
        assert(s.take(j as int) =~= s);
    }
    while j > 0
        invariant
            j <= s.len(),
            s == all@,
            subs_at(s, k) == subs_at(s.take(j as int), k),
        decreases j,
    {
        let e = all[j - 1];
        proof {
            assert(s.take(j as int).drop_last() =~= s.take(j - 1));
            assert(s.take(j as int).last() == e);
        }
        if e.0.0 == k.0 && e.0.1 == k.1 && e.0.2 == k.2 {
            return Some(e.1);
        }
        j = j - 1;
    }
    proof {
        assert(s.take(0) =~= Seq::<(CellKey, u64)>::empty());
    }
    None
}

/// The side `face_mask` of the cell at `(nx, ny, nz)` is complete: every
/// sub-block of it is present (a missing cell has no side).
pub fn is_neighbor_face_solid(all: &Vec<(CellKey, u64)>, nx: i32, ny: i32, nz: i32, face_mask: u64) -> (r: bool)
    ensures
        r == (match subs_at(all@, (nx, ny, nz)) {
            Some(m) => m & face_mask == face_mask,
            None => false,
        }),
{
    match subs_of(all, (nx, ny, nz)) {
        Some(m) => m & face_mask == face_mask,
        None => false,
    }
}

/// The faces of the cubes `cubes` (position and color) that can be seen in
/// direction `face_idx` (0 = +Y, 1 = -Y, 2 = +X, 3 = -X, 4 = +Z, 5 = -Z):
/// those whose neighbor in `all_cells` does not cover them completely. Each
/// comes with its slice coordinate.
pub fn visible_cube_faces(all_cells: &Vec<(CellKey, u64)>, cubes: &Vec<(CellKey, ColorKey)>, face_idx: usize) -> (r: Vec<(i32, FaceCell)>)
    requires
        face_idx < 6,
        forall|j: int| 0 <= j < cubes@.len() ==> {
            let p = #[trigger] cubes@[j].0;
            &&& i32::MIN < p.0 < i32::MAX
            &&& i32::MIN < p.1 < i32::MAX
            &&& i32::MIN < p.2 < i32::MAX
        },
    ensures
        r@ == visible_faces(all_cells@, cubes@, face_idx as int),
{
    let (d, mask) = face_dir(face_idx);
    let ghost cs = cubes@;
    let mut r: Vec<(i32, FaceCell)> = Vec::new();
    let mut i: usize = 0;
    while i < cubes.len()
        invariant
            i <= cs.len(),
            cs == cubes@,
            face_idx < 6,
            d.0 == face_offset(face_idx as int).0,
            d.1 == face_offset(face_idx as int).1,
            d.2 == face_offset(face_idx as int).2,
            mask == hiding_mask(face_idx as int),
            forall|j: int| 0 <= j < cs.len() ==> {
                let p = #[trigger] cs[j].0;
                &&& i32::MIN < p.0 < i32::MAX
                &&& i32::MIN < p.1 < i32::MAX
                &&& i32::MIN < p.2 < i32::MAX
            },
            r@ == visible_faces(all_cells@, cs.take(i as int), face_idx as int),
        decreases cs.len() - i,
    {
        let (pos, key) = cubes[i];
        proof {
            assert(cs.take(i + 1).drop_last() =~= cs.take(i as int));
            assert(cs.take(i + 1).last() == (pos, key));
            let p = cs[i as int].0;
            assert(i32::MIN < p.0 < i32::MAX);
        }
        let n = (pos.0 + d.0, pos.1 + d.1, pos.2 + d.2);
        proof {
            assert(n == neighbor_of(pos, face_idx as int));
        }
        let hide = is_neighbor_face_solid(all_cells, n.0, n.1, n.2, mask);
        if !hide {
            let face = if face_idx == 0 || face_idx == 1 {
                (pos.1, FaceCell { u: pos.0, v: pos.2, key })
            } else if face_idx == 2 || face_idx == 3 {
                (pos.0, FaceCell { u: pos.2, v: pos.1, key })
            } else {
                (pos.2, FaceCell { u: pos.0, v: pos.1, key })
            };
            r.push(face);
        }
        i = i + 1;
    }
    proof {
        assert(cs.take(cs.len() as int) =~= cs);
    }
    r
}

} // verus!
