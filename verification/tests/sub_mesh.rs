use physics_rendering_engine::building::block_type::ALL_SUBS;
use physics_rendering_engine::building::sub_mesh::{exposed_sub_faces, solid_sub, SubFace};

#[test]
fn lone_sub_block_shows_six_faces() {
    let all = vec![((0, 0, 0), 1u64)];
    let faces = exposed_sub_faces(&all, 0, 0, 0, 1, false);
    let kinds: Vec<(u8, bool)> = faces.iter().map(|f| (f.face, f.exterior)).collect();
    assert_eq!(kinds, vec![(0, false), (1, true), (2, false), (3, true), (4, false), (5, true)]);
    assert!(faces.iter().all(|f| (f.sx, f.sy, f.sz) == (0, 0, 0)));
    // A mined cell draws every face in the interior color.
    let inner = exposed_sub_faces(&all, 0, 0, 0, 1, true);
    assert!(inner.iter().all(|f| !f.exterior));
}

#[test]
fn touching_sub_blocks_hide_their_shared_faces() {
    let all = vec![((0, 0, 0), 0b11u64)];
    let faces = exposed_sub_faces(&all, 0, 0, 0, 0b11, true);
    assert_eq!(faces.len(), 10);
    assert!(!faces.contains(&SubFace { sx: 0, sy: 0, sz: 0, face: 0, exterior: false }));
    assert!(!faces.contains(&SubFace { sx: 1, sy: 0, sz: 0, face: 1, exterior: false }));
}

#[test]
fn neighbor_cells_hide_faces_across_the_border() {
    let all = vec![((0, 0, 0), 1u64 << 3), ((1, 0, 0), ALL_SUBS)];
    assert!(solid_sub(&all, 0, 0, 0, 4, 0, 0));
    assert!(!solid_sub(&all, 0, 0, 0, -1, 0, 0));
    let faces = exposed_sub_faces(&all, 0, 0, 0, 1 << 3, true);
    assert_eq!(faces.len(), 5);
    assert!(faces.iter().all(|f| f.face != 0 && f.sx == 3));
}
