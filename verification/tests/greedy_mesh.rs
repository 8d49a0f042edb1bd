use physics_rendering_engine::building::block_type::{ALL_SUBS, BOTTOM_LAYER_MASK, TOP_LAYER_MASK};
use physics_rendering_engine::building::greedy::{greedy_quads, is_neighbor_face_solid, visible_cube_faces, FaceCell, Quad};

const RED: (u32, u32, u32) = (1, 0, 0);
const BLUE: (u32, u32, u32) = (0, 0, 1);

fn face(u: i32, v: i32, key: (u32, u32, u32)) -> FaceCell {
    FaceCell { u, v, key }
}

#[test]
fn square_merges_into_one_quad() {
    let faces = vec![face(1, 1, RED), face(0, 0, RED), face(1, 0, RED), face(0, 1, RED)];
    assert_eq!(greedy_quads(&faces), vec![Quad { u0: 0, v0: 0, u1: 2, v1: 2, key: RED }]);
}

#[test]
fn l_shape_needs_two_quads() {
    let faces = vec![face(0, 1, RED), face(1, 0, RED), face(0, 0, RED)];
    assert_eq!(
        greedy_quads(&faces),
        vec![Quad { u0: 0, v0: 0, u1: 2, v1: 1, key: RED }, Quad { u0: 0, v0: 1, u1: 1, v1: 2, key: RED }]
    );
}

#[test]
fn colors_are_not_merged() {
    let faces = vec![face(0, 0, RED), face(1, 0, BLUE), face(2, 0, BLUE), face(-3, 5, RED)];
    assert_eq!(
        greedy_quads(&faces),
        vec![
            Quad { u0: 0, v0: 0, u1: 1, v1: 1, key: RED },
            Quad { u0: 1, v0: 0, u1: 3, v1: 1, key: BLUE },
            Quad { u0: -3, v0: 5, u1: -2, v1: 6, key: RED },
        ]
    );
}

#[test]
fn later_face_at_a_cell_wins() {
    let faces = vec![face(0, 0, RED), face(0, 0, BLUE)];
    assert_eq!(greedy_quads(&faces), vec![Quad { u0: 0, v0: 0, u1: 1, v1: 1, key: BLUE }]);
    assert!(greedy_quads(&Vec::new()).is_empty());
}

#[test]
fn quads_partition_the_faces() {
    // A 4x3 block with a hole and a second color.
    let mut faces = Vec::new();
    for v in 0..3 {
        for u in 0..4 {
            if (u, v) == (1, 1) {
                continue;
            }
            faces.push(face(u, v, if u == 3 { BLUE } else { RED }));
        }
    }
    let quads = greedy_quads(&faces);
    for f in &faces {
        let n = quads.iter().filter(|q| q.u0 <= f.u && f.u < q.u1 && q.v0 <= f.v && f.v < q.v1).count();
        assert_eq!(n, 1);
        let q = quads.iter().find(|q| q.u0 <= f.u && f.u < q.u1 && q.v0 <= f.v && f.v < q.v1).unwrap();
        assert_eq!(q.key, f.key);
    }
    let area: i32 = quads.iter().map(|q| (q.u1 - q.u0) * (q.v1 - q.v0)).sum();
    assert_eq!(area, faces.len() as i32);
}

#[test]
fn hidden_faces_are_dropped() {
    let all = vec![((0, 0, 0), ALL_SUBS), ((0, 1, 0), ALL_SUBS)];
    let cubes = vec![((0, 0, 0), RED), ((0, 1, 0), BLUE)];
    let up = visible_cube_faces(&all, &cubes, 0);
    assert_eq!(up.len(), 1);
    assert_eq!((up[0].0, up[0].1.u, up[0].1.v, up[0].1.key), (1, 0, 0, BLUE));
    let down = visible_cube_faces(&all, &cubes, 1);
    assert_eq!(down.len(), 1);
    assert_eq!((down[0].0, down[0].1.key), (0, RED));
    let east = visible_cube_faces(&all, &cubes, 2);
    assert_eq!(east.len(), 2);
    assert_eq!((east[1].0, east[1].1.u, east[1].1.v), (0, 0, 1));
    // A neighbor missing part of its touching side hides nothing.
    let mined = vec![((0, 0, 0), ALL_SUBS), ((0, 1, 0), ALL_SUBS & !BOTTOM_LAYER_MASK | 1)];
    assert_eq!(visible_cube_faces(&mined, &cubes, 0).len(), 2);
}

#[test]
fn neighbor_face_solidity() {
    let all = vec![((0, 0, 0), TOP_LAYER_MASK), ((1, 0, 0), 1u64)];
    assert!(is_neighbor_face_solid(&all, 0, 0, 0, TOP_LAYER_MASK));
    assert!(!is_neighbor_face_solid(&all, 1, 0, 0, TOP_LAYER_MASK));
    assert!(!is_neighbor_face_solid(&all, 5, 0, 0, TOP_LAYER_MASK));
}
