use physics_rendering_engine::mining::{BodyHandle, MiningSystem, CHUNK_MAX_HEALTH};

fn body(i: u32) -> BodyHandle {
    BodyHandle { index: i, generation: 0 }
}

#[test]
fn node_ids_count_up() {
    let mut m = MiningSystem::new();
    assert_eq!(m.alloc_node_id(), 0);
    assert_eq!(m.alloc_node_id(), 1);
}

#[test]
fn damage_destroys_after_max_health() {
    let mut m = MiningSystem::new();
    m.add_chunk(10, body(1), 0, (0, 0, 0));
    m.add_chunk(11, body(2), 0, (1, 0, 0));
    assert!(m.is_mining_chunk(body(1)));
    for _ in 1..CHUNK_MAX_HEALTH {
        assert_eq!(m.damage_chunk(body(1), 1), None);
    }
    assert_eq!(m.damage_chunk(body(1), 1), Some(10));
    assert!(!m.is_mining_chunk(body(1)));
    assert!(m.is_mining_chunk(body(2)));
    // Overkill saturates at zero.
    assert_eq!(m.damage_chunk(body(2), 100), Some(11));
    // Unknown body: nothing happens.
    assert_eq!(m.damage_chunk(body(7), 1), None);
    assert!(!m.is_mining_chunk(BodyHandle { index: 2, generation: 1 }));
}

#[test]
fn collapse_keeps_supported_chunks() {
    let mut m = MiningSystem::new();
    // A column of three chunks on the ground, and a floating chunk of another node.
    m.add_chunk(1, body(1), 0, (0, 0, 0));
    m.add_chunk(2, body(2), 0, (0, 1, 0));
    m.add_chunk(3, body(3), 0, (0, 2, 0));
    m.add_chunk(4, body(4), 1, (5, 5, 5));
    let removed = m.collapse_unsupported(vec![true, false, false, false]);
    assert_eq!(removed, vec![4]);
    assert!(m.is_mining_chunk(body(1)));
    assert!(m.is_mining_chunk(body(3)));
    assert!(!m.is_mining_chunk(body(4)));
}

#[test]
fn collapse_removes_cut_off_chunks() {
    let mut m = MiningSystem::new();
    // Grounded chunk, then a gap, then two chunks of the same node.
    m.add_chunk(1, body(1), 0, (0, 0, 0));
    m.add_chunk(2, body(2), 0, (0, 2, 0));
    m.add_chunk(3, body(3), 0, (0, 3, 0));
    let mut removed = m.collapse_unsupported(vec![true, false, false]);
    removed.sort();
    assert_eq!(removed, vec![2, 3]);
    assert!(m.is_mining_chunk(body(1)));
    assert!(!m.is_mining_chunk(body(2)));
}

#[test]
fn neighbors_of_another_node_give_no_support() {
    let mut m = MiningSystem::new();
    m.add_chunk(1, body(1), 0, (0, 0, 0));
    m.add_chunk(2, body(2), 1, (0, 1, 0));
    let removed = m.collapse_unsupported(vec![true, false]);
    assert_eq!(removed, vec![2]);
}

#[test]
fn heavy_hit_breaks_a_fresh_chunk_at_once() {
    let mut m = MiningSystem::new();
    m.add_chunk(20, body(5), 0, (0, 0, 0));
    assert_eq!(m.damage_chunk(body(5), 5), Some(20));
    assert!(!m.is_mining_chunk(body(5)));
}
