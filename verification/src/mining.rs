//! Mining nodes: breakable chunks with health, and the collapse of chunks
//! that lose their support.

use vstd::prelude::*;
use crate::game::entity::EntityId;
pub use crate::handles::BodyHandle;

verus! {

/// Health of a freshly spawned chunk.
pub const CHUNK_MAX_HEALTH: u32 = 3;

/// Stability propagation rounds before giving up.
pub const MAX_SUPPORT_ROUNDS: u32 = 10;

/// One breakable piece of a mining node.
#[derive(Debug, Clone, Copy)]
pub struct MiningChunk {
    pub entity_id: EntityId,
    pub rb: BodyHandle,
    pub health: u32,
    pub node_id: u32,
    /// Grid position within the node (local).
    pub local: (i32, i32, i32),
}

/// Manages all mining nodes and chunks.
pub struct MiningSystem {
    chunks: Vec<MiningChunk>,
    next_node_id: u32,
}

// ---------------------------------------------------------------------------
// Model
// ---------------------------------------------------------------------------

/// Index of the first chunk whose body is `rb`, or -1.
pub open spec fn first_with_body(s: Seq<MiningChunk>, rb: BodyHandle) -> int
    decreases s.len(),
{
    if s.len() == 0 {
        -1
    } else if s[0].rb == rb {
        0
    } else {
        let r = first_with_body(s.drop_first(), rb);
        if r < 0 {
            -1
        } else {
            r + 1
        }
    }
}

/// `s` after `Vec::swap_remove(i)`: the last chunk takes the place of chunk `i`.
pub open spec fn swap_removed(s: Seq<MiningChunk>, i: int) -> Seq<MiningChunk> {
    s.update(i, s.last()).drop_last()
}

pub open spec fn saturating_sub(a: u32, b: u32) -> u32 {
    if a >= b {
        (a - b) as u32
    } else {
        0
    }
}

pub open spec fn abs_diff(a: i32, b: i32) -> int {
    if a >= b {
        a - b
    } else {
        b - a
    }
}

/// Two grid positions are face neighbors: exactly one axis differs, by one.
pub open spec fn adjacent(a: (i32, i32, i32), b: (i32, i32, i32)) -> bool {
    abs_diff(a.0, b.0) + abs_diff(a.1, b.1) + abs_diff(a.2, b.2) == 1
}

/// `b` is one of the six face neighbors of `a`: one step along one axis.
pub open spec fn face_neighbor(a: (i32, i32, i32), b: (i32, i32, i32)) -> bool {
    ||| (b.0 == a.0 + 1 || b.0 == a.0 - 1) && b.1 == a.1 && b.2 == a.2
    ||| b.0 == a.0 && (b.1 == a.1 + 1 || b.1 == a.1 - 1) && b.2 == a.2
    ||| b.0 == a.0 && b.1 == a.1 && (b.2 == a.2 + 1 || b.2 == a.2 - 1)
}

/// Chunks hold each other up exactly through their faces: two positions are
/// neighbors when one is a step of one along a single axis from the other.
pub proof fn law_adjacent_is_face_neighbor(a: (i32, i32, i32), b: (i32, i32, i32))
    ensures
        adjacent(a, b) == face_neighbor(a, b),
        adjacent(a, b) == adjacent(b, a),
{
}

/// Chunk `i` rests on a grounded neighbor of its own node.
pub open spec fn has_support(c: Seq<MiningChunk>, g: Seq<bool>, i: int) -> bool {
    exists|j: int|
        0 <= j < c.len() && j != i && #[trigger] g[j] && c[j].node_id == c[i].node_id && adjacent(
            c[i].local,
            c[j].local,
        )
}

/// A chunk has support exactly when another chunk of its node, one of its
/// six face neighbors, is grounded.
pub proof fn law_support_is_face_contact(c: Seq<MiningChunk>, g: Seq<bool>, i: int)
    ensures
        has_support(c, g, i) == exists|j: int|
            0 <= j < c.len() && j != i && #[trigger] g[j] && c[j].node_id == c[i].node_id && face_neighbor(c[i].local, c[j].local),
{
    if has_support(c, g, i) {
        let j = choose|j: int|
            0 <= j < c.len() && j != i && #[trigger] g[j] && c[j].node_id == c[i].node_id && adjacent(c[i].local, c[j].local);
        law_adjacent_is_face_neighbor(c[i].local, c[j].local);
    }
    if exists|j: int| 0 <= j < c.len() && j != i && #[trigger] g[j] && c[j].node_id == c[i].node_id && face_neighbor(c[i].local, c[j].local) {
        let j = choose|j: int|
            0 <= j < c.len() && j != i && #[trigger] g[j] && c[j].node_id == c[i].node_id && face_neighbor(c[i].local, c[j].local);
        law_adjacent_is_face_neighbor(c[i].local, c[j].local);
    }
}

/// One chunk of a stability sweep.
pub open spec fn sweep_step(c: Seq<MiningChunk>, g: Seq<bool>, i: int) -> Seq<bool> {
    if g[i] {
        g
    } else if has_support(c, g, i) {
        g.update(i, true)
    } else {
        g
    }
}

/// A sweep over the first `k` chunks, in order, updating in place.
pub open spec fn sweep_upto(c: Seq<MiningChunk>, g: Seq<bool>, k: int) -> Seq<bool>
    decreases k,
{
    if k <= 0 {
        g
    } else {
        sweep_step(c, sweep_upto(c, g, k - 1), k - 1)
    }
}

/// Up to `rounds` sweeps, stopping after a sweep that changed nothing.
pub open spec fn propagate(c: Seq<MiningChunk>, g: Seq<bool>, rounds: int) -> Seq<bool>
    decreases rounds,
{
    if rounds <= 0 {
        g
    } else {
        let g2 = sweep_upto(c, g, c.len() as int);
        if g2 == g {
            g
        } else {
            propagate(c, g2, rounds - 1)
        }
    }
}

/// Removing the ungrounded chunks among the first `i`, from the highest index
/// down, each by `swap_remove`: the chunks left and the entity IDs removed, in
/// removal order.
pub open spec fn collapse_from(cur: Seq<MiningChunk>, g: Seq<bool>, i: int) -> (Seq<MiningChunk>, Seq<EntityId>)
    decreases i,
{
    if i <= 0 {
        (cur, seq![])
    } else if !g[i - 1] {
        let (rest, ids) = collapse_from(swap_removed(cur, i - 1), g, i - 1);
        (rest, seq![cur[i - 1].entity_id] + ids)
    } else {
        collapse_from(cur, g, i - 1)
    }
}

/// What `damage_chunk` does: the first chunk with body `rb` loses `damage`
/// health, never below zero; at zero it is removed (the last chunk takes its
/// place) and its entity ID is returned. Without such a chunk nothing changes.
pub open spec fn damaged(s: Seq<MiningChunk>, rb: BodyHandle, damage: u32) -> (Seq<MiningChunk>, Option<EntityId>) {
    let i = first_with_body(s, rb);
    if i < 0 {
        (s, None)
    } else {
        let c = s[i];
        let h = saturating_sub(c.health, damage);
        if h == 0 {
            (swap_removed(s, i), Some(c.entity_id))
        } else {
            (s.update(i, MiningChunk { health: h, ..c }), None)
        }
    }
}

/// No two chunks share a physics body.
pub open spec fn bodies_distinct(s: Seq<MiningChunk>) -> bool {
    forall|i: int, j: int| 0 <= i < s.len() && 0 <= j < s.len() && i != j ==> #[trigger] s[i].rb != #[trigger] s[j].rb
}

/// No chunk of `s` has body `rb`.
pub open spec fn body_is_new(s: Seq<MiningChunk>, rb: BodyHandle) -> bool {
    forall|i: int| 0 <= i < s.len() ==> #[trigger] s[i].rb != rb
}

proof fn lemma_swap_removed_distinct(s: Seq<MiningChunk>, i: int)
    requires
        bodies_distinct(s),
        0 <= i < s.len(),
    ensures
        bodies_distinct(swap_removed(s, i)),
        forall|j: int| 0 <= j < swap_removed(s, i).len() ==> #[trigger] swap_removed(s, i)[j].rb != s[i].rb,
{
    let t = swap_removed(s, i);
    let last = s.len() - 1;
    assert forall|a: int| 0 <= a < t.len() implies #[trigger] t[a] == s[if a == i { last } else { a }] by {}
    assert forall|a: int, b: int| 0 <= a < t.len() && 0 <= b < t.len() && a != b implies #[trigger] t[a].rb != #[trigger] t[b].rb by {
        let a2 = if a == i { last } else { a };
        let b2 = if b == i { last } else { b };
        assert(t[a] == s[a2] && t[b] == s[b2]);
    }
    assert forall|j: int| 0 <= j < t.len() implies #[trigger] t[j].rb != s[i].rb by {
        let j2 = if j == i { last } else { j };
        assert(t[j] == s[j2]);
    }
}

proof fn lemma_collapse_distinct(cur: Seq<MiningChunk>, g: Seq<bool>, i: int)
    requires
        bodies_distinct(cur),
        0 <= i <= cur.len(),
        i <= g.len(),
    ensures
        bodies_distinct(collapse_from(cur, g, i).0),
    decreases i,
{
    if i > 0 {
        if !g[i - 1] {
            lemma_swap_removed_distinct(cur, i - 1);
            lemma_collapse_distinct(swap_removed(cur, i - 1), g, i - 1);
        } else {
            lemma_collapse_distinct(cur, g, i - 1);
        }
    }
}

/// Damage keeps chunk bodies distinct: a hit changes a chunk's health only,
/// and a broken chunk leaves no chunk with its body.
pub proof fn law_damage_keeps_bodies_distinct(s: Seq<MiningChunk>, rb: BodyHandle, damage: u32)
    requires
        bodies_distinct(s),
    ensures
        bodies_distinct(damaged(s, rb, damage).0),
        damaged(s, rb, damage).1 is Some ==> body_is_new(damaged(s, rb, damage).0, rb),
{
    let i = first_with_body(s, rb);
    if i >= 0 {
        lemma_first_with_body_found(s, rb);
        let c = s[i];
        let h = saturating_sub(c.health, damage);
        if h == 0 {
            lemma_swap_removed_distinct(s, i);
        } else {
            let t = s.update(i, MiningChunk { health: h, ..c });
            assert forall|a: int, b: int| 0 <= a < t.len() && 0 <= b < t.len() && a != b implies #[trigger] t[a].rb != #[trigger] t[b].rb by {
                assert(t[a].rb == s[a].rb && t[b].rb == s[b].rb);
            }
        }
    }
}

/// A fresh chunk (full health, a body no other chunk has) breaks on the third
/// hit of 1 damage, and at once under a hit of 5, its health stopping at zero;
/// after it breaks, no chunk has its body.
pub proof fn law_fresh_chunk_breaks(s: Seq<MiningChunk>, c: MiningChunk)
    requires
        body_is_new(s, c.rb),
        c.health == CHUNK_MAX_HEALTH,
    ensures
        ({
            let t = s.push(c);
            let (t1, r1) = damaged(t, c.rb, 1);
            let (t2, r2) = damaged(t1, c.rb, 1);
            let (t3, r3) = damaged(t2, c.rb, 1);
            &&& r1 is None
            &&& r2 is None
            &&& r3 == Some(c.entity_id)
            &&& t3 == s
            &&& body_is_new(t3, c.rb)
        }),
        damaged(s.push(c), c.rb, 5) == (s, Some(c.entity_id)),
{
    let n = s.len() as int;
    let t = s.push(c);
    assert forall|j: int| 0 <= j < n implies t[j].rb != c.rb by {
        assert(t[j] == s[j]);
    }
    lemma_first_with_body(t, c.rb, n);
    let t1 = t.update(n, MiningChunk { health: 2, ..c });
    assert(damaged(t, c.rb, 1) == (t1, None::<EntityId>));
    assert forall|j: int| 0 <= j < n implies t1[j].rb != c.rb by {
        assert(t1[j] == s[j]);
    }
    lemma_first_with_body(t1, c.rb, n);
    let t2 = t1.update(n, MiningChunk { health: 1, ..c });
    assert(damaged(t1, c.rb, 1) == (t2, None::<EntityId>));
    assert forall|j: int| 0 <= j < n implies t2[j].rb != c.rb by {
        assert(t2[j] == s[j]);
    }
    lemma_first_with_body(t2, c.rb, n);
    assert(swap_removed(t2, n) =~= s);
    assert(swap_removed(t, n) =~= s);
}

proof fn lemma_first_with_body(s: Seq<MiningChunk>, rb: BodyHandle, i: int)
    requires
        0 <= i <= s.len(),
        forall|j: int| 0 <= j < i ==> s[j].rb != rb,
    ensures
        i < s.len() && s[i].rb == rb ==> first_with_body(s, rb) == i,
        i == s.len() ==> first_with_body(s, rb) == -1,
    decreases i,
{
    if i > 0 {
        assert forall|j: int| 0 <= j < i - 1 implies s.drop_first()[j].rb != rb by {
            assert(s.drop_first()[j] == s[j + 1]);
        }
        lemma_first_with_body(s.drop_first(), rb, i - 1);
    } else if s.len() > 0 && i < s.len() {
    }
}

proof fn lemma_first_with_body_found(s: Seq<MiningChunk>, rb: BodyHandle)
    requires
        first_with_body(s, rb) >= 0,
    ensures
        first_with_body(s, rb) < s.len(),
        s[first_with_body(s, rb)].rb == rb,
    decreases s.len(),
{
    if s.len() > 0 && s[0].rb != rb {
        lemma_first_with_body_found(s.drop_first(), rb);
    }
}

/// A sweep only ever grounds chunks, never ungrounds them.
proof fn lemma_sweep_grows(c: Seq<MiningChunk>, g: Seq<bool>, k: int)
    requires
        0 <= k <= c.len(),
        g.len() == c.len(),
    ensures
        sweep_upto(c, g, k).len() == g.len(),
        forall|j: int| 0 <= j < g.len() && #[trigger] g[j] ==> sweep_upto(c, g, k)[j],
    decreases k,
{
    if k > 0 {
        lemma_sweep_grows(c, g, k - 1);
    }
}

/// Propagation only ever grounds chunks, never ungrounds them.
pub proof fn law_propagation_keeps_grounded(c: Seq<MiningChunk>, g: Seq<bool>, rounds: int)
    requires
        g.len() == c.len(),
    ensures
        propagate(c, g, rounds).len() == g.len(),
        forall|j: int| 0 <= j < g.len() && #[trigger] g[j] ==> propagate(c, g, rounds)[j],
    decreases rounds,
{
    if rounds > 0 {
        lemma_sweep_grows(c, g, c.len() as int);
        let g2 = sweep_upto(c, g, c.len() as int);
        if g2 != g {
            law_propagation_keeps_grounded(c, g2, rounds - 1);
        }
    }
}

/// When a sweep changes nothing, no ungrounded chunk has a grounded neighbor
/// in its node: the support pattern is closed.
pub proof fn law_stable_sweep_is_closed(c: Seq<MiningChunk>, g: Seq<bool>)
    requires
        g.len() == c.len(),
        sweep_upto(c, g, c.len() as int) == g,
    ensures
        forall|i: int| 0 <= i < c.len() && !#[trigger] g[i] ==> !has_support(c, g, i),
{
    assert forall|i: int| 0 <= i < c.len() && !#[trigger] g[i] implies !has_support(c, g, i) by {
        lemma_sweep_unchanged_prefix(c, g, i);
    }
}

/// Sweeps grow: a chunk grounded after `k1` steps is still grounded after `k2 >= k1`.
proof fn lemma_sweep_chain(c: Seq<MiningChunk>, g: Seq<bool>, k1: int, k2: int)
    requires
        g.len() == c.len(),
        0 <= k1 <= k2 <= c.len(),
    ensures
        forall|j: int| 0 <= j < g.len() && #[trigger] sweep_upto(c, g, k1)[j] ==> sweep_upto(c, g, k2)[j],
    decreases k2 - k1,
{
    lemma_sweep_grows(c, g, k2);
    if k1 < k2 {
        lemma_sweep_chain(c, g, k1, k2 - 1);
        lemma_sweep_grows(c, g, k2 - 1);
    }
}

/// If the full sweep leaves `g` unchanged, so does every partial sweep, and so
/// step `i` saw `g` itself.
proof fn lemma_sweep_unchanged_prefix(c: Seq<MiningChunk>, g: Seq<bool>, i: int)
    requires
        g.len() == c.len(),
        0 <= i < c.len(),
        sweep_upto(c, g, c.len() as int) == g,
        !g[i],
    ensures
        !has_support(c, g, i),
{
    lemma_sweep_grows(c, g, i);
    lemma_sweep_chain(c, g, i, c.len() as int);
    lemma_sweep_chain(c, g, i + 1, c.len() as int);
    lemma_sweep_grows(c, g, i + 1);
    let gi = sweep_upto(c, g, i);
    assert(gi =~= g) by {
        assert forall|j: int| 0 <= j < g.len() implies gi[j] == g[j] by {
            if g[j] {
                assert(gi[j]);
            }
            if gi[j] {
                assert(sweep_upto(c, g, c.len() as int)[j]);
            }
        }
    }
    if has_support(c, g, i) {
        assert(sweep_upto(c, g, i + 1) == sweep_step(c, gi, i));
        assert(sweep_upto(c, g, i + 1)[i]);
        assert(sweep_upto(c, g, c.len() as int)[i]);
        assert(false);
    }
}

proof fn lemma_collapse_counts(cur: Seq<MiningChunk>, g: Seq<bool>, i: int)
    requires
        0 <= i <= cur.len(),
        i <= g.len(),
    ensures
        ({
            let (rest, ids) = collapse_from(cur, g, i);
            rest.len() + ids.len() == cur.len()
        }),
    decreases i,
{
    if i > 0 {
        if !g[i - 1] {
            lemma_collapse_counts(swap_removed(cur, i - 1), g, i - 1);
        } else {
            lemma_collapse_counts(cur, g, i - 1);
        }
    }
}

impl View for MiningSystem {
    type V = Seq<MiningChunk>;

    closed spec fn view(&self) -> Seq<MiningChunk> {
        self.chunks@
    }
}

impl MiningSystem {
    /// No two chunks share a physics body.
    pub open spec fn wf(&self) -> bool {
        bodies_distinct(self@)
    }

    pub fn new() -> (r: Self)
        ensures
            r@ == Seq::<MiningChunk>::empty(),
            r.next_node() == 0,
            r.wf(),
    {
        MiningSystem { chunks: Vec::new(), next_node_id: 0 }
    }

    /// The ID the next node will get.
    pub closed spec fn next_node(&self) -> u32 {
        self.next_node_id
    }

    /// Allocate the ID of a new mining node.
    pub fn alloc_node_id(&mut self) -> (r: u32)
        requires
            old(self).next_node() < u32::MAX,
        ensures
            r == old(self).next_node(),
            final(self).next_node() == old(self).next_node() + 1,
            final(self)@ == old(self)@,
    {
        let id = self.next_node_id;
        self.next_node_id = self.next_node_id + 1;
        id
    }

    /// Record a freshly spawned chunk of node `node_id` at full health.
    pub fn add_chunk(&mut self, entity_id: EntityId, rb: BodyHandle, node_id: u32, local: (i32, i32, i32))
        ensures
            final(self)@ == old(self)@.push(MiningChunk { entity_id, rb, health: CHUNK_MAX_HEALTH, node_id, local }),
            final(self).next_node() == old(self).next_node(),
            old(self).wf() && body_is_new(old(self)@, rb) ==> final(self).wf(),
    {
        self.chunks.push(MiningChunk { entity_id, rb, health: CHUNK_MAX_HEALTH, node_id, local });
        proof {
            let t = self.chunks@;
            let s0 = old(self)@;
            if old(self).wf() && body_is_new(s0, rb) {
                assert forall|a: int, b: int| 0 <= a < t.len() && 0 <= b < t.len() && a != b implies #[trigger] t[a].rb != #[trigger] t[b].rb by {
                    if a < s0.len() && b < s0.len() {
                        assert(t[a] == s0[a] && t[b] == s0[b]);
                    } else if a < s0.len() {
                        assert(t[a] == s0[a]);
                    } else {
                        assert(t[b] == s0[b]);
                    }
                }
            }
        }
    }

    /// Apply damage to the chunk whose rigid body matches `rb`.
    /// Returns the entity_id of the destroyed chunk (if health reached 0).
    pub fn damage_chunk(&mut self, rb: BodyHandle, damage: u32) -> (r: Option<EntityId>)
        ensures
            final(self).next_node() == old(self).next_node(),
            (final(self)@, r) == damaged(old(self)@, rb, damage),
            old(self).wf() ==> final(self).wf(),
    {
        proof {
            if old(self).wf() {
                law_damage_keeps_bodies_distinct(old(self)@, rb, damage);
            }
        }
        let mut i: usize = 0;
        while i < self.chunks.len()
            invariant
                i <= self.chunks@.len(),
                self.chunks@ == old(self).chunks@,
                self.next_node_id == old(self).next_node_id,
                forall|j: int| 0 <= j < i ==> self.chunks@[j].rb != rb,
            decreases self.chunks@.len() - i,
        {
            if self.chunks[i].rb == rb {
                proof {
                    lemma_first_with_body(self.chunks@, rb, i as int);
                }
                let chunk = self.chunks[i];
                let health = chunk.health.saturating_sub(damage);
                if health == 0 {
                    let id = chunk.entity_id;
                    self.chunks.swap_remove(i);
                    return Some(id);
                } else {
                    self.chunks.set(i, MiningChunk { health, ..chunk });
                    return None;
                }
            }
            i = i + 1;
        }
        proof {
            lemma_first_with_body(self.chunks@, rb, i as int);
        }
        None
    }

    /// Given which chunks are directly grounded (resting on terrain or on
    /// something outside the node), spread support through neighboring chunks
    /// of the same node for up to `MAX_SUPPORT_ROUNDS` sweeps, then remove the
    /// chunks left unsupported. Returns the entity IDs of the removed chunks.
    pub fn collapse_unsupported(&mut self, grounded: Vec<bool>) -> (r: Vec<EntityId>)
        requires
            grounded@.len() == old(self)@.len(),
        ensures
            final(self).next_node() == old(self).next_node(),
            (final(self)@, r@) == collapse_from(
                old(self)@,
                propagate(old(self)@, grounded@, MAX_SUPPORT_ROUNDS as int),
                old(self)@.len() as int,
            ),
            final(self)@.len() + r@.len() == old(self)@.len(),
            old(self).wf() ==> final(self).wf(),
    {
        proof {
            if old(self).wf() {
                law_propagation_keeps_grounded(old(self)@, grounded@, MAX_SUPPORT_ROUNDS as int);
                lemma_collapse_distinct(
                    old(self)@,
                    propagate(old(self)@, grounded@, MAX_SUPPORT_ROUNDS as int),
                    old(self)@.len() as int,
                );
            }
        }
        let ghost c = self.chunks@;
        let n = self.chunks.len();
        let mut grounded = grounded;
        let ghost g0 = grounded@;
        let mut round: u32 = 0;
        let mut done = false;
        while round < MAX_SUPPORT_ROUNDS && !done
            invariant
                self.chunks@ == c,
                n == c.len(),
                self.next_node_id == old(self).next_node_id,
                c == old(self)@,
                grounded@.len() == n,
                round <= MAX_SUPPORT_ROUNDS,
                done ==> propagate(c, g0, MAX_SUPPORT_ROUNDS as int) == grounded@,
                !done ==> propagate(c, g0, MAX_SUPPORT_ROUNDS as int) == propagate(c, grounded@, MAX_SUPPORT_ROUNDS - round),
            decreases MAX_SUPPORT_ROUNDS - round,
        {
            let ghost before = grounded@;
            let mut changed = false;
            let mut i: usize = 0;
            while i < n
                invariant
                    self.chunks@ == c,
                    n == c.len(),
                    i <= n,
                    before.len() == n,
                    grounded@ == sweep_upto(c, before, i as int),
                    changed == (grounded@ != before),
                decreases n - i,
            {
                proof {
                    lemma_sweep_grows(c, before, i as int);
                }
                if !grounded[i] {
                    let node_id = self.chunks[i].node_id;
                    let (lx, ly, lz) = self.chunks[i].local;
                    let mut j: usize = 0;
                    let mut found = false;
                    while j < n && !found
                        invariant
                            self.chunks@ == c,
                            n == c.len(),
                            i < n,
                            j <= n,
                            grounded@.len() == n,
                            node_id == c[i as int].node_id,
                            (lx, ly, lz) == c[i as int].local,
                            found ==> has_support(c, grounded@, i as int),
                            !found ==> forall|k: int| 0 <= k < j ==> !(k != i && #[trigger] grounded@[k] && c[k].node_id == c[i as int].node_id && adjacent(c[i as int].local, c[k].local)),
                        decreases n - j + if found {
                            0int
                        } else {
                            1int
                        },
                    {
                        if i != j && grounded[j] && self.chunks[j].node_id == node_id {
                            let (nx, ny, nz) = self.chunks[j].local;
                            let dx: i64 = if lx >= nx { lx as i64 - nx as i64 } else { nx as i64 - lx as i64 };
                            let dy: i64 = if ly >= ny { ly as i64 - ny as i64 } else { ny as i64 - ly as i64 };
                            let dz: i64 = if lz >= nz { lz as i64 - nz as i64 } else { nz as i64 - lz as i64 };
                            if dx + dy + dz == 1 {
                                found = true;
                            }
                        }
                        if !found {
                            j = j + 1;
                        }
                    }
                    if found {
                        let ghost mid = grounded@;
                        grounded.set(i, true);
                        changed = true;
                        proof {
                            assert(grounded@ != before) by {
                                assert(!before[i as int]);
                                assert(grounded@[i as int]);
                            }
                        }
                    }
                }
                proof {
                    lemma_sweep_grows(c, before, i as int + 1);
                    assert(sweep_upto(c, before, i as int + 1) == sweep_step(c, sweep_upto(c, before, i as int), i as int));
                }
                i = i + 1;
            }
            proof {
                lemma_sweep_grows(c, before, n as int);
            }
            if !changed {
                done = true;
            }
            round = round + 1;
        }
        let ghost g = grounded@;
        proof {
            if !done {
                assert(round == MAX_SUPPORT_ROUNDS);
            }
        }

        // Remove unsupported chunks, highest index first.
        let mut collapsed: Vec<EntityId> = Vec::new();
        let mut i: usize = n;
        proof {
            lemma_collapse_counts(c, g, n as int);
        }
        while i > 0
            invariant
                i <= n,
                n == c.len(),
                g == grounded@,
                g.len() == n,
                i <= self.chunks@.len(),
                forall|k: int| 0 <= k < i ==> self.chunks@[k] == c[k],
                self.next_node_id == old(self).next_node_id,
                collapse_from(c, g, n as int) == ({
                    let (rest, ids) = collapse_from(self.chunks@, g, i as int);
                    (rest, collapsed@ + ids)
                }),
            decreases i,
        {
            let idx = i - 1;
            if !grounded[idx] {
                let ghost cur = self.chunks@;
                collapsed.push(self.chunks[idx].entity_id);
                self.chunks.swap_remove(idx);
                proof {
                    let (rest, ids) = collapse_from(swap_removed(cur, idx as int), g, idx as int);
                    assert(collapsed@ + ids =~= (collapsed@.drop_last()) + (seq![cur[idx as int].entity_id] + ids));
                    assert forall|k: int| 0 <= k < idx implies self.chunks@[k] == c[k] by {
                        assert(self.chunks@[k] == cur[k]);
                    }
                }
            }
            i = idx;
        }
        proof {
            assert(collapsed@ + seq![] =~= collapsed@);
        }
        collapsed
    }

    /// Check if a rigid body belongs to a mining chunk.
    pub fn is_mining_chunk(&self, rb: BodyHandle) -> (r: bool)
        ensures
            r == exists|i: int| 0 <= i < self@.len() && #[trigger] self@[i].rb == rb,
    {
        let mut i: usize = 0;
        while i < self.chunks.len()
            invariant
                i <= self.chunks@.len(),
                forall|j: int| 0 <= j < i ==> self.chunks@[j].rb != rb,
            decreases self.chunks@.len() - i,
        {
            if self.chunks[i].rb == rb {
                assert(self@[i as int].rb == rb);
                return true;
            }
            i = i + 1;
        }
        false
    }
}

} // verus!
