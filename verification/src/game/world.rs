//! Game world: owns all entities and game state.

use vstd::prelude::*;
use std::collections::HashMap;
use crate::game::entity::{Entity, EntityId, EntityKind};
use crate::game::inventory::{add_result, total_of};
use crate::game::items::ItemId;
use crate::handles::BodyHandle;

verus! {

broadcast use vstd::std_specs::hash::group_hash_axioms;

#[derive(Debug, Clone, Copy, PartialEq, Eq, Structural)]
pub enum GameState {
    Playing,
    InventoryOpen,
    Paused,
}

/// All entities of a game session, with an index of their positions by ID and
/// by physics body.
pub struct World {
    pub entities: Vec<Entity>,
    pub player_id: EntityId,
    pub state: GameState,
    pub next_entity_id: EntityId,
    id_to_index: HashMap<EntityId, usize>,
    rb_to_index: BodyIndex,
}

// ---------------------------------------------------------------------------
// The index by physics body: a list of entries in which no body occurs twice
// ---------------------------------------------------------------------------

/// No body occurs twice among the entries.
pub open spec fn bodies_distinct(s: Seq<(BodyHandle, usize)>) -> bool {
    forall|i: int, j: int| 0 <= i < s.len() && 0 <= j < s.len() && i != j ==> #[trigger] s[i].0 != #[trigger] s[j].0
}

/// Some entry of `s` is for body `k`.
pub open spec fn has_body(s: Seq<(BodyHandle, usize)>, k: BodyHandle) -> bool {
    exists|i: int| 0 <= i < s.len() && #[trigger] s[i].0 == k
}

/// An entry of `s` for body `k`.
pub open spec fn body_entry(s: Seq<(BodyHandle, usize)>, k: BodyHandle) -> int {
    choose|i: int| 0 <= i < s.len() && #[trigger] s[i].0 == k
}

/// The entries of `s` as a map from body to position.
pub open spec fn body_map(s: Seq<(BodyHandle, usize)>) -> Map<BodyHandle, usize> {
    Map::new(|k: BodyHandle| has_body(s, k), |k: BodyHandle| s[body_entry(s, k)].1)
}

proof fn lemma_body_entry(s: Seq<(BodyHandle, usize)>, i: int)
    requires
        bodies_distinct(s),
        0 <= i < s.len(),
    ensures
        body_map(s).contains_key(s[i].0),
        body_map(s)[s[i].0] == s[i].1,
{
    assert(has_body(s, s[i].0));
    let j = body_entry(s, s[i].0);
    assert(0 <= j < s.len() && s[j].0 == s[i].0);
}

proof fn lemma_body_push(s: Seq<(BodyHandle, usize)>, k: BodyHandle, v: usize)
    requires
        bodies_distinct(s),
        !has_body(s, k),
    ensures
        bodies_distinct(s.push((k, v))),
        body_map(s.push((k, v))) == body_map(s).insert(k, v),
{
    let t = s.push((k, v));
    assert(bodies_distinct(t)) by {
        assert forall|i: int, j: int| 0 <= i < t.len() && 0 <= j < t.len() && i != j implies #[trigger] t[i].0 != #[trigger] t[j].0 by {
            if i < s.len() && j < s.len() {
                assert(t[i] == s[i] && t[j] == s[j]);
            } else if i < s.len() {
                assert(t[i] == s[i]);
            } else {
                assert(t[j] == s[j]);
            }
        }
    }
    assert forall|q: BodyHandle| #[trigger] body_map(t).dom().contains(q) == body_map(s).insert(k, v).dom().contains(q) by {
        if has_body(s, q) {
            let i = body_entry(s, q);
            assert(t[i] == s[i]);
        }
        if has_body(t, q) && q != k {
            let i = body_entry(t, q);
            assert(t[i] == s[i]);
        }
        if q == k {
            assert(t[s.len() as int].0 == k);
        }
    }
    assert forall|q: BodyHandle| body_map(t).dom().contains(q) implies #[trigger] body_map(t)[q] == body_map(s).insert(k, v)[q] by {
        if q == k {
            lemma_body_entry(t, s.len() as int);
        } else {
            assert(has_body(s, q)) by {
                let j = body_entry(t, q);
                assert(t[j] == s[j]);
            }
            let i = body_entry(s, q);
            lemma_body_entry(s, i);
            assert(t[i] == s[i]);
            lemma_body_entry(t, i);
        }
    }
    assert(body_map(t) =~= body_map(s).insert(k, v));
}

proof fn lemma_body_remove(s: Seq<(BodyHandle, usize)>, i: int)
    requires
        bodies_distinct(s),
        0 <= i < s.len(),
    ensures
        bodies_distinct(s.remove(i)),
        body_map(s.remove(i)) == body_map(s).remove(s[i].0),
{
    let t = s.remove(i);
    let k = s[i].0;
    assert forall|a: int| 0 <= a < t.len() implies #[trigger] t[a] == s[if a < i { a } else { a + 1 }] by {}
    assert(bodies_distinct(t)) by {
        assert forall|a: int, b: int| 0 <= a < t.len() && 0 <= b < t.len() && a != b implies #[trigger] t[a].0 != #[trigger] t[b].0 by {
            let a2 = if a < i { a } else { a + 1 };
            let b2 = if b < i { b } else { b + 1 };
            assert(t[a] == s[a2] && t[b] == s[b2]);
        }
    }
    assert forall|q: BodyHandle| #[trigger] body_map(t).dom().contains(q) == body_map(s).remove(k).dom().contains(q) by {
        if has_body(t, q) {
            let a = body_entry(t, q);
            let a2 = if a < i { a } else { a + 1 };
            assert(t[a] == s[a2]);
            assert(s[a2].0 == q && a2 != i);
        }
        if has_body(s, q) && q != k {
            let a2 = body_entry(s, q);
            assert(a2 != i);
            let a = if a2 < i { a2 } else { a2 - 1 };
            assert(t[a] == s[a2]);
        }
    }
    assert forall|q: BodyHandle| body_map(t).dom().contains(q) implies #[trigger] body_map(t)[q] == body_map(s).remove(k)[q] by {
        let a = body_entry(t, q);
        let a2 = if a < i { a } else { a + 1 };
        assert(t[a] == s[a2]);
        lemma_body_entry(t, a);
        lemma_body_entry(s, a2);
    }
    assert(body_map(t) =~= body_map(s).remove(k));
}

proof fn lemma_body_update(s: Seq<(BodyHandle, usize)>, i: int, v: usize)
    requires
        bodies_distinct(s),
        0 <= i < s.len(),
    ensures
        bodies_distinct(s.update(i, (s[i].0, v))),
        body_map(s.update(i, (s[i].0, v))) == body_map(s).insert(s[i].0, v),
{
    let t = s.update(i, (s[i].0, v));
    let k = s[i].0;
    assert(bodies_distinct(t)) by {
        assert forall|a: int, b: int| 0 <= a < t.len() && 0 <= b < t.len() && a != b implies #[trigger] t[a].0 != #[trigger] t[b].0 by {
            assert(t[a].0 == s[a].0 && t[b].0 == s[b].0);
        }
    }
    assert forall|q: BodyHandle| #[trigger] body_map(t).dom().contains(q) == body_map(s).insert(k, v).dom().contains(q) by {
        if has_body(t, q) {
            let a = body_entry(t, q);
            assert(t[a].0 == s[a].0);
        }
        if has_body(s, q) {
            let a = body_entry(s, q);
            assert(t[a].0 == s[a].0);
        }
        assert(t[i].0 == k);
    }
    assert forall|q: BodyHandle| body_map(t).dom().contains(q) implies #[trigger] body_map(t)[q] == body_map(s).insert(k, v)[q] by {
        let a = body_entry(t, q);
        lemma_body_entry(t, a);
        if a != i {
            assert(t[a] == s[a]);
            lemma_body_entry(s, a);
        }
    }
    assert(body_map(t) =~= body_map(s).insert(k, v));
}

/// Positions of entities by physics body, kept as a list of entries.
pub struct BodyIndex {
    entries: Vec<(BodyHandle, usize)>,
}

impl BodyIndex {
    #[verifier::type_invariant]
    closed spec fn distinct(&self) -> bool {
        bodies_distinct(self.entries@)
    }

    closed spec fn map(&self) -> Map<BodyHandle, usize> {
        body_map(self.entries@)
    }

    fn new() -> (r: Self)
        ensures
            r.map() == Map::<BodyHandle, usize>::empty(),
    {
        let r = BodyIndex { entries: Vec::new() };
        assert(r.map() =~= Map::<BodyHandle, usize>::empty());
        r
    }

    /// The list position of the entry for `k`.
    fn find(&self, k: BodyHandle) -> (r: Option<usize>)
        ensures
            r is None <==> !self.map().contains_key(k),
            r matches Some(i) ==> i < self.entries@.len() && self.entries@[i as int].0 == k
                && self.map()[k] == self.entries@[i as int].1,
    {
        proof {
            use_type_invariant(self);
        }
        let mut i: usize = 0;
        while i < self.entries.len()
            invariant
                i <= self.entries@.len(),
                bodies_distinct(self.entries@),
                forall|j: int| 0 <= j < i ==> #[trigger] self.entries@[j].0 != k,
            decreases self.entries@.len() - i,
        {
            if self.entries[i].0 == k {
                proof {
                    lemma_body_entry(self.entries@, i as int);
                }
                return Some(i);
            }
            i = i + 1;
        }
        proof {
            if has_body(self.entries@, k) {
                let j = body_entry(self.entries@, k);
                assert(self.entries@[j].0 != k);
            }
        }
        None
    }

    fn get(&self, k: BodyHandle) -> (r: Option<usize>)
        ensures
            r == (if self.map().contains_key(k) { Some(self.map()[k]) } else { None::<usize> }),
    {
        match self.find(k) {
            Some(i) => Some(self.entries[i].1),
            None => None,
        }
    }

    fn insert(&mut self, k: BodyHandle, v: usize)
        ensures
            final(self).map() == old(self).map().insert(k, v),
    {
        proof {
            use_type_invariant(&*self);
        }
        let found = self.find(k);
        let mut entries: Vec<(BodyHandle, usize)> = Vec::new();
        std::mem::swap(&mut entries, &mut self.entries);
        match found {
            Some(i) => {
                proof {
                    lemma_body_update(entries@, i as int, v);
                }
                entries.set(i, (k, v));
            },
            None => {
                proof {
                    if has_body(entries@, k) {
                        lemma_body_entry(entries@, body_entry(entries@, k));
                    }
                    lemma_body_push(entries@, k, v);
                }
                entries.push((k, v));
            },
        }
        self.entries = entries;
    }

    fn remove(&mut self, k: BodyHandle)
        ensures
            final(self).map() == old(self).map().remove(k),
    {
        proof {
            use_type_invariant(&*self);
        }
        match self.find(k) {
            Some(i) => {
                let mut entries: Vec<(BodyHandle, usize)> = Vec::new();
                std::mem::swap(&mut entries, &mut self.entries);
                proof {
                    lemma_body_remove(entries@, i as int);
                }
                entries.remove(i);
                self.entries = entries;
            },
            None => {
                assert(old(self).map().remove(k) =~= old(self).map());
            },
        }
    }
}

// ---------------------------------------------------------------------------
// The model of the indices
// ---------------------------------------------------------------------------

/// The index by ID of `s` as entering the entities one by one builds it: each
/// ID maps to the last position that holds it.
pub open spec fn ids_index(s: Seq<Entity>) -> Map<EntityId, usize>
    decreases s.len(),
{
    if s.len() == 0 {
        Map::empty()
    } else {
        ids_index(s.drop_last()).insert(s.last().id, (s.len() - 1) as usize)
    }
}

/// The index by physics body of `s` as entering the entities one by one
/// builds it: each body maps to the last position that holds it.
pub open spec fn bodies_index(s: Seq<Entity>) -> Map<BodyHandle, usize>
    decreases s.len(),
{
    if s.len() == 0 {
        Map::empty()
    } else {
        bodies_index(s.drop_last()).insert(s.last().rigid_body, (s.len() - 1) as usize)
    }
}

/// Every entry of the ID index names a position of `s` that holds that ID.
pub open spec fn ids_match(s: Seq<Entity>, m: Map<EntityId, usize>) -> bool {
    forall|k: EntityId| #[trigger] m.contains_key(k) ==> (m[k] as int) < s.len() && s[m[k] as int].id == k
}

/// Every entry of the body index names a position of `s` that holds that body.
pub open spec fn bodies_match(s: Seq<Entity>, m: Map<BodyHandle, usize>) -> bool {
    forall|k: BodyHandle| #[trigger] m.contains_key(k) ==> (m[k] as int) < s.len() && s[m[k] as int].rigid_body == k
}

/// `s` after `Vec::swap_remove(i)`: the last entity takes the place of entity `i`.
pub open spec fn swap_removed(s: Seq<Entity>, i: int) -> Seq<Entity> {
    s.update(i, s.last()).drop_last()
}

/// The ID index after entity `i` of `s` is removed: the removed entity's ID
/// leaves it, and the entity moved into position `i`, if any, is entered
/// there.
pub open spec fn ids_after_removal(s: Seq<Entity>, m: Map<EntityId, usize>, i: int) -> Map<EntityId, usize> {
    let m1 = m.remove(s[i].id);
    if i < s.len() - 1 {
        m1.insert(s.last().id, i as usize)
    } else {
        m1
    }
}

/// The body index after entity `i` of `s` is removed, in the same way.
pub open spec fn bodies_after_removal(s: Seq<Entity>, m: Map<BodyHandle, usize>, i: int) -> Map<BodyHandle, usize> {
    let m1 = m.remove(s[i].rigid_body);
    if i < s.len() - 1 {
        m1.insert(s.last().rigid_body, i as usize)
    } else {
        m1
    }
}

/// Whether `pickup_item` gets as far as the player: the drop is indexed, is an
/// item drop, and holds an item.
pub open spec fn pickup_reaches_player(s: Seq<Entity>, m: Map<EntityId, usize>, drop: EntityId) -> bool {
    &&& m.contains_key(drop)
    &&& s[m[drop] as int].kind == EntityKind::ItemDrop
    &&& s[m[drop] as int].drop_item is Some
}

/// The result of picking up drop `d` into the player's inventory `inv`: the
/// player's new slots and the count left on the ground.
pub open spec fn pickup_result(inv: Seq<Option<crate::game::inventory::ItemStack>>, item: ItemId, count: u16) -> (Seq<Option<crate::game::inventory::ItemStack>>, int) {
    add_result(inv, item, count as int)
}

proof fn lemma_ids_index_step(s: Seq<Entity>, i: int)
    requires
        0 <= i < s.len(),
    ensures
        ids_index(s.take(i + 1)) == ids_index(s.take(i)).insert(s[i].id, i as usize),
        bodies_index(s.take(i + 1)) == bodies_index(s.take(i)).insert(s[i].rigid_body, i as usize),
{
    assert(s.take(i + 1).drop_last() =~= s.take(i));
}

impl World {
    /// The entities, in order.
    pub closed spec fn entities_seq(&self) -> Seq<Entity> {
        self.entities@
    }

    /// The player's ID.
    pub closed spec fn player_of(&self) -> EntityId {
        self.player_id
    }

    pub closed spec fn state_of(&self) -> GameState {
        self.state
    }

    /// The ID that `alloc_id` hands out next.
    pub closed spec fn next_id(&self) -> EntityId {
        self.next_entity_id
    }

    /// Positions of the entities by ID.
    pub closed spec fn id_index(&self) -> Map<EntityId, usize> {
        self.id_to_index@
    }

    /// Positions of the entities by physics body.
    pub closed spec fn body_index(&self) -> Map<BodyHandle, usize> {
        self.rb_to_index.map()
    }

    /// Every index entry names a position of an entity that has that ID or
    /// body. `new`, `add_entity`, the removals and `pickup_item` keep it; it
    /// gives every lookup's bounds.
    pub open spec fn wf(&self) -> bool {
        &&& ids_match(self.entities_seq(), self.id_index())
        &&& bodies_match(self.entities_seq(), self.body_index())
    }

    /// A world of `entities`, indexed by ID and by physics body; where two
    /// entities share an ID or a body, the later one is indexed.
    pub fn new(entities: Vec<Entity>, player_id: EntityId, next_id: EntityId) -> (r: Self)
        ensures
            r.entities_seq() == entities@,
            r.player_of() == player_id,
            r.state_of() == GameState::Playing,
            r.next_id() == next_id,
            r.id_index() == ids_index(entities@),
            r.body_index() == bodies_index(entities@),
            r.wf(),
    {
        let mut id_to_index: HashMap<EntityId, usize> = HashMap::new();
        let mut rb_to_index = BodyIndex::new();
        let mut i: usize = 0;
        while i < entities.len()
            invariant
                i <= entities@.len(),
                id_to_index@ == ids_index(entities@.take(i as int)),
                rb_to_index.map() == bodies_index(entities@.take(i as int)),
            decreases entities@.len() - i,
        {
            proof {
                lemma_ids_index_step(entities@, i as int);
            }
            id_to_index.insert(entities[i].id, i);
            rb_to_index.insert(entities[i].rigid_body, i);
            i = i + 1;
        }
        assert(entities@.take(i as int) =~= entities@);
        proof {
            law_built_index_matches(entities@);
        }
        World { entities, player_id, state: GameState::Playing, next_entity_id: next_id, id_to_index, rb_to_index }
    }

    /// Hand out a fresh entity ID.
    pub fn alloc_id(&mut self) -> (r: EntityId)
        requires
            old(self).next_id() < EntityId::MAX,
        ensures
            r == old(self).next_id(),
            final(self).next_id() == old(self).next_id() + 1,
            final(self).entities_seq() == old(self).entities_seq(),
            final(self).player_of() == old(self).player_of(),
            final(self).state_of() == old(self).state_of(),
            final(self).id_index() == old(self).id_index(),
            final(self).body_index() == old(self).body_index(),
            old(self).wf() ==> final(self).wf(),
    {
        let id = self.next_entity_id;
        self.next_entity_id = self.next_entity_id + 1;
        id
    }

    pub fn next_entity_id(&self) -> (r: EntityId)
        ensures
            r == self.next_id(),
    {
        self.next_entity_id
    }

    /// The indexed position of ID `id`.
    fn index_of(&self, id: EntityId) -> (r: Option<usize>)
        ensures
            r == (if self.id_index().contains_key(id) { Some(self.id_index()[id]) } else { None::<usize> }),
    {
        match self.id_to_index.get(&id) {
            Some(i) => Some(*i),
            None => None,
        }
    }

    /// Find the entity with ID `id`.
    pub fn entity(&self, id: EntityId) -> (r: Option<&Entity>)
        requires
            self.id_index().contains_key(id) ==> self.id_index()[id] < self.entities_seq().len(),
        ensures
            !self.id_index().contains_key(id) ==> r is None,
            self.id_index().contains_key(id) ==> r == Some(&self.entities_seq()[self.id_index()[id] as int]),
    {
        match self.index_of(id) {
            Some(i) => Some(&self.entities[i]),
            None => None,
        }
    }

    /// Find the entity with ID `id`, for changing it.
    pub fn entity_mut(&mut self, id: EntityId) -> (r: Option<&mut Entity>)
        requires
            old(self).id_index().contains_key(id) ==> old(self).id_index()[id] < old(self).entities_seq().len(),
        ensures
            final(self).player_of() == old(self).player_of(),
            final(self).state_of() == old(self).state_of(),
            final(self).next_id() == old(self).next_id(),
            final(self).id_index() == old(self).id_index(),
            final(self).body_index() == old(self).body_index(),
            !old(self).id_index().contains_key(id) ==> r is None && final(self).entities_seq() == old(self).entities_seq(),
            old(self).id_index().contains_key(id) ==> {
                let i = old(self).id_index()[id] as int;
                &&& r is Some
                &&& *r.unwrap() == old(self).entities_seq()[i]
                &&& final(self).entities_seq() == old(self).entities_seq().update(i, *final(r.unwrap()))
            },
    {
        match self.index_of(id) {
            Some(i) => Some(&mut self.entities[i]),
            None => None,
        }
    }

    /// The player entity, for changing it.
    pub fn player_mut(&mut self) -> (r: &mut Entity)
        requires
            old(self).id_index().contains_key(old(self).player_of()),
            old(self).id_index()[old(self).player_of()] < old(self).entities_seq().len(),
        ensures
            final(self).player_of() == old(self).player_of(),
            final(self).state_of() == old(self).state_of(),
            final(self).next_id() == old(self).next_id(),
            final(self).id_index() == old(self).id_index(),
            final(self).body_index() == old(self).body_index(),
            *r == old(self).entities_seq()[old(self).id_index()[old(self).player_of()] as int],
            final(self).entities_seq() == old(self).entities_seq().update(
                old(self).id_index()[old(self).player_of()] as int,
                *final(r),
            ),
    {
        let i = self.index_of(self.player_id).unwrap();
        &mut self.entities[i]
    }

    /// Find the entity whose physics body is `rb`.
    pub fn entity_by_rb(&self, rb: BodyHandle) -> (r: Option<&Entity>)
        requires
            self.body_index().contains_key(rb) ==> self.body_index()[rb] < self.entities_seq().len(),
        ensures
            !self.body_index().contains_key(rb) ==> r is None,
            self.body_index().contains_key(rb) ==> r == Some(&self.entities_seq()[self.body_index()[rb] as int]),
    {
        match self.rb_to_index.get(rb) {
            Some(i) => Some(&self.entities[i]),
            None => None,
        }
    }

    /// Add an entity at the end and index it, over any earlier entity with
    /// its ID or body.
    pub fn add_entity(&mut self, entity: Entity)
        ensures
            final(self).entities_seq() == old(self).entities_seq().push(entity),
            final(self).player_of() == old(self).player_of(),
            final(self).state_of() == old(self).state_of(),
            final(self).next_id() == old(self).next_id(),
            final(self).id_index() == old(self).id_index().insert(entity.id, old(self).entities_seq().len() as usize),
            final(self).body_index() == old(self).body_index().insert(entity.rigid_body, old(self).entities_seq().len() as usize),
            old(self).wf() && old(self).entities_seq().len() < usize::MAX ==> final(self).wf(),
    {
        proof {
            if self.entities@.len() < usize::MAX {
                law_add_then_find(self.entities@, self.id_index(), self.body_index(), entity);
            }
        }
        let idx = self.entities.len();
        self.id_to_index.insert(entity.id, idx);
        self.rb_to_index.insert(entity.rigid_body, idx);
        self.entities.push(entity);
    }

    /// Remove the entity indexed under `id`; the last entity takes its place
    /// and is indexed there.
    pub fn remove_by_id(&mut self, id: EntityId) -> (r: Option<Entity>)
        requires
            old(self).id_index().contains_key(id) ==> old(self).id_index()[id] < old(self).entities_seq().len(),
        ensures
            final(self).player_of() == old(self).player_of(),
            final(self).state_of() == old(self).state_of(),
            final(self).next_id() == old(self).next_id(),
            !old(self).id_index().contains_key(id) ==> {
                &&& r is None
                &&& final(self).entities_seq() == old(self).entities_seq()
                &&& final(self).id_index() == old(self).id_index()
                &&& final(self).body_index() == old(self).body_index()
            },
            old(self).id_index().contains_key(id) ==> {
                let s = old(self).entities_seq();
                let i = old(self).id_index()[id] as int;
                &&& r == Some(s[i])
                &&& final(self).entities_seq() == swap_removed(s, i)
                &&& final(self).id_index() == ids_after_removal(s, old(self).id_index(), i)
                &&& final(self).body_index() == bodies_after_removal(s, old(self).body_index(), i)
            },
            old(self).wf() ==> final(self).wf(),
    {
        let ghost len = self.entities.len();
        proof {
            if old(self).id_index().contains_key(id) && old(self).wf() {
                let i = old(self).id_index()[id] as int;
                law_remove_then_find(old(self).entities@, old(self).id_index(), old(self).body_index(), i, i);
            }
        }
        let idx = match self.index_of(id) {
            Some(i) => i,
            None => return None,
        };
        let ghost s = self.entities@;
        let entity = self.entities.swap_remove(idx);
        assert(self.entities@ =~= swap_removed(s, idx as int));
        self.id_to_index.remove(&entity.id);
        self.rb_to_index.remove(entity.rigid_body);
        if idx < self.entities.len() {
            let swapped = self.entities[idx];
            assert(swapped == s.last());
            self.id_to_index.insert(swapped.id, idx);
            self.rb_to_index.insert(swapped.rigid_body, idx);
        }
        Some(entity)
    }

    /// Remove the entity whose physics body is `rb`: the one indexed under
    /// that entity's ID.
    pub fn remove_by_rb(&mut self, rb: BodyHandle) -> (r: Option<Entity>)
        requires
            old(self).body_index().contains_key(rb) ==> {
                let id = old(self).entities_seq()[old(self).body_index()[rb] as int].id;
                &&& old(self).body_index()[rb] < old(self).entities_seq().len()
                &&& old(self).id_index().contains_key(id) ==> old(self).id_index()[id] < old(self).entities_seq().len()
            },
        ensures
            final(self).player_of() == old(self).player_of(),
            final(self).state_of() == old(self).state_of(),
            final(self).next_id() == old(self).next_id(),
            !old(self).body_index().contains_key(rb) ==> {
                &&& r is None
                &&& final(self).entities_seq() == old(self).entities_seq()
                &&& final(self).id_index() == old(self).id_index()
                &&& final(self).body_index() == old(self).body_index()
            },
            old(self).body_index().contains_key(rb) ==> {
                let s = old(self).entities_seq();
                let id = s[old(self).body_index()[rb] as int].id;
                &&& !old(self).id_index().contains_key(id) ==> {
                    &&& r is None
                    &&& final(self).entities_seq() == s
                    &&& final(self).id_index() == old(self).id_index()
                    &&& final(self).body_index() == old(self).body_index()
                }
                &&& old(self).id_index().contains_key(id) ==> {
                    let i = old(self).id_index()[id] as int;
                    &&& r == Some(s[i])
                    &&& final(self).entities_seq() == swap_removed(s, i)
                    &&& final(self).id_index() == ids_after_removal(s, old(self).id_index(), i)
                    &&& final(self).body_index() == bodies_after_removal(s, old(self).body_index(), i)
                }
            },
            old(self).wf() ==> final(self).wf(),
    {
        let id = match self.rb_to_index.get(rb) {
            Some(i) => self.entities[i].id,
            None => return None,
        };
        self.remove_by_id(id)
    }

    /// The player entity.
    pub fn player(&self) -> (r: &Entity)
        requires
            self.id_index().contains_key(self.player_of()),
            self.id_index()[self.player_of()] < self.entities_seq().len(),
        ensures
            *r == self.entities_seq()[self.id_index()[self.player_of()] as int],
    {
        let i = self.index_of(self.player_id).unwrap();
        &self.entities[i]
    }

    /// Try to pick up the item drop `drop_entity_id` into the player's
    /// inventory. Returns true when all of it fit (the caller then removes the
    /// drop); otherwise what did not fit stays on the ground.
    pub fn pickup_item(&mut self, drop_entity_id: EntityId) -> (r: bool)
        requires
            old(self).id_index().contains_key(drop_entity_id)
                ==> old(self).id_index()[drop_entity_id] < old(self).entities_seq().len(),
            pickup_reaches_player(old(self).entities_seq(), old(self).id_index(), drop_entity_id) ==> {
                let p = old(self).id_index()[old(self).player_of()] as int;
                &&& old(self).id_index().contains_key(old(self).player_of())
                &&& p < old(self).entities_seq().len()
                &&& old(self).entities_seq()[p].inventory is Some
            },
        ensures
            final(self).player_of() == old(self).player_of(),
            final(self).state_of() == old(self).state_of(),
            final(self).next_id() == old(self).next_id(),
            final(self).id_index() == old(self).id_index(),
            final(self).body_index() == old(self).body_index(),
            final(self).entities_seq().len() == old(self).entities_seq().len(),
            old(self).wf() ==> final(self).wf(),
            ({
                let s = old(self).entities_seq();
                let m = old(self).id_index();
                if !pickup_reaches_player(s, m, drop_entity_id) {
                    !r && final(self).entities_seq() == s
                } else {
                    let d = m[drop_entity_id] as int;
                    let p = m[old(self).player_of()] as int;
                    let (item, count) = s[d].drop_item->Some_0;
                    let (slots, left) = pickup_result(s[p].inventory->Some_0@, item, count);
                    let s2 = s.update(p, Entity { inventory: Some(final(self).entities_seq()[p].inventory->Some_0), ..s[p] });
                    &&& r == (left == 0)
                    &&& final(self).entities_seq()[p].inventory->Some_0@ == slots
                    &&& final(self).entities_seq() == (if left == 0 {
                        s2
                    } else {
                        s2.update(d, Entity { drop_item: Some((item, left as u16)), ..s2[d] })
                    })
                }
            }),
    {
        let d = match self.index_of(drop_entity_id) {
            Some(i) => i,
            None => return false,
        };
        if self.entities[d].kind != EntityKind::ItemDrop {
            return false;
        }
        let (item_id, count) = match self.entities[d].drop_item {
            Some(x) => x,
            None => return false,
        };
        let p = self.index_of(self.player_id).unwrap();
        let mut player = self.entities[p];
        let mut inv = player.inventory.unwrap();
        let leftover = inv.add(item_id, count);
        player.inventory = Some(inv);
        self.entities.set(p, player);
        if leftover == 0 {
            true
        } else {
            let drop = self.entities[d];
            self.entities.set(d, Entity { drop_item: Some((item_id, leftover)), ..drop });
            false
        }
    }
}

/// Indexing entities one by one leaves every index entry naming a position
/// that holds its ID and its body.
pub proof fn law_built_index_matches(s: Seq<Entity>)
    requires
        s.len() <= usize::MAX,
    ensures
        ids_match(s, ids_index(s)),
        bodies_match(s, bodies_index(s)),
    decreases s.len(),
{
    if s.len() > 0 {
        let t = s.drop_last();
        law_built_index_matches(t);
        assert forall|k: EntityId| #[trigger] ids_index(s).contains_key(k) implies (ids_index(s)[k] as int) < s.len() && s[ids_index(s)[k] as int].id == k by {
            if k != s.last().id {
                assert(ids_index(t).contains_key(k));
                assert(s[ids_index(t)[k] as int] == t[ids_index(t)[k] as int]);
            }
        }
        assert forall|k: BodyHandle| #[trigger] bodies_index(s).contains_key(k) implies (bodies_index(s)[k] as int) < s.len() && s[bodies_index(s)[k] as int].rigid_body == k by {
            if k != s.last().rigid_body {
                assert(bodies_index(t).contains_key(k));
                assert(s[bodies_index(t)[k] as int] == t[bodies_index(t)[k] as int]);
            }
        }
    }
}

/// An added entity is found by its ID and by its body afterwards, also where
/// an earlier entity had the same ID or body; the index keeps naming
/// positions that hold their keys.
pub proof fn law_add_then_find(s: Seq<Entity>, ids: Map<EntityId, usize>, bodies: Map<BodyHandle, usize>, e: Entity)
    requires
        s.len() < usize::MAX,
    ensures
        ({
            let t = s.push(e);
            let ids2 = ids.insert(e.id, s.len() as usize);
            let bodies2 = bodies.insert(e.rigid_body, s.len() as usize);
            &&& ids2.contains_key(e.id) && t[ids2[e.id] as int] == e
            &&& bodies2.contains_key(e.rigid_body) && t[bodies2[e.rigid_body] as int] == e
            &&& ids_match(s, ids) ==> ids_match(t, ids2)
            &&& bodies_match(s, bodies) ==> bodies_match(t, bodies2)
        }),
{
    let t = s.push(e);
    let ids2 = ids.insert(e.id, s.len() as usize);
    let bodies2 = bodies.insert(e.rigid_body, s.len() as usize);
    if ids_match(s, ids) {
        assert forall|k: EntityId| #[trigger] ids2.contains_key(k) implies (ids2[k] as int) < t.len() && t[ids2[k] as int].id == k by {
            if k != e.id {
                assert(ids.contains_key(k));
                assert(t[ids[k] as int] == s[ids[k] as int]);
            }
        }
    }
    if bodies_match(s, bodies) {
        assert forall|k: BodyHandle| #[trigger] bodies2.contains_key(k) implies (bodies2[k] as int) < t.len() && t[bodies2[k] as int].rigid_body == k by {
            if k != e.rigid_body {
                assert(bodies.contains_key(k));
                assert(t[bodies[k] as int] == s[bodies[k] as int]);
            }
        }
    }
}

/// Removing an entity keeps every index entry naming a position that holds its
/// key. With every entity indexed under its ID, the removed entity is not
/// found any more, and every other one still is.
pub proof fn law_remove_then_find(s: Seq<Entity>, ids: Map<EntityId, usize>, bodies: Map<BodyHandle, usize>, i: int, j: int)
    requires
        0 <= i < s.len(),
        0 <= j < s.len(),
        s.len() <= usize::MAX,
    ensures
        ({
            let t = swap_removed(s, i);
            let ids2 = ids_after_removal(s, ids, i);
            let bodies2 = bodies_after_removal(s, bodies, i);
            &&& ids_match(s, ids) ==> ids_match(t, ids2)
            &&& bodies_match(s, bodies) ==> bodies_match(t, bodies2)
            &&& (forall|a: int| 0 <= a < s.len() ==> ids.contains_key(#[trigger] s[a].id) && ids[s[a].id] == a) && j != i ==> {
                &&& !ids2.contains_key(s[i].id)
                &&& ids2.contains_key(s[j].id)
                &&& t[ids2[s[j].id] as int] == s[j]
            }
        }),
{
    let t = swap_removed(s, i);
    let last = s.len() - 1;
    let ids2 = ids_after_removal(s, ids, i);
    let bodies2 = bodies_after_removal(s, bodies, i);
    assert forall|a: int| 0 <= a < t.len() implies #[trigger] t[a] == s[if a == i { last } else { a }] by {}
    if ids_match(s, ids) {
        assert forall|k: EntityId| #[trigger] ids2.contains_key(k) implies (ids2[k] as int) < t.len() && t[ids2[k] as int].id == k by {
            if i < last && k == s.last().id {
                assert(t[i] == s[last]);
            } else {
                assert(ids.contains_key(k) && k != s[i].id);
                let a = ids[k] as int;
                assert(s[a].id == k);
                assert(a != i);
                if a == last {
                    assert(k == s.last().id);
                }
                assert(a < last);
                assert(t[a] == s[a]);
            }
        }
    }
    if bodies_match(s, bodies) {
        assert forall|k: BodyHandle| #[trigger] bodies2.contains_key(k) implies (bodies2[k] as int) < t.len() && t[bodies2[k] as int].rigid_body == k by {
            if i < last && k == s.last().rigid_body {
                assert(t[i] == s[last]);
            } else {
                assert(bodies.contains_key(k) && k != s[i].rigid_body);
                let a = bodies[k] as int;
                assert(s[a].rigid_body == k);
                assert(a != i);
                if a == last {
                    assert(k == s.last().rigid_body);
                }
                assert(a < last);
                assert(t[a] == s[a]);
            }
        }
    }
    if (forall|a: int| 0 <= a < s.len() ==> ids.contains_key(#[trigger] s[a].id) && ids[s[a].id] == a) && j != i {
        assert(ids.contains_key(s[i].id) && ids[s[i].id] == i);
        assert(ids.contains_key(s[j].id) && ids[s[j].id] == j);
        assert(ids.contains_key(s[last].id) && ids[s[last].id] == last);
        if i < last {
            // The last entity's ID is not the removed one's.
            assert(s[last].id != s[i].id);
        }
        if j == last {
            assert(t[i] == s[last]);
        } else {
            assert(s[j].id != s[i].id);
            if i < last {
                assert(s[j].id != s[last].id);
            }
            assert(t[j] == s[j]);
        }
    }
}

/// Picking up a drop keeps the number of items: what entered the inventory
/// plus what stayed on the ground is what the drop held, and no other item's
/// count changes.
pub proof fn law_pickup_conserves(inv: Seq<Option<crate::game::inventory::ItemStack>>, item: ItemId, count: u16)
    ensures
        ({
            let (slots, left) = pickup_result(inv, item, count);
            &&& 0 <= left <= count
            &&& total_of(slots, item) + left == total_of(inv, item) + count
            &&& forall|other: ItemId| other != item ==> #[trigger] total_of(slots, other) == total_of(inv, other)
        }),
{
    crate::game::inventory::law_add_conserves(inv, item, count as int);
    crate::game::inventory::lemma_room_nonneg(inv, item, crate::game::items::max_stack_of(item) as int);
}

} // verus!
