//! Slot-based inventory with stacking support.

use vstd::prelude::*;
use crate::game::items::{ItemId, item_by_id, max_stack_of};

verus! {

pub const INVENTORY_SIZE: usize = 24;

#[derive(Debug, Clone, Copy, PartialEq, Eq, Structural)]
pub struct ItemStack {
    pub item_id: ItemId,
    pub count: u16,
}

#[derive(Debug, Clone, Copy)]
pub struct Inventory {
    slots: [Option<ItemStack>; INVENTORY_SIZE],
}

// ---------------------------------------------------------------------------
// Model
// ---------------------------------------------------------------------------

/// How many of item `id` one slot holds.
pub open spec fn slot_amount(slot: Option<ItemStack>, id: ItemId) -> int {
    match slot {
        Some(st) => if st.item_id == id {
            st.count as int
        } else {
            0
        },
        None => 0,
    }
}

/// How many of item `id` the slots hold together.
pub open spec fn total_of(s: Seq<Option<ItemStack>>, id: ItemId) -> int
    decreases s.len(),
{
    if s.len() == 0 {
        0
    } else {
        total_of(s.drop_last(), id) + slot_amount(s.last(), id)
    }
}

/// Room that one slot's existing stack of `id` has left.
pub open spec fn stack_room(slot: Option<ItemStack>, id: ItemId, max: int) -> int {
    match slot {
        Some(st) => if st.item_id == id && st.count < max {
            max - st.count
        } else {
            0
        },
        None => 0,
    }
}

/// Room that one slot offers as a fresh stack.
pub open spec fn empty_room(slot: Option<ItemStack>, max: int) -> int {
    match slot {
        Some(_) => 0,
        None => max,
    }
}

pub open spec fn stack_room_total(s: Seq<Option<ItemStack>>, id: ItemId, max: int) -> int
    decreases s.len(),
{
    if s.len() == 0 {
        0
    } else {
        stack_room_total(s.drop_last(), id, max) + stack_room(s.last(), id, max)
    }
}

pub open spec fn empty_room_total(s: Seq<Option<ItemStack>>, max: int) -> int
    decreases s.len(),
{
    if s.len() == 0 {
        0
    } else {
        empty_room_total(s.drop_last(), max) + empty_room(s.last(), max)
    }
}

/// How many of item `id` the slots can still take, with stacks of at most `max`.
pub open spec fn room_for(s: Seq<Option<ItemStack>>, id: ItemId, max: int) -> int {
    stack_room_total(s, id, max) + empty_room_total(s, max)
}

pub open spec fn min_int(a: int, b: int) -> int {
    if a < b {
        a
    } else {
        b
    }
}

pub open spec fn max_int(a: int, b: int) -> int {
    if a < b {
        b
    } else {
        a
    }
}

/// One slot of the first pass of `add`: top up an existing stack of `id`.
pub open spec fn stack_step(slot: Option<ItemStack>, id: ItemId, max: int, count: int) -> (Option<ItemStack>, int) {
    match slot {
        Some(st) => if count > 0 && st.item_id == id && st.count < max {
            let add = min_int(count, max - st.count);
            (Some(ItemStack { item_id: st.item_id, count: (st.count + add) as u16 }), count - add)
        } else {
            (slot, count)
        },
        None => (slot, count),
    }
}

/// One slot of the second pass of `add`: start a new stack in an empty slot.
pub open spec fn fill_step(slot: Option<ItemStack>, id: ItemId, max: int, count: int) -> (Option<ItemStack>, int) {
    match slot {
        Some(_) => (slot, count),
        None => if count > 0 {
            let add = min_int(count, max);
            (Some(ItemStack { item_id: id, count: add as u16 }), count - add)
        } else {
            (slot, count)
        },
    }
}

/// One slot of `remove`: take from a stack of `id`, emptying the slot at zero.
pub open spec fn take_step(slot: Option<ItemStack>, id: ItemId, count: int) -> (Option<ItemStack>, int) {
    match slot {
        Some(st) => if count > 0 && st.item_id == id {
            let take = min_int(count, st.count as int);
            if st.count - take == 0 {
                (None, count - take)
            } else {
                (Some(ItemStack { item_id: st.item_id, count: (st.count - take) as u16 }), count - take)
            }
        } else {
            (slot, count)
        },
        None => (slot, count),
    }
}

/// The first pass of `add` over the slots, left to right: the new slots and
/// what is left to place.
pub open spec fn stack_pass(s: Seq<Option<ItemStack>>, id: ItemId, max: int, count: int) -> (Seq<Option<ItemStack>>, int)
    decreases s.len(),
{
    if s.len() == 0 {
        (s, count)
    } else {
        let (p, c) = stack_pass(s.drop_last(), id, max, count);
        let (x, c2) = stack_step(s.last(), id, max, c);
        (p.push(x), c2)
    }
}

/// The second pass of `add` over the slots, left to right.
pub open spec fn fill_pass(s: Seq<Option<ItemStack>>, id: ItemId, max: int, count: int) -> (Seq<Option<ItemStack>>, int)
    decreases s.len(),
{
    if s.len() == 0 {
        (s, count)
    } else {
        let (p, c) = fill_pass(s.drop_last(), id, max, count);
        let (x, c2) = fill_step(s.last(), id, max, c);
        (p.push(x), c2)
    }
}

/// `remove` over the slots, left to right: the new slots and what was not found.
pub open spec fn take_pass(s: Seq<Option<ItemStack>>, id: ItemId, count: int) -> (Seq<Option<ItemStack>>, int)
    decreases s.len(),
{
    if s.len() == 0 {
        (s, count)
    } else {
        let (p, c) = take_pass(s.drop_last(), id, count);
        let (x, c2) = take_step(s.last(), id, c);
        (p.push(x), c2)
    }
}

/// Adding `count` of `id`: first onto existing stacks, then into empty slots.
/// The new slots and the number of items that did not fit.
pub open spec fn add_result(s: Seq<Option<ItemStack>>, id: ItemId, count: int) -> (Seq<Option<ItemStack>>, int) {
    let max = max_stack_of(id) as int;
    let (a, c) = stack_pass(s, id, max, count);
    fill_pass(a, id, max, c)
}

// ---------------------------------------------------------------------------
// Facts about the passes
// ---------------------------------------------------------------------------

proof fn lemma_total_push(s: Seq<Option<ItemStack>>, x: Option<ItemStack>, id: ItemId)
    ensures
        total_of(s.push(x), id) == total_of(s, id) + slot_amount(x, id),
{
    assert(s.push(x).drop_last() =~= s);
}

proof fn lemma_stack_pass(s: Seq<Option<ItemStack>>, id: ItemId, max: int, count: int)
    requires
        count >= 0,
        max <= u16::MAX,
    ensures
        ({
            let (p, c) = stack_pass(s, id, max, count);
            &&& p.len() == s.len()
            &&& c == max_int(0, count - stack_room_total(s, id, max))
            &&& total_of(p, id) == total_of(s, id) + count - c
            &&& forall|other: ItemId| other != id ==> #[trigger] total_of(p, other) == total_of(s, other)
            &&& empty_room_total(p, max) == empty_room_total(s, max)
        }),
    decreases s.len(),
{
    if s.len() > 0 {
        let (p0, c0) = stack_pass(s.drop_last(), id, max, count);
        lemma_stack_pass(s.drop_last(), id, max, count);
        let (x, c2) = stack_step(s.last(), id, max, c0);
        let p = p0.push(x);
        lemma_total_push(p0, x, id);
        assert forall|other: ItemId| other != id implies #[trigger] total_of(p, other) == total_of(s, other) by {
            lemma_total_push(p0, x, other);
            assert(total_of(p0, other) == total_of(s.drop_last(), other));
        }
        assert(p.drop_last() =~= p0);
    }
}

proof fn lemma_fill_pass(s: Seq<Option<ItemStack>>, id: ItemId, max: int, count: int)
    requires
        count >= 0,
        0 <= max <= u16::MAX,
    ensures
        ({
            let (p, c) = fill_pass(s, id, max, count);
            &&& p.len() == s.len()
            &&& c == max_int(0, count - empty_room_total(s, max))
            &&& total_of(p, id) == total_of(s, id) + count - c
            &&& forall|other: ItemId| other != id ==> #[trigger] total_of(p, other) == total_of(s, other)
        }),
    decreases s.len(),
{
    if s.len() > 0 {
        let (p0, c0) = fill_pass(s.drop_last(), id, max, count);
        lemma_fill_pass(s.drop_last(), id, max, count);
        let (x, c2) = fill_step(s.last(), id, max, c0);
        let p = p0.push(x);
        lemma_total_push(p0, x, id);
        assert forall|other: ItemId| other != id implies #[trigger] total_of(p, other) == total_of(s, other) by {
            lemma_total_push(p0, x, other);
            assert(total_of(p0, other) == total_of(s.drop_last(), other));
        }
    }
}

proof fn lemma_take_pass(s: Seq<Option<ItemStack>>, id: ItemId, count: int)
    requires
        count >= 0,
    ensures
        ({
            let (p, c) = take_pass(s, id, count);
            &&& p.len() == s.len()
            &&& c == max_int(0, count - total_of(s, id))
            &&& total_of(p, id) == total_of(s, id) - (count - c)
            &&& forall|other: ItemId| other != id ==> #[trigger] total_of(p, other) == total_of(s, other)
        }),
    decreases s.len(),
{
    if s.len() > 0 {
        let (p0, c0) = take_pass(s.drop_last(), id, count);
        lemma_take_pass(s.drop_last(), id, count);
        let (x, c2) = take_step(s.last(), id, c0);
        let p = p0.push(x);
        lemma_total_push(p0, x, id);
        assert forall|other: ItemId| other != id implies #[trigger] total_of(p, other) == total_of(s, other) by {
            lemma_total_push(p0, x, other);
            assert(total_of(p0, other) == total_of(s.drop_last(), other));
        }
    }
}

/// What `add` does to totals: the items that fit are added to the total of
/// their kind, nothing else changes, and what does not fit is exactly the
/// excess over the room the slots had.
pub proof fn law_add_conserves(s: Seq<Option<ItemStack>>, id: ItemId, count: int)
    requires
        count >= 0,
    ensures
        ({
            let (p, left) = add_result(s, id, count);
            let max = max_stack_of(id) as int;
            &&& p.len() == s.len()
            &&& left == max_int(0, count - room_for(s, id, max))
            &&& total_of(p, id) == total_of(s, id) + count - left
            &&& forall|other: ItemId| other != id ==> #[trigger] total_of(p, other) == total_of(s, other)
        }),
{
    let max = max_stack_of(id) as int;
    lemma_stack_pass(s, id, max, count);
    lemma_room_nonneg(s, id, max);
    let (a, c) = stack_pass(s, id, max, count);
    lemma_fill_pass(a, id, max, c);
    let (p, left) = fill_pass(a, id, max, c);
    assert forall|other: ItemId| other != id implies #[trigger] total_of(p, other) == total_of(s, other) by {
        assert(total_of(a, other) == total_of(s, other));
    }
}

/// What `remove` does to totals: it takes as many as it can, up to what was
/// asked, from that kind only.
pub proof fn law_remove_takes(s: Seq<Option<ItemStack>>, id: ItemId, count: int)
    requires
        count >= 0,
    ensures
        ({
            let (p, missing) = take_pass(s, id, count);
            &&& p.len() == s.len()
            &&& count - missing == min_int(count, total_of(s, id))
            &&& total_of(p, id) == total_of(s, id) - (count - missing)
            &&& forall|other: ItemId| other != id ==> #[trigger] total_of(p, other) == total_of(s, other)
        }),
{
    lemma_take_pass(s, id, count);
}

/// Whatever fully fits can be taken out again: after an `add` that left
/// nothing over, a `remove` of the same amount finds all of it and restores
/// every total.
pub proof fn law_add_then_remove(s: Seq<Option<ItemStack>>, id: ItemId, count: int)
    requires
        count >= 0,
        add_result(s, id, count).1 == 0,
    ensures
        ({
            let (a, _) = add_result(s, id, count);
            let (b, missing) = take_pass(a, id, count);
            &&& missing == 0
            &&& forall|any: ItemId| #[trigger] total_of(b, any) == total_of(s, any)
        }),
{
    law_add_conserves(s, id, count);
    lemma_total_nonneg(s, id);
    let (a, _) = add_result(s, id, count);
    lemma_take_pass(a, id, count);
    let (b, missing) = take_pass(a, id, count);
    assert forall|any: ItemId| #[trigger] total_of(b, any) == total_of(s, any) by {
        if any != id {
            assert(total_of(a, any) == total_of(s, any));
        }
    }
}

// ---------------------------------------------------------------------------
// Slot by slot
// ---------------------------------------------------------------------------

/// Every stack holds at least one item and at most its item's stack limit.
pub open spec fn stacks_valid(s: Seq<Option<ItemStack>>) -> bool {
    forall|i: int| 0 <= i < s.len() ==> match #[trigger] s[i] {
        Some(st) => 1 <= st.count <= max_stack_of(st.item_id),
        None => true,
    }
}

/// No stack is empty.
pub open spec fn stacks_nonempty(s: Seq<Option<ItemStack>>) -> bool {
    forall|i: int| 0 <= i < s.len() ==> match #[trigger] s[i] {
        Some(st) => st.count >= 1,
        None => true,
    }
}

/// What the stacking pass may do to one slot: only a stack of `id` changes,
/// and it only grows, not past `max` unless it was already there.
pub open spec fn stack_slot_ok(before: Option<ItemStack>, after: Option<ItemStack>, id: ItemId, max: int) -> bool {
    match before {
        None => after == before,
        Some(st) => if st.item_id != id || st.count >= max {
            after == before
        } else {
            after matches Some(a) && a.item_id == id && st.count <= a.count <= max
        },
    }
}

/// After a stacking pass with items left over, the stacks of `id` are full.
pub open spec fn stack_topped(before: Option<ItemStack>, after: Option<ItemStack>, id: ItemId, max: int) -> bool {
    (before matches Some(st) && st.item_id == id) ==> (after matches Some(a) && a.count >= max)
}

/// What the filling pass may do to one slot: only an empty slot changes, into
/// a stack of `id` of 1 to `max` items.
pub open spec fn fill_slot_ok(before: Option<ItemStack>, after: Option<ItemStack>, id: ItemId, max: int) -> bool {
    match before {
        Some(_) => after == before,
        None => after is None || (after matches Some(a) && a.item_id == id && 1 <= a.count <= max),
    }
}

/// After a filling pass with items left over, every empty slot holds a full stack.
pub open spec fn fill_full(before: Option<ItemStack>, after: Option<ItemStack>, max: int) -> bool {
    before is None ==> (after matches Some(a) && a.count == max)
}

/// What `remove` may do to one slot: only a stack of `id` changes; it
/// shrinks, and an emptied stack leaves the slot empty.
pub open spec fn take_slot_ok(before: Option<ItemStack>, after: Option<ItemStack>, id: ItemId) -> bool {
    match before {
        None => after is None,
        Some(st) => if st.item_id != id {
            after == before
        } else {
            after == before || after is None || (after matches Some(a) && a.item_id == id && 1 <= a.count <= st.count)
        },
    }
}

proof fn lemma_stack_pass_slots(s: Seq<Option<ItemStack>>, id: ItemId, max: int, count: int)
    requires
        count >= 0,
        max <= u16::MAX,
    ensures
        ({
            let (p, c) = stack_pass(s, id, max, count);
            &&& p.len() == s.len()
            &&& 0 <= c <= count
            &&& forall|i: int| 0 <= i < s.len() ==> #[trigger] stack_slot_ok(s[i], p[i], id, max)
            &&& c > 0 ==> forall|i: int| 0 <= i < s.len() ==> #[trigger] stack_topped(s[i], p[i], id, max)
        }),
    decreases s.len(),
{
    if s.len() > 0 {
        let t = s.drop_last();
        lemma_stack_pass_slots(t, id, max, count);
        let (p0, c0) = stack_pass(t, id, max, count);
        let (x, c2) = stack_step(s.last(), id, max, c0);
        let p = p0.push(x);
        assert forall|i: int| 0 <= i < s.len() implies #[trigger] stack_slot_ok(s[i], p[i], id, max) by {
            if i < t.len() {
                assert(s[i] == t[i] && p[i] == p0[i]);
            }
        }
        if c2 > 0 {
            assert forall|i: int| 0 <= i < s.len() implies #[trigger] stack_topped(s[i], p[i], id, max) by {
                if i < t.len() {
                    assert(s[i] == t[i] && p[i] == p0[i]);
                    assert(stack_topped(t[i], p0[i], id, max));
                }
            }
        }
    }
}

proof fn lemma_fill_pass_slots(s: Seq<Option<ItemStack>>, id: ItemId, max: int, count: int)
    requires
        count >= 0,
        1 <= max <= u16::MAX,
    ensures
        ({
            let (p, c) = fill_pass(s, id, max, count);
            &&& p.len() == s.len()
            &&& 0 <= c <= count
            &&& forall|i: int| 0 <= i < s.len() ==> #[trigger] fill_slot_ok(s[i], p[i], id, max)
            &&& c > 0 ==> forall|i: int| 0 <= i < s.len() ==> #[trigger] fill_full(s[i], p[i], max)
            &&& count == 0 ==> p == s && c == 0
        }),
    decreases s.len(),
{
    if s.len() > 0 {
        let t = s.drop_last();
        lemma_fill_pass_slots(t, id, max, count);
        let (p0, c0) = fill_pass(t, id, max, count);
        let (x, c2) = fill_step(s.last(), id, max, c0);
        let p = p0.push(x);
        assert forall|i: int| 0 <= i < s.len() implies #[trigger] fill_slot_ok(s[i], p[i], id, max) by {
            if i < t.len() {
                assert(s[i] == t[i] && p[i] == p0[i]);
            }
        }
        if c2 > 0 {
            assert forall|i: int| 0 <= i < s.len() implies #[trigger] fill_full(s[i], p[i], max) by {
                if i < t.len() {
                    assert(s[i] == t[i] && p[i] == p0[i]);
                    assert(fill_full(t[i], p0[i], max));
                }
            }
        }
        if count == 0 {
            assert(p =~= s);
        }
    } else {
        assert(fill_pass(s, id, max, count).0 == s);
    }
}

proof fn lemma_take_pass_slots(s: Seq<Option<ItemStack>>, id: ItemId, count: int)
    requires
        count >= 0,
    ensures
        ({
            let (p, c) = take_pass(s, id, count);
            &&& p.len() == s.len()
            &&& forall|i: int| 0 <= i < s.len() ==> #[trigger] take_slot_ok(s[i], p[i], id)
            &&& (count == 0 || total_of(s, id) == 0) && stacks_nonempty(s) ==> p == s
        }),
    decreases s.len(),
{
    if s.len() > 0 {
        let t = s.drop_last();
        lemma_take_pass_slots(t, id, count);
        let (p0, c0) = take_pass(t, id, count);
        let (x, c2) = take_step(s.last(), id, c0);
        let p = p0.push(x);
        assert forall|i: int| 0 <= i < s.len() implies #[trigger] take_slot_ok(s[i], p[i], id) by {
            if i < t.len() {
                assert(s[i] == t[i] && p[i] == p0[i]);
            }
        }
        if (count == 0 || total_of(s, id) == 0) && stacks_nonempty(s) {
            assert(stacks_nonempty(t)) by {
                assert forall|i: int| 0 <= i < t.len() implies match #[trigger] t[i] {
                    Some(st) => st.count >= 1,
                    None => true,
                } by {
                    assert(t[i] == s[i]);
                }
            }
            lemma_total_nonneg(t, id);
            lemma_take_pass(t, id, count);
            if count != 0 {
                assert(total_of(t, id) == 0 && slot_amount(s.last(), id) == 0);
                assert(s.last() == s[s.len() - 1]);
            } else {
                assert(c0 == 0);
            }
            assert(p =~= s);
        }
    }
}

proof fn lemma_max_stack_positive(id: ItemId)
    ensures
        1 <= max_stack_of(id),
{
}

/// What `add` leaves alone: every slot that holds another item keeps its
/// stack, and every occupied slot stays occupied by the same item.
pub proof fn law_add_keeps_other_slots(s: Seq<Option<ItemStack>>, id: ItemId, count: int)
    requires
        count >= 0,
    ensures
        ({
            let (p, _) = add_result(s, id, count);
            &&& p.len() == s.len()
            &&& forall|i: int| 0 <= i < s.len() && (s[i] matches Some(st) && st.item_id != id) ==> #[trigger] p[i] == s[i]
            &&& forall|i: int| 0 <= i < s.len() && s[i] is Some ==> (#[trigger] p[i] matches Some(a) && a.item_id == s[i]->Some_0.item_id)
        }),
{
    let max = max_stack_of(id) as int;
    lemma_max_stack_positive(id);
    lemma_stack_pass_slots(s, id, max, count);
    let (a, c) = stack_pass(s, id, max, count);
    lemma_fill_pass_slots(a, id, max, c);
    let (p, _) = fill_pass(a, id, max, c);
    assert forall|i: int| 0 <= i < s.len() && (s[i] matches Some(st) && st.item_id != id) implies #[trigger] p[i] == s[i] by {
        assert(stack_slot_ok(s[i], a[i], id, max));
        assert(fill_slot_ok(a[i], p[i], id, max));
    }
    assert forall|i: int| 0 <= i < s.len() && s[i] is Some implies (#[trigger] p[i] matches Some(x) && x.item_id == s[i]->Some_0.item_id) by {
        assert(stack_slot_ok(s[i], a[i], id, max));
        assert(fill_slot_ok(a[i], p[i], id, max));
    }
}

/// `add` keeps every stack within its limit, and it tops up the existing
/// stacks of the item before it starts a stack in an empty slot: once an empty
/// slot is used, every stack of the item that was there is full.
pub proof fn law_add_tops_up_first(s: Seq<Option<ItemStack>>, id: ItemId, count: int)
    requires
        count >= 0,
        stacks_valid(s),
    ensures
        ({
            let (p, _) = add_result(s, id, count);
            &&& stacks_valid(p)
            &&& (exists|i: int| 0 <= i < s.len() && s[i] is None && #[trigger] p[i] is Some) ==>
                forall|j: int| 0 <= j < s.len() && (s[j] matches Some(st) && st.item_id == id) ==>
                    (#[trigger] p[j] matches Some(x) && x.count == max_stack_of(id))
        }),
{
    let max = max_stack_of(id) as int;
    lemma_max_stack_positive(id);
    lemma_stack_pass_slots(s, id, max, count);
    let (a, c) = stack_pass(s, id, max, count);
    lemma_fill_pass_slots(a, id, max, c);
    let (p, _) = fill_pass(a, id, max, c);
    assert forall|i: int| 0 <= i < p.len() implies match #[trigger] p[i] {
        Some(st) => 1 <= st.count <= max_stack_of(st.item_id),
        None => true,
    } by {
        assert(stack_slot_ok(s[i], a[i], id, max));
        assert(fill_slot_ok(a[i], p[i], id, max));
        assert(match s[i] {
            Some(st) => 1 <= st.count <= max_stack_of(st.item_id),
            None => true,
        });
    }
    if exists|i: int| 0 <= i < s.len() && s[i] is None && #[trigger] p[i] is Some {
        let i = choose|i: int| 0 <= i < s.len() && s[i] is None && #[trigger] p[i] is Some;
        assert(stack_slot_ok(s[i], a[i], id, max));
        assert(a[i] is None);
        if c == 0 {
            assert(p == a);
        }
        assert(c > 0);
        assert forall|j: int| 0 <= j < s.len() && (s[j] matches Some(st) && st.item_id == id) implies
            (#[trigger] p[j] matches Some(x) && x.count == max_stack_of(id)) by {
            assert(stack_slot_ok(s[j], a[j], id, max));
            assert(stack_topped(s[j], a[j], id, max));
            assert(fill_slot_ok(a[j], p[j], id, max));
            assert(match s[j] {
                Some(st) => 1 <= st.count <= max_stack_of(st.item_id),
                None => true,
            });
        }
    }
}

/// `add` reports items as not fitting only when the inventory is full: no
/// empty slot is left, and every stack of the item is at its limit.
pub proof fn law_add_leftover_means_full(s: Seq<Option<ItemStack>>, id: ItemId, count: int)
    requires
        count >= 0,
        stacks_valid(s),
    ensures
        ({
            let (p, left) = add_result(s, id, count);
            left > 0 ==> forall|i: int| 0 <= i < p.len() ==> (#[trigger] p[i] matches Some(x)
                && (x.item_id == id ==> x.count == max_stack_of(id)))
        }),
{
    let max = max_stack_of(id) as int;
    lemma_max_stack_positive(id);
    lemma_stack_pass_slots(s, id, max, count);
    let (a, c) = stack_pass(s, id, max, count);
    lemma_fill_pass_slots(a, id, max, c);
    let (p, left) = fill_pass(a, id, max, c);
    if left > 0 {
        assert forall|i: int| 0 <= i < p.len() implies (#[trigger] p[i] matches Some(x)
            && (x.item_id == id ==> x.count == max_stack_of(id))) by {
            assert(stack_slot_ok(s[i], a[i], id, max));
            assert(stack_topped(s[i], a[i], id, max));
            assert(fill_slot_ok(a[i], p[i], id, max));
            assert(fill_full(a[i], p[i], max));
            assert(match s[i] {
                Some(st) => 1 <= st.count <= max_stack_of(st.item_id),
                None => true,
            });
        }
    }
}

/// What `remove` does slot by slot: only stacks of the item change, a stack
/// taken down to nothing leaves its slot empty, and when nothing is asked
/// for or none is held, nothing changes.
pub proof fn law_remove_slots(s: Seq<Option<ItemStack>>, id: ItemId, count: int)
    requires
        count >= 0,
        stacks_nonempty(s),
    ensures
        ({
            let (p, _) = take_pass(s, id, count);
            &&& p.len() == s.len()
            &&& forall|i: int| 0 <= i < s.len() && (s[i] is None || (s[i] matches Some(st) && st.item_id != id)) ==> #[trigger] p[i] == s[i]
            &&& stacks_nonempty(p)
            &&& (count == 0 || total_of(s, id) == 0) ==> p == s
        }),
{
    lemma_take_pass_slots(s, id, count);
    let (p, _) = take_pass(s, id, count);
    assert forall|i: int| 0 <= i < s.len() && (s[i] is None || (s[i] matches Some(st) && st.item_id != id)) implies #[trigger] p[i] == s[i] by {
        assert(take_slot_ok(s[i], p[i], id));
    }
    assert forall|i: int| 0 <= i < p.len() implies match #[trigger] p[i] {
        Some(st) => st.count >= 1,
        None => true,
    } by {
        assert(take_slot_ok(s[i], p[i], id));
        assert(match s[i] {
            Some(st) => st.count >= 1,
            None => true,
        });
    }
}

// ---------------------------------------------------------------------------
// Inventory
// ---------------------------------------------------------------------------

impl View for Inventory {
    type V = Seq<Option<ItemStack>>;

    closed spec fn view(&self) -> Seq<Option<ItemStack>> {
        self.slots@
    }
}

impl Default for Inventory {
    fn default() -> (r: Self)
        ensures
            r@ == Seq::new(INVENTORY_SIZE as nat, |i: int| None::<ItemStack>),
    {
        let r = Inventory { slots: [None; INVENTORY_SIZE] };
        assert(r@ =~= Seq::new(INVENTORY_SIZE as nat, |i: int| None::<ItemStack>));
        r
    }
}

impl Inventory {
    /// An inventory holding exactly the given slots.
    pub fn from_slots(slots: [Option<ItemStack>; INVENTORY_SIZE]) -> (r: Self)
        ensures
            r@ == slots@,
    {
        Inventory { slots }
    }

    /// Try to add items. Returns the number of items that couldn't fit.
    pub fn add(&mut self, item_id: ItemId, count: u16) -> (r: u16)
        ensures
            (final(self)@, r as int) == add_result(old(self)@, item_id, count as int),
            r as int == max_int(0, count - room_for(old(self)@, item_id, max_stack_of(item_id) as int)),
            total_of(final(self)@, item_id) == total_of(old(self)@, item_id) + count - r,
            forall|other: ItemId| other != item_id ==> #[trigger] total_of(final(self)@, other) == total_of(old(self)@, other),
    {
        let max_stack: u16 = match item_by_id(item_id) {
            Some(d) => d.max_stack,
            None => 1,
        };
        let ghost max = max_stack as int;
        let ghost s0 = self@;
        let mut count = count;
        let ghost count0 = count as int;

        // First pass: stack onto existing slots of the same item.
        let mut i: usize = 0;
        while i < INVENTORY_SIZE
            invariant
                i <= INVENTORY_SIZE,
                max == max_stack_of(item_id) as int,
                max == max_stack,
                s0.len() == INVENTORY_SIZE,
                self@.len() == INVENTORY_SIZE,
                stack_pass(s0.take(i as int), item_id, max, count0) == (self@.take(i as int), count as int),
                self@.skip(i as int) == s0.skip(i as int),
            decreases INVENTORY_SIZE - i,
        {
            let ghost before = self@;
            let ghost c_before = count as int;
            if count > 0 {
                match self.slots[i] {
                    Some(stack) => {
                        if stack.item_id == item_id && stack.count < max_stack {
                            let space = max_stack - stack.count;
                            let add = if count < space {
                                count
                            } else {
                                space
                            };
                            self.slots[i] = Some(ItemStack { item_id: stack.item_id, count: stack.count + add });
                            count = count - add;
                        }
                    },
                    None => {},
                }
            }
            proof {
                assert(before[i as int] == s0[i as int]) by {
                    assert(before.skip(i as int)[0] == s0.skip(i as int)[0]);
                }
                assert(s0.take(i + 1).drop_last() =~= s0.take(i as int));
                assert(s0.take(i + 1).last() == s0[i as int]);
                let (x, c2) = stack_step(s0[i as int], item_id, max, c_before);
                assert(x == self@[i as int] && c2 == count as int);
                assert(self@.take(i + 1) =~= before.take(i as int).push(x));
                assert(self@.skip(i + 1) =~= s0.skip(i + 1)) by {
                    assert(before.skip(i as int).skip(1) =~= before.skip(i + 1));
                    assert(s0.skip(i as int).skip(1) =~= s0.skip(i + 1));
                }
            }
            i = i + 1;
        }
        let ghost s1 = self@;
        let ghost count1 = count as int;
        proof {
            assert(s0.take(INVENTORY_SIZE as int) =~= s0);
            assert(s1.take(INVENTORY_SIZE as int) =~= s1);
        }

        // Second pass: fill empty slots.
        let mut i: usize = 0;
        while i < INVENTORY_SIZE
            invariant
                i <= INVENTORY_SIZE,
                max == max_stack,
                s1.len() == INVENTORY_SIZE,
                self@.len() == INVENTORY_SIZE,
                fill_pass(s1.take(i as int), item_id, max, count1) == (self@.take(i as int), count as int),
                self@.skip(i as int) == s1.skip(i as int),
            decreases INVENTORY_SIZE - i,
        {
            let ghost before = self@;
            let ghost c_before = count as int;
            if count > 0 {
                if self.slots[i].is_none() {
                    let add = if count < max_stack {
                        count
                    } else {
                        max_stack
                    };
                    self.slots[i] = Some(ItemStack { item_id, count: add });
                    count = count - add;
                }
            }
            proof {
                assert(before[i as int] == s1[i as int]) by {
                    assert(before.skip(i as int)[0] == s1.skip(i as int)[0]);
                }
                assert(s1.take(i + 1).drop_last() =~= s1.take(i as int));
                assert(s1.take(i + 1).last() == s1[i as int]);
                let (x, c2) = fill_step(s1[i as int], item_id, max, c_before);
                assert(x == self@[i as int] && c2 == count as int);
                assert(self@.take(i + 1) =~= before.take(i as int).push(x));
                assert(self@.skip(i + 1) =~= s1.skip(i + 1)) by {
                    assert(before.skip(i as int).skip(1) =~= before.skip(i + 1));
                    assert(s1.skip(i as int).skip(1) =~= s1.skip(i + 1));
                }
            }
            i = i + 1;
        }
        proof {
            assert(s1.take(INVENTORY_SIZE as int) =~= s1);
            assert(self@.take(INVENTORY_SIZE as int) =~= self@);
            law_add_conserves(s0, item_id, count0);
        }
        count
    }

    /// Remove up to `count` of the given item. Returns actual amount removed.
    pub fn remove(&mut self, item_id: ItemId, count: u16) -> (r: u16)
        ensures
            (final(self)@, count - r) == take_pass(old(self)@, item_id, count as int),
            r as int == min_int(count as int, total_of(old(self)@, item_id)),
            total_of(final(self)@, item_id) == total_of(old(self)@, item_id) - r,
            forall|other: ItemId| other != item_id ==> #[trigger] total_of(final(self)@, other) == total_of(old(self)@, other),
    {
        let ghost s0 = self@;
        let ghost count0 = count as int;
        let mut count = count;
        let mut removed: u16 = 0;
        let mut i: usize = 0;
        while i < INVENTORY_SIZE
            invariant
                i <= INVENTORY_SIZE,
                s0.len() == INVENTORY_SIZE,
                self@.len() == INVENTORY_SIZE,
                count0 <= u16::MAX,
                removed + count == count0,
                take_pass(s0.take(i as int), item_id, count0) == (self@.take(i as int), count as int),
                self@.skip(i as int) == s0.skip(i as int),
            decreases INVENTORY_SIZE - i,
        {
            let ghost before = self@;
            let ghost c_before = count as int;
            if count > 0 {
                match self.slots[i] {
                    Some(stack) => {
                        if stack.item_id == item_id {
                            let take = if count < stack.count {
                                count
                            } else {
                                stack.count
                            };
                            let left = stack.count - take;
                            count = count - take;
                            removed = removed + take;
                            if left == 0 {
                                self.slots[i] = None;
                            } else {
                                self.slots[i] = Some(ItemStack { item_id: stack.item_id, count: left });
                            }
                        }
                    },
                    None => {},
                }
            }
            proof {
                assert(before[i as int] == s0[i as int]) by {
                    assert(before.skip(i as int)[0] == s0.skip(i as int)[0]);
                }
                assert(s0.take(i + 1).drop_last() =~= s0.take(i as int));
                assert(s0.take(i + 1).last() == s0[i as int]);
                let (x, c2) = take_step(s0[i as int], item_id, c_before);
                assert(x == self@[i as int] && c2 == count as int);
                assert(self@.take(i + 1) =~= before.take(i as int).push(x));
                assert(self@.skip(i + 1) =~= s0.skip(i + 1)) by {
                    assert(before.skip(i as int).skip(1) =~= before.skip(i + 1));
                    assert(s0.skip(i as int).skip(1) =~= s0.skip(i + 1));
                }
            }
            i = i + 1;
        }
        proof {
            assert(s0.take(INVENTORY_SIZE as int) =~= s0);
            assert(self@.take(INVENTORY_SIZE as int) =~= self@);
            law_remove_takes(s0, item_id, count0);
        }
        removed
    }

    /// Count total of a specific item across all slots.
    pub fn count(&self, item_id: ItemId) -> (r: u16)
        requires
            total_of(self@, item_id) <= u16::MAX,
        ensures
            r == total_of(self@, item_id),
    {
        let mut sum: u16 = 0;
        let mut i: usize = 0;
        while i < INVENTORY_SIZE
            invariant
                i <= INVENTORY_SIZE,
                self@.len() == INVENTORY_SIZE,
                total_of(self@, item_id) <= u16::MAX,
                sum == total_of(self@.take(i as int), item_id),
            decreases INVENTORY_SIZE - i,
        {
            proof {
                assert(self@.take(i + 1).drop_last() =~= self@.take(i as int));
                lemma_total_prefix_bound(self@, item_id, i + 1);
            }
            match self.slots[i] {
                Some(stack) => {
                    if stack.item_id == item_id {
                        sum = sum + stack.count;
                    }
                },
                None => {},
            }
            i = i + 1;
        }
        proof {
            assert(self@.take(INVENTORY_SIZE as int) =~= self@);
        }
        sum
    }

    pub fn slot(&self, index: usize) -> (r: Option<&ItemStack>)
        ensures
            index < INVENTORY_SIZE ==> (r is Some <==> self@[index as int] is Some),
            index < INVENTORY_SIZE && r is Some ==> *r.unwrap() == self@[index as int].unwrap(),
            index >= INVENTORY_SIZE ==> r is None,
    {
        if index < INVENTORY_SIZE {
            match &self.slots[index] {
                Some(s) => Some(s),
                None => None,
            }
        } else {
            None
        }
    }

    pub fn slot_mut(&mut self, index: usize) -> (r: Option<&mut Option<ItemStack>>)
        ensures
            index < INVENTORY_SIZE ==> r is Some && *r.unwrap() == old(self)@[index as int] && final(self)@ == old(self)@.update(index as int, *final(r.unwrap())),
            index >= INVENTORY_SIZE ==> r is None && final(self)@ == old(self)@,
    {
        if index < INVENTORY_SIZE {
            Some(&mut self.slots[index])
        } else {
            None
        }
    }

    /// Check if inventory has any empty slot.
    pub fn has_space(&self) -> (r: bool)
        ensures
            r == exists|i: int| 0 <= i < INVENTORY_SIZE && #[trigger] self@[i] is None,
    {
        let mut i: usize = 0;
        while i < INVENTORY_SIZE
            invariant
                i <= INVENTORY_SIZE,
                self@.len() == INVENTORY_SIZE,
                forall|j: int| 0 <= j < i ==> #[trigger] self@[j] is Some,
            decreases INVENTORY_SIZE - i,
        {
            if self.slots[i].is_none() {
                return true;
            }
            i = i + 1;
        }
        false
    }

    pub fn slots(&self) -> (r: &[Option<ItemStack>; INVENTORY_SIZE])
        ensures
            r@ == self@,
    {
        &self.slots
    }
}

/// A prefix never holds more of an item than the whole.
proof fn lemma_total_prefix_bound(s: Seq<Option<ItemStack>>, id: ItemId, k: int)
    requires
        0 <= k <= s.len(),
    ensures
        0 <= total_of(s.take(k), id) <= total_of(s, id),
    decreases s.len() - k,
{
    lemma_total_nonneg(s.take(k), id);
    if k < s.len() {
        lemma_total_prefix_bound(s, id, k + 1);
        assert(s.take(k + 1).drop_last() =~= s.take(k));
        assert(slot_amount(s.take(k + 1).last(), id) >= 0);
    } else {
        assert(s.take(k) =~= s);
    }
}

pub proof fn lemma_room_nonneg(s: Seq<Option<ItemStack>>, id: ItemId, max: int)
    requires
        max >= 0,
    ensures
        stack_room_total(s, id, max) >= 0,
        empty_room_total(s, max) >= 0,
    decreases s.len(),
{
    if s.len() > 0 {
        lemma_room_nonneg(s.drop_last(), id, max);
    }
}

proof fn lemma_total_nonneg(s: Seq<Option<ItemStack>>, id: ItemId)
    ensures
        total_of(s, id) >= 0,
    decreases s.len(),
{
    if s.len() > 0 {
        lemma_total_nonneg(s.drop_last(), id);
    }
}

} // verus!
