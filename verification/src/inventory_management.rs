//! Bulk operations over an ordered sequence of slots: an inventory.
//!
//! Every operation scans the slots front to back and prefers the slot with
//! the lower index, both for topping off partial stacks and for claiming
//! empty slots. Shortfalls are reported through return values (a leftover
//! stack, an unremoved remainder, a boolean), never through a panic; an
//! inventory with no slots is a no-op for every operation.

use crate::sample_structs::DefaultItem;
use crate::sample_structs::DefaultItemInstance;
use crate::sample_structs::DefaultSlot;
use crate::slot_management::clamped;
use crate::slot_management::combine_stack;
use crate::slot_management::spec_combine_stack;
use vstd::prelude::*;

verus! {

/// Whether some slot holds a stack of the item with identity `id` and
/// exactly the quantity `quantity`.
pub open spec fn contains_instance(slots: Seq<DefaultSlot>, id: u64, quantity: u16) -> bool {
    exists|j: int|
        {
            &&& 0 <= j < slots.len()
            &&& (#[trigger] slots[j]).item_instance matches Some(i)
            &&& i.item.id == id
            &&& i.quantity == quantity
        }
}

/// Checks if an inventory contains a stack matching `other`'s item identity
/// and exact quantity.
pub fn inventory_contains_item(inventory: &Vec<DefaultSlot>, other: DefaultItemInstance) -> (r:
    bool)
    ensures
        r == contains_instance(inventory@, other.item.id, other.quantity),
{
    let mut i: usize = 0;
    while i < inventory.len()
        invariant
            i <= inventory.len(),
            !contains_instance(inventory@.take(i as int), other.item.id, other.quantity),
        decreases inventory.len() - i,
    {
        match inventory[i].item_instance() {
            Some(inst) => {
                if inst.item.id == other.item.id && inst.quantity == other.quantity {
                    proof {
                        assert(inventory@[i as int].item_instance matches Some(found)
                            && found.item.id == other.item.id && found.quantity == other.quantity);
                    }
                    return true;
                }
            },
            None => {},
        }
        proof {
            let pre = inventory@.take(i as int);
            let cur = inventory@.take(i + 1);
            assert forall|j: int|
                0 <= j < cur.len() implies !((#[trigger] cur[j]).item_instance matches Some(f)
                && f.item.id == other.item.id && f.quantity == other.quantity) by {
                if j < i {
                    assert(cur[j] == pre[j]);
                }
            }
        }
        i = i + 1;
    }
    proof {
        assert(inventory@.take(inventory@.len() as int) =~= inventory@);
    }
    false
}

/// Whether some slot holds a stack of the item with identity `id`,
/// whatever its quantity.
pub open spec fn contains_id(slots: Seq<DefaultSlot>, id: u64) -> bool {
    exists|j: int|
        {
            &&& 0 <= j < slots.len()
            &&& (#[trigger] slots[j]).item_instance matches Some(i)
            &&& i.item.id == id
        }
}

/// Checks if an inventory contains any stack of the item with identity
/// `id`, ignoring quantities.
pub fn inventory_contains_item_type(inventory: &Vec<DefaultSlot>, id: u64) -> (r: bool)
    ensures
        r == contains_id(inventory@, id),
{
    let mut i: usize = 0;
    while i < inventory.len()
        invariant
            i <= inventory.len(),
            !contains_id(inventory@.take(i as int), id),
        decreases inventory.len() - i,
    {
        match inventory[i].item_instance() {
            Some(inst) => {
                if inst.item.id == id {
                    proof {
                        assert(inventory@[i as int].item_instance matches Some(found)
                            && found.item.id == id);
                    }
                    return true;
                }
            },
            None => {},
        }
        proof {
            let pre = inventory@.take(i as int);
            let cur = inventory@.take(i + 1);
            assert forall|j: int|
                0 <= j < cur.len() implies !((#[trigger] cur[j]).item_instance matches Some(f)
                && f.item.id == id) by {
                if j < i {
                    assert(cur[j] == pre[j]);
                }
            }
        }
        i = i + 1;
    }
    proof {
        assert(inventory@.take(inventory@.len() as int) =~= inventory@);
    }
    false
}

/// What one slot contributes to the tally of identity `id`: a stackable
/// stack counts its quantity, an unstackable stack counts as a single
/// item, anything else counts nothing.
pub open spec fn slot_tally(slot: DefaultSlot, id: u64) -> int {
    match slot.item_instance {
        Some(i) => if i.item.id == id {
            if i.item.stackable {
                i.quantity as int
            } else {
                1
            }
        } else {
            0
        },
        None => 0,
    }
}

/// The tally of identity `id` over a whole slot sequence.
pub open spec fn inventory_tally(slots: Seq<DefaultSlot>, id: u64) -> int
    decreases slots.len(),
{
    if slots.len() == 0 {
        0
    } else {
        slot_tally(slots[0], id) + inventory_tally(slots.skip(1), id)
    }
}

proof fn lemma_inventory_tally_push(slots: Seq<DefaultSlot>, slot: DefaultSlot, id: u64)
    ensures
        inventory_tally(slots.push(slot), id) == inventory_tally(slots, id) + slot_tally(slot, id),
    decreases slots.len(),
{
    if slots.len() == 0 {
        assert(slots.push(slot).skip(1) =~= slots);
    } else {
        assert(slots.push(slot).skip(1) =~= slots.skip(1).push(slot));
        lemma_inventory_tally_push(slots.skip(1), slot, id);
    }
}

proof fn lemma_inventory_tally_nonneg(slots: Seq<DefaultSlot>, id: u64)
    ensures
        inventory_tally(slots, id) >= 0,
    decreases slots.len(),
{
    if slots.len() > 0 {
        lemma_inventory_tally_nonneg(slots.skip(1), id);
    }
}

/// Gets the total quantity of the item with identity `id` held anywhere in
/// the inventory: stackable stacks contribute their quantity, and every
/// unstackable stack counts as exactly one item whatever its stored
/// quantity. A tally beyond what a `u16` holds saturates.
pub fn quant_in_inventory(inventory: &Vec<DefaultSlot>, id: u64) -> (r: u16)
    ensures
        r == clamped(inventory_tally(inventory@, id)),
{
    let mut quant: u16 = 0;
    let mut i: usize = 0;
    while i < inventory.len()
        invariant
            i <= inventory.len(),
            quant == clamped(inventory_tally(inventory@.take(i as int), id)),
        decreases inventory.len() - i,
    {
        proof {
            lemma_inventory_tally_push(inventory@.take(i as int), inventory@[i as int], id);
            lemma_inventory_tally_nonneg(inventory@.take(i as int), id);
            assert(inventory@.take(i + 1) =~= inventory@.take(i as int).push(
                inventory@[i as int],
            ));
        }
        match inventory[i].item_instance() {
            Some(inst) => {
                if inst.item.id == id {
                    let step: u32 = if inst.item.stackable {
                        inst.quantity as u32
                    } else {
                        1u32
                    };
                    let total: u32 = quant as u32 + step;
                    quant = if total > u16::MAX as u32 {
                        u16::MAX
                    } else {
                        total as u16
                    };
                }
            },
            None => {},
        }
        i = i + 1;
    }
    proof {
        assert(inventory@.take(inventory@.len() as int) =~= inventory@);
    }
    quant
}

/// The number of slots with no content.
pub open spec fn count_empty(slots: Seq<DefaultSlot>) -> int
    decreases slots.len(),
{
    if slots.len() == 0 {
        0
    } else {
        (if slots[0].item_instance is None {
            1int
        } else {
            0int
        }) + count_empty(slots.skip(1))
    }
}

/// Gets the quantity of empty slots in an inventory.
pub fn empty_quant_in_inventory(inventory: &Vec<DefaultSlot>) -> (r: usize)
    ensures
        r == count_empty(inventory@),
{
    let mut count: usize = 0;
    let mut i: usize = 0;
    while i < inventory.len()
        invariant
            i <= inventory.len(),
            count == count_empty(inventory@.take(i as int)),
            count <= i,
        decreases inventory.len() - i,
    {
        proof {
            lemma_count_empty_push(inventory@.take(i as int), inventory@[i as int]);
            assert(inventory@.take(i + 1) =~= inventory@.take(i as int).push(
                inventory@[i as int],
            ));
        }
        if inventory[i].item_instance().is_none() {
            count = count + 1;
        }
        i = i + 1;
    }
    proof {
        assert(inventory@.take(inventory@.len() as int) =~= inventory@);
    }
    count
}

proof fn lemma_count_empty_push(slots: Seq<DefaultSlot>, slot: DefaultSlot)
    ensures
        count_empty(slots.push(slot)) == count_empty(slots) + (if slot.item_instance is None {
            1int
        } else {
            0int
        }),
    decreases slots.len(),
{
    if slots.len() == 0 {
        assert(slots.push(slot).skip(1) =~= slots);
    } else {
        assert(slots.push(slot).skip(1) =~= slots.skip(1).push(slot));
        lemma_count_empty_push(slots.skip(1), slot);
    }
}

/// Whether some slot has no content.
pub open spec fn has_empty_slot(slots: Seq<DefaultSlot>) -> bool {
    exists|j: int| 0 <= j < slots.len() && (#[trigger] slots[j]).item_instance is None
}

/// The slot that placing a whole stack into an empty slot produces.
pub open spec fn filled_slot(other: DefaultItemInstance) -> DefaultSlot {
    DefaultSlot { item_instance: Some(other), modified: true }
}

/// Whether `out` is `slots` with `other` placed into its first empty slot.
pub open spec fn placed_in_first_empty(
    slots: Seq<DefaultSlot>,
    other: DefaultItemInstance,
    out: Seq<DefaultSlot>,
) -> bool {
    exists|k: int|
        {
            &&& 0 <= k < slots.len()
            &&& (#[trigger] slots[k]).item_instance is None
            &&& (forall|j: int| 0 <= j < k ==> (#[trigger] slots[j]).item_instance is Some)
            &&& out == slots.update(k, filled_slot(other))
        }
}

/// Whether a stack takes the merging path of [`add_to_inventory`]: its
/// item stacks and it holds less than the largest stack quantity.
pub open spec fn stacks_below_max(other: DefaultItemInstance) -> bool {
    other.item.stackable && other.quantity < other.item.max_quantity
}

/// A carried stack of no units is nothing left to place: it collapses to
/// `None`, so a merge that comes out exactly even reports full absorption
/// and no slot is ever occupied by an empty stack.
pub open spec fn normalized(acc: Option<DefaultItemInstance>) -> Option<DefaultItemInstance> {
    match acc {
        Some(c) => if c.quantity == 0 {
            None
        } else {
            Some(c)
        },
        None => None,
    }
}

/// How one slot treats an incoming stack while [`add_to_inventory`] merges
/// across the inventory: the new slot and what is carried on to the next
/// slot. Nothing left — no stack, or a stack of no units — carries nothing
/// on; an empty slot takes everything; a slot with a different item, with
/// no room, or whose stack cannot take the merge is skipped unchanged;
/// otherwise the stacks merge and the excess, if any unit of it remains,
/// carries on.
pub open spec fn spec_try_add(slot: DefaultSlot, acc: Option<DefaultItemInstance>) -> (
    DefaultSlot,
    Option<DefaultItemInstance>,
) {
    match normalized(acc) {
        None => (slot, None),
        Some(c) => match slot.item_instance {
            None => (filled_slot(c), None),
            Some(s) => {
                if s.item.id != c.item.id {
                    (slot, Some(c))
                } else if s.quantity >= s.item.max_quantity {
                    (slot, Some(c))
                } else {
                    match spec_combine_stack((slot.item_instance, Some(c))) {
                        Ok(res) => (
                            DefaultSlot { item_instance: res.1, modified: true },
                            normalized(res.0),
                        ),
                        Err(_) => (slot, Some(c)),
                    }
                }
            },
        },
    }
}

/// [`spec_try_add`] folded over the whole inventory, front to back: the
/// rewritten slots and the final leftover, `None` whenever no unit
/// remains unplaced.
pub open spec fn spec_add_fold(slots: Seq<DefaultSlot>, acc: Option<DefaultItemInstance>) -> (
    Seq<DefaultSlot>,
    Option<DefaultItemInstance>,
)
    decreases slots.len(),
{
    if slots.len() == 0 {
        (slots, normalized(acc))
    } else {
        let (slot2, acc2) = spec_try_add(slots[0], acc);
        let (rest, fin) = spec_add_fold(slots.skip(1), acc2);
        (seq![slot2] + rest, fin)
    }
}

proof fn lemma_add_fold_snoc(
    slots: Seq<DefaultSlot>,
    slot: DefaultSlot,
    acc: Option<DefaultItemInstance>,
)
    ensures
        spec_add_fold(slots.push(slot), acc) == {
            let (pre, mid) = spec_add_fold(slots, acc);
            let (slot2, fin) = spec_try_add(slot, mid);
            (pre.push(slot2), fin)
        },
    decreases slots.len(),
{
    let whole = slots.push(slot);
    let (pre, mid) = spec_add_fold(slots, acc);
    let (slot2, fin) = spec_try_add(slot, mid);
    if slots.len() == 0 {
        assert(whole.skip(1) =~= slots);
        assert(spec_add_fold(whole.skip(1), fin) == (whole.skip(1), fin));
        assert(spec_add_fold(whole, acc) == (seq![slot2] + slots, fin));
        assert(seq![slot2] + slots =~= pre.push(slot2));
    } else {
        let (head2, acc2) = spec_try_add(slots[0], acc);
        let (rest, rfin) = spec_add_fold(slots.skip(1), acc2);
        assert(spec_add_fold(slots, acc) == (seq![head2] + rest, rfin));
        assert(whole[0] == slots[0]);
        assert(whole.skip(1) =~= slots.skip(1).push(slot));
        lemma_add_fold_snoc(slots.skip(1), slot, acc2);
        assert(spec_add_fold(whole.skip(1), acc2) == (rest.push(slot2), fin));
        assert(spec_add_fold(whole, acc) == (seq![head2] + rest.push(slot2), fin));
        assert(seq![head2] + rest.push(slot2) =~= (seq![head2] + rest).push(slot2));
    }
}

/// One merging step of [`add_to_inventory`]: tries to pour `other` into
/// `slot`, stores whatever the slot absorbs, and returns what is left to
/// carry to the next slot.
fn add_to_inventory_try_add_to_slot(
    other: Option<DefaultItemInstance>,
    slot: &mut DefaultSlot,
) -> (r: Option<DefaultItemInstance>)
    ensures
        (*final(slot), r) == spec_try_add(*old(slot), other),
{
    let c = match &other {
        None => {
            return None;
        },
        Some(c) => c,
    };
    if c.quantity == 0 {
        return None;
    }
    let s = match slot.item_instance() {
        None => {
            slot.set_item_instance(&other);
            return None;
        },
        Some(s) => s,
    };
    if s.item.id != c.item.id {
        return other;
    }
    if s.quantity >= s.item.max_quantity {
        return other;
    }
    match combine_stack((slot.item_instance(), other)) {
        Ok(res) => {
            slot.set_item_instance(&res.1);
            match res.0 {
                Some(left) => if left.quantity == 0 {
                    None
                } else {
                    Some(left)
                },
                None => None,
            }
        },
        Err(e) => e.1.1,
    }
}

/// Attempts to add a stack to the inventory, returning what could not be
/// placed (`None` when everything was absorbed).
///
/// An unstackable stack, or one already at or over its item's largest
/// stack quantity, goes whole into the first empty slot, and comes back
/// unchanged when no slot is empty: such a stack is never split up. Any
/// other stack is merged front to back: each same-item slot with room
/// takes as much as fits, an empty slot takes all that is left, and
/// whatever no slot absorbed comes back as the leftover. When no unit
/// remains unplaced — also when none came in — the result is `None`: an
/// empty stack is never handed back and never put into a slot.
pub fn add_to_inventory(inventory: &mut Vec<DefaultSlot>, other: DefaultItemInstance) -> (r: Option<
    DefaultItemInstance,
>)
    ensures
        stacks_below_max(other) ==> (final(inventory)@, r) == spec_add_fold(
            old(inventory)@,
            Some(other),
        ),
        !stacks_below_max(other) && has_empty_slot(old(inventory)@) ==> placed_in_first_empty(
            old(inventory)@,
            other,
            final(inventory)@,
        ) && r is None,
        !stacks_below_max(other) && !has_empty_slot(old(inventory)@) ==> final(inventory)@ == old(
            inventory,
        )@ && r == Some(other),
{
    if !other.item.stackable() || other.quantity >= other.item.max_quantity {
        let mut i: usize = 0;
        while i < inventory.len()
            invariant
                i <= inventory.len(),
                !stacks_below_max(other),
                inventory@ == old(inventory)@,
                forall|j: int| 0 <= j < i ==> (#[trigger] inventory@[j]).item_instance is Some,
            decreases inventory.len() - i,
        {
            if inventory[i].item_instance().is_none() {
                let mut slot = inventory[i];
                slot.set_item_instance(&Some(other));
                inventory.set(i, slot);
                proof {
                    assert(old(inventory)@[i as int].item_instance is None);
                    assert(inventory@ == old(inventory)@.update(i as int, filled_slot(other)));
                }
                return None;
            }
            i = i + 1;
        }
        return Some(other);
    }
    let mut acc: Option<DefaultItemInstance> = if other.quantity == 0 {
        None
    } else {
        Some(other)
    };
    let mut i: usize = 0;
    while i < inventory.len()
        invariant
            i <= inventory.len(),
            inventory@.len() == old(inventory)@.len(),
            forall|j: int|
                i <= j < inventory@.len() ==> #[trigger] inventory@[j] == old(inventory)@[j],
            spec_add_fold(old(inventory)@.take(i as int), Some(other)) == (
                inventory@.take(i as int),
                acc,
            ),
        decreases inventory.len() - i,
    {
        let ghost pre_slots = inventory@;
        let mut slot = inventory[i];
        acc = add_to_inventory_try_add_to_slot(acc, &mut slot);
        inventory.set(i, slot);
        proof {
            lemma_add_fold_snoc(old(inventory)@.take(i as int), old(inventory)@[i as int], Some(
                other,
            ));
            assert(old(inventory)@.take(i + 1) =~= old(inventory)@.take(i as int).push(
                old(inventory)@[i as int],
            ));
            assert(inventory@.take(i + 1) =~= pre_slots.take(i as int).push(slot));
        }
        i = i + 1;
    }
    proof {
        assert(old(inventory)@.take(old(inventory)@.len() as int) =~= old(inventory)@);
        assert(inventory@.take(inventory@.len() as int) =~= inventory@);
    }
    acc
}

/// A slot emptied by a removal, with its `modified` flag raised.
pub open spec fn cleared_slot() -> DefaultSlot {
    DefaultSlot { item_instance: None, modified: true }
}

/// How one slot answers a removal request while `current` units are still
/// owed: the new slot and how many units are owed after it. A slot that is
/// empty, holds a different item, or is reached once nothing is owed stays
/// untouched. A matching unstackable stack counts as one removed unit and
/// the slot empties; a matching stackable stack empties when it holds no
/// more than what is owed, and is decremented by the owed amount
/// otherwise.
pub open spec fn spec_try_remove(slot: DefaultSlot, current: u16, other: DefaultItemInstance) -> (
    DefaultSlot,
    u16,
) {
    match slot.item_instance {
        None => (slot, current),
        Some(s) => {
            if current == 0 {
                (slot, 0u16)
            } else if s.item.id != other.item.id {
                (slot, current)
            } else if !s.item.stackable {
                (cleared_slot(), (current - 1) as u16)
            } else if s.quantity <= current {
                (cleared_slot(), (current - s.quantity) as u16)
            } else {
                (
                    DefaultSlot {
                        item_instance: Some(
                            DefaultItemInstance {
                                item: s.item,
                                quantity: (s.quantity - current) as u16,
                            },
                        ),
                        modified: true,
                    },
                    0u16,
                )
            }
        },
    }
}

/// [`spec_try_remove`] folded over the whole inventory, front to back: the
/// rewritten slots and the units still owed at the end.
pub open spec fn spec_remove_fold(
    slots: Seq<DefaultSlot>,
    current: u16,
    other: DefaultItemInstance,
) -> (Seq<DefaultSlot>, u16)
    decreases slots.len(),
{
    if slots.len() == 0 {
        (slots, current)
    } else {
        let (slot2, current2) = spec_try_remove(slots[0], current, other);
        let (rest, fin) = spec_remove_fold(slots.skip(1), current2, other);
        (seq![slot2] + rest, fin)
    }
}

proof fn lemma_remove_fold_snoc(
    slots: Seq<DefaultSlot>,
    slot: DefaultSlot,
    current: u16,
    other: DefaultItemInstance,
)
    ensures
        spec_remove_fold(slots.push(slot), current, other) == {
            let (pre, mid) = spec_remove_fold(slots, current, other);
            let (slot2, fin) = spec_try_remove(slot, mid, other);
            (pre.push(slot2), fin)
        },
    decreases slots.len(),
{
    let whole = slots.push(slot);
    let (pre, mid) = spec_remove_fold(slots, current, other);
    let (slot2, fin) = spec_try_remove(slot, mid, other);
    if slots.len() == 0 {
        assert(whole.skip(1) =~= slots);
        assert(spec_remove_fold(whole.skip(1), fin, other) == (whole.skip(1), fin));
        assert(spec_remove_fold(whole, current, other) == (seq![slot2] + slots, fin));
        assert(seq![slot2] + slots =~= pre.push(slot2));
    } else {
        let (head2, current2) = spec_try_remove(slots[0], current, other);
        let (rest, rfin) = spec_remove_fold(slots.skip(1), current2, other);
        assert(spec_remove_fold(slots, current, other) == (seq![head2] + rest, rfin));
        assert(whole[0] == slots[0]);
        assert(whole.skip(1) =~= slots.skip(1).push(slot));
        lemma_remove_fold_snoc(slots.skip(1), slot, current2, other);
        assert(spec_remove_fold(whole.skip(1), current2, other) == (rest.push(slot2), fin));
        assert(spec_remove_fold(whole, current, other) == (seq![head2] + rest.push(slot2), fin));
        assert(seq![head2] + rest.push(slot2) =~= (seq![head2] + rest).push(slot2));
    }
}

/// One step of [`remove_from_inventory`]: takes what `slot` can give
/// toward the `current` units still owed and returns what remains owed.
fn remove_from_inventory_try_remove(
    current: u16,
    slot: &mut DefaultSlot,
    other: &DefaultItemInstance,
) -> (r: u16)
    ensures
        (*final(slot), r) == spec_try_remove(*old(slot), current, *other),
{
    let s = match slot.item_instance() {
        None => {
            return current;
        },
        Some(s) => s,
    };
    if current == 0 {
        return 0;
    }
    if s.item.id != other.item.id {
        return current;
    }
    if !s.item.stackable {
        slot.set_item_instance(&None);
        return current - 1;
    }
    if s.quantity <= current {
        slot.set_item_instance(&None);
        return current - s.quantity;
    }
    slot.set_item_instance(&Some(DefaultItemInstance::new(s.item, s.quantity - current)));
    0
}

/// Attempts to remove `other.quantity` units of `other`'s item from the
/// inventory, scanning front to back, and returns what could not be
/// removed: `None` when the full quantity was found, otherwise a stack of
/// the same item holding the quantity still owed.
///
/// A matching unstackable slot counts as exactly one removed unit whatever
/// its stored quantity. Slots holding other items, and slots reached after
/// the request is satisfied, are untouched.
pub fn remove_from_inventory(inventory: &mut Vec<DefaultSlot>, other: DefaultItemInstance) -> (r:
    Option<DefaultItemInstance>)
    ensures
        final(inventory)@ == spec_remove_fold(old(inventory)@, other.quantity, other).0,
        ({
            let remaining = spec_remove_fold(old(inventory)@, other.quantity, other).1;
            if remaining == 0 {
                r is None
            } else {
                r == Some(DefaultItemInstance { item: other.item, quantity: remaining })
            }
        }),
{
    let mut remaining: u16 = other.quantity;
    let mut i: usize = 0;
    while i < inventory.len()
        invariant
            i <= inventory.len(),
            inventory@.len() == old(inventory)@.len(),
            forall|j: int|
                i <= j < inventory@.len() ==> #[trigger] inventory@[j] == old(inventory)@[j],
            spec_remove_fold(old(inventory)@.take(i as int), other.quantity, other) == (
                inventory@.take(i as int),
                remaining,
            ),
        decreases inventory.len() - i,
    {
        let ghost pre_slots = inventory@;
        let mut slot = inventory[i];
        remaining = remove_from_inventory_try_remove(remaining, &mut slot, &other);
        inventory.set(i, slot);
        proof {
            lemma_remove_fold_snoc(
                old(inventory)@.take(i as int),
                old(inventory)@[i as int],
                other.quantity,
                other,
            );
            assert(old(inventory)@.take(i + 1) =~= old(inventory)@.take(i as int).push(
                old(inventory)@[i as int],
            ));
            assert(inventory@.take(i + 1) =~= pre_slots.take(i as int).push(slot));
        }
        i = i + 1;
    }
    proof {
        assert(old(inventory)@.take(old(inventory)@.len() as int) =~= old(inventory)@);
        assert(inventory@.take(inventory@.len() as int) =~= inventory@);
    }
    if remaining == 0 {
        return None;
    }
    Some(DefaultItemInstance::new(other.item, remaining))
}

/// Whether a walk of the slots absorbs a whole stackable stack: a stack
/// of no units is absorbed outright; an empty slot anywhere absorbs all
/// that is left; a same-item slot with room absorbs up to that room, and
/// the walk goes on with what remains; when no slot absorbed the rest,
/// the answer is no.
pub open spec fn spec_can_add_stackable(slots: Seq<DefaultSlot>, other: DefaultItemInstance) -> bool
    decreases slots.len(),
{
    if other.quantity == 0 {
        true
    } else if slots.len() == 0 {
        false
    } else {
        match slots[0].item_instance {
            None => true,
            Some(s) => {
                if s.item.id == other.item.id && s.quantity < other.item.max_quantity {
                    if s.quantity + other.quantity <= other.item.max_quantity {
                        true
                    } else {
                        spec_can_add_stackable(
                            slots.skip(1),
                            DefaultItemInstance {
                                item: other.item,
                                quantity: (other.quantity - (other.item.max_quantity
                                    - s.quantity)) as u16,
                            },
                        )
                    }
                } else {
                    spec_can_add_stackable(slots.skip(1), other)
                }
            },
        }
    }
}

/// Whether [`add_to_inventory`] would fully absorb `other`: an
/// unstackable or full stack needs an empty slot; any other stack is
/// absorbed when the walk of [`spec_can_add_stackable`] succeeds.
pub open spec fn spec_can_add(slots: Seq<DefaultSlot>, other: DefaultItemInstance) -> bool {
    if !other.item.stackable {
        has_empty_slot(slots)
    } else if other.quantity == other.item.max_quantity {
        has_empty_slot(slots)
    } else {
        spec_can_add_stackable(slots, other)
    }
}

/// Whether any slot is empty: all an unstackable item needs.
fn can_add_unstackable_item_to_inventory(inventory: &Vec<DefaultSlot>) -> (r: bool)
    ensures
        r == has_empty_slot(inventory@),
{
    let mut i: usize = 0;
    while i < inventory.len()
        invariant
            i <= inventory.len(),
            forall|j: int| 0 <= j < i ==> (#[trigger] inventory@[j]).item_instance is Some,
        decreases inventory.len() - i,
    {
        if inventory[i].item_instance().is_none() {
            proof {
                assert(inventory@[i as int].item_instance is None);
            }
            return true;
        }
        i = i + 1;
    }
    false
}

/// Walks the slots tracking how much of `other` existing stacks could
/// still absorb, without mutating anything.
fn can_add_stackable_item_to_inventory(
    inventory: &Vec<DefaultSlot>,
    other: DefaultItemInstance,
) -> (r: bool)
    ensures
        r == (if other.quantity == other.item.max_quantity {
            has_empty_slot(inventory@)
        } else {
            spec_can_add_stackable(inventory@, other)
        }),
{
    let max_stack = other.item.max_quant();
    if other.quantity == max_stack {
        return can_add_unstackable_item_to_inventory(inventory);
    }
    if other.quantity == 0 {
        return true;
    }
    let mut cur = other;
    let mut i: usize = 0;
    proof {
        assert(inventory@.skip(0) =~= inventory@);
    }
    while i < inventory.len()
        invariant
            i <= inventory.len(),
            other.quantity != other.item.max_quantity,
            max_stack == other.item.max_quantity,
            cur.item == other.item,
            cur.quantity >= 1,
            spec_can_add_stackable(inventory@, other) == spec_can_add_stackable(
                inventory@.skip(i as int),
                cur,
            ),
        decreases inventory.len() - i,
    {
        proof {
            assert(inventory@.skip(i as int)[0] == inventory@[i as int]);
            assert(inventory@.skip(i as int).skip(1) =~= inventory@.skip(i + 1));
        }
        match inventory[i].item_instance() {
            None => {
                return true;
            },
            Some(s) => {
                if s.item.id == cur.item.id && s.quantity < max_stack {
                    if s.quantity as u32 + cur.quantity as u32 <= max_stack as u32 {
                        return true;
                    }
                    let space_available: u16 = max_stack - s.quantity;
                    cur = DefaultItemInstance::new(cur.item, cur.quantity - space_available);
                }
            },
        }
        i = i + 1;
    }
    proof {
        assert(inventory@.skip(inventory@.len() as int) =~= Seq::<DefaultSlot>::empty());
    }
    false
}

/// Checks whether [`add_to_inventory`] would fully absorb `other`,
/// without mutating anything: an unstackable or full stack is absorbed
/// exactly when some slot is empty; any other stack is absorbed when an
/// empty slot turns up or same-item slots with room account for its whole
/// quantity.
pub fn can_add_item_to_inventory(inventory: &Vec<DefaultSlot>, other: DefaultItemInstance) -> (r:
    bool)
    ensures
        r == spec_can_add(inventory@, other),
{
    if !other.item.stackable() {
        return can_add_unstackable_item_to_inventory(inventory);
    }
    can_add_stackable_item_to_inventory(inventory, other)
}

/// What a carried stack contributes to the raw quantity of identity `id`.
pub open spec fn carried_tally(acc: Option<DefaultItemInstance>, id: u64) -> int {
    match acc {
        Some(c) => if c.item.id == id {
            c.quantity as int
        } else {
            0
        },
        None => 0,
    }
}

/// The raw sum of stored quantities of identity `id` over a slot
/// sequence, with no special case for unstackable items.
pub open spec fn quantity_tally(slots: Seq<DefaultSlot>, id: u64) -> int
    decreases slots.len(),
{
    if slots.len() == 0 {
        0
    } else {
        carried_tally(slots[0].item_instance, id) + quantity_tally(slots.skip(1), id)
    }
}

/// The merging path of [`add_to_inventory`] conserves quantity: for every
/// item identity, the quantity stored in the rewritten slots plus the
/// leftover equals the quantity stored before plus the incoming stack.
/// Nothing is created and nothing is lost, so an add can never grow an
/// identity's total beyond what the incoming stack supplies.
pub proof fn lemma_add_fold_conserves_quantity(
    slots: Seq<DefaultSlot>,
    acc: Option<DefaultItemInstance>,
    id: u64,
)
    ensures
        quantity_tally(spec_add_fold(slots, acc).0, id) + carried_tally(
            spec_add_fold(slots, acc).1,
            id,
        ) == quantity_tally(slots, id) + carried_tally(acc, id),
    decreases slots.len(),
{
    if slots.len() > 0 {
        let (slot2, acc2) = spec_try_add(slots[0], acc);
        let (rest, fin) = spec_add_fold(slots.skip(1), acc2);
        lemma_add_fold_conserves_quantity(slots.skip(1), acc2, id);
        assert((seq![slot2] + rest).skip(1) =~= rest);
        assert(carried_tally(slot2.item_instance, id) + carried_tally(acc2, id) == carried_tally(
            slots[0].item_instance,
            id,
        ) + carried_tally(acc, id));
    }
}

/// The quantity a carried stack stands for: an empty hand counts below
/// every stack, so a merging step can only lower it.
spec fn carried_measure(acc: Option<DefaultItemInstance>) -> int {
    match acc {
        Some(c) => c.quantity as int,
        None => -1,
    }
}

proof fn lemma_add_fold_monotone(slots: Seq<DefaultSlot>, acc: Option<DefaultItemInstance>)
    ensures
        carried_measure(spec_add_fold(slots, acc).1) <= carried_measure(acc),
        carried_measure(spec_add_fold(slots, acc).1) == carried_measure(acc) ==> spec_add_fold(
            slots,
            acc,
        ) == (slots, acc),
    decreases slots.len(),
{
    if slots.len() > 0 {
        let (slot2, acc2) = spec_try_add(slots[0], acc);
        lemma_add_fold_monotone(slots.skip(1), acc2);
        assert(carried_measure(acc2) <= carried_measure(acc));
        if carried_measure(spec_add_fold(slots, acc).1) == carried_measure(acc) {
            assert(slot2 == slots[0] && acc2 == acc);
            assert(seq![slots[0]] + slots.skip(1) =~= slots);
        }
    }
}

/// A fully rejected add changes nothing: when the merging path hands the
/// carried stack back as it came in, no slot was rewritten, so repeating
/// the add returns the same stack from the same inventory.
pub proof fn lemma_add_fold_rejection(slots: Seq<DefaultSlot>, acc: Option<DefaultItemInstance>)
    requires
        spec_add_fold(slots, acc).1 == acc,
    ensures
        spec_add_fold(slots, acc).0 == slots,
{
    lemma_add_fold_monotone(slots, acc);
}

proof fn lemma_add_fold_nothing_left(slots: Seq<DefaultSlot>, acc: Option<DefaultItemInstance>)
    requires
        normalized(acc) is None,
    ensures
        spec_add_fold(slots, acc) == (slots, None::<DefaultItemInstance>),
    decreases slots.len(),
{
    if slots.len() > 0 {
        lemma_add_fold_nothing_left(slots.skip(1), None);
        assert(seq![slots[0]] + slots.skip(1) =~= slots);
    }
}

proof fn lemma_remove_fold_nothing_owed(slots: Seq<DefaultSlot>, other: DefaultItemInstance)
    ensures
        spec_remove_fold(slots, 0, other) == (slots, 0u16),
    decreases slots.len(),
{
    if slots.len() > 0 {
        lemma_remove_fold_nothing_owed(slots.skip(1), other);
        assert(spec_try_remove(slots[0], 0, other) == (slots[0], 0u16));
        assert(seq![slots[0]] + slots.skip(1) =~= slots);
    }
}

/// Whether every stack of `item`'s identity stored in the slots carries
/// exactly the description `item`: the invariant a catalog with unique
/// identities gives every inventory.
pub open spec fn coherent_with(slots: Seq<DefaultSlot>, item: DefaultItem) -> bool {
    forall|j: int|
        0 <= j < slots.len() ==> ((#[trigger] slots[j]).item_instance matches Some(s) ==> (s.item.id
            == item.id ==> s.item == item))
}

proof fn lemma_coherent_skip(slots: Seq<DefaultSlot>, item: DefaultItem)
    requires
        coherent_with(slots, item),
        slots.len() > 0,
    ensures
        coherent_with(slots.skip(1), item),
{
    assert forall|j: int|
        0 <= j < slots.skip(1).len() implies ((#[trigger] slots.skip(1)[j]).item_instance matches Some(
        s,
    ) ==> (s.item.id == item.id ==> s.item == item)) by {
        assert(slots.skip(1)[j] == slots[j + 1]);
    }
}

proof fn lemma_can_add_walk_vs_fold(slots: Seq<DefaultSlot>, c: DefaultItemInstance)
    requires
        coherent_with(slots, c.item),
        c.item.stackable,
        c.quantity < c.item.max_quantity,
    ensures
        spec_can_add_stackable(slots, c) == (spec_add_fold(slots, Some(c)).1 is None),
    decreases slots.len(),
{
    if c.quantity == 0 {
        lemma_add_fold_nothing_left(slots, Some(c));
    } else if slots.len() > 0 {
        match slots[0].item_instance {
            None => {
                lemma_add_fold_nothing_left(slots.skip(1), None);
            },
            Some(s) => {
                lemma_coherent_skip(slots, c.item);
                if s.item.id == c.item.id {
                    assert(s.item == c.item);
                    if s.quantity < c.item.max_quantity {
                        let total = s.quantity + c.quantity;
                        if total <= c.item.max_quantity {
                            lemma_add_fold_nothing_left(
                                slots.skip(1),
                                spec_try_add(slots[0], Some(c)).1,
                            );
                        } else {
                            let carried = DefaultItemInstance {
                                item: c.item,
                                quantity: (total - c.item.max_quantity) as u16,
                            };
                            lemma_can_add_walk_vs_fold(slots.skip(1), carried);
                        }
                    } else {
                        lemma_can_add_walk_vs_fold(slots.skip(1), c);
                    }
                } else {
                    lemma_can_add_walk_vs_fold(slots.skip(1), c);
                }
            },
        }
    }
}

/// [`can_add_item_to_inventory`] predicts [`add_to_inventory`]. Over
/// slots coherent with the candidate's item (no other description shares
/// its identity), the answer is true exactly when adding would absorb the
/// whole candidate: the merging path leaves no leftover, and an
/// unstackable or full stack finds an empty slot. A candidate over its
/// largest stack quantity is left out: the add places it whole, while the
/// walk still merges it piecemeal.
pub proof fn lemma_can_add_predicts_add(slots: Seq<DefaultSlot>, other: DefaultItemInstance)
    requires
        coherent_with(slots, other.item),
        other.item.stackable ==> other.quantity <= other.item.max_quantity,
    ensures
        stacks_below_max(other) ==> spec_can_add(slots, other) == (spec_add_fold(
            slots,
            Some(other),
        ).1 is None),
        !stacks_below_max(other) ==> spec_can_add(slots, other) == has_empty_slot(slots),
{
    if stacks_below_max(other) {
        lemma_can_add_walk_vs_fold(slots, other);
    }
}

/// Whether a slot's stack, when it is of `item`'s identity, holds at most
/// `item`'s largest stack quantity.
pub open spec fn slot_within_max(slot: DefaultSlot, item: DefaultItem) -> bool {
    slot.item_instance matches Some(s) ==> (s.item.id == item.id ==> s.quantity
        <= item.max_quantity)
}

/// Whether every stack of `item`'s identity in the slots holds at most
/// the item's largest stack quantity.
pub open spec fn within_max(slots: Seq<DefaultSlot>, item: DefaultItem) -> bool {
    forall|j: int| 0 <= j < slots.len() ==> slot_within_max(#[trigger] slots[j], item)
}

proof fn lemma_within_max_skip(slots: Seq<DefaultSlot>, item: DefaultItem)
    requires
        within_max(slots, item),
        slots.len() > 0,
    ensures
        within_max(slots.skip(1), item),
{
    assert forall|j: int| 0 <= j < slots.skip(1).len() implies slot_within_max(
        #[trigger] slots.skip(1)[j],
        item,
    ) by {
        assert(slots.skip(1)[j] == slots[j + 1]);
    }
}

proof fn lemma_within_max_cons(head: DefaultSlot, rest: Seq<DefaultSlot>, item: DefaultItem)
    requires
        slot_within_max(head, item),
        within_max(rest, item),
    ensures
        within_max(seq![head] + rest, item),
{
    assert forall|j: int| 0 <= j < (seq![head] + rest).len() implies slot_within_max(
        #[trigger] (seq![head] + rest)[j],
        item,
    ) by {
        if j > 0 {
            assert((seq![head] + rest)[j] == rest[j - 1]);
        }
    }
}

proof fn lemma_add_fold_within_max(
    slots: Seq<DefaultSlot>,
    acc: Option<DefaultItemInstance>,
    item: DefaultItem,
)
    requires
        coherent_with(slots, item),
        within_max(slots, item),
        acc matches Some(c) ==> c.item == item && c.quantity < item.max_quantity,
    ensures
        within_max(spec_add_fold(slots, acc).0, item),
    decreases slots.len(),
{
    if slots.len() > 0 {
        let (slot2, acc2) = spec_try_add(slots[0], acc);
        lemma_coherent_skip(slots, item);
        lemma_within_max_skip(slots, item);
        assert(slot_within_max(slots[0], item));
        lemma_add_fold_within_max(slots.skip(1), acc2, item);
        lemma_within_max_cons(slot2, spec_add_fold(slots.skip(1), acc2).0, item);
    }
}

/// The merging path of [`add_to_inventory`] never fills any stack of the
/// incoming item's identity beyond its largest stack quantity, and the
/// placing path inserts the stack whole, so with conservation
/// ([`lemma_add_fold_conserves_quantity`]) an add never grows an
/// identity's total beyond what fits. `slots1` stands for the inventory
/// after the add, as [`add_to_inventory`]'s contract describes it for
/// any of its paths. The slots must be coherent with the item and start
/// within its largest quantity: a slot already over it is skipped
/// unchanged and stays over it.
pub proof fn lemma_add_respects_max(
    slots: Seq<DefaultSlot>,
    other: DefaultItemInstance,
    slots1: Seq<DefaultSlot>,
)
    requires
        coherent_with(slots, other.item),
        within_max(slots, other.item),
        other.quantity <= other.item.max_quantity,
        stacks_below_max(other) ==> slots1 == spec_add_fold(slots, Some(other)).0,
        !stacks_below_max(other) ==> placed_in_first_empty(slots, other, slots1) || slots1
            == slots,
    ensures
        within_max(slots1, other.item),
{
    if stacks_below_max(other) {
        lemma_add_fold_within_max(slots, Some(other), other.item);
    } else if slots1 != slots {
        let k = choose|k: int|
            {
                &&& 0 <= k < slots.len()
                &&& (#[trigger] slots[k]).item_instance is None
                &&& (forall|j: int| 0 <= j < k ==> (#[trigger] slots[j]).item_instance is Some)
                &&& slots1 == slots.update(k, filled_slot(other))
            };
        assert forall|j: int| 0 <= j < slots1.len() implies slot_within_max(
            #[trigger] slots1[j],
            other.item,
        ) by {
            if j != k {
                assert(slots1[j] == slots[j]);
            }
        }
    }
}

/// For a stackable item over a coherent inventory the saturating query's
/// tally and the raw conservation tally agree: every matching stack is
/// counted by its quantity, so [`lemma_add_fold_conserves_quantity`]
/// speaks of exactly what [`quant_in_inventory`] reports, up to that
/// query's `u16` saturation.
pub proof fn lemma_stackable_tally_matches(slots: Seq<DefaultSlot>, item: DefaultItem)
    requires
        coherent_with(slots, item),
        item.stackable,
    ensures
        inventory_tally(slots, item.id) == quantity_tally(slots, item.id),
    decreases slots.len(),
{
    if slots.len() > 0 {
        lemma_coherent_skip(slots, item);
        lemma_stackable_tally_matches(slots.skip(1), item);
    }
}

/// Adding a stack to an otherwise empty inventory and then removing the
/// same stack returns the inventory to empty and owes nothing. `slots1`
/// stands for the inventory after the add, as [`add_to_inventory`]'s
/// contract describes it for either path. An unstackable stack is
/// covered for a quantity of one: a matching unstackable slot counts as
/// a single removed unit, so a larger stored quantity would leave units
/// owed. A stack that the add places whole must hold at least one unit:
/// a placed zero-unit stack would occupy a slot that a removal of no
/// units never touches.
pub proof fn lemma_add_remove_round_trip(
    slots: Seq<DefaultSlot>,
    other: DefaultItemInstance,
    slots1: Seq<DefaultSlot>,
)
    requires
        slots.len() >= 1,
        forall|j: int| 0 <= j < slots.len() ==> (#[trigger] slots[j]).item_instance is None,
        !other.item.stackable ==> other.quantity == 1,
        !stacks_below_max(other) ==> other.quantity >= 1,
        stacks_below_max(other) ==> slots1 == spec_add_fold(slots, Some(other)).0,
        !stacks_below_max(other) ==> placed_in_first_empty(slots, other, slots1),
    ensures
        stacks_below_max(other) ==> spec_add_fold(slots, Some(other)).1 is None,
        spec_remove_fold(slots1, other.quantity, other).1 == 0,
        forall|j: int|
            0 <= j < spec_remove_fold(slots1, other.quantity, other).0.len() ==> (#[trigger] spec_remove_fold(
                slots1,
                other.quantity,
                other,
            ).0[j]).item_instance is None,
{
    if stacks_below_max(other) && other.quantity == 0 {
        lemma_add_fold_nothing_left(slots, Some(other));
        lemma_remove_fold_nothing_owed(slots1, other);
    } else {
        let placed = slots.update(0, filled_slot(other));
        if stacks_below_max(other) {
            assert(slots[0].item_instance is None);
            assert(spec_try_add(slots[0], Some(other)) == (filled_slot(other), None::<
                DefaultItemInstance,
            >));
            lemma_add_fold_nothing_left(slots.skip(1), None);
            assert(spec_add_fold(slots, Some(other)) == (
                seq![filled_slot(other)] + slots.skip(1),
                None::<DefaultItemInstance>,
            ));
            assert(seq![filled_slot(other)] + slots.skip(1) =~= placed);
        } else {
            let k = choose|k: int|
                {
                    &&& 0 <= k < slots.len()
                    &&& (#[trigger] slots[k]).item_instance is None
                    &&& (forall|j: int| 0 <= j < k ==> (#[trigger] slots[j]).item_instance is Some)
                    &&& slots1 == slots.update(k, filled_slot(other))
                };
            assert(k == 0) by {
                if k > 0 {
                    assert(slots[0].item_instance is Some);
                    assert(slots[0].item_instance is None);
                }
            }
            assert(slots1 == placed);
        }
        assert(spec_try_remove(placed[0], other.quantity, other) == (cleared_slot(), 0u16));
        lemma_remove_fold_nothing_owed(placed.skip(1), other);
        assert(spec_remove_fold(placed, other.quantity, other) == (
            seq![cleared_slot()] + placed.skip(1),
            0u16,
        ));
        let emptied = seq![cleared_slot()] + placed.skip(1);
        assert forall|j: int| 0 <= j < emptied.len() implies (#[trigger] emptied[j]).item_instance
            is None by {
            if j > 0 {
                assert(emptied[j] == slots[j]);
            }
        }
    }
}

} // verus!
