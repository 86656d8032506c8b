//! Pure transformations of a pair of optional item stacks.
//!
//! Each operation tries to move or merge quantity from the first element of
//! the pair into the second. When an operation does not apply it returns an
//! error carrying the reason and the untouched pair; [`swap_if_err`] turns
//! such a result into the swapped pair, the conventional fallback.

use crate::sample_structs::DefaultItemInstance;
use vstd::prelude::*;

verus! {

/// Two optional item stacks: the input and output of every pairwise
/// operation.
pub type Items = (Option<DefaultItemInstance>, Option<DefaultItemInstance>);

/// The reason a pairwise operation did not apply.
#[derive(Clone, Copy, PartialEq, Eq, Structural, Debug)]
pub enum SlotErr {
    /// The operation needs both stacks present.
    BothMustBePresent,
    /// The operation needs the first stack present.
    FirstMustBePresent,
    /// The stack to draw from is not stackable.
    Unstackable,
    /// The two stacks hold different items.
    MismatchedItems,
    /// A stack already holds its largest allowed quantity.
    MaxStackReached,
    /// A single unit cannot be halved.
    CannotSplitSingle,
}

/// [`Items`] wrapped in `Result`: an inapplicable operation hands back the
/// reason together with the unchanged pair, so the caller chooses its own
/// fallback (commonly [`swap_if_err`]).
pub type ItemsRes = Result<Items, (SlotErr, Items)>;

/// The pair with its elements exchanged.
pub open spec fn spec_swap(items: Items) -> Items {
    (items.1, items.0)
}

/// Returns the inverse of the two inputs, specifically `(items.1, items.0)`.
pub fn swap(items: Items) -> (r: Items)
    ensures
        r == spec_swap(items),
{
    (items.1, items.0)
}

/// Exchanging a pair twice gives the pair back: the swap fallback loses
/// nothing.
pub proof fn lemma_swap_involution(items: Items)
    ensures
        spec_swap(spec_swap(items)) == items,
{
}

/// If the result is `Err`, the carried pair is swapped; an `Ok` pair is
/// handed through unchanged.
pub fn swap_if_err(items: ItemsRes) -> (r: Items)
    ensures
        items matches Ok(inner) ==> r == inner,
        items matches Err(inner) ==> r == spec_swap(inner.1),
{
    match items {
        Ok(inner) => inner,
        Err(inner) => swap(inner.1),
    }
}

/// Does nothing to the items, just extracts the pair carried by either
/// variant.
pub fn unwrap_items_res(items: ItemsRes) -> (r: Items)
    ensures
        items matches Ok(inner) ==> r == inner,
        items matches Err(inner) ==> r == inner.1,
{
    match items {
        Ok(inner) => inner,
        Err(inner) => inner.1,
    }
}

/// Whether [`combine_stack`] applies: both stacks present, the first
/// stackable, identities equal, and neither already at or over the largest
/// stack quantity of the first stack's item.
pub open spec fn combinable(items: Items) -> bool {
    &&& items.0 is Some
    &&& items.1 is Some
    &&& items.0->Some_0.item.stackable
    &&& items.0->Some_0.item.id == items.1->Some_0.item.id
    &&& items.0->Some_0.quantity < items.0->Some_0.item.max_quantity
    &&& items.1->Some_0.quantity < items.0->Some_0.item.max_quantity
}

/// The reason [`combine_stack`] reports when it does not apply, in the
/// order the conditions are checked.
pub open spec fn combine_failure(items: Items) -> SlotErr
    recommends
        !combinable(items),
{
    if !(items.0 is Some && items.1 is Some) {
        SlotErr::BothMustBePresent
    } else if !items.0->Some_0.item.stackable {
        SlotErr::Unstackable
    } else if items.0->Some_0.item.id != items.1->Some_0.item.id {
        SlotErr::MismatchedItems
    } else {
        SlotErr::MaxStackReached
    }
}

/// The pair a successful [`combine_stack`] produces: the combined quantity
/// merged into the second stack, capped at the item's largest stack
/// quantity, with any excess left behind in the first.
pub open spec fn spec_combined(c: DefaultItemInstance, o: DefaultItemInstance) -> Items {
    let total = c.quantity + o.quantity;
    let cap = c.item.max_quantity as int;
    if total < cap {
        (None, Some(DefaultItemInstance { item: c.item, quantity: total as u16 }))
    } else {
        (
            Some(DefaultItemInstance { item: c.item, quantity: (total - cap) as u16 }),
            Some(DefaultItemInstance { item: c.item, quantity: c.item.max_quantity }),
        )
    }
}

/// The exact outcome of [`combine_stack`] on any pair.
pub open spec fn spec_combine_stack(items: Items) -> ItemsRes {
    if combinable(items) {
        Ok(spec_combined(items.0->Some_0, items.1->Some_0))
    } else {
        Err((combine_failure(items), items))
    }
}

/// Combines two stacks of the same item. Tries to pour `items.0` into
/// `items.1`: when everything fits below the largest stack quantity the
/// first stack empties into the second; otherwise the second is filled to
/// that quantity and the excess stays in the first. When the operation does
/// not apply (a stack missing, an unstackable item, different items, a
/// stack already at or over its largest quantity) the pair comes back
/// unchanged inside `Err`.
pub fn combine_stack(items: Items) -> (r: ItemsRes)
    ensures
        r == spec_combine_stack(items),
{
    let (c, o) = match (&items.0, &items.1) {
        (Some(c), Some(o)) => (c, o),
        _ => {
            return Err((SlotErr::BothMustBePresent, items));
        },
    };
    if !c.item.stackable {
        return Err((SlotErr::Unstackable, items));
    }
    if c.item.id != o.item.id {
        return Err((SlotErr::MismatchedItems, items));
    }
    let stack_size = c.item.max_quantity;
    if c.quantity >= stack_size || o.quantity >= stack_size {
        return Err((SlotErr::MaxStackReached, items));
    }
    let combined: u32 = c.quantity as u32 + o.quantity as u32;
    if combined < stack_size as u32 {
        return Ok((None, Some(DefaultItemInstance::new(c.item, combined as u16))));
    }
    let left_over: u16 = (combined - stack_size as u32) as u16;
    Ok(
        (
            Some(DefaultItemInstance::new(c.item, left_over)),
            Some(DefaultItemInstance::new(c.item, stack_size)),
        ),
    )
}

/// A combine that applies conserves quantity: the output quantities sum to
/// the input quantities, and neither output exceeds the item's largest
/// stack quantity.
pub proof fn lemma_combine_conserves_mass(items: Items)
    requires
        combinable(items),
    ensures
        spec_combine_stack(items) matches Ok(out) && {
            let c = items.0->Some_0;
            let o = items.1->Some_0;
            let q0 = if out.0 is Some {
                out.0->Some_0.quantity as int
            } else {
                0
            };
            &&& q0 + out.1->Some_0.quantity == c.quantity + o.quantity
            &&& q0 <= c.item.max_quantity
            &&& out.1->Some_0.quantity <= c.item.max_quantity
        },
{
}

/// A combine that does not apply is exactly a swap once the fallback of
/// [`swap_if_err`] is taken: the two values trade positions, unchanged.
pub proof fn lemma_combine_rejection_is_swap(items: Items)
    requires
        !combinable(items),
    ensures
        spec_combine_stack(items) matches Err(inner) && spec_swap(inner.1) == spec_swap(items),
        spec_combine_stack(items) matches Err(inner) && inner.1 == items,
{
}

/// A quantity clamped to what one `u16` stack field can hold.
pub open spec fn clamped(q: int) -> u16 {
    if q > u16::MAX {
        u16::MAX
    } else {
        q as u16
    }
}

/// Whether [`half_stack_split`] applies: the first stack present, stackable
/// and holding at least two units, and the second, when present, holding
/// the same item.
pub open spec fn splittable(items: Items) -> bool {
    &&& items.0 is Some
    &&& items.0->Some_0.item.stackable
    &&& (items.1 is Some ==> items.0->Some_0.item.id == items.1->Some_0.item.id)
    &&& items.0->Some_0.quantity >= 2
}

/// The reason [`half_stack_split`] reports when it does not apply, in the
/// order the conditions are checked.
pub open spec fn split_failure(items: Items) -> SlotErr
    recommends
        !splittable(items),
{
    if items.0 is None {
        SlotErr::FirstMustBePresent
    } else if !items.0->Some_0.item.stackable {
        SlotErr::Unstackable
    } else if items.1 is Some && items.0->Some_0.item.id != items.1->Some_0.item.id {
        SlotErr::MismatchedItems
    } else {
        SlotErr::CannotSplitSingle
    }
}

/// The pair a successful [`half_stack_split`] produces: half the first
/// stack (rounded down) stays in front, and the other half together with
/// the odd unit joins whatever the second stack already held, clamped to
/// what a `u16` can hold.
pub open spec fn spec_halved(items: Items) -> Items {
    let c = items.0->Some_0;
    let other_quant: int = if items.1 is Some {
        items.1->Some_0.quantity as int
    } else {
        0
    };
    let half = c.quantity as int / 2;
    (
        Some(DefaultItemInstance { item: c.item, quantity: half as u16 }),
        Some(
            DefaultItemInstance {
                item: c.item,
                quantity: clamped(other_quant + half + (c.quantity as int % 2)),
            },
        ),
    )
}

/// The exact outcome of [`half_stack_split`] on any pair.
pub open spec fn spec_half_stack_split(items: Items) -> ItemsRes {
    if splittable(items) {
        Ok(spec_halved(items))
    } else {
        Err((split_failure(items), items))
    }
}

/// Splits a stack of items into two. Halves `items.0` (rounding down) and
/// pours the other half, plus the odd unit of an odd quantity, into
/// `items.1`; a resulting quantity beyond what a `u16` holds saturates
/// rather than failing. When the operation does not apply (first stack
/// missing or unstackable, different items, fewer than two units to halve)
/// the pair comes back unchanged inside `Err`.
pub fn half_stack_split(items: Items) -> (r: ItemsRes)
    ensures
        r == spec_half_stack_split(items),
{
    let c = match &items.0 {
        Some(c) => c,
        None => {
            return Err((SlotErr::FirstMustBePresent, items));
        },
    };
    if !c.item.stackable {
        return Err((SlotErr::Unstackable, items));
    }
    let id_mismatch = match &items.1 {
        Some(o) => c.item.id != o.item.id,
        None => false,
    };
    if id_mismatch {
        return Err((SlotErr::MismatchedItems, items));
    }
    if c.quantity < 2 {
        return Err((SlotErr::CannotSplitSingle, items));
    }
    let other_quant: u16 = match &items.1 {
        Some(o) => o.quantity,
        None => 0,
    };
    let half_stack: u16 = c.quantity / 2;
    let rest: u32 = other_quant as u32 + half_stack as u32 + (c.quantity % 2) as u32;
    let rest_clamped: u16 = if rest > u16::MAX as u32 {
        u16::MAX
    } else {
        rest as u16
    };
    Ok(
        (
            Some(DefaultItemInstance::new(c.item, half_stack)),
            Some(DefaultItemInstance::new(c.item, rest_clamped)),
        ),
    )
}

/// A half split that applies conserves quantity: ignoring what the second
/// stack already held, the two outputs sum to the first stack's original
/// quantity. The second output must not saturate, so the pre-existing
/// quantity plus its share is required to fit in a `u16`.
pub proof fn lemma_half_split_conserves_mass(items: Items)
    requires
        splittable(items),
        (if items.1 is Some {
            items.1->Some_0.quantity as int
        } else {
            0
        }) + items.0->Some_0.quantity <= u16::MAX,
    ensures
        spec_half_stack_split(items) matches Ok(out) && {
            let other_quant: int = if items.1 is Some {
                items.1->Some_0.quantity as int
            } else {
                0
            };
            out.0->Some_0.quantity + (out.1->Some_0.quantity - other_quant)
                == items.0->Some_0.quantity
        },
{
}

/// Whether [`remove_from_stack`] applies: the first stack present and
/// stackable, and the second, when present, holding the same item with
/// room for one more unit.
pub open spec fn removable(items: Items) -> bool {
    &&& items.0 is Some
    &&& items.0->Some_0.item.stackable
    &&& (items.1 matches Some(o) ==> {
        &&& items.0->Some_0.item.id == o.item.id
        &&& o.quantity < o.item.max_quantity
    })
}

/// The reason [`remove_from_stack`] reports when it does not apply, in the
/// order the conditions are checked.
pub open spec fn remove_failure(items: Items) -> SlotErr
    recommends
        !removable(items),
{
    if items.0 is None {
        SlotErr::FirstMustBePresent
    } else if !items.0->Some_0.item.stackable {
        SlotErr::Unstackable
    } else if items.0->Some_0.item.id != items.1->Some_0.item.id {
        SlotErr::MismatchedItems
    } else {
        SlotErr::MaxStackReached
    }
}

/// The pair a successful [`remove_from_stack`] produces: one unit moves
/// from the first stack into the second (or into a fresh single-unit stack
/// when the second is empty); a first stack with fewer than two units
/// empties out.
pub open spec fn spec_removed_one(items: Items) -> Items {
    let c = items.0->Some_0;
    let target = match items.1 {
        Some(o) => DefaultItemInstance { item: o.item, quantity: (o.quantity + 1) as u16 },
        None => DefaultItemInstance { item: c.item, quantity: 1u16 },
    };
    if c.quantity < 2 {
        (None, Some(target))
    } else {
        (Some(DefaultItemInstance { item: c.item, quantity: (c.quantity - 1) as u16 }), Some(target))
    }
}

/// The exact outcome of [`remove_from_stack`] on any pair.
pub open spec fn spec_remove_from_stack(items: Items) -> ItemsRes {
    if removable(items) {
        Ok(spec_removed_one(items))
    } else {
        Err((remove_failure(items), items))
    }
}

/// Removes a single item from a stack: peels one unit off `items.0` and
/// puts it into `items.1`, or into a fresh one-unit stack when `items.1` is
/// empty; the first stack empties out once it holds fewer than two units.
/// When the operation does not apply (first stack missing or unstackable,
/// different items, second stack already at its largest quantity) the pair
/// comes back unchanged inside `Err`.
pub fn remove_from_stack(items: Items) -> (r: ItemsRes)
    ensures
        r == spec_remove_from_stack(items),
{
    let c = match &items.0 {
        Some(c) => c,
        None => {
            return Err((SlotErr::FirstMustBePresent, items));
        },
    };
    if !c.item.stackable {
        return Err((SlotErr::Unstackable, items));
    }
    let o = match &items.1 {
        Some(o) => o,
        None => {
            if c.quantity < 2 {
                return Ok((None, Some(DefaultItemInstance::new(c.item, 1))));
            }
            return Ok(
                (
                    Some(DefaultItemInstance::new(c.item, c.quantity - 1)),
                    Some(DefaultItemInstance::new(c.item, 1)),
                ),
            );
        },
    };
    if o.item.id != c.item.id {
        return Err((SlotErr::MismatchedItems, items));
    }
    if o.quantity >= o.item.max_quantity {
        return Err((SlotErr::MaxStackReached, items));
    }
    if c.quantity < 2 {
        return Ok((None, Some(DefaultItemInstance::new(o.item, o.quantity + 1))));
    }
    Ok(
        (
            Some(DefaultItemInstance::new(c.item, c.quantity - 1)),
            Some(DefaultItemInstance::new(o.item, o.quantity + 1)),
        ),
    )
}

/// A single-unit split that applies conserves quantity: ignoring what the
/// second stack already held, the outputs sum to the first stack's original
/// quantity. A first stack of no units is left out: peeling from it still
/// produces one unit.
pub proof fn lemma_remove_one_conserves_mass(items: Items)
    requires
        removable(items),
        items.0->Some_0.quantity >= 1,
    ensures
        spec_remove_from_stack(items) matches Ok(out) && {
            let other_quant: int = if items.1 is Some {
                items.1->Some_0.quantity as int
            } else {
                0
            };
            let q0 = if out.0 is Some {
                out.0->Some_0.quantity as int
            } else {
                0
            };
            q0 + (out.1->Some_0.quantity - other_quant) == items.0->Some_0.quantity
        },
{
}

} // verus!
