//! The concrete item, item-instance and slot types the rest of the system
//! operates on.
//!
//! An item description is immutable catalog data; an item instance is a
//! quantity of one item and is never mutated in place (every change builds a
//! new instance); a slot is the one mutable cell, holding at most one
//! instance and tracking a `modified` flag for the host to detect dirty
//! slots.

use crate::slot_management::swap;
use vstd::prelude::*;

verus! {

/// Immutable description of a kind of item: its unique identity, whether
/// instances of it may be stacked, and the largest quantity one stack may
/// hold (meaningful only for stackable items).
#[derive(Clone, Copy, PartialEq, Eq, Structural, Debug)]
pub struct DefaultItem {
    pub id: u64,
    pub stackable: bool,
    pub max_quantity: u16,
}

impl DefaultItem {
    /// Whether instances of this item may merge into stacks.
    pub fn stackable(&self) -> (r: bool)
        ensures
            r == self.stackable,
    {
        self.stackable
    }

    /// The largest quantity one stack of this item may hold.
    pub fn max_quant(&self) -> (r: u16)
        ensures
            r == self.max_quantity,
    {
        self.max_quantity
    }

    /// The unique identity of the item.
    pub fn id(&self) -> (r: u64)
        ensures
            r == self.id,
    {
        self.id
    }
}

/// A quantity of one item: the value actually stored in a slot.
#[derive(Clone, Copy, PartialEq, Eq, Structural, Debug)]
pub struct DefaultItemInstance {
    pub item: DefaultItem,
    pub quantity: u16,
}

impl DefaultItemInstance {
    /// Creates a stack of `quantity` units of `item`.
    pub fn new(item: DefaultItem, quantity: u16) -> (r: Self)
        ensures
            r == (DefaultItemInstance { item, quantity }),
    {
        DefaultItemInstance { item, quantity }
    }

    /// The quantity of items in this stack.
    pub fn quant(&self) -> (r: u16)
        ensures
            r == self.quantity,
    {
        self.quantity
    }

    /// The item this stack consists of.
    pub fn item(&self) -> (r: DefaultItem)
        ensures
            r == self.item,
    {
        self.item
    }
}

/// A storage cell holding at most one item instance.
///
/// Every write through [`DefaultSlot::set_item_instance`] raises the
/// `modified` flag, even when the stored value does not change, so a host
/// can flush dirty slots after a bulk operation.
#[derive(Clone, Copy, Debug)]
pub struct DefaultSlot {
    pub item_instance: Option<DefaultItemInstance>,
    pub modified: bool,
}

impl DefaultSlot {
    /// Creates a slot with the given initial content and a clear
    /// `modified` flag.
    pub fn new(item_instance: Option<DefaultItemInstance>) -> (r: Self)
        ensures
            r == (DefaultSlot { item_instance, modified: false }),
    {
        DefaultSlot { item_instance, modified: false }
    }

    /// The item instance stored by this slot.
    pub fn item_instance(&self) -> (r: Option<DefaultItemInstance>)
        ensures
            r == self.item_instance,
    {
        self.item_instance
    }

    /// Stores `item_instance` and marks the slot as modified, whatever was
    /// stored before.
    pub fn set_item_instance(&mut self, item_instance: &Option<DefaultItemInstance>)
        ensures
            *final(self) == (DefaultSlot { item_instance: *item_instance, modified: true }),
    {
        self.set_modified(true);
        self.item_instance = *item_instance;
    }

    /// Whether the slot's content has been written since the flag was last
    /// cleared.
    pub fn modified(&self) -> (r: bool)
        ensures
            r == self.modified,
    {
        self.modified
    }

    /// Sets the `modified` flag.
    pub fn set_modified(&mut self, modified: bool)
        ensures
            *final(self) == (DefaultSlot { modified, ..*old(self) }),
    {
        self.modified = modified;
    }

    /// Puts `item_instance` into the slot and hands back what the slot held
    /// before: the swap a UI binds to "put down what I hold, pick up what
    /// lies here".
    pub fn transfer(&mut self, item_instance: Option<DefaultItemInstance>) -> (r: Option<
        DefaultItemInstance,
    >)
        ensures
            *final(self) == (DefaultSlot { item_instance, modified: true }),
            r == old(self).item_instance,
    {
        let res = swap((self.item_instance(), item_instance));
        self.set_item_instance(&res.0);
        res.1
    }
}

} // verus!
