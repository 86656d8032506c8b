//! An engine-agnostic inventory and stacking library for games.
//!
//! The library works on three small data types: an immutable item
//! description ([`sample_structs::DefaultItem`]), a stack of such an item
//! ([`sample_structs::DefaultItemInstance`]) and a storage cell holding at
//! most one stack ([`sample_structs::DefaultSlot`]).
//!
//! On top of these it offers two layers of operations:
//!
//! - [`slot_management`]: pure transformations of a pair of optional item
//!   stacks (swap, combine, split in half, peel a single unit off), the
//!   building blocks a host game binds to user actions;
//! - [`inventory_management`]: bulk operations over an ordered sequence of
//!   slots (add, remove, containment and quantity queries) that compose the
//!   pairwise rules across many slots, always preferring slots with a lower
//!   index.
//!
//! Every operation is total: inapplicable requests are reported through the
//! return value (an error value carrying the untouched inputs, a leftover
//! stack, an unremoved remainder), never through a panic.

pub mod inventory_management;
pub mod sample_structs;
pub mod slot_management;
