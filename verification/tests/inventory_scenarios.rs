use game_inventory::inventory_management::{
    add_to_inventory, can_add_item_to_inventory, empty_quant_in_inventory,
    inventory_contains_item, inventory_contains_item_type, quant_in_inventory,
    remove_from_inventory,
};
use game_inventory::sample_structs::{DefaultItem, DefaultItemInstance, DefaultSlot};
use game_inventory::slot_management::{
    combine_stack, half_stack_split, remove_from_stack, swap, swap_if_err, SlotErr,
};

const TORCH: DefaultItem = DefaultItem {
    id: 1,
    stackable: true,
    max_quantity: 100,
};

const JUNK: DefaultItem = DefaultItem {
    id: 2,
    stackable: true,
    max_quantity: 100,
};

const SWORD: DefaultItem = DefaultItem {
    id: 3,
    stackable: false,
    max_quantity: 0,
};

const BOULDER: DefaultItem = DefaultItem {
    id: 4,
    stackable: true,
    max_quantity: 65535,
};

fn torch(quantity: u16) -> DefaultItemInstance {
    DefaultItemInstance {
        item: TORCH,
        quantity,
    }
}

fn junk(quantity: u16) -> DefaultItemInstance {
    DefaultItemInstance {
        item: JUNK,
        quantity,
    }
}

fn sword() -> DefaultItemInstance {
    DefaultItemInstance {
        item: SWORD,
        quantity: 0,
    }
}

#[test]
fn add_tops_off_the_earliest_partial_stack() {
    let mut inventory = vec![
        DefaultSlot::new(Some(torch(100))),
        DefaultSlot::new(Some(sword())),
        DefaultSlot::new(Some(torch(23))),
        DefaultSlot::new(None),
    ];
    let res = add_to_inventory(&mut inventory, torch(23));
    assert!(res.is_none());
    assert_eq!(inventory[0].item_instance().unwrap().quant(), 100);
    assert_eq!(inventory[2].item_instance().unwrap().quant(), 46);
    assert!(inventory[3].item_instance().is_none());
}

#[test]
fn add_spills_into_the_earliest_empty_slot() {
    let mut inventory = vec![
        DefaultSlot::new(Some(torch(90))),
        DefaultSlot::new(None),
        DefaultSlot::new(None),
    ];
    let res = add_to_inventory(&mut inventory, torch(23));
    assert!(res.is_none());
    assert_eq!(inventory[0].item_instance().unwrap().quant(), 100);
    assert_eq!(inventory[1].item_instance().unwrap().quant(), 13);
    assert!(inventory[2].item_instance().is_none());
}

#[test]
fn add_returns_what_no_slot_absorbed() {
    let mut inventory = vec![
        DefaultSlot::new(Some(torch(90))),
        DefaultSlot::new(Some(junk(5))),
    ];
    let res = add_to_inventory(&mut inventory, torch(23)).unwrap();
    assert_eq!(res.item().id(), TORCH.id());
    assert_eq!(res.quant(), 13);
    assert_eq!(inventory[0].item_instance().unwrap().quant(), 100);
    assert_eq!(inventory[1].item_instance().unwrap().quant(), 5);
}

#[test]
fn add_to_no_slots_returns_the_stack_unchanged() {
    let mut inventory: Vec<DefaultSlot> = vec![];
    let res = add_to_inventory(&mut inventory, torch(23)).unwrap();
    assert_eq!(res.item().id(), TORCH.id());
    assert_eq!(res.quant(), 23);
    let res = add_to_inventory(&mut inventory, sword()).unwrap();
    assert_eq!(res.item().id(), SWORD.id());
}

#[test]
fn remove_clears_matching_stacks_front_to_back() {
    let mut inventory = vec![
        DefaultSlot::new(Some(torch(100))),
        DefaultSlot::new(Some(sword())),
        DefaultSlot::new(Some(torch(23))),
        DefaultSlot::new(None),
    ];
    assert!(remove_from_inventory(&mut inventory, torch(123)).is_none());
    assert!(inventory[0].item_instance().is_none());
    assert!(inventory[1].item_instance().is_some());
    assert!(inventory[2].item_instance().is_none());
    assert_eq!(quant_in_inventory(&inventory, TORCH.id()), 0);
}

#[test]
fn remove_returns_what_is_still_owed() {
    let mut inventory = vec![
        DefaultSlot::new(Some(torch(100))),
        DefaultSlot::new(Some(sword())),
        DefaultSlot::new(None),
        DefaultSlot::new(None),
    ];
    let res = remove_from_inventory(&mut inventory, torch(123)).unwrap();
    assert_eq!(res.item().id(), TORCH.id());
    assert_eq!(res.quant(), 23);
    assert!(inventory[0].item_instance().is_none());
    assert_eq!(quant_in_inventory(&inventory, TORCH.id()), 0);
}

#[test]
fn remove_decrements_a_larger_stack_and_stops() {
    let mut inventory = vec![
        DefaultSlot::new(Some(torch(100))),
        DefaultSlot::new(Some(sword())),
        DefaultSlot::new(Some(torch(23))),
        DefaultSlot::new(None),
    ];
    assert!(remove_from_inventory(&mut inventory, torch(100)).is_none());
    assert!(inventory[0].item_instance().is_none());
    assert_eq!(inventory[2].item_instance().unwrap().quant(), 23);
    assert_eq!(quant_in_inventory(&inventory, TORCH.id()), 23);
}

#[test]
fn remove_counts_an_unstackable_slot_as_one_unit() {
    let mut inventory = vec![
        DefaultSlot::new(Some(torch(100))),
        DefaultSlot::new(Some(sword())),
        DefaultSlot::new(Some(torch(23))),
        DefaultSlot::new(Some(DefaultItemInstance {
            item: SWORD,
            quantity: 123,
        })),
    ];
    assert!(remove_from_inventory(
        &mut inventory,
        DefaultItemInstance {
            item: SWORD,
            quantity: 2,
        },
    )
    .is_none());
    assert!(inventory[1].item_instance().is_none());
    assert!(inventory[3].item_instance().is_none());
    assert_eq!(quant_in_inventory(&inventory, SWORD.id()), 0);
}

#[test]
fn combine_fills_the_second_stack_and_keeps_the_excess() {
    let res = combine_stack((Some(torch(90)), Some(torch(23)))).ok().unwrap();
    assert_eq!(res.0.unwrap().item().id(), TORCH.id());
    assert_eq!(res.0.unwrap().quant(), 13);
    assert_eq!(res.1.unwrap().item().id(), TORCH.id());
    assert_eq!(res.1.unwrap().quant(), 100);
}

#[test]
fn combine_reports_why_it_did_not_apply() {
    let err = combine_stack((None, None)).err().unwrap();
    assert_eq!(err.0, SlotErr::BothMustBePresent);
    assert_eq!(err.1, (None, None));

    let err = combine_stack((Some(sword()), Some(sword()))).err().unwrap();
    assert_eq!(err.0, SlotErr::Unstackable);
    assert_eq!(err.1, (Some(sword()), Some(sword())));

    let err = combine_stack((Some(torch(10)), Some(junk(10)))).err().unwrap();
    assert_eq!(err.0, SlotErr::MismatchedItems);

    let err = combine_stack((Some(torch(100)), Some(torch(23)))).err().unwrap();
    assert_eq!(err.0, SlotErr::MaxStackReached);
}

#[test]
fn split_reports_why_it_did_not_apply() {
    let err = half_stack_split((None, Some(torch(5)))).err().unwrap();
    assert_eq!(err.0, SlotErr::FirstMustBePresent);

    let err = half_stack_split((Some(sword()), None)).err().unwrap();
    assert_eq!(err.0, SlotErr::Unstackable);

    let err = half_stack_split((Some(torch(5)), Some(junk(5)))).err().unwrap();
    assert_eq!(err.0, SlotErr::MismatchedItems);

    let err = half_stack_split((Some(torch(1)), None)).err().unwrap();
    assert_eq!(err.0, SlotErr::CannotSplitSingle);

    let err = remove_from_stack((Some(torch(5)), Some(torch(100)))).err().unwrap();
    assert_eq!(err.0, SlotErr::MaxStackReached);
}

#[test]
fn split_saturates_instead_of_overflowing() {
    let big = DefaultItemInstance {
        item: BOULDER,
        quantity: 65535,
    };
    let res = half_stack_split((Some(big), Some(big))).ok().unwrap();
    assert_eq!(res.0.unwrap().quant(), 32767);
    assert_eq!(res.1.unwrap().quant(), 65535);
}

#[test]
fn contains_matches_identity_and_exact_quantity() {
    let inventory = vec![
        DefaultSlot::new(Some(torch(100))),
        DefaultSlot::new(Some(sword())),
        DefaultSlot::new(None),
    ];
    assert!(inventory_contains_item(&inventory, torch(100)));
    assert!(inventory_contains_item(&inventory, sword()));
    assert!(!inventory_contains_item(&inventory, torch(23)));
}

#[test]
fn contains_type_ignores_quantity() {
    let inventory = vec![
        DefaultSlot::new(Some(torch(100))),
        DefaultSlot::new(Some(sword())),
        DefaultSlot::new(None),
    ];
    assert!(inventory_contains_item_type(&inventory, TORCH.id()));
    assert!(inventory_contains_item_type(&inventory, SWORD.id()));
    assert!(!inventory_contains_item_type(&inventory, JUNK.id()));
}

#[test]
fn quant_sums_stackable_stacks() {
    let inventory = vec![
        DefaultSlot::new(Some(torch(100))),
        DefaultSlot::new(Some(sword())),
        DefaultSlot::new(Some(torch(23))),
        DefaultSlot::new(None),
    ];
    assert_eq!(quant_in_inventory(&inventory, TORCH.id()), 123);
}

#[test]
fn quant_counts_each_unstackable_slot_once() {
    let inventory = vec![
        DefaultSlot::new(Some(torch(100))),
        DefaultSlot::new(Some(sword())),
        DefaultSlot::new(Some(DefaultItemInstance {
            item: SWORD,
            quantity: 123,
        })),
    ];
    assert_eq!(quant_in_inventory(&inventory, SWORD.id()), 2);
}

#[test]
fn quant_saturates_instead_of_overflowing() {
    let inventory = vec![
        DefaultSlot::new(Some(DefaultItemInstance {
            item: BOULDER,
            quantity: 65535,
        })),
        DefaultSlot::new(Some(DefaultItemInstance {
            item: BOULDER,
            quantity: 10,
        })),
    ];
    assert_eq!(quant_in_inventory(&inventory, BOULDER.id()), 65535);
}

#[test]
fn empty_quant_counts_empty_slots() {
    let inventory = vec![
        DefaultSlot::new(Some(torch(100))),
        DefaultSlot::new(Some(sword())),
        DefaultSlot::new(None),
        DefaultSlot::new(Some(torch(23))),
        DefaultSlot::new(None),
    ];
    assert_eq!(empty_quant_in_inventory(&inventory), 2);
}

#[test]
fn can_add_stackable_with_space() {
    let inventory = vec![
        DefaultSlot::new(None),
        DefaultSlot::new(Some(torch(23))),
        DefaultSlot::new(None),
    ];
    assert!(can_add_item_to_inventory(&inventory, torch(10)));
}

#[test]
fn can_add_unstackable_with_space() {
    let inventory = vec![DefaultSlot::new(Some(sword())), DefaultSlot::new(None)];
    assert!(can_add_item_to_inventory(&inventory, sword()));
}

#[test]
fn can_add_to_full_inventory_fails() {
    let inventory = vec![
        DefaultSlot::new(Some(torch(100))),
        DefaultSlot::new(Some(sword())),
    ];
    assert!(!can_add_item_to_inventory(&inventory, torch(1)));
}

#[test]
fn can_add_splits_across_partial_stacks() {
    let inventory = vec![
        DefaultSlot::new(Some(torch(50))),
        DefaultSlot::new(Some(junk(30))),
        DefaultSlot::new(Some(torch(60))),
    ];
    assert!(can_add_item_to_inventory(&inventory, torch(90)));
}

#[test]
fn can_add_beyond_remaining_room_fails() {
    let inventory = vec![DefaultSlot::new(Some(torch(70)))];
    assert!(!can_add_item_to_inventory(&inventory, torch(31)));
}

#[test]
fn can_add_agrees_with_add() {
    // An exact fit is predicted as addable, and the add absorbs it
    // fully.
    let inventory0 = vec![DefaultSlot::new(Some(torch(77)))];
    assert!(can_add_item_to_inventory(&inventory0, torch(23)));
    let mut inventory = inventory0.clone();
    assert!(add_to_inventory(&mut inventory, torch(23)).is_none());
    assert_eq!(inventory[0].item_instance().unwrap().quant(), 100);

    let mut inventory = vec![DefaultSlot::new(Some(torch(50)))];
    assert!(can_add_item_to_inventory(&inventory, torch(50)));
    assert!(add_to_inventory(&mut inventory, torch(50)).is_none());
    assert_eq!(inventory[0].item_instance().unwrap().quant(), 100);

    // Too little room is predicted as not addable; the add leaves units
    // behind.
    let inventory0 = vec![DefaultSlot::new(Some(torch(90)))];
    assert!(!can_add_item_to_inventory(&inventory0, torch(23)));
    let mut inventory = inventory0;
    let res = add_to_inventory(&mut inventory, torch(23)).unwrap();
    assert!(res.quant() > 0);
}

#[test]
fn zero_quantity_is_always_absorbed() {
    // Nothing to absorb is absorbed: predicted even with no slots at
    // all, or only occupied non-matching slots.
    let inventory: Vec<DefaultSlot> = vec![];
    assert!(can_add_item_to_inventory(&inventory, torch(0)));
    let inventory = vec![DefaultSlot::new(Some(junk(5)))];
    assert!(can_add_item_to_inventory(&inventory, torch(0)));

    // The add agrees: it returns None, touches no slot, and never puts
    // an empty stack anywhere.
    let mut inventory = vec![DefaultSlot::new(Some(junk(5))), DefaultSlot::new(None)];
    assert!(add_to_inventory(&mut inventory, torch(0)).is_none());
    assert_eq!(inventory[0].item_instance().unwrap().quant(), 5);
    assert!(!inventory[0].modified());
    assert!(inventory[1].item_instance().is_none());
}

#[test]
fn peeling_the_last_unit_empties_the_stack() {
    let res = remove_from_stack((Some(torch(1)), None)).ok().unwrap();
    assert!(res.0.is_none());
    assert_eq!(res.1.unwrap().quant(), 1);
    // Peeling from a zero-unit stack still produces one unit.
    let res = remove_from_stack((Some(torch(0)), None)).ok().unwrap();
    assert!(res.0.is_none());
    assert_eq!(res.1.unwrap().quant(), 1);
}

#[test]
fn swap_twice_is_identity() {
    let pair = (Some(torch(10)), Some(junk(20)));
    assert_eq!(swap(swap(pair)), pair);
    let pair = (None, Some(sword()));
    assert_eq!(swap(swap(pair)), pair);
}

#[test]
fn combine_conserves_mass() {
    let res = combine_stack((Some(torch(90)), Some(torch(23)))).ok().unwrap();
    assert_eq!(res.0.unwrap().quant() + res.1.unwrap().quant(), 113);
    let res = combine_stack((Some(torch(20)), Some(torch(20)))).ok().unwrap();
    assert!(res.0.is_none());
    assert_eq!(res.1.unwrap().quant(), 40);
}

#[test]
fn rejected_combine_swaps_the_pair() {
    let pair = (Some(torch(100)), Some(torch(23)));
    let res = swap_if_err(combine_stack(pair));
    assert_eq!(res, swap(pair));
    assert_eq!(res.0.unwrap().quant(), 23);
    assert_eq!(res.1.unwrap().quant(), 100);
}

#[test]
fn split_conserves_mass() {
    let res = half_stack_split((Some(torch(11)), Some(torch(3)))).ok().unwrap();
    assert_eq!(res.0.unwrap().quant() + (res.1.unwrap().quant() - 3), 11);
    let res = remove_from_stack((Some(torch(5)), Some(torch(3)))).ok().unwrap();
    assert_eq!(res.0.unwrap().quant() + (res.1.unwrap().quant() - 3), 5);
}

#[test]
fn rejected_add_leaves_everything_unchanged_twice() {
    let mut inventory = vec![
        DefaultSlot::new(Some(torch(100))),
        DefaultSlot::new(Some(sword())),
    ];
    let first = add_to_inventory(&mut inventory, junk(91)).unwrap();
    assert_eq!(first.item().id(), JUNK.id());
    assert_eq!(first.quant(), 91);
    let second = add_to_inventory(&mut inventory, first).unwrap();
    assert_eq!(second.item().id(), JUNK.id());
    assert_eq!(second.quant(), 91);
    assert_eq!(inventory[0].item_instance().unwrap().quant(), 100);
    assert!(inventory[1].item_instance().unwrap().item().id() == SWORD.id());
}

#[test]
fn add_conserves_each_identity() {
    let mut inventory = vec![
        DefaultSlot::new(Some(torch(90))),
        DefaultSlot::new(Some(junk(5))),
    ];
    let before = quant_in_inventory(&inventory, TORCH.id());
    let res = add_to_inventory(&mut inventory, torch(23)).unwrap();
    let after = quant_in_inventory(&inventory, TORCH.id());
    assert_eq!(after + res.quant(), before + 23);
    assert_eq!(quant_in_inventory(&inventory, JUNK.id()), 5);
}

#[test]
fn add_then_remove_restores_an_empty_inventory() {
    let mut inventory = vec![
        DefaultSlot::new(None),
        DefaultSlot::new(None),
        DefaultSlot::new(None),
    ];
    assert!(add_to_inventory(&mut inventory, torch(23)).is_none());
    assert_eq!(quant_in_inventory(&inventory, TORCH.id()), 23);
    assert!(remove_from_inventory(&mut inventory, torch(23)).is_none());
    for slot in &inventory {
        assert!(slot.item_instance().is_none());
    }

    let mut inventory = vec![DefaultSlot::new(None), DefaultSlot::new(None)];
    let one_sword = DefaultItemInstance {
        item: SWORD,
        quantity: 1,
    };
    assert!(add_to_inventory(&mut inventory, one_sword).is_none());
    assert!(remove_from_inventory(&mut inventory, one_sword).is_none());
    for slot in &inventory {
        assert!(slot.item_instance().is_none());
    }
}
