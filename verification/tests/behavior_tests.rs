use kitties::combine_dna;
use kitties::new_test_ext;
use kitties::run_to_block;
use kitties::Balances;
use kitties::Error;
use kitties::Event;
use kitties::Module;

#[test]
fn monotonic_ids_for_sequential_operations() {
    let mut t = new_test_ext();
    run_to_block(&mut t, 10);
    assert_eq!(t.create(1), Ok(0));
    assert_eq!(t.create(2), Ok(1));
    assert_eq!(t.create(1), Ok(2));
    assert_eq!(t.breed(1, 0, 1), Ok(3));
    assert_eq!(t.kitties.kitties_count(), 4);
}

#[test]
fn combine_dna_is_a_bit_multiplexer() {
    assert_eq!(combine_dna(0xFF, 0x00, 0xF0), 0xF0);
    assert_eq!(combine_dna(0xAA, 0x55, 0xCC), 0x99);
    assert_eq!(combine_dna(0x12, 0x34, 0x00), 0x34);
    assert_eq!(combine_dna(0x12, 0x34, 0xFF), 0x12);
}

#[test]
fn bred_trait_bytes_follow_the_selector() {
    let mut m = Module::new(u32::MAX);
    let mut b = Balances::new();
    b.endow(1, 1000000);
    assert_eq!(m.create(1, [0xFF; 16], &mut b, 100), Ok(0));
    assert_eq!(m.create(1, [0x00; 16], &mut b, 100), Ok(1));
    let child = m.do_breed(1, 0, 1, &[0xF0; 16], &mut b, 100).unwrap();
    let k = m.kitties(child).unwrap();
    for i in 0..16 {
        assert_eq!(k.dna_data[i], 0xF0);
    }
    assert_eq!(k.parents_ids, (Some(0), Some(1)));
    assert_eq!(k.spouse_id, None);
    assert_eq!(k.kitty_id, Some(2));
}

#[test]
fn sibling_snapshots_are_asymmetric() {
    let mut t = new_test_ext();
    assert_eq!(t.create(1), Ok(0));
    assert_eq!(t.create(1), Ok(1));
    let c1 = t.breed(1, 0, 1).unwrap();
    let c2 = t.breed(1, 0, 1).unwrap();
    assert_eq!(t.kitties.kitty_brother(c1), Vec::<u32>::new());
    assert_eq!(t.kitties.kitty_brother(c2), vec![c1]);
    assert_eq!(t.kitties.kitty_children(0, 1), vec![c1, c2]);
    // the pair in the other order is a distinct key with no children
    assert_eq!(t.kitties.kitty_children(1, 0), Vec::<u32>::new());
}

#[test]
fn ownership_stays_consistent_across_transfers() {
    let mut t = new_test_ext();
    assert_eq!(t.create(1), Ok(0));
    assert_eq!(t.create(1), Ok(1));
    assert_eq!(t.create(2), Ok(2));
    assert_eq!(t.kitties.owned_kitties(1), vec![0, 1]);
    assert_eq!(t.kitties.owned_kitties(2), vec![2]);
    assert!(t.transfer(1, 2, 0).is_ok());
    assert_eq!(t.kitties.owned_kitties(1), vec![1]);
    assert_eq!(t.kitties.owned_kitties(2), vec![2, 0]);
    assert_eq!(t.kitties.kitty_owner(0), Some(2));
    assert_eq!(t.kitties.kitty_owner(1), Some(1));
    // a transfer to the owner itself keeps the id listed exactly once
    assert!(t.transfer(1, 1, 1).is_ok());
    assert_eq!(t.kitties.owned_kitties(1), vec![1]);
    assert_eq!(t.events()[3], Event::Transfered(1, 2, 0));
    assert_eq!(t.events()[4], Event::Transfered(1, 1, 1));
}

#[test]
fn reservation_failure_rolls_back_create() {
    let mut t = new_test_ext();
    assert_eq!(t.create(6), Err(Error::MoneyNotEnough));
    assert_eq!(t.kitties.kitties_count(), 0);
    assert_eq!(t.kitties.kitty_owner(0), None);
    assert_eq!(t.kitties.owned_kitties(6), Vec::<u32>::new());
    assert_eq!(t.balances.free_balance(6), 50);
    assert_eq!(t.balances.reserved_balance(6), 0);
    assert_eq!(t.events().len(), 0);
}

#[test]
fn reservation_failure_rolls_back_breed() {
    let mut t = new_test_ext();
    assert_eq!(t.create(1), Ok(0));
    assert_eq!(t.create(1), Ok(1));
    assert_eq!(t.breed(6, 0, 1), Err(Error::MoneyNotEnough));
    assert_eq!(t.kitties.kitties_count(), 2);
    assert_eq!(t.kitties.kitty_children(0, 1), Vec::<u32>::new());
    assert_eq!(t.kitties.kitty_brother(2), Vec::<u32>::new());
    assert_eq!(t.kitties.kitties(0).unwrap().spouse_id, None);
    assert_eq!(t.kitties.kitties(1).unwrap().spouse_id, None);
    assert_eq!(t.balances.free_balance(6), 50);
    assert_eq!(t.events().len(), 2);
}

#[test]
fn reservation_moves_the_stake() {
    let mut t = new_test_ext();
    assert_eq!(t.create(1), Ok(0));
    assert_eq!(t.balances.free_balance(1), 5000000 - 5000);
    assert_eq!(t.balances.reserved_balance(1), 5000);
}

#[test]
fn spouse_holds_the_latest_breeding_partner() {
    let mut t = new_test_ext();
    assert_eq!(t.create(1), Ok(0));
    assert_eq!(t.create(1), Ok(1));
    assert_eq!(t.create(1), Ok(2));
    assert!(t.breed(1, 0, 1).is_ok());
    assert_eq!(t.kitties.kitties(0).unwrap().spouse_id, Some(1));
    assert_eq!(t.kitties.kitties(1).unwrap().spouse_id, Some(0));
    assert!(t.breed(1, 0, 2).is_ok());
    assert_eq!(t.kitties.kitties(0).unwrap().spouse_id, Some(2));
    assert_eq!(t.kitties.kitties(2).unwrap().spouse_id, Some(0));
    assert_eq!(t.kitties.kitties(1).unwrap().spouse_id, Some(0));
}

#[test]
fn allocation_fails_once_the_id_space_is_exhausted() {
    let mut m = Module::new(2);
    let mut b = Balances::new();
    b.endow(1, 1000000);
    assert_eq!(m.create(1, [0; 16], &mut b, 100), Ok(0));
    assert_eq!(m.create(1, [0; 16], &mut b, 100), Ok(1));
    assert_eq!(m.create(1, [0; 16], &mut b, 100), Err(Error::KittiesCountOverflow));
    assert_eq!(m.kitties_count(), 2);
    assert_eq!(m.do_breed(1, 0, 1, &[0; 16], &mut b, 100), Err(Error::KittiesCountOverflow));
    assert_eq!(m.kitties_count(), 2);
    assert_eq!(b.free_balance(1), 1000000 - 200);
}

#[test]
fn existence_errors_take_precedence_over_duplicate_parent() {
    let mut t = new_test_ext();
    assert_eq!(t.breed(1, 0, 0), Err(Error::InvalidKittyId));
    assert_eq!(t.create(1), Ok(0));
    assert_eq!(t.breed(1, 0, 5), Err(Error::InvalidKittyId));
    assert_eq!(t.breed(1, 5, 0), Err(Error::InvalidKittyId));
    assert_eq!(t.breed(1, 0, 0), Err(Error::RequireDifferentParent));
}

#[test]
fn run_to_block_never_rolls_back() {
    let mut t = new_test_ext();
    assert_eq!(t.block_number, 1);
    run_to_block(&mut t, 10);
    assert_eq!(t.block_number, 10);
    run_to_block(&mut t, 5);
    assert_eq!(t.block_number, 10);
}

#[test]
fn sequential_creations_draw_distinct_seeds() {
    let mut t = new_test_ext();
    assert_eq!(t.create(1), Ok(0));
    assert_eq!(t.create(1), Ok(1));
    let first = t.kitties.kitties(0).unwrap().dna_data;
    let second = t.kitties.kitties(1).unwrap().dna_data;
    assert_ne!(first, second);
}

#[test]
fn founder_kitties_have_no_parents_and_fresh_dna_length() {
    let mut t = new_test_ext();
    assert_eq!(t.create(1), Ok(0));
    let k = t.kitties.kitties(0).unwrap();
    assert_eq!(k.parents_ids, (None, None));
    assert_eq!(k.spouse_id, None);
    assert_eq!(k.kitty_id, Some(0));
    assert_eq!(k.dna_data.len(), 16);
}
