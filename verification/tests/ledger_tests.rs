use kitties::new_test_ext;
use kitties::run_to_block;
use kitties::Error;
use kitties::Event;

#[test]
fn lib_owned_kitties_can_append_values() {
    let mut t = new_test_ext();
    run_to_block(&mut t, 10);
    assert_eq!(t.create(1), Ok(0));
}

#[test]
fn lib_transfer_kitties() {
    let mut t = new_test_ext();
    run_to_block(&mut t, 10);
    assert!(t.create(1).is_ok());
    let id = t.kitties.kitties_count();
    assert!(t.transfer(1, 2, id - 1).is_ok());
    assert_eq!(t.transfer(1, 2, id - 1), Err(Error::NotKittyOwner));
}

#[test]
fn tests_owned_kitties_can_append_values() {
    let mut t = new_test_ext();
    run_to_block(&mut t, 10);
    assert!(t.create(1).is_ok());
    assert_eq!(t.events()[0], Event::Created(1u64, 0));
}

#[test]
fn owner_kitties_failed_when_no_enought_money() {
    let mut t = new_test_ext();
    run_to_block(&mut t, 10);
    assert_eq!(t.create(6), Err(Error::MoneyNotEnough));
    assert_eq!(t.kitties.kitties_count(), 0);
}

#[test]
fn transfer_kitty_failed_when_no_exists() {
    let mut t = new_test_ext();
    run_to_block(&mut t, 10);
    assert!(t.create(1).is_ok());
    assert_eq!(t.transfer(1, 2, 10), Err(Error::InvalidKittyId));
}

// An id that was never assigned cannot be transferred: the ownership index
// checks existence first, so both attempts are rejected the same way.
#[test]
fn transfer_kitties_no_owned() {
    let mut t = new_test_ext();
    run_to_block(&mut t, 10);
    assert!(t.create(1).is_ok());
    let _id = t.kitties.kitties_count();
    assert_eq!(t.transfer(1, 2, 999), Err(Error::InvalidKittyId));
    assert_eq!(t.transfer(1, 2, 999), Err(Error::InvalidKittyId));
}

#[test]
fn tests_transfer_kitties() {
    let mut t = new_test_ext();
    run_to_block(&mut t, 10);
    assert!(t.create(1).is_ok());
    let id = t.kitties.kitties_count();
    assert!(t.transfer(1, 2, id - 1).is_ok());
    assert_eq!(t.transfer(1, 2, id - 1), Err(Error::NotKittyOwner));
}

#[test]
fn breed_kitty_fail_when_same() {
    let mut t = new_test_ext();
    run_to_block(&mut t, 10);
    let _ = t.create(1);
    assert_eq!(t.breed(1, 0, 0), Err(Error::RequireDifferentParent));
}

#[test]
fn breed_kitty_fail_when_not_exists() {
    let mut t = new_test_ext();
    assert_eq!(t.breed(1, 0, 1), Err(Error::InvalidKittyId));
}
