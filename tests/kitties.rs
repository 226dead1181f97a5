use kitties::kitties::{Config, Error, Event, Pallet};
use kitties::randomness::BlockContext;

fn new_test_ext() -> Pallet {
    let mut p = Pallet::new(Config { pledge_quantity: 1 });
    for (who, amount) in [(1u64, 20u128), (2, 20), (3, 10), (4, 10), (5, 10)] {
        p.set_balance(who, amount).unwrap();
    }
    p
}

fn ctx(index: u32) -> BlockContext {
    BlockContext { random_seed: [7u8; 32], extrinsic_index: Some(index) }
}

#[test]
fn create_works() {
    let mut p = new_test_ext();
    assert_eq!(p.reserved_balance(1), 0);
    assert!(p.create(1, &ctx(0)).is_ok());
    assert_eq!(p.kitties_count().unwrap(), 1);
    assert_eq!(p.kitty_owner(0).unwrap(), 1);
    assert_eq!(p.reserved_balance(1), 1);
}

#[test]
fn create_failed_when_kitty_index_overflow() {
    let mut p = new_test_ext();
    p.put_kitties_count(u32::MAX);
    assert_eq!(p.create(1, &ctx(0)), Err(Error::KittiesCountOverflow));
    assert_eq!(p.kitties_count(), Some(u32::MAX));
    assert_eq!(p.reserved_balance(1), 0);
    assert_eq!(p.free_balance(1), 20);
}

#[test]
fn create_kitty_failed_when_not_enough_funds_pledged() {
    let mut p = new_test_ext();
    assert_eq!(p.create(6, &ctx(0)), Err(Error::InsufficientBalance));
    assert_eq!(p.kitties_count(), None);
    assert!(p.kitty_owner(0).is_none());
}

#[test]
fn transfer_works() {
    let mut p = new_test_ext();
    assert_eq!(p.reserved_balance(1), 0);
    assert_eq!(p.reserved_balance(2), 0);
    assert!(p.create(1, &ctx(0)).is_ok());
    assert_eq!(p.reserved_balance(1), 1);
    assert_eq!(p.kitty_owner(0).unwrap(), 1);
    assert_eq!(p.transfer(1, 2, 0), Ok(Event::KittyTransferred(1, 2, 0)));
    assert_eq!(p.reserved_balance(1), 0);
    assert_eq!(p.reserved_balance(2), 1);
    assert_eq!(p.kitty_owner(0).unwrap(), 2);
}

#[test]
fn transfer_failed_when_caller_is_not_owner() {
    let mut p = new_test_ext();
    assert!(p.create(1, &ctx(0)).is_ok());
    assert_eq!(p.transfer(2, 3, 0), Err(Error::NotKittyOwner));
    assert_eq!(p.kitty_owner(0), Some(1));
}

#[test]
fn transfer_failed_when_recipient_dont_have_enougth_funds() {
    let mut p = new_test_ext();
    assert_eq!(p.reserved_balance(1), 0);
    assert!(p.create(1, &ctx(0)).is_ok());
    assert_eq!(p.reserved_balance(1), 1);
    assert_eq!(p.transfer(1, 6, 0), Err(Error::InsufficientBalance));
    assert_eq!(p.kitty_owner(0), Some(1));
    assert_eq!(p.reserved_balance(1), 1);
    assert_eq!(p.reserved_balance(6), 0);
}

#[test]
fn breed_works() {
    let mut p = new_test_ext();
    assert_eq!(p.reserved_balance(1), 0);
    assert!(p.create(1, &ctx(0)).is_ok());
    assert!(p.create(1, &ctx(1)).is_ok());
    assert_eq!(p.reserved_balance(1), 2);
    assert_eq!(p.breed(1, 0, 1, &ctx(2)), Ok(Event::KittyCreated(1, 2)));
    assert_eq!(p.reserved_balance(1), 3);
    assert_eq!(p.kitties_count().unwrap(), 3);
}

#[test]
fn breed_failed_when_kitty_not_exist() {
    let mut p = new_test_ext();
    assert!(p.create(1, &ctx(0)).is_ok());
    assert_eq!(p.breed(1, 1, 2, &ctx(1)), Err(Error::InvalidKittyId));
    assert_eq!(p.kitties_count(), Some(1));
}

#[test]
fn breed_failed_when_parents_are_same() {
    let mut p = new_test_ext();
    assert!(p.create(1, &ctx(0)).is_ok());
    assert_eq!(p.breed(1, 1, 1, &ctx(1)), Err(Error::SameKitties));
    assert_eq!(p.kitties_count(), Some(1));
}

#[test]
fn ask_works() {
    let mut p = new_test_ext();
    assert_eq!(p.reserved_balance(1), 0);
    assert!(p.create(1, &ctx(0)).is_ok());
    assert_eq!(p.reserved_balance(1), 1);
    assert_eq!(p.ask(1, 0, Some(10)), Ok(Event::KittyAsk(0, Some(10))));
    assert_eq!(p.kitty_price(0), Some(10));
}

#[test]
fn ask_failed_when_kitty_not_exist() {
    let mut p = new_test_ext();
    assert_eq!(p.ask(1, 0, Some(10)), Err(Error::InvalidKittyId));
    assert_eq!(p.kitty_price(0), None);
}

#[test]
fn ask_failed_when_caller_is_not_owner() {
    let mut p = new_test_ext();
    assert!(p.create(1, &ctx(0)).is_ok());
    assert_eq!(p.ask(2, 0, Some(10)), Err(Error::NotKittyOwner));
    assert_eq!(p.kitty_price(0), None);
}

#[test]
fn buy_works() {
    let mut p = new_test_ext();
    assert_eq!(p.reserved_balance(1), 0);
    assert_eq!(p.reserved_balance(2), 0);
    assert_eq!(p.free_balance(1), 20);
    assert_eq!(p.free_balance(2), 20);

    assert!(p.create(1, &ctx(0)).is_ok());
    assert_eq!(p.reserved_balance(1), 1);
    assert!(p.ask(1, 0, Some(1)).is_ok());
    assert_eq!(p.kitty_owner(0), Some(1));
    assert_eq!(p.buy(2, 0, 1), Ok(Event::KittySold(1, 2, 0, 1)));

    assert_eq!(p.reserved_balance(1), 0);
    assert_eq!(p.reserved_balance(2), 1);
    assert_eq!(p.free_balance(1), 21);
    assert_eq!(p.free_balance(2), 18);

    assert_eq!(p.kitty_owner(0), Some(2));
    assert_eq!(p.kitty_price(0), None);
}

#[test]
fn buy_failed_when_kitty_not_exist() {
    let mut p = new_test_ext();
    assert_eq!(p.buy(1, 0, 1), Err(Error::InvalidKittyId));
}

#[test]
fn buy_failed_when_kitty_not_for_sale() {
    let mut p = new_test_ext();
    assert!(p.create(1, &ctx(0)).is_ok());
    assert_eq!(p.buy(2, 0, 1), Err(Error::KittyNotForSale));
    assert_eq!(p.kitty_owner(0), Some(1));
}

#[test]
fn buy_failed_when_not_enough_funds() {
    let mut p = new_test_ext();
    assert!(p.create(1, &ctx(0)).is_ok());
    assert!(p.ask(1, 0, Some(1)).is_ok());
    assert_eq!(p.buy(6, 0, 1), Err(Error::InsufficientBalance));
    assert_eq!(p.kitty_owner(0), Some(1));
    assert_eq!(p.kitty_price(0), Some(1));
    assert_eq!(p.free_balance(1), 19);
}
