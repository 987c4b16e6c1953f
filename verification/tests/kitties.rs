use pallets::kitties::{Config, Error, Event, Pallet};
use pallets::ledger::{Balances, FundsError};

const ALICE: u64 = 1;
const BOB: u64 = 2;
const NEO: u64 = 3;

const ALICE_BALANCE: u128 = 3_000;
const BOB_BALANCE: u128 = 3_000;

const KITTY_1: u32 = 0;
const KITTY_2: u32 = 1;
const KITTY_3: u32 = 2;

const KITTY_RESERVE: u128 = 1_000;
const KITTY_PRICE: u128 = 1_000;

const EXISTENTIAL_DEPOSIT: u128 = 1;

const DNA_A: [u8; 16] = [0xaa; 16];
const DNA_B: [u8; 16] = [0x55; 16];
const SELECTOR: [u8; 16] = [0x0f; 16];

fn new_test_ext() -> Pallet {
    let mut balances = Balances::new(EXISTENTIAL_DEPOSIT);
    balances.set_balance(ALICE, ALICE_BALANCE, 0);
    balances.set_balance(BOB, BOB_BALANCE, 0);
    Pallet::new(Config { stake: KITTY_RESERVE }, balances)
}

#[test]
fn create_kitty_works() {
    let mut p = new_test_ext();
    assert!(p.create(ALICE, DNA_A).is_ok());
    assert_eq!(p.last_event(), Some(Event::KittyCreate(ALICE, KITTY_1)));
    assert!(p.create(BOB, DNA_B).is_ok());
    assert_eq!(p.last_event(), Some(Event::KittyCreate(BOB, KITTY_2)));
    assert_eq!(p.kitties_count(), 2);
    assert_eq!(p.owner(KITTY_1), Some(ALICE));
    assert_eq!(p.owner(KITTY_2), Some(BOB));
    assert_eq!(p.reserved_balance(ALICE), KITTY_RESERVE);
    assert_eq!(p.reserved_balance(BOB), KITTY_RESERVE);
}

#[test]
fn create_kitty_failed_not_enough_money() {
    let mut p = new_test_ext();
    assert_eq!(p.create(NEO, DNA_A), Err(Error::MoneyNotEnough));
    assert_eq!(p.kitties_count(), 0);
}

#[test]
fn transfer_kitty_works() {
    let mut p = new_test_ext();
    assert!(p.create(ALICE, DNA_A).is_ok());
    assert_eq!(p.kitties_count(), 1);
    assert_eq!(p.owner(KITTY_1), Some(ALICE));
    assert_eq!(p.reserved_balance(ALICE), KITTY_RESERVE);
    assert!(p.transfer(ALICE, BOB, KITTY_1).is_ok());
    assert_eq!(
        p.last_event(),
        Some(Event::KittyTransfer(ALICE, BOB, KITTY_1))
    );
    assert_eq!(p.kitties_count(), 1);
    assert_eq!(p.owner(KITTY_1), Some(BOB));
    assert_eq!(p.reserved_balance(ALICE), 0);
    assert_eq!(p.reserved_balance(BOB), KITTY_RESERVE);
}

#[test]
fn transfer_kitty_failed_not_enough_money() {
    let mut p = new_test_ext();
    assert!(p.create(ALICE, DNA_A).is_ok());
    assert_eq!(p.transfer(ALICE, NEO, KITTY_1), Err(Error::MoneyNotEnough));
    assert_eq!(p.owner(KITTY_1), Some(ALICE));
}

#[test]
fn transfer_kitty_failed_not_owner() {
    let mut p = new_test_ext();
    assert_eq!(p.transfer(ALICE, BOB, KITTY_1), Err(Error::NotOwner));
}

// A transfer to oneself succeeds: the owner is re-set and the stake stays
// where it is, since moving it from the caller to the caller is a no-op.
#[test]
fn transfer_kitty_failed_already_owned() {
    let mut p = new_test_ext();
    assert!(p.create(ALICE, DNA_A).is_ok());
    assert_eq!(p.transfer(ALICE, ALICE, KITTY_1), Ok(()));
    assert_eq!(
        p.last_event(),
        Some(Event::KittyTransfer(ALICE, ALICE, KITTY_1))
    );
    assert_eq!(p.owner(KITTY_1), Some(ALICE));
    assert_eq!(p.reserved_balance(ALICE), KITTY_RESERVE);
    assert_eq!(p.free_balance(ALICE), ALICE_BALANCE - KITTY_RESERVE);
}

#[test]
fn breed_kitty_works() {
    let mut p = new_test_ext();
    assert!(p.create(ALICE, DNA_A).is_ok());
    assert!(p.create(ALICE, DNA_B).is_ok());
    assert_eq!(p.kitties_count(), 2);
    assert_eq!(p.owner(KITTY_1), Some(ALICE));
    assert_eq!(p.owner(KITTY_2), Some(ALICE));
    assert_eq!(p.reserved_balance(ALICE), 2 * KITTY_RESERVE);
    assert!(p.breed(ALICE, KITTY_1, KITTY_2, SELECTOR).is_ok());
    assert_eq!(p.last_event(), Some(Event::KittyBreed(ALICE, KITTY_3)));
    assert_eq!(p.kitties_count(), 3);
    assert_eq!(p.owner(KITTY_3), Some(ALICE));
    assert_eq!(p.reserved_balance(ALICE), 3 * KITTY_RESERVE);
}

#[test]
fn breed_kitty_failed_same_parent() {
    let mut p = new_test_ext();
    assert_eq!(
        p.breed(ALICE, KITTY_1, KITTY_1, SELECTOR),
        Err(Error::SameParentIndex)
    );
}

// Breeding with never-created parent ids fails on the ownership check, which
// comes before the genome lookup: the first failing precondition wins.
#[test]
fn breed_kitty_failed_invalid_kitty_index() {
    let mut p = new_test_ext();
    assert_eq!(
        p.breed(ALICE, KITTY_1, KITTY_2, SELECTOR),
        Err(Error::NotOwner)
    );
}

#[test]
fn breed_kitty_failed_not_owner() {
    let mut p = new_test_ext();
    assert!(p.create(ALICE, DNA_A).is_ok());
    assert!(p.create(BOB, DNA_B).is_ok());
    assert_eq!(
        p.breed(ALICE, KITTY_1, KITTY_2, SELECTOR),
        Err(Error::NotOwner)
    );
}

#[test]
fn breed_kitty_failed_not_enough_money() {
    let mut p = new_test_ext();
    assert!(p.create(ALICE, DNA_A).is_ok());
    assert!(p.create(ALICE, DNA_A).is_ok());
    assert!(p.create(ALICE, DNA_A).is_ok());
    assert_eq!(
        p.breed(ALICE, KITTY_1, KITTY_2, SELECTOR),
        Err(Error::MoneyNotEnough)
    );
}

#[test]
fn sale_kitty_works() {
    let mut p = new_test_ext();
    assert!(p.create(ALICE, DNA_A).is_ok());
    assert!(p.sale(ALICE, KITTY_1, Some(5_000)).is_ok());
    assert_eq!(
        p.last_event(),
        Some(Event::KittyForSale(ALICE, KITTY_1, Some(5_000)))
    );
}

#[test]
fn sale_kitty_failed_not_owner() {
    let mut p = new_test_ext();
    assert_eq!(p.sale(ALICE, KITTY_1, Some(5_000)), Err(Error::NotOwner));
}

#[test]
fn buy_kitty_works() {
    let mut p = new_test_ext();
    assert!(p.create(ALICE, DNA_A).is_ok());
    assert!(p.sale(ALICE, KITTY_1, Some(KITTY_PRICE)).is_ok());
    assert_eq!(p.owner(KITTY_1), Some(ALICE));
    assert_eq!(p.kitty_prices(KITTY_1), Some(KITTY_PRICE));
    assert_eq!(p.reserved_balance(ALICE), KITTY_RESERVE);
    assert_eq!(p.free_balance(ALICE), ALICE_BALANCE - KITTY_RESERVE);
    assert!(p.buy(BOB, KITTY_1).is_ok());
    assert_eq!(
        p.last_event(),
        Some(Event::KittySaleOut(BOB, KITTY_1, Some(KITTY_PRICE)))
    );
    assert_eq!(p.reserved_balance(ALICE), 0);
    assert_eq!(p.free_balance(ALICE), ALICE_BALANCE + KITTY_PRICE);
    assert_eq!(p.reserved_balance(BOB), KITTY_RESERVE);
    assert_eq!(
        p.free_balance(BOB),
        BOB_BALANCE - KITTY_RESERVE - KITTY_PRICE
    );
    assert_eq!(p.owner(KITTY_1), Some(BOB));
    assert_eq!(p.kitty_prices(KITTY_1), None);
}

#[test]
fn buy_kitty_failed_not_exist() {
    let mut p = new_test_ext();
    assert_eq!(p.buy(ALICE, KITTY_1), Err(Error::NotExist));
}

#[test]
fn buy_kitty_failed_already_owned() {
    let mut p = new_test_ext();
    assert!(p.create(ALICE, DNA_A).is_ok());
    assert_eq!(p.buy(ALICE, KITTY_1), Err(Error::AlreadyOwned));
}

#[test]
fn buy_kitty_failed_not_for_sale() {
    let mut p = new_test_ext();
    assert!(p.create(ALICE, DNA_A).is_ok());
    assert_eq!(p.buy(BOB, KITTY_1), Err(Error::NotForSale));
}

#[test]
fn buy_kitty_failed_insufficient_balance() {
    let mut p = new_test_ext();
    assert!(p.create(ALICE, DNA_A).is_ok());
    assert!(p.sale(ALICE, KITTY_1, Some(5_000)).is_ok());
    assert_eq!(
        p.buy(BOB, KITTY_1),
        Err(Error::Funds(FundsError::InsufficientBalance))
    );
}

#[test]
fn buy_kitty_failed_keeyalive() {
    let mut p = new_test_ext();
    assert!(p.create(ALICE, DNA_A).is_ok());
    assert!(p.sale(ALICE, KITTY_1, Some(BOB_BALANCE)).is_ok());
    assert_eq!(p.buy(BOB, KITTY_1), Err(Error::Funds(FundsError::KeepAlive)));
}
