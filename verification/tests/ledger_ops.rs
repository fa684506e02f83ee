//! Behavior of the six operations on concrete ledgers.

use token_ledger::events::{Error, Event};
use token_ledger::ledger::Ledger;

const ALICE: u64 = 1;
const BOB: u64 = 2;
const CAROL: u64 = 3;

#[test]
fn create_assigns_dense_increasing_ids() {
    let mut l = Ledger::new();
    assert_eq!(l.token_count(), 0);
    let (id0, ev0) = l
        .create(ALICE, ALICE, b"gold".to_vec(), b"GLD".to_vec(), 100, 7)
        .unwrap();
    assert_eq!(id0, 0);
    assert_eq!(ev0, Event::Created(0, ALICE));
    assert_eq!(l.token_count(), 1);
    let (id1, ev1) = l
        .create(BOB, BOB, b"silver".to_vec(), b"SLV".to_vec(), 5, 8)
        .unwrap();
    assert_eq!(id1, 1);
    assert_eq!(ev1, Event::Created(1, BOB));
    assert_eq!(l.token_count(), 2);
}

#[test]
fn create_records_metadata_and_initial_state() {
    let mut l = Ledger::new();
    let (id, _) = l
        .create(ALICE, BOB, b"gold".to_vec(), b"GLD".to_vec(), 100, 42)
        .unwrap();
    let info = l.lookup(id).unwrap();
    assert_eq!(info.name, b"gold".to_vec());
    assert_eq!(info.symbol, b"GLD".to_vec());
    assert_eq!(info.owner, BOB);
    assert_eq!(info.created, 42);
    // the designated owner gates the privileged operations ...
    assert_eq!(l.owner_of(id), Some(BOB));
    // ... while the caller receives the whole initial supply
    assert_eq!(l.get_balance(id, ALICE), 100);
    assert_eq!(l.get_balance(id, BOB), 0);
    assert_eq!(l.supply_of(id), 100);
    assert!(!l.paused(id));
}

#[test]
fn transfer_moves_value_between_accounts() {
    let mut l = Ledger::new();
    l.create(ALICE, ALICE, b"g".to_vec(), b"G".to_vec(), 100, 0)
        .unwrap();
    let ev = l.transfer(ALICE, 0, BOB, 30).unwrap();
    assert_eq!(ev, Event::Transfer(0, ALICE, BOB, 30));
    assert_eq!(l.get_balance(0, ALICE), 70);
    assert_eq!(l.get_balance(0, BOB), 30);
    assert_eq!(l.supply_of(0), 100);
}

#[test]
fn transfer_insufficient_fails_and_moves_nothing() {
    let mut l = Ledger::new();
    l.create(ALICE, ALICE, b"g".to_vec(), b"G".to_vec(), 100, 0)
        .unwrap();
    let r = l.transfer(ALICE, 0, BOB, 150);
    assert_eq!(r, Err(Error::InsufficientAmount));
    assert_eq!(l.get_balance(0, ALICE), 100);
    assert_eq!(l.get_balance(0, BOB), 0);
    assert_eq!(l.supply_of(0), 100);
}

#[test]
fn transfer_to_self_changes_nothing() {
    let mut l = Ledger::new();
    l.create(ALICE, ALICE, b"g".to_vec(), b"G".to_vec(), 50, 0)
        .unwrap();
    let ev = l.transfer(ALICE, 0, ALICE, 20).unwrap();
    assert_eq!(ev, Event::Transfer(0, ALICE, ALICE, 20));
    assert_eq!(l.get_balance(0, ALICE), 50);
    assert_eq!(l.supply_of(0), 50);
}

#[test]
fn transfer_from_debits_from_and_credits_caller() {
    let mut l = Ledger::new();
    l.create(ALICE, ALICE, b"g".to_vec(), b"G".to_vec(), 100, 0)
        .unwrap();
    // no allowance gates this: the allowance store is declared, never read
    let ev = l.transfer_from(BOB, 0, ALICE, 40).unwrap();
    assert_eq!(ev, Event::TransferFrom(0, ALICE, BOB, 40));
    assert_eq!(l.get_balance(0, ALICE), 60);
    assert_eq!(l.get_balance(0, BOB), 40);
    let r = l.transfer_from(CAROL, 0, BOB, 41);
    assert_eq!(r, Err(Error::InsufficientAmount));
    assert_eq!(l.get_balance(0, BOB), 40);
    assert_eq!(l.get_balance(0, CAROL), 0);
}

#[test]
fn mint_requires_ownership() {
    let mut l = Ledger::new();
    l.create(ALICE, BOB, b"g".to_vec(), b"G".to_vec(), 0, 0)
        .unwrap();
    assert_eq!(l.mint(ALICE, 0, 10), Err(Error::NotTokenOwner));
    assert_eq!(l.supply_of(0), 0);
    let ev = l.mint(BOB, 0, 10).unwrap();
    assert_eq!(ev, Event::Mint(0, BOB, 10));
    assert_eq!(l.supply_of(0), 10);
    assert_eq!(l.get_balance(0, BOB), 10);
}

#[test]
fn burn_requires_ownership() {
    let mut l = Ledger::new();
    l.create(BOB, BOB, b"g".to_vec(), b"G".to_vec(), 10, 0)
        .unwrap();
    assert_eq!(l.burn(ALICE, 0, 5), Err(Error::NotTokenOwner));
    let ev = l.burn(BOB, 0, 5).unwrap();
    assert_eq!(ev, Event::Burn(0, BOB, 5));
    assert_eq!(l.supply_of(0), 5);
    assert_eq!(l.get_balance(0, BOB), 5);
}

#[test]
fn pause_requires_ownership_and_sets_flag() {
    let mut l = Ledger::new();
    l.create(ALICE, BOB, b"g".to_vec(), b"G".to_vec(), 1, 0)
        .unwrap();
    assert_eq!(l.pause(ALICE, 0, true), Err(Error::NotTokenOwner));
    assert!(!l.paused(0));
    let ev = l.pause(BOB, 0, true).unwrap();
    assert_eq!(ev, Event::PausedOperation(0, true));
    assert!(l.paused(0));
    let ev = l.pause(BOB, 0, false).unwrap();
    assert_eq!(ev, Event::PausedOperation(0, false));
    assert!(!l.paused(0));
}

#[test]
fn mint_overflow_is_rejected_and_moves_nothing() {
    let mut l = Ledger::new();
    l.create(ALICE, ALICE, b"g".to_vec(), b"G".to_vec(), u64::MAX, 0)
        .unwrap();
    assert_eq!(l.mint(ALICE, 0, 1), Err(Error::ArithmeticOverflow));
    assert_eq!(l.supply_of(0), u64::MAX);
    assert_eq!(l.get_balance(0, ALICE), u64::MAX);
    // minting nothing still fits
    assert_eq!(l.mint(ALICE, 0, 0), Ok(Event::Mint(0, ALICE, 0)));
}

#[test]
fn operations_on_unknown_tokens() {
    let mut l = Ledger::new();
    assert_eq!(l.get_balance(9, ALICE), 0);
    assert_eq!(l.supply_of(9), 0);
    assert_eq!(l.owner_of(9), None);
    assert!(l.lookup(9).is_none());
    assert!(!l.paused(9));
    // no owner exists, so every privileged call is refused
    assert_eq!(l.mint(ALICE, 9, 1), Err(Error::NotTokenOwner));
    assert_eq!(l.burn(ALICE, 9, 1), Err(Error::NotTokenOwner));
    assert_eq!(l.pause(ALICE, 9, true), Err(Error::NotTokenOwner));
    // moving a positive amount fails on the empty balance ...
    assert_eq!(l.transfer(ALICE, 9, BOB, 1), Err(Error::InsufficientAmount));
    // ... while moving zero succeeds and changes nothing, as for any token
    assert_eq!(l.transfer(ALICE, 9, BOB, 0), Ok(Event::Transfer(9, ALICE, BOB, 0)));
    assert_eq!(l.get_balance(9, BOB), 0);
}

#[test]
fn allowance_store_is_never_written() {
    let mut l = Ledger::new();
    l.create(ALICE, ALICE, b"g".to_vec(), b"G".to_vec(), 10, 0)
        .unwrap();
    l.transfer_from(BOB, 0, ALICE, 5).unwrap();
    assert_eq!(l.approval(0, ALICE, BOB), 0);
    assert_eq!(l.approval(0, BOB, ALICE), 0);
}

#[test]
fn is_owner_matches_owner_of() {
    let mut l = Ledger::new();
    l.create(ALICE, BOB, b"g".to_vec(), b"G".to_vec(), 0, 0)
        .unwrap();
    assert!(l.is_owner(0, BOB));
    assert!(!l.is_owner(0, ALICE));
    assert!(!l.is_owner(1, BOB));
}
