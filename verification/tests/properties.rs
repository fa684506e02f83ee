//! Concrete runs of the ledger's global laws: conservation, pause
//! idempotence, the mint/burn round trip and id monotonicity.

use token_ledger::events::{Error, Event};
use token_ledger::ledger::Ledger;

const ALICE: u64 = 10;
const BOB: u64 = 20;
const CAROL: u64 = 30;

#[test]
fn conservation_across_a_mixed_sequence() {
    let mut l = Ledger::new();
    l.create(ALICE, ALICE, b"gold".to_vec(), b"GLD".to_vec(), 1_000, 1)
        .unwrap();
    l.create(BOB, BOB, b"silver".to_vec(), b"SLV".to_vec(), 500, 2)
        .unwrap();
    l.transfer(ALICE, 0, BOB, 250).unwrap();
    l.transfer(BOB, 0, CAROL, 100).unwrap();
    l.mint(ALICE, 0, 40).unwrap();
    l.burn(ALICE, 0, 15).unwrap();
    l.transfer_from(CAROL, 1, BOB, 60).unwrap();
    // token 0: all balances sum to the recorded supply
    let held0 = l.get_balance(0, ALICE) + l.get_balance(0, BOB) + l.get_balance(0, CAROL);
    assert_eq!(l.supply_of(0), 1_000 + 40 - 15);
    assert_eq!(held0, l.supply_of(0));
    // token 1 likewise, untouched by token 0 traffic
    let held1 = l.get_balance(1, ALICE) + l.get_balance(1, BOB) + l.get_balance(1, CAROL);
    assert_eq!(l.supply_of(1), 500);
    assert_eq!(held1, 500);
}

#[test]
fn failed_operations_leave_state_unchanged() {
    let mut l = Ledger::new();
    l.create(ALICE, ALICE, b"g".to_vec(), b"G".to_vec(), 100, 0)
        .unwrap();
    let before = (
        l.get_balance(0, ALICE),
        l.get_balance(0, BOB),
        l.supply_of(0),
        l.paused(0),
    );
    assert!(l.transfer(BOB, 0, ALICE, 1).is_err());
    assert!(l.mint(BOB, 0, 1).is_err());
    assert!(l.burn(ALICE, 0, 101).is_err());
    assert!(l.pause(CAROL, 0, true).is_err());
    let after = (
        l.get_balance(0, ALICE),
        l.get_balance(0, BOB),
        l.supply_of(0),
        l.paused(0),
    );
    assert_eq!(before, after);
}

#[test]
fn pause_twice_is_idempotent_and_touches_no_balance() {
    let mut l = Ledger::new();
    l.create(ALICE, ALICE, b"g".to_vec(), b"G".to_vec(), 100, 0)
        .unwrap();
    let ev1 = l.pause(ALICE, 0, true).unwrap();
    assert_eq!(ev1, Event::PausedOperation(0, true));
    assert!(l.paused(0));
    let ev2 = l.pause(ALICE, 0, true).unwrap();
    assert_eq!(ev2, Event::PausedOperation(0, true));
    assert!(l.paused(0));
    assert_eq!(l.get_balance(0, ALICE), 100);
    assert_eq!(l.supply_of(0), 100);
}

#[test]
fn mint_then_burn_round_trip() {
    let mut l = Ledger::new();
    l.create(ALICE, ALICE, b"g".to_vec(), b"G".to_vec(), 0, 0)
        .unwrap();
    l.mint(ALICE, 0, 50).unwrap();
    assert_eq!(l.supply_of(0), 50);
    assert_eq!(l.get_balance(0, ALICE), 50);
    l.burn(ALICE, 0, 20).unwrap();
    assert_eq!(l.supply_of(0), 30);
    assert_eq!(l.get_balance(0, ALICE), 30);
    assert_eq!(l.burn(ALICE, 0, 40), Err(Error::InsufficientAmount));
    assert_eq!(l.supply_of(0), 30);
    assert_eq!(l.get_balance(0, ALICE), 30);
}

#[test]
fn ids_never_repeat_even_across_many_creates() {
    let mut l = Ledger::new();
    for k in 0..10u64 {
        let (id, _) = l
            .create(k, k, b"t".to_vec(), b"T".to_vec(), k, k)
            .unwrap();
        assert_eq!(id as u64, k);
        assert_eq!(l.token_count() as u64, k + 1);
    }
    // every token keeps its own books
    for k in 0..10u32 {
        assert_eq!(l.supply_of(k), k as u64);
        assert_eq!(l.get_balance(k, k as u64), k as u64);
        assert_eq!(l.owner_of(k), Some(k as u64));
    }
}

#[test]
fn pair_balance_is_conserved_by_transfer() {
    let mut l = Ledger::new();
    l.create(ALICE, ALICE, b"g".to_vec(), b"G".to_vec(), 80, 0)
        .unwrap();
    l.transfer(ALICE, 0, BOB, 30).unwrap();
    let a1 = l.get_balance(0, ALICE);
    let b1 = l.get_balance(0, BOB);
    l.transfer(BOB, 0, ALICE, 12).unwrap();
    let a2 = l.get_balance(0, ALICE);
    let b2 = l.get_balance(0, BOB);
    assert_eq!(a2, a1 + 12);
    assert_eq!(b2, b1 - 12);
    assert_eq!(a1 + b1, a2 + b2);
    assert_eq!(a2 + b2, 80);
}
