use erc20::account::{AccountId, Approval, Error, Event, Transfer};
use erc20::erc20::Erc20;

fn alice() -> AccountId {
    AccountId([0x01; 32])
}

fn bob() -> AccountId {
    AccountId([0x02; 32])
}

fn charlie() -> AccountId {
    AccountId([0x03; 32])
}

fn deploy(supply: u128) -> (Erc20, Vec<Event>) {
    let mut events = Vec::new();
    let contract = Erc20::new(supply, alice(), &mut events);
    (contract, events)
}

#[test]
fn lib_new_works() {
    let (contract, _) = deploy(777);
    assert_eq!(contract.total_supply(), 777);
}

#[test]
fn lib_balance_works() {
    let (contract, _) = deploy(100);
    assert_eq!(contract.total_supply(), 100);
    assert_eq!(contract.balance_of(alice()), 100);
    assert_eq!(contract.balance_of(bob()), 0);
}

#[test]
fn lib_transfer_works() {
    let (mut contract, mut events) = deploy(100);
    assert_eq!(contract.balance_of(alice()), 100);
    assert!(contract.transfer(alice(), bob(), 10, &mut events).is_ok());
    assert_eq!(contract.balance_of(bob()), 10);
    assert!(contract.transfer(alice(), bob(), 100, &mut events).is_err());
}

#[test]
fn allowance_works() {
    let (mut contract, mut events) = deploy(100);
    assert_eq!(contract.get_allowance(alice(), alice()), 0);
    let _ = contract.approve(alice(), bob(), 100, &mut events);
    assert_eq!(contract.get_allowance(alice(), bob()), 100);
    let _ = contract.approve(alice(), bob(), 0, &mut events);
    assert_eq!(contract.get_allowance(alice(), bob()), 0);
}

#[test]
fn approval_and_transfer_works() {
    let (mut contract, mut events) = deploy(100);
    let _ = contract.approve(alice(), bob(), 100, &mut events);
    assert_eq!(contract.get_allowance(alice(), bob()), 100);
    assert_eq!(contract.balance_of(alice()), 100);
    assert_eq!(contract.balance_of(bob()), 0);
    // bob, who holds nothing, cannot approve anyone for 100
    let _ = contract.approve(bob(), bob(), 100, &mut events);
    let _ = contract.transfer_from(bob(), alice(), bob(), 50, &mut events);
    assert_eq!(contract.balance_of(alice()), 50);
    assert_eq!(contract.balance_of(bob()), 50);
}

#[test]
fn construction_mints_to_deployer() {
    let (contract, events) = deploy(100);
    assert_eq!(contract.balance_of(alice()), 100);
    assert_eq!(contract.total_supply(), 100);
    assert_eq!(
        events,
        vec![Event::Transfer(Transfer { from: None, to: Some(alice()), value: 100 })]
    );
}

#[test]
fn transfer_then_overdraft_keeps_balances() {
    let (mut contract, mut events) = deploy(100);
    assert_eq!(contract.transfer(alice(), bob(), 10, &mut events), Ok(()));
    assert_eq!(contract.balance_of(alice()), 90);
    assert_eq!(contract.balance_of(bob()), 10);
    assert_eq!(
        contract.transfer(alice(), bob(), 100, &mut events),
        Err(Error::InsufficientBalance)
    );
    assert_eq!(contract.balance_of(alice()), 90);
    assert_eq!(contract.balance_of(bob()), 10);
    assert_eq!(events.len(), 2);
    assert_eq!(
        events[1],
        Event::Transfer(Transfer { from: Some(alice()), to: Some(bob()), value: 10 })
    );
}

#[test]
fn transfer_to_self_is_neutral() {
    let (mut contract, mut events) = deploy(100);
    assert_eq!(contract.transfer(alice(), alice(), 40, &mut events), Ok(()));
    assert_eq!(contract.balance_of(alice()), 100);
    assert_eq!(contract.transfer(alice(), alice(), 101, &mut events), Err(Error::InsufficientBalance));
    assert_eq!(contract.balance_of(alice()), 100);
}

#[test]
fn transfer_leaves_third_party_alone() {
    let (mut contract, mut events) = deploy(100);
    assert_eq!(contract.transfer(alice(), charlie(), 30, &mut events), Ok(()));
    assert_eq!(contract.transfer(alice(), bob(), 20, &mut events), Ok(()));
    assert_eq!(contract.balance_of(alice()), 50);
    assert_eq!(contract.balance_of(bob()), 20);
    assert_eq!(contract.balance_of(charlie()), 30);
    let sum = contract.balance_of(alice()) + contract.balance_of(bob()) + contract.balance_of(charlie());
    assert_eq!(sum, contract.total_supply());
}

#[test]
fn full_supply_moves_without_overflow() {
    let (mut contract, mut events) = deploy(u128::MAX);
    assert_eq!(contract.transfer(alice(), bob(), u128::MAX, &mut events), Ok(()));
    assert_eq!(contract.balance_of(alice()), 0);
    assert_eq!(contract.balance_of(bob()), u128::MAX);
    assert_eq!(contract.transfer(bob(), alice(), 1, &mut events), Ok(()));
    assert_eq!(contract.balance_of(alice()), 1);
    assert_eq!(contract.balance_of(bob()), u128::MAX - 1);
}

#[test]
fn approve_then_reset_to_zero() {
    let (mut contract, mut events) = deploy(100);
    assert_eq!(contract.approve(alice(), bob(), 100, &mut events), Ok(()));
    assert_eq!(contract.get_allowance(alice(), bob()), 100);
    assert_eq!(contract.approve(alice(), bob(), 0, &mut events), Ok(()));
    assert_eq!(contract.get_allowance(alice(), bob()), 0);
    assert_eq!(
        events[1],
        Event::Approval(Approval { owner: Some(alice()), spender: Some(bob()), allowance: 100 })
    );
    assert_eq!(events.len(), 3);
}

#[test]
fn approve_beyond_balance_is_refused() {
    let (mut contract, mut events) = deploy(100);
    assert_eq!(contract.approve(alice(), bob(), 101, &mut events), Err(Error::InsufficientBalance));
    assert_eq!(contract.get_allowance(alice(), bob()), 0);
    assert_eq!(events.len(), 1);
}

#[test]
fn approve_keeps_other_pairs() {
    let (mut contract, mut events) = deploy(100);
    assert_eq!(contract.approve(alice(), bob(), 70, &mut events), Ok(()));
    assert_eq!(contract.approve(alice(), charlie(), 20, &mut events), Ok(()));
    assert_eq!(contract.approve(alice(), bob(), 5, &mut events), Ok(()));
    assert_eq!(contract.get_allowance(alice(), bob()), 5);
    assert_eq!(contract.get_allowance(alice(), charlie()), 20);
    assert_eq!(contract.get_allowance(bob(), alice()), 0);
}

#[test]
fn delegated_transfer_spends_allowance() {
    let (mut contract, mut events) = deploy(100);
    assert_eq!(contract.approve(alice(), bob(), 100, &mut events), Ok(()));
    assert_eq!(contract.transfer_from(bob(), alice(), bob(), 50, &mut events), Ok(()));
    assert_eq!(contract.get_allowance(alice(), bob()), 50);
    assert_eq!(contract.balance_of(alice()), 50);
    assert_eq!(contract.balance_of(bob()), 50);
    assert_eq!(
        events[2],
        Event::Transfer(Transfer { from: Some(alice()), to: Some(bob()), value: 50 })
    );
}

#[test]
fn delegated_transfer_beyond_allowance_is_refused() {
    let (mut contract, mut events) = deploy(100);
    assert_eq!(contract.approve(alice(), bob(), 30, &mut events), Ok(()));
    assert_eq!(
        contract.transfer_from(bob(), alice(), charlie(), 31, &mut events),
        Err(Error::InsufficientAllowance)
    );
    assert_eq!(contract.get_allowance(alice(), bob()), 30);
    assert_eq!(contract.balance_of(alice()), 100);
    assert_eq!(contract.balance_of(charlie()), 0);
    assert_eq!(events.len(), 2);
}

#[test]
fn delegated_transfer_short_balance_keeps_allowance_spent() {
    let (mut contract, mut events) = deploy(100);
    assert_eq!(contract.approve(alice(), bob(), 80, &mut events), Ok(()));
    assert_eq!(contract.transfer(alice(), charlie(), 50, &mut events), Ok(()));
    assert_eq!(
        contract.transfer_from(bob(), alice(), bob(), 60, &mut events),
        Err(Error::InsufficientBalance)
    );
    assert_eq!(contract.get_allowance(alice(), bob()), 20);
    assert_eq!(contract.balance_of(alice()), 50);
    assert_eq!(contract.balance_of(bob()), 0);
    assert_eq!(events.len(), 3);
}

#[test]
fn delegated_transfer_matches_direct_transfer() {
    let (mut delegated, mut e1) = deploy(100);
    let (mut direct, mut e2) = deploy(100);
    assert_eq!(delegated.approve(alice(), bob(), 40, &mut e1), Ok(()));
    assert_eq!(delegated.transfer_from(bob(), alice(), charlie(), 25, &mut e1), Ok(()));
    assert_eq!(direct.transfer(alice(), charlie(), 25, &mut e2), Ok(()));
    for a in [alice(), bob(), charlie()] {
        assert_eq!(delegated.balance_of(a), direct.balance_of(a));
    }
    assert_eq!(delegated.get_allowance(alice(), bob()), 15);
}

#[test]
fn account_bytes_compare() {
    assert!(alice().same(&AccountId([0x01; 32])));
    assert!(!alice().same(&bob()));
    let mut bytes = [0x01; 32];
    bytes[31] = 0x00;
    assert!(!alice().same(&AccountId(bytes)));
}
