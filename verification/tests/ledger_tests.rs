use ctoken::error::Error;
use ctoken::auth::{query, QueryAnswer, QueryRequest};
use ctoken::ledger::{Action, Addr, TokenState, ADDR_LEN};

fn addr(tag: u8) -> Addr {
    Addr::new(vec![tag; ADDR_LEN]).unwrap()
}

fn fresh_token(initial: Vec<(Addr, u128)>) -> TokenState {
    TokenState::init(
        "TestToken".to_string(),
        "TST".to_string(),
        6,
        initial,
    )
    .unwrap()
}

#[test]
fn init_writes_supply_and_balance() {
    let a = addr(1);
    let state = fresh_token(vec![(a.dup(), 1000)]);
    assert_eq!(state.supply(), 1000);
    assert_eq!(state.read_balance(&a), 1000);
    let c = state.constants_ref();
    assert_eq!(c.name, "TestToken");
    assert_eq!(c.symbol, "TST");
    assert_eq!(c.decimals, 6);
}

#[test]
fn init_accumulates_duplicate_addresses() {
    let a = addr(1);
    let state = fresh_token(vec![(a.dup(), 300), (a.dup(), 700)]);
    assert_eq!(state.read_balance(&a), 1000);
    assert_eq!(state.supply(), 1000);
}

#[test]
fn init_rejects_bad_formats() {
    let a = addr(1);
    assert_eq!(
        TokenState::init("ab".to_string(), "TST".to_string(), 6, vec![]).unwrap_err(),
        Error::InvalidFormat
    );
    assert_eq!(
        TokenState::init("TestToken".to_string(), "tst".to_string(), 6, vec![]).unwrap_err(),
        Error::InvalidFormat
    );
    assert_eq!(
        TokenState::init("TestToken".to_string(), "TST".to_string(), 19, vec![(a, 5)])
            .unwrap_err(),
        Error::InvalidFormat
    );
}

#[test]
fn init_rejects_overflowing_totals() {
    let a = addr(1);
    let b = addr(2);
    let err = TokenState::init(
        "TestToken".to_string(),
        "TST".to_string(),
        6,
        vec![(a, u128::MAX), (b, 1)],
    )
    .unwrap_err();
    assert_eq!(err, Error::Overflow);
}

#[test]
fn transfer_moves_balance_and_keeps_supply() {
    let a = addr(1);
    let b = addr(2);
    let mut state = fresh_token(vec![(a.dup(), 1000)]);
    let resp = state.transfer(&a, &b, 400).unwrap();
    assert_eq!(state.read_balance(&a), 600);
    assert_eq!(state.read_balance(&b), 400);
    assert_eq!(state.supply(), 1000);
    assert_eq!(resp.action, Action::Transfer);
    assert_eq!(resp.amount, 400);
    // one history record for each party
    let a_history = state.list_transfers(&a);
    let b_history = state.list_transfers(&b);
    assert_eq!(a_history.len(), 1);
    assert_eq!(b_history.len(), 1);
    assert_eq!(a_history[0].counterparty, vec![2u8; ADDR_LEN]);
    assert_eq!(a_history[0].amount, 400);
    assert_eq!(a_history[0].symbol, "TST");
    assert_eq!(b_history[0].counterparty, vec![1u8; ADDR_LEN]);
}

#[test]
fn transfer_with_insufficient_funds_changes_nothing() {
    let a = addr(1);
    let b = addr(2);
    let mut state = fresh_token(vec![(a.dup(), 100)]);
    let err = state.transfer(&a, &b, 101).unwrap_err();
    assert_eq!(err, Error::InsufficientFunds);
    assert_eq!(state.read_balance(&a), 100);
    assert_eq!(state.read_balance(&b), 0);
    assert_eq!(state.supply(), 100);
    assert_eq!(state.list_transfers(&a).len(), 0);
}

#[test]
fn self_transfer_keeps_balance() {
    let a = addr(1);
    let mut state = fresh_token(vec![(a.dup(), 1000)]);
    state.transfer(&a, &a, 250).unwrap();
    assert_eq!(state.read_balance(&a), 1000);
    assert_eq!(state.supply(), 1000);
}

#[test]
fn approve_overwrites_instead_of_adding() {
    let a = addr(1);
    let c = addr(3);
    let mut state = fresh_token(vec![(a.dup(), 1000)]);
    state.approve(&a, &c, 70);
    state.approve(&a, &c, 70);
    assert_eq!(state.read_allowance(&a, &c), 70);
    state.approve(&a, &c, 10);
    assert_eq!(state.read_allowance(&a, &c), 10);
}

#[test]
fn transfer_from_over_allowance_fails_and_changes_nothing() {
    let a = addr(1);
    let c = addr(3);
    let d = addr(4);
    let mut state = fresh_token(vec![(a.dup(), 1000)]);
    state.approve(&a, &c, 100);
    let err = state.transfer_from(&c, &a, &d, 150).unwrap_err();
    assert_eq!(err, Error::InsufficientAllowance);
    assert_eq!(state.read_balance(&a), 1000);
    assert_eq!(state.read_balance(&d), 0);
    assert_eq!(state.read_allowance(&a, &c), 100);
}

#[test]
fn transfer_from_within_allowance_moves_and_decrements() {
    let a = addr(1);
    let c = addr(3);
    let d = addr(4);
    let mut state = fresh_token(vec![(a.dup(), 1000)]);
    state.approve(&a, &c, 100);
    let resp = state.transfer_from(&c, &a, &d, 60).unwrap();
    assert_eq!(resp.action, Action::TransferFrom);
    assert_eq!(state.read_allowance(&a, &c), 40);
    assert_eq!(state.read_balance(&a), 940);
    assert_eq!(state.read_balance(&d), 60);
    assert_eq!(state.supply(), 1000);
}

#[test]
fn transfer_from_over_balance_rolls_back_allowance() {
    let a = addr(1);
    let c = addr(3);
    let d = addr(4);
    let mut state = fresh_token(vec![(a.dup(), 50)]);
    state.approve(&a, &c, 100);
    let err = state.transfer_from(&c, &a, &d, 60).unwrap_err();
    assert_eq!(err, Error::InsufficientFunds);
    assert_eq!(state.read_allowance(&a, &c), 100);
    assert_eq!(state.read_balance(&a), 50);
    assert_eq!(state.read_balance(&d), 0);
}

#[test]
fn deposit_credits_and_raises_supply() {
    let a = addr(1);
    let mut state = fresh_token(vec![(a.dup(), 1000)]);
    let resp = state.deposit(&a, 25).unwrap();
    assert_eq!(resp.action, Action::Deposit);
    assert!(resp.payout.is_none());
    assert_eq!(state.read_balance(&a), 1025);
    assert_eq!(state.supply(), 1025);
}

#[test]
fn deposit_of_nothing_is_rejected() {
    let a = addr(1);
    let mut state = fresh_token(vec![(a.dup(), 1000)]);
    let err = state.deposit(&a, 0).unwrap_err();
    assert_eq!(err, Error::ZeroDeposit);
    assert_eq!(state.supply(), 1000);
}

#[test]
fn deposit_past_the_supply_limit_overflows() {
    let a = addr(1);
    let b = addr(2);
    let mut state = fresh_token(vec![(a.dup(), u128::MAX)]);
    let err = state.deposit(&b, 1).unwrap_err();
    assert_eq!(err, Error::Overflow);
    assert_eq!(state.supply(), u128::MAX);
    assert_eq!(state.read_balance(&b), 0);
}

#[test]
fn withdraw_debits_and_emits_payout() {
    let a = addr(1);
    let contract = addr(9);
    let mut state = fresh_token(vec![(a.dup(), 1000)]);
    let resp = state.withdraw(&a, 300, &contract).unwrap();
    assert_eq!(resp.action, Action::Withdraw);
    let payout = resp.payout.unwrap();
    assert_eq!(payout.from, vec![9u8; ADDR_LEN]);
    assert_eq!(payout.to, vec![1u8; ADDR_LEN]);
    assert_eq!(payout.amount, 300);
    assert_eq!(state.read_balance(&a), 700);
    assert_eq!(state.supply(), 700);
}

#[test]
fn withdraw_over_balance_fails_without_payout() {
    let a = addr(1);
    let contract = addr(9);
    let mut state = fresh_token(vec![(a.dup(), 1000)]);
    let err = state.withdraw(&a, 1001, &contract).unwrap_err();
    assert_eq!(err, Error::InsufficientFunds);
    assert_eq!(state.read_balance(&a), 1000);
    assert_eq!(state.supply(), 1000);
}

#[test]
fn burn_destroys_units() {
    let a = addr(1);
    let mut state = fresh_token(vec![(a.dup(), 1000)]);
    let resp = state.burn(&a, 400).unwrap();
    assert_eq!(resp.action, Action::Burn);
    assert_eq!(state.read_balance(&a), 600);
    assert_eq!(state.supply(), 600);
    let err = state.burn(&a, 601).unwrap_err();
    assert_eq!(err, Error::InsufficientFunds);
    assert_eq!(state.supply(), 600);
}

#[test]
fn supply_tracks_balances_over_mixed_operations() {
    let a = addr(1);
    let b = addr(2);
    let contract = addr(9);
    let mut state = fresh_token(vec![(a.dup(), 500), (b.dup(), 500)]);
    state.deposit(&a, 200).unwrap();
    state.transfer(&a, &b, 150).unwrap();
    state.withdraw(&b, 100, &contract).unwrap();
    state.burn(&a, 50).unwrap();
    let sum = state.read_balance(&a) + state.read_balance(&b);
    assert_eq!(state.supply(), sum);
    assert_eq!(state.read_balance(&a), 500);
    assert_eq!(state.read_balance(&b), 550);
}

#[test]
fn bad_address_bytes_are_rejected() {
    assert_eq!(Addr::new(vec![1u8; 3]).unwrap_err(), Error::InvalidAddress);
    assert!(Addr::new(vec![1u8; ADDR_LEN]).is_ok());
}

#[test]
fn queries_without_authorization_are_denied() {
    let e = addr(5);
    let state = fresh_token(vec![(e.dup(), 1000)]);
    // no key was ever set for this account
    let answer = query(&state, &e, b"whatever candidate", QueryRequest::Balance);
    assert!(matches!(answer, QueryAnswer::Denied));
}

#[test]
fn allowance_is_checked_before_balance() {
    // both the allowance and the balance are short: the allowance failure wins
    let a = addr(1);
    let c = addr(3);
    let d = addr(4);
    let mut state = fresh_token(vec![(a.dup(), 10)]);
    state.approve(&a, &c, 20);
    let err = state.transfer_from(&c, &a, &d, 30).unwrap_err();
    assert_eq!(err, Error::InsufficientAllowance);
}

#[test]
fn unauthorized_history_queries_are_denied_too() {
    let a = addr(1);
    let b = addr(2);
    let mut state = fresh_token(vec![(a.dup(), 1000)]);
    state.transfer(&a, &b, 5).unwrap();
    let answer = query(&state, &a, b"not the key", QueryRequest::Transfers);
    assert!(matches!(answer, QueryAnswer::Denied));
}
