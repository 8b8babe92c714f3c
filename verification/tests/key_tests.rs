use ctoken::encode::bytes_to_u128;
use ctoken::error::Error;
use ctoken::auth::{denial_message, query, QueryAnswer, QueryRequest};
use ctoken::keys::VIEWING_KEY_LEN;
use ctoken::ledger::{Addr, TokenState, ADDR_LEN, KEY_HASH_LEN};
use ctoken::store::{read_u128, KvStore};

fn addr(tag: u8) -> Addr {
    Addr::new(vec![tag; ADDR_LEN]).unwrap()
}

fn fresh_token(initial: Vec<(Addr, u128)>) -> TokenState {
    TokenState::init("TestToken".to_string(), "TST".to_string(), 6, initial).unwrap()
}

#[test]
fn created_key_round_trips() {
    let a = addr(1);
    let mut state = fresh_token(vec![(a.dup(), 1000)]);
    let key = state.create_key(&a, b"some entropy", 12345, 1_600_000_000);
    assert_eq!(key.len(), VIEWING_KEY_LEN);
    assert!(state.verify(&a, &key));
}

#[test]
fn created_key_is_lowercase_hex() {
    let a = addr(1);
    let mut state = fresh_token(vec![(a.dup(), 1000)]);
    let key = state.create_key(&a, b"entropy", 7, 8);
    for b in &key {
        assert!((b'0'..=b'9').contains(b) || (b'a'..=b'f').contains(b));
    }
}

#[test]
fn any_flipped_bit_fails_verification() {
    let a = addr(1);
    let mut state = fresh_token(vec![(a.dup(), 1000)]);
    let key = state.create_key(&a, b"some entropy", 12345, 1_600_000_000);
    for position in 0..key.len() {
        for bit in 0..8 {
            let mut variant = key.clone();
            variant[position] ^= 1u8 << bit;
            if variant == key {
                continue;
            }
            assert!(!state.verify(&a, &variant));
        }
    }
}

#[test]
fn different_entropy_gives_different_keys() {
    let a = addr(1);
    let b = addr(2);
    let mut state = fresh_token(vec![(a.dup(), 1000)]);
    let first = state.create_key(&a, b"entropy one", 10, 20);
    let second = state.create_key(&b, b"entropy two", 10, 20);
    assert_ne!(first, second);
}

#[test]
fn set_key_rejects_wrong_length_without_erroring() {
    let a = addr(1);
    let mut state = fresh_token(vec![(a.dup(), 1000)]);
    let response = state.set_key(&a, b"too short");
    assert!(!response.accepted);
    // nothing was stored: any candidate is still denied
    assert!(!state.verify(&a, b"too short"));
}

#[test]
fn set_key_stores_full_length_keys_and_replaces_them() {
    let a = addr(1);
    let mut state = fresh_token(vec![(a.dup(), 1000)]);
    let first = vec![b'a'; VIEWING_KEY_LEN];
    let second = vec![b'b'; VIEWING_KEY_LEN];
    assert!(state.set_key(&a, &first).accepted);
    assert!(state.verify(&a, &first));
    assert!(state.set_key(&a, &second).accepted);
    assert!(state.verify(&a, &second));
    assert!(!state.verify(&a, &first));
}

#[test]
fn comparison_count_is_identical_for_unset_and_wrong_keys() {
    let e = addr(5);
    let f = addr(6);
    let mut state = fresh_token(vec![(e.dup(), 10), (f.dup(), 10)]);
    // `f` has a key set, `e` has none
    let real = state.create_key(&f, b"entropy", 1, 2);
    let wrong = vec![b'x'; VIEWING_KEY_LEN];

    let unset_outcome = state.check_key(&e, &wrong);
    let mismatch_outcome = state.check_key(&f, &wrong);
    let match_outcome = state.check_key(&f, &real);

    assert!(!unset_outcome.authorized);
    assert!(!mismatch_outcome.authorized);
    assert!(match_outcome.authorized);
    assert_eq!(unset_outcome.comparisons, KEY_HASH_LEN);
    assert_eq!(mismatch_outcome.comparisons, KEY_HASH_LEN);
    assert_eq!(match_outcome.comparisons, KEY_HASH_LEN);
}

#[test]
fn denial_is_the_same_for_unset_and_wrong_keys() {
    let e = addr(5);
    let f = addr(6);
    let mut state = fresh_token(vec![(e.dup(), 77), (f.dup(), 88)]);
    state.create_key(&f, b"entropy", 1, 2);
    let wrong = vec![b'x'; VIEWING_KEY_LEN];

    let unset_answer = query(&state, &e, &wrong, QueryRequest::Balance);
    let mismatch_answer = query(&state, &f, &wrong, QueryRequest::Balance);
    assert!(matches!(unset_answer, QueryAnswer::Denied));
    assert!(matches!(mismatch_answer, QueryAnswer::Denied));
    assert_eq!(
        denial_message(),
        "Wrong viewing key for this address or viewing key not set"
    );
}

#[test]
fn authorized_queries_see_balance_and_history() {
    let a = addr(1);
    let b = addr(2);
    let mut state = fresh_token(vec![(a.dup(), 1000)]);
    state.transfer(&a, &b, 400).unwrap();
    let key = state.create_key(&a, b"entropy", 1, 2);
    match query(&state, &a, &key, QueryRequest::Balance) {
        QueryAnswer::Balance(amount) => assert_eq!(amount, 600),
        _ => panic!("expected a balance answer"),
    }
    match query(&state, &a, &key, QueryRequest::Transfers) {
        QueryAnswer::Transfers(entries) => {
            assert_eq!(entries.len(), 1);
            assert_eq!(entries[0].counterparty, vec![2u8; ADDR_LEN]);
            assert_eq!(entries[0].amount, 400);
        },
        _ => panic!("expected a transfer listing"),
    }
}

#[test]
fn stored_integers_are_sixteen_byte_big_endian() {
    let one = ctoken::encode::u128_to_be_bytes(1);
    let mut expected = vec![0u8; 15];
    expected.push(1);
    assert_eq!(one, expected);
    let value = 0x0102030405060708090a0b0c0d0e0f10u128;
    let bytes = ctoken::encode::u128_to_be_bytes(value);
    assert_eq!(bytes[0], 0x01);
    assert_eq!(bytes[15], 0x10);
    assert_eq!(bytes_to_u128(&bytes).unwrap(), value);
}

#[test]
fn wrong_width_integers_are_corrupt() {
    assert_eq!(bytes_to_u128(&[1, 2, 3]).unwrap_err(), Error::CorruptStorage);
    assert_eq!(bytes_to_u128(&[0u8; 17]).unwrap_err(), Error::CorruptStorage);

    let mut store = KvStore::new();
    store.set(b"k", vec![1, 2, 3]);
    assert_eq!(read_u128(&store, b"k").unwrap_err(), Error::CorruptStorage);
    assert_eq!(read_u128(&store, b"absent").unwrap(), 0);
    store.set(b"k", ctoken::encode::u128_to_be_bytes(42));
    assert_eq!(read_u128(&store, b"k").unwrap(), 42);
}
