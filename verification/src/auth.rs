//! The query authorization layer.
//!
//! Every read-only request carries an account and a candidate viewing key.
//! Authorization moves from `Unauthorized` to `Authorized` only when the
//! candidate verifies; otherwise the request is answered with one fixed
//! denial payload — the same payload whether no key is set or the wrong key
//! was supplied — and the requested accessor never runs.

use vstd::prelude::*;
use crate::ledger::{Addr, HistoryEntry, HistoryEntryV, TokenState};

verus! {

/// The two states a read-only request can be in.
#[derive(Debug, Clone, Copy, PartialEq, Eq, Structural)]
pub enum AuthState {
    Unauthorized,
    Authorized,
}

/// Where a request lands: `Authorized` exactly when the
/// candidate is the account's current viewing key.
pub open spec fn auth_state(state: TokenState, account: Seq<u8>, candidate: Seq<u8>) -> AuthState {
    if state@.key_matches(account, candidate) {
        AuthState::Authorized
    } else {
        AuthState::Unauthorized
    }
}

/// A read-only request, already routed to its kind.
#[derive(Debug, Clone, Copy, PartialEq, Eq, Structural)]
pub enum QueryRequest {
    Balance,
    Transfers,
}

/// The answer to a read-only request: the fixed denial, or the data.
#[derive(Debug)]
pub enum QueryAnswer {
    Denied,
    Balance(u128),
    Transfers(Vec<HistoryEntry>),
}

/// The one payload every denied query returns, whatever its true cause.
pub fn denial_message() -> (r: &'static str)
    ensures
        r@ == ("Wrong viewing key for this address or viewing key not set")@,
{
    "Wrong viewing key for this address or viewing key not set"
}

/// Authorizes and dispatches one read-only request.
pub fn query(state: &TokenState, account: &Addr, key: &[u8], request: QueryRequest) -> (r:
    QueryAnswer)
    requires
        state.wf(),
        account.wf(),
    ensures
        (r is Denied) <==> auth_state(*state, account@, key@) == AuthState::Unauthorized,
        auth_state(*state, account@, key@) == AuthState::Authorized ==> match request {
            QueryRequest::Balance => r matches QueryAnswer::Balance(b) && b == state@.bal(account@),
            QueryRequest::Transfers => r matches QueryAnswer::Transfers(t) && t@.map_values(
                |e: HistoryEntry| e@,
            ) == state@.history.filter(|e: HistoryEntryV| e.account == account@),
        },
{
    if !state.verify(account, key) {
        return QueryAnswer::Denied;
    }
    match request {
        QueryRequest::Balance => QueryAnswer::Balance(state.read_balance(account)),
        QueryRequest::Transfers => QueryAnswer::Transfers(state.list_transfers(account)),
    }
}

} // verus!
