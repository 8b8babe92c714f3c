//! The ledger accounting engine.
//!
//! A `TokenState` holds the whole durable state of the token: the immutable
//! constants, the total supply, and one isolated namespace per record kind.
//! Every mutating operation is all-or-nothing: it either performs exactly the
//! transition its contract states, or returns an error and leaves the state
//! untouched.
//!
//! The central invariant, part of `TokenState::wf`, is that the total supply
//! always equals the sum of all stored balances. Transfers preserve it by
//! moving value; deposit, withdraw and burn update the supply together with
//! the balance they touch.
//!
//! Allowances are *replaced* by `approve`, never incremented. This is the
//! documented behaviour, and it carries the classic approve-front-running
//! hazard when an owner re-approves a spender that is concurrently spending;
//! that hazard is inherited here deliberately.

use vstd::prelude::*;
use crate::encode::{be_bytes_of, be_value_of, u128_to_be_bytes};
use crate::error::Error;
use crate::store::{read_u128, KvStore};

verus! {

/// Width of a canonical account identifier, in bytes.
pub const ADDR_LEN: usize = 20;

/// Width of a stored viewing-key digest, in bytes.
pub const KEY_HASH_LEN: usize = 32;

/// A canonical account identifier: the fixed-size form an external
/// human-readable address resolves to.
#[derive(Debug)]
pub struct Addr {
    bytes: Vec<u8>,
}

impl View for Addr {
    type V = Seq<u8>;

    closed spec fn view(&self) -> Seq<u8> {
        self.bytes@
    }
}

impl Addr {
    pub open spec fn wf(self) -> bool {
        self@.len() == ADDR_LEN
    }

    /// Accepts exactly the byte strings of canonical width; anything else is
    /// the collaborator's resolution failure.
    pub fn new(bytes: Vec<u8>) -> (r: Result<Addr, Error>)
        ensures
            bytes@.len() == ADDR_LEN ==> (r matches Ok(a) && a@ == bytes@ && a.wf()),
            bytes@.len() != ADDR_LEN ==> (r matches Err(e) && e == Error::InvalidAddress),
    {
        if bytes.len() == ADDR_LEN {
            Ok(Addr { bytes })
        } else {
            Err(Error::InvalidAddress)
        }
    }

    pub fn as_slice(&self) -> (r: &[u8])
        ensures
            r@ == self@,
    {
        self.bytes.as_slice()
    }

    pub fn dup(&self) -> (r: Addr)
        ensures
            r@ == self@,
    {
        Addr { bytes: vstd::slice::slice_to_vec(self.bytes.as_slice()) }
    }
}

/// A name is 3 to 30 bytes.
pub open spec fn spec_valid_name(s: Seq<u8>) -> bool {
    3 <= s.len() <= 30
}

/// A symbol is 3 to 6 uppercase ASCII letters.
pub open spec fn spec_valid_symbol(s: Seq<u8>) -> bool {
    &&& 3 <= s.len() <= 6
    &&& forall|i: int| 0 <= i < s.len() ==> 65 <= #[trigger] s[i] <= 90
}

pub fn is_valid_name(name: &str) -> (r: bool)
    ensures
        r == spec_valid_name(vstd::utf8::encode_utf8(name@)),
{
    let bytes = name.as_bytes();
    3 <= bytes.len() && bytes.len() <= 30
}

pub fn is_valid_symbol(symbol: &str) -> (r: bool)
    ensures
        r == spec_valid_symbol(vstd::utf8::encode_utf8(symbol@)),
{
    let bytes = symbol.as_bytes();
    if bytes.len() < 3 || bytes.len() > 6 {
        return false;
    }
    let n = bytes.len();
    let mut i: usize = 0;
    while i < n
        invariant
            bytes@ == vstd::utf8::encode_utf8(symbol@),
            3 <= n <= 6,
            n == bytes@.len(),
            i <= n,
            forall|j: int| 0 <= j < i ==> 65 <= #[trigger] bytes@[j] <= 90,
        decreases n - i,
    {
        if bytes[i] < 65 || bytes[i] > 90 {
            proof {
                assert(!spec_valid_symbol(bytes@)) by {
                    assert(!(65 <= bytes@[i as int] <= 90));
                }
            }
            return false;
        }
        i += 1;
    }
    true
}

/// The immutable configuration written once at initialization.
#[derive(Debug)]
pub struct Constants {
    pub name: String,
    pub symbol: String,
    pub decimals: u8,
}

/// The mathematical image of `Constants`.
pub struct ConstantsV {
    pub name: Seq<char>,
    pub symbol: Seq<char>,
    pub decimals: u8,
}

impl View for Constants {
    type V = ConstantsV;

    open spec fn view(&self) -> ConstantsV {
        ConstantsV { name: self.name@, symbol: self.symbol@, decimals: self.decimals }
    }
}

impl Constants {
    pub open spec fn valid(self) -> bool {
        &&& spec_valid_name(vstd::utf8::encode_utf8(self.name@))
        &&& spec_valid_symbol(vstd::utf8::encode_utf8(self.symbol@))
        &&& self.decimals <= 18
    }
}

/// One entry of the transfer history: a counterparty and an amount, recorded
/// under the account it concerns.
#[derive(Debug)]
pub struct HistoryEntry {
    pub account: Vec<u8>,
    pub counterparty: Vec<u8>,
    pub amount: u128,
    pub symbol: String,
}

/// The mathematical image of a history entry.
pub struct HistoryEntryV {
    pub account: Seq<u8>,
    pub counterparty: Seq<u8>,
    pub amount: u128,
    pub symbol: Seq<char>,
}

impl View for HistoryEntry {
    type V = HistoryEntryV;

    open spec fn view(&self) -> HistoryEntryV {
        HistoryEntryV {
            account: self.account@,
            counterparty: self.counterparty@,
            amount: self.amount,
            symbol: self.symbol@,
        }
    }
}

/// The action tag a mutation reports back.
#[derive(Debug, Clone, Copy, PartialEq, Eq, Structural)]
pub enum Action {
    Deposit,
    Withdraw,
    Transfer,
    TransferFrom,
    Approve,
    Burn,
}

/// One outbound settlement instruction: pay native currency from the
/// contract's own account to a recipient. The host executes it only if the
/// whole invocation succeeded.
#[derive(Debug)]
pub struct Payout {
    pub from: Vec<u8>,
    pub to: Vec<u8>,
    pub amount: u128,
}

/// What a successful mutation reports: the action, the acting account, the
/// relevant amount, an optional counterparty, and an optional settlement
/// instruction.
#[derive(Debug)]
pub struct Response {
    pub action: Action,
    pub account: Vec<u8>,
    pub counterparty: Option<Vec<u8>>,
    pub amount: u128,
    pub payout: Option<Payout>,
}

/// The byte map of a namespace, read as amounts.
pub open spec fn decoded(m: Map<Seq<u8>, Seq<u8>>) -> Map<Seq<u8>, u128> {
    m.map_values(|v: Seq<u8>| be_value_of(v))
}

proof fn lemma_decoded_insert(m: Map<Seq<u8>, Seq<u8>>, k: Seq<u8>, x: u128)
    ensures
        decoded(m.insert(k, be_bytes_of(x))) == decoded(m).insert(k, x),
{
    broadcast use crate::encode::lemma_be_roundtrip;

    assert(decoded(m.insert(k, be_bytes_of(x))) =~= decoded(m).insert(k, x));
}

/// The key an allowance is stored under: the owner's identifier followed by
/// the spender's. Identifiers have one fixed width, so the pairing is
/// injective (see `lemma_pair_key_injective`).
pub open spec fn pair_key(owner: Seq<u8>, spender: Seq<u8>) -> Seq<u8> {
    owner + spender
}

/// Distinct (owner, spender) pairs of canonical identifiers store their
/// allowances under distinct keys.
pub proof fn lemma_pair_key_injective(o1: Seq<u8>, s1: Seq<u8>, o2: Seq<u8>, s2: Seq<u8>)
    requires
        o1.len() == ADDR_LEN,
        o2.len() == ADDR_LEN,
        pair_key(o1, s1) == pair_key(o2, s2),
    ensures
        o1 == o2,
        s1 == s2,
{
    let p1 = pair_key(o1, s1);
    let p2 = pair_key(o2, s2);
    assert(p1.len() == o1.len() + s1.len());
    assert(p2.len() == o2.len() + s2.len());
    assert(o1 =~= o2) by {
        assert forall|i: int| 0 <= i < ADDR_LEN implies o1[i] == o2[i] by {
            assert(p1[i] == o1[i]);
            assert(p2[i] == o2[i]);
        }
    }
    assert(s1 =~= s2) by {
        assert forall|i: int| 0 <= i < s1.len() implies s1[i] == s2[i] by {
            assert(p1[ADDR_LEN + i] == s1[i]);
            assert(p2[ADDR_LEN + i] == s2[i]);
        }
    }
}

fn pair_key_bytes(owner: &Addr, spender: &Addr) -> (r: Vec<u8>)
    ensures
        r@ == pair_key(owner@, spender@),
{
    let mut v = vstd::slice::slice_to_vec(owner.as_slice());
    v.extend_from_slice(spender.as_slice());
    proof {
        assert(v@ =~= owner@ + spender@);
    }
    v
}

/// The mathematical image of the whole ledger state, over which the
/// operations' transitions are stated.
#[verifier::ext_equal]
pub struct LedgerView {
    pub constants: ConstantsV,
    pub supply: u128,
    pub balances: Map<Seq<u8>, u128>,
    pub allowances: Map<Seq<u8>, u128>,
    pub keys: Map<Seq<u8>, Seq<u8>>,
    pub history: Seq<HistoryEntryV>,
}

impl LedgerView {
    /// The balance of an account; an absent record means zero.
    pub open spec fn bal(self, a: Seq<u8>) -> u128 {
        if self.balances.contains_key(a) {
            self.balances[a]
        } else {
            0
        }
    }

    /// The allowance granted by `owner` to `spender`; absent means zero.
    pub open spec fn allowance(self, owner: Seq<u8>, spender: Seq<u8>) -> u128 {
        if self.allowances.contains_key(pair_key(owner, spender)) {
            self.allowances[pair_key(owner, spender)]
        } else {
            0
        }
    }

    /// Whether crediting `amount` new units stays within the 128-bit range.
    pub open spec fn can_credit(self, amount: u128) -> bool {
        self.supply + amount <= u128::MAX
    }

    /// Creation of units: credit an account and the supply together.
    pub open spec fn credit(self, a: Seq<u8>, amount: u128) -> LedgerView {
        LedgerView {
            supply: (self.supply + amount) as u128,
            balances: self.balances.insert(a, (self.bal(a) + amount) as u128),
            ..self
        }
    }

    /// Whether `a` can pay `amount`.
    pub open spec fn can_debit(self, a: Seq<u8>, amount: u128) -> bool {
        self.bal(a) >= amount
    }

    /// Destruction of units: debit an account and the supply together.
    pub open spec fn debit(self, a: Seq<u8>, amount: u128) -> LedgerView {
        LedgerView {
            supply: (self.supply - amount) as u128,
            balances: self.balances.insert(a, (self.bal(a) - amount) as u128),
            ..self
        }
    }

    /// The balance map after moving `amount` from `from` to `to`: the debit
    /// is written first, then the credit reads the written map, so a
    /// self-transfer leaves the balance unchanged.
    pub open spec fn moved_balances(self, from: Seq<u8>, to: Seq<u8>, amount: u128) -> Map<
        Seq<u8>,
        u128,
    > {
        let debited = self.balances.insert(from, (self.bal(from) - amount) as u128);
        let to_before = if debited.contains_key(to) {
            debited[to]
        } else {
            0
        };
        debited.insert(to, (to_before + amount) as u128)
    }

    /// The two history records a transfer appends: one for the payer, one
    /// for the payee.
    pub open spec fn transfer_records(self, from: Seq<u8>, to: Seq<u8>, amount: u128) -> Seq<
        HistoryEntryV,
    > {
        seq![
            HistoryEntryV {
                account: from,
                counterparty: to,
                amount: amount,
                symbol: self.constants.symbol,
            },
            HistoryEntryV {
                account: to,
                counterparty: from,
                amount: amount,
                symbol: self.constants.symbol,
            },
        ]
    }

    /// The balance step of a transfer alone.
    pub open spec fn perform_transfer(self, from: Seq<u8>, to: Seq<u8>, amount: u128) -> LedgerView {
        LedgerView { balances: self.moved_balances(from, to, amount), ..self }
    }

    /// The history step of a transfer alone.
    pub open spec fn record_transfer(self, from: Seq<u8>, to: Seq<u8>, amount: u128) -> LedgerView {
        LedgerView { history: self.history + self.transfer_records(from, to, amount), ..self }
    }

    /// The allowance step of a delegated transfer alone.
    pub open spec fn spend_allowance(
        self,
        owner: Seq<u8>,
        spender: Seq<u8>,
        amount: u128,
    ) -> LedgerView {
        LedgerView {
            allowances: self.allowances.insert(
                pair_key(owner, spender),
                (self.allowance(owner, spender) - amount) as u128,
            ),
            ..self
        }
    }

    /// A plain transfer: balances move, the supply does not, and both
    /// parties gain a history record.
    pub open spec fn transfer(self, from: Seq<u8>, to: Seq<u8>, amount: u128) -> LedgerView {
        self.perform_transfer(from, to, amount).record_transfer(from, to, amount)
    }

    /// An allowance is replaced, never summed.
    pub open spec fn approve(self, owner: Seq<u8>, spender: Seq<u8>, amount: u128) -> LedgerView {
        LedgerView {
            allowances: self.allowances.insert(pair_key(owner, spender), amount),
            ..self
        }
    }

    /// A delegated transfer: the allowance shrinks by the amount moved, and
    /// the rest is a plain transfer out of the owner's balance.
    pub open spec fn transfer_from(
        self,
        owner: Seq<u8>,
        spender: Seq<u8>,
        to: Seq<u8>,
        amount: u128,
    ) -> LedgerView {
        self.spend_allowance(owner, spender, amount).transfer(owner, to, amount)
    }
}

/// Law: a transfer — delegated or not — moves value between balances and
/// never changes the total supply.
pub proof fn lemma_transfer_preserves_supply(
    v: LedgerView,
    from: Seq<u8>,
    to: Seq<u8>,
    amount: u128,
)
    ensures
        v.transfer(from, to, amount).supply == v.supply,
{
}

/// Law: an allowance is overwritten, never summed — approving the same
/// amount twice in a row leaves exactly that amount approved.
pub proof fn lemma_approve_idempotent(v: LedgerView, owner: Seq<u8>, spender: Seq<u8>, x: u128)
    ensures
        v.approve(owner, spender, x).approve(owner, spender, x) == v.approve(owner, spender, x),
        v.approve(owner, spender, x).allowance(owner, spender) == x,
{
    assert(v.approve(owner, spender, x).approve(owner, spender, x) =~= v.approve(
        owner,
        spender,
        x,
    ));
}

/// The whole durable state of the token.
#[derive(Debug)]
pub struct TokenState {
    pub constants: Option<Constants>,
    pub total_supply: u128,
    pub balances: KvStore,
    pub allowances: KvStore,
    pub viewing_keys: KvStore,
    pub history: Vec<HistoryEntry>,
}

impl View for TokenState {
    type V = LedgerView;

    open spec fn view(&self) -> LedgerView {
        LedgerView {
            constants: match self.constants {
                Some(c) => c@,
                None => ConstantsV { name: Seq::empty(), symbol: Seq::empty(), decimals: 0 },
            },
            supply: self.total_supply,
            balances: decoded(self.balances@),
            allowances: decoded(self.allowances@),
            keys: self.viewing_keys@,
            history: self.history@.map_values(|e: HistoryEntry| e@),
        }
    }
}

impl TokenState {
    /// Well-formedness: initialization has run, every stored record has its
    /// fixed width, and — the supply invariant — the total supply equals the
    /// sum of all stored balances.
    pub open spec fn wf(self) -> bool {
        &&& self.balances.inv()
        &&& self.allowances.inv()
        &&& self.viewing_keys.inv()
        &&& (self.constants matches Some(c) && c.valid())
        &&& forall|k: Seq<u8>|
            #[trigger] self.balances@.contains_key(k) ==> k.len() == ADDR_LEN
                && self.balances@[k].len() == 16
        &&& forall|k: Seq<u8>|
            #[trigger] self.allowances@.contains_key(k) ==> k.len() == 2 * ADDR_LEN
                && self.allowances@[k].len() == 16
        &&& forall|k: Seq<u8>|
            #[trigger] self.viewing_keys@.contains_key(k) ==> k.len() == ADDR_LEN
                && self.viewing_keys@[k].len() == KEY_HASH_LEN
        &&& self.total_supply as int == self.balances.total()
    }

    /// The supply the ledger reports.
    pub fn supply(&self) -> (r: u128)
        ensures
            r == self@.supply,
    {
        self.total_supply
    }

    /// The stored balance of an account.
    pub fn read_balance(&self, account: &Addr) -> (r: u128)
        requires
            self.wf(),
            account.wf(),
        ensures
            r == self@.bal(account@),
    {
        match read_u128(&self.balances, account.as_slice()) {
            Ok(x) => x,
            Err(_) => {
                proof {
                    assert(false);
                }
                0
            },
        }
    }

    /// The stored allowance of a (owner, spender) pair.
    pub fn read_allowance(&self, owner: &Addr, spender: &Addr) -> (r: u128)
        requires
            self.wf(),
            owner.wf(),
            spender.wf(),
        ensures
            r == self@.allowance(owner@, spender@),
    {
        let key = pair_key_bytes(owner, spender);
        match read_u128(&self.allowances, key.as_slice()) {
            Ok(x) => x,
            Err(_) => {
                proof {
                    assert(false);
                }
                0
            },
        }
    }

    /// Creates units: credits an account and the supply together. Shared by
    /// initialization and deposits.
    fn credit(&mut self, account: &Addr, amount: u128) -> (r: Result<(), Error>)
        requires
            old(self).wf(),
            account.wf(),
        ensures
            final(self).wf(),
            (r matches Ok(_)) <==> old(self)@.can_credit(amount),
            r matches Ok(_) ==> final(self)@ == old(self)@.credit(account@, amount),
            r matches Err(e) ==> *final(self) == *old(self) && e == Error::Overflow,
    {
        broadcast use crate::encode::lemma_be_roundtrip;

        if amount > u128::MAX - self.total_supply {
            return Err(Error::Overflow);
        }
        let bal = self.read_balance(account);
        proof {
            if self.balances@.contains_key(account@) {
                self.balances.lemma_value_le_total(account@);
            } else {
                self.balances.lemma_total_nonneg();
            }
        }
        let ghost m0 = self.balances@;
        self.balances.set(account.as_slice(), u128_to_be_bytes(bal + amount));
        self.total_supply = self.total_supply + amount;
        proof {
            lemma_decoded_insert(m0, account@, (bal + amount) as u128);
            assert(self@ =~= old(self)@.credit(account@, amount));
        }
        Ok(())
    }

    /// Destroys units: debits an account and the supply together. Shared by
    /// withdrawals and burns.
    fn debit(&mut self, account: &Addr, amount: u128) -> (r: Result<(), Error>)
        requires
            old(self).wf(),
            account.wf(),
        ensures
            final(self).wf(),
            (r matches Ok(_)) <==> old(self)@.can_debit(account@, amount),
            r matches Ok(_) ==> final(self)@ == old(self)@.debit(account@, amount),
            r matches Err(e) ==> *final(self) == *old(self) && e == Error::InsufficientFunds,
    {
        broadcast use crate::encode::lemma_be_roundtrip;

        let bal = self.read_balance(account);
        if bal < amount {
            return Err(Error::InsufficientFunds);
        }
        proof {
            if self.balances@.contains_key(account@) {
                self.balances.lemma_value_le_total(account@);
            } else {
                self.balances.lemma_total_nonneg();
            }
        }
        let ghost m0 = self.balances@;
        self.balances.set(account.as_slice(), u128_to_be_bytes(bal - amount));
        self.total_supply = self.total_supply - amount;
        proof {
            lemma_decoded_insert(m0, account@, (bal - amount) as u128);
            assert(self@ =~= old(self)@.debit(account@, amount));
        }
        Ok(())
    }

    /// The atomic debit-then-credit at the heart of every transfer: verifies
    /// sufficiency, writes the decremented payer balance, then reads and
    /// writes the payee balance against the already-debited map, so no
    /// intermediate state is ever observable and a self-transfer is a no-op.
    pub fn perform_transfer(&mut self, from: &Addr, to: &Addr, amount: u128) -> (r: Result<
        (),
        Error,
    >)
        requires
            old(self).wf(),
            from.wf(),
            to.wf(),
        ensures
            final(self).wf(),
            (r matches Ok(_)) <==> old(self)@.can_debit(from@, amount),
            r matches Ok(_) ==> final(self)@ == old(self)@.perform_transfer(from@, to@, amount),
            r matches Err(e) ==> *final(self) == *old(self) && e == Error::InsufficientFunds,
    {
        broadcast use crate::encode::lemma_be_roundtrip;

        let from_balance = self.read_balance(from);
        if from_balance < amount {
            return Err(Error::InsufficientFunds);
        }
        proof {
            if self.balances@.contains_key(from@) {
                self.balances.lemma_value_le_total(from@);
            } else {
                self.balances.lemma_total_nonneg();
            }
        }
        let ghost m0 = self.balances@;
        let ghost t0 = self.balances.total();
        self.balances.set(from.as_slice(), u128_to_be_bytes(from_balance - amount));
        proof {
            lemma_decoded_insert(m0, from@, (from_balance - amount) as u128);
            assert(forall|k: Seq<u8>|
                self.balances@.contains_key(k) ==> k.len() == ADDR_LEN && (
                #[trigger] self.balances@[k]).len() == 16);
        }
        let to_balance = match read_u128(&self.balances, to.as_slice()) {
            Ok(x) => x,
            Err(_) => {
                proof {
                    assert(false);
                }
                0
            },
        };
        proof {
            if self.balances@.contains_key(to@) {
                self.balances.lemma_value_le_total(to@);
            } else {
                self.balances.lemma_total_nonneg();
            }
            assert(self.balances.total() == t0 - amount);
        }
        let ghost m1 = self.balances@;
        self.balances.set(to.as_slice(), u128_to_be_bytes(to_balance + amount));
        proof {
            lemma_decoded_insert(m1, to@, (to_balance + amount) as u128);
            assert(self@ =~= old(self)@.perform_transfer(from@, to@, amount));
        }
        Ok(())
    }

    /// Appends the two history records of a completed transfer.
    fn record_transfer(&mut self, from: &Addr, to: &Addr, amount: u128)
        requires
            old(self).wf(),
            from.wf(),
            to.wf(),
        ensures
            final(self).wf(),
            final(self)@ == old(self)@.record_transfer(from@, to@, amount),
    {
        let symbol = match &self.constants {
            Some(c) => c.symbol.clone(),
            None => {
                proof {
                    assert(false);
                }
                String::new()
            },
        };
        let ghost h0 = self.history@;
        let first = HistoryEntry {
            account: vstd::slice::slice_to_vec(from.as_slice()),
            counterparty: vstd::slice::slice_to_vec(to.as_slice()),
            amount: amount,
            symbol: symbol.clone(),
        };
        let second = HistoryEntry {
            account: vstd::slice::slice_to_vec(to.as_slice()),
            counterparty: vstd::slice::slice_to_vec(from.as_slice()),
            amount: amount,
            symbol: symbol,
        };
        self.history.push(first);
        self.history.push(second);
        proof {
            assert(self.history@.map_values(|e: HistoryEntry| e@) =~= h0.map_values(
                |e: HistoryEntry| e@,
            ) + old(self)@.transfer_records(from@, to@, amount));
            assert(self@ =~= old(self)@.record_transfer(from@, to@, amount));
        }
    }

    /// Converts attached native funds into ledger units one to one.
    pub fn deposit(&mut self, sender: &Addr, attached_amount: u128) -> (r: Result<Response, Error>)
        requires
            old(self).wf(),
            sender.wf(),
        ensures
            final(self).wf(),
            (r matches Ok(_)) <==> (attached_amount > 0 && old(self)@.can_credit(attached_amount)),
            r matches Ok(resp) ==> final(self)@ == old(self)@.credit(sender@, attached_amount)
                && resp.action == Action::Deposit && resp.account@ == sender@ && resp.amount
                == attached_amount && resp.counterparty is None && resp.payout is None,
            r matches Err(e) ==> *final(self) == *old(self) && e == (
            if attached_amount == 0 {
                Error::ZeroDeposit
            } else {
                Error::Overflow
            }),
    {
        if attached_amount == 0 {
            return Err(Error::ZeroDeposit);
        }
        match self.credit(sender, attached_amount) {
            Ok(()) => Ok(
                Response {
                    action: Action::Deposit,
                    account: vstd::slice::slice_to_vec(sender.as_slice()),
                    counterparty: None,
                    amount: attached_amount,
                    payout: None,
                },
            ),
            Err(e) => Err(e),
        }
    }

    /// Converts ledger units back into native currency: debits the sender
    /// and hands back the settlement instruction the host must execute. A
    /// failed withdrawal produces no instruction at all.
    pub fn withdraw(&mut self, sender: &Addr, amount: u128, contract: &Addr) -> (r: Result<
        Response,
        Error,
    >)
        requires
            old(self).wf(),
            sender.wf(),
            contract.wf(),
        ensures
            final(self).wf(),
            (r matches Ok(_)) <==> old(self)@.can_debit(sender@, amount),
            r matches Ok(resp) ==> final(self)@ == old(self)@.debit(sender@, amount) && resp.action
                == Action::Withdraw && resp.account@ == sender@ && resp.amount == amount
                && resp.counterparty is None && (resp.payout matches Some(p) && p.from@ == contract@
                && p.to@ == sender@ && p.amount == amount),
            r matches Err(e) ==> *final(self) == *old(self) && e == Error::InsufficientFunds,
    {
        match self.debit(sender, amount) {
            Ok(()) => Ok(
                Response {
                    action: Action::Withdraw,
                    account: vstd::slice::slice_to_vec(sender.as_slice()),
                    counterparty: None,
                    amount: amount,
                    payout: Some(
                        Payout {
                            from: vstd::slice::slice_to_vec(contract.as_slice()),
                            to: vstd::slice::slice_to_vec(sender.as_slice()),
                            amount: amount,
                        },
                    ),
                },
            ),
            Err(e) => Err(e),
        }
    }

    /// Destroys units irreversibly from the owner's balance.
    pub fn burn(&mut self, owner: &Addr, amount: u128) -> (r: Result<Response, Error>)
        requires
            old(self).wf(),
            owner.wf(),
        ensures
            final(self).wf(),
            (r matches Ok(_)) <==> old(self)@.can_debit(owner@, amount),
            r matches Ok(resp) ==> final(self)@ == old(self)@.debit(owner@, amount) && resp.action
                == Action::Burn && resp.account@ == owner@ && resp.amount == amount
                && resp.counterparty is None && resp.payout is None,
            r matches Err(e) ==> *final(self) == *old(self) && e == Error::InsufficientFunds,
    {
        match self.debit(owner, amount) {
            Ok(()) => Ok(
                Response {
                    action: Action::Burn,
                    account: vstd::slice::slice_to_vec(owner.as_slice()),
                    counterparty: None,
                    amount: amount,
                    payout: None,
                },
            ),
            Err(e) => Err(e),
        }
    }

    /// Moves units from the sender to the recipient and records the transfer
    /// for both parties. The supply is untouched.
    pub fn transfer(&mut self, sender: &Addr, recipient: &Addr, amount: u128) -> (r: Result<
        Response,
        Error,
    >)
        requires
            old(self).wf(),
            sender.wf(),
            recipient.wf(),
        ensures
            final(self).wf(),
            (r matches Ok(_)) <==> old(self)@.can_debit(sender@, amount),
            r matches Ok(resp) ==> final(self)@ == old(self)@.transfer(sender@, recipient@, amount)
                && resp.action == Action::Transfer && resp.account@ == sender@ && resp.amount
                == amount && (resp.counterparty matches Some(c) && c@ == recipient@)
                && resp.payout is None,
            r matches Err(e) ==> *final(self) == *old(self) && e == Error::InsufficientFunds,
    {
        match self.perform_transfer(sender, recipient, amount) {
            Ok(()) => {},
            Err(e) => {
                return Err(e);
            },
        }
        self.record_transfer(sender, recipient, amount);
        Ok(
            Response {
                action: Action::Transfer,
                account: vstd::slice::slice_to_vec(sender.as_slice()),
                counterparty: Some(vstd::slice::slice_to_vec(recipient.as_slice())),
                amount: amount,
                payout: None,
            },
        )
    }

    /// Replaces the allowance of a (owner, spender) pair. Never additive.
    pub fn approve(&mut self, owner: &Addr, spender: &Addr, amount: u128) -> (resp: Response)
        requires
            old(self).wf(),
            owner.wf(),
            spender.wf(),
        ensures
            final(self).wf(),
            final(self)@ == old(self)@.approve(owner@, spender@, amount),
            resp.action == Action::Approve && resp.account@ == owner@ && resp.amount == amount && (
            resp.counterparty matches Some(c) && c@ == spender@) && resp.payout is None,
    {
        broadcast use crate::encode::lemma_be_roundtrip;

        let key = pair_key_bytes(owner, spender);
        let ghost m0 = self.allowances@;
        self.allowances.set(key.as_slice(), u128_to_be_bytes(amount));
        proof {
            lemma_decoded_insert(m0, pair_key(owner@, spender@), amount);
            assert(self@ =~= old(self)@.approve(owner@, spender@, amount));
        }
        Response {
            action: Action::Approve,
            account: vstd::slice::slice_to_vec(owner.as_slice()),
            counterparty: Some(vstd::slice::slice_to_vec(spender.as_slice())),
            amount: amount,
            payout: None,
        }
    }

    /// Spends an owner's allowance: the granted amount shrinks, then the
    /// transfer itself runs out of the owner's balance. Insufficient
    /// allowance aborts before any balance is read; either failure leaves
    /// every record — the allowance included — unchanged.
    pub fn transfer_from(
        &mut self,
        spender: &Addr,
        owner: &Addr,
        recipient: &Addr,
        amount: u128,
    ) -> (r: Result<Response, Error>)
        requires
            old(self).wf(),
            spender.wf(),
            owner.wf(),
            recipient.wf(),
        ensures
            final(self).wf(),
            (r matches Ok(_)) <==> (old(self)@.allowance(owner@, spender@) >= amount && old(
                self,
            )@.can_debit(owner@, amount)),
            r matches Ok(resp) ==> final(self)@ == old(self)@.transfer_from(
                owner@,
                spender@,
                recipient@,
                amount,
            ) && resp.action == Action::TransferFrom && resp.account@ == spender@ && resp.amount
                == amount && (resp.counterparty matches Some(c) && c@ == recipient@)
                && resp.payout is None,
            r matches Err(e) ==> *final(self) == *old(self) && e == (
            if old(self)@.allowance(owner@, spender@) < amount {
                Error::InsufficientAllowance
            } else {
                Error::InsufficientFunds
            }),
    {
        broadcast use crate::encode::lemma_be_roundtrip;

        let granted = self.read_allowance(owner, spender);
        if granted < amount {
            return Err(Error::InsufficientAllowance);
        }
        let owner_balance = self.read_balance(owner);
        if owner_balance < amount {
            return Err(Error::InsufficientFunds);
        }
        let key = pair_key_bytes(owner, spender);
        let ghost m0 = self.allowances@;
        self.allowances.set(key.as_slice(), u128_to_be_bytes(granted - amount));
        proof {
            lemma_decoded_insert(m0, pair_key(owner@, spender@), (granted - amount) as u128);
            assert(self@ =~= old(self)@.spend_allowance(owner@, spender@, amount));
        }
        match self.perform_transfer(owner, recipient, amount) {
            Ok(()) => {},
            Err(_) => {
                proof {
                    assert(false);
                }
                return Err(Error::InsufficientFunds);
            },
        }
        self.record_transfer(owner, recipient, amount);
        Ok(
            Response {
                action: Action::TransferFrom,
                account: vstd::slice::slice_to_vec(spender.as_slice()),
                counterparty: Some(vstd::slice::slice_to_vec(recipient.as_slice())),
                amount: amount,
                payout: None,
            },
        )
    }
}

/// The state immediately after the constants are written and before any
/// balance is credited.
pub open spec fn initial_view(c: ConstantsV) -> LedgerView {
    LedgerView {
        constants: c,
        supply: 0,
        balances: Map::empty(),
        allowances: Map::empty(),
        keys: Map::empty(),
        history: Seq::empty(),
    }
}

/// The view after crediting each initial balance in order. Repeated
/// addresses accumulate.
pub open spec fn fold_credits(v: LedgerView, rows: Seq<(Addr, u128)>) -> LedgerView
    decreases rows.len(),
{
    if rows.len() == 0 {
        v
    } else {
        fold_credits(v, rows.drop_last()).credit(rows.last().0@, rows.last().1)
    }
}

/// Whether every credit in the row sequence stays within the 128-bit range.
pub open spec fn credits_ok(v: LedgerView, rows: Seq<(Addr, u128)>) -> bool
    decreases rows.len(),
{
    if rows.len() == 0 {
        true
    } else {
        credits_ok(v, rows.drop_last()) && fold_credits(v, rows.drop_last()).can_credit(
            rows.last().1,
        )
    }
}

proof fn lemma_credits_ok_prefix(v: LedgerView, rows: Seq<(Addr, u128)>, i: int)
    requires
        0 <= i <= rows.len(),
        credits_ok(v, rows),
    ensures
        credits_ok(v, rows.take(i)),
    decreases rows.len(),
{
    if i < rows.len() {
        assert(rows.take(i) =~= rows.drop_last().take(i));
        lemma_credits_ok_prefix(v, rows.drop_last(), i);
    } else {
        assert(rows.take(i) =~= rows);
    }
}

impl TokenState {
    /// One-time setup: validates the constants, writes them, and credits the
    /// initial balances into both the balance records and the total supply,
    /// so the supply invariant holds from the very first state.
    pub fn init(
        name: String,
        symbol: String,
        decimals: u8,
        initial_balances: Vec<(Addr, u128)>,
    ) -> (r: Result<TokenState, Error>)
        requires
            forall|i: int|
                0 <= i < initial_balances@.len() ==> (#[trigger] initial_balances@[i]).0.wf(),
        ensures
            (r matches Ok(_)) <==> (spec_valid_name(vstd::utf8::encode_utf8(name@))
                && spec_valid_symbol(vstd::utf8::encode_utf8(symbol@)) && decimals <= 18
                && credits_ok(
                initial_view(ConstantsV { name: name@, symbol: symbol@, decimals }),
                initial_balances@,
            )),
            r matches Ok(s) ==> s.wf() && s@ == fold_credits(
                initial_view(ConstantsV { name: name@, symbol: symbol@, decimals }),
                initial_balances@,
            ),
            r matches Err(e) ==> e == (
            if !(spec_valid_name(vstd::utf8::encode_utf8(name@)) && spec_valid_symbol(
                vstd::utf8::encode_utf8(symbol@),
            ) && decimals <= 18) {
                Error::InvalidFormat
            } else {
                Error::Overflow
            }),
    {
        let ghost cv = ConstantsV { name: name@, symbol: symbol@, decimals };
        if !is_valid_name(name.as_str()) {
            return Err(Error::InvalidFormat);
        }
        if !is_valid_symbol(symbol.as_str()) {
            return Err(Error::InvalidFormat);
        }
        if decimals > 18 {
            return Err(Error::InvalidFormat);
        }
        let mut state = TokenState {
            constants: Some(Constants { name: name.clone(), symbol: symbol.clone(), decimals }),
            total_supply: 0,
            balances: KvStore::new(),
            allowances: KvStore::new(),
            viewing_keys: KvStore::new(),
            history: Vec::new(),
        };
        proof {
            assert(decoded(state.balances@) =~= Map::<Seq<u8>, u128>::empty());
            assert(decoded(state.allowances@) =~= Map::<Seq<u8>, u128>::empty());
            assert(state.history@.map_values(|e: HistoryEntry| e@) =~= Seq::<
                HistoryEntryV,
            >::empty());
            assert(state@ =~= initial_view(cv));
        }
        let n = initial_balances.len();
        let mut i: usize = 0;
        while i < n
            invariant
                n == initial_balances@.len(),
                i <= n,
                forall|j: int|
                    0 <= j < initial_balances@.len() ==> (#[trigger] initial_balances@[j]).0.wf(),
                cv == (ConstantsV { name: name@, symbol: symbol@, decimals }),
                (state.constants matches Some(c) && c@ == cv),
                state.wf(),
                state@ == fold_credits(initial_view(cv), initial_balances@.take(i as int)),
                credits_ok(initial_view(cv), initial_balances@.take(i as int)),
            decreases n - i,
        {
            let row = &initial_balances[i];
            let ghost prefix = initial_balances@.take(i as int);
            proof {
                assert(initial_balances@.take(i + 1).drop_last() =~= prefix);
                assert(initial_balances@.take(i + 1).last() == initial_balances@[i as int]);
            }
            match state.credit(&row.0, row.1) {
                Ok(()) => {},
                Err(e) => {
                    proof {
                        if credits_ok(initial_view(cv), initial_balances@) {
                            lemma_credits_ok_prefix(
                                initial_view(cv),
                                initial_balances@,
                                i + 1,
                            );
                        }
                    }
                    return Err(e);
                },
            }
            i += 1;
        }
        proof {
            assert(initial_balances@.take(n as int) =~= initial_balances@);
        }
        Ok(state)
    }

    /// The constants written at initialization.
    pub fn constants_ref(&self) -> (r: &Constants)
        requires
            self.wf(),
        ensures
            r@ == self@.constants,
    {
        match &self.constants {
            Some(c) => c,
            None => {
                proof {
                    assert(false);
                }
                vstd::pervasive::unreached()
            },
        }
    }

    /// The recorded transfers that concern one account, oldest first.
    pub fn list_transfers(&self, account: &Addr) -> (r: Vec<HistoryEntry>)
        requires
            self.wf(),
            account.wf(),
        ensures
            r@.map_values(|e: HistoryEntry| e@) == self@.history.filter(
                |e: HistoryEntryV| e.account == account@,
            ),
    {
        let ghost pred = |e: HistoryEntryV| e.account == account@;
        let mut out: Vec<HistoryEntry> = Vec::new();
        let n = self.history.len();
        let mut i: usize = 0;
        proof {
            assert(self.history@.take(0).map_values(|e: HistoryEntry| e@) =~= Seq::<
                HistoryEntryV,
            >::empty());
            assert(Seq::<HistoryEntryV>::empty().filter(pred) =~= Seq::<HistoryEntryV>::empty())
                by {
                reveal(Seq::filter);
            }
            assert(out@.map_values(|e: HistoryEntry| e@) =~= Seq::<HistoryEntryV>::empty());
        }
        while i < n
            invariant
                n == self.history@.len(),
                i <= n,
                pred == (|e: HistoryEntryV| e.account == account@),
                out@.map_values(|e: HistoryEntry| e@) == self.history@.take(i as int).map_values(
                    |e: HistoryEntry| e@,
                ).filter(pred),
            decreases n - i,
        {
            let ghost views_before = self.history@.take(i as int).map_values(
                |e: HistoryEntry| e@,
            );
            proof {
                assert(self.history@.take(i + 1) =~= self.history@.take(i as int).push(
                    self.history@[i as int],
                ));
                assert(self.history@.take(i + 1).map_values(|e: HistoryEntry| e@)
                    =~= views_before.push(self.history@[i as int]@));
                lemma_filter_push(views_before, self.history@[i as int]@, pred);
            }
            let entry = &self.history[i];
            if crate::store::bytes_eq(entry.account.as_slice(), account.as_slice()) {
                let copy = HistoryEntry {
                    account: vstd::slice::slice_to_vec(entry.account.as_slice()),
                    counterparty: vstd::slice::slice_to_vec(entry.counterparty.as_slice()),
                    amount: entry.amount,
                    symbol: entry.symbol.clone(),
                };
                let ghost out_before = out@;
                out.push(copy);
                proof {
                    assert(out@.map_values(|e: HistoryEntry| e@) =~= out_before.map_values(
                        |e: HistoryEntry| e@,
                    ).push(self.history@[i as int]@));
                }
            }
            i += 1;
        }
        proof {
            assert(self.history@.take(n as int) =~= self.history@);
            assert(self.history@.map_values(|e: HistoryEntry| e@) == self@.history);
        }
        out
    }
}

proof fn lemma_filter_push<A>(s: Seq<A>, x: A, pred: spec_fn(A) -> bool)
    ensures
        s.push(x).filter(pred) == (
        if pred(x) {
            s.filter(pred).push(x)
        } else {
            s.filter(pred)
        }),
{
    reveal(Seq::filter);
    assert(s.push(x).drop_last() =~= s);
    assert(s.push(x).last() == x);
}

/// Law: in every well-formed state the total supply equals the sum of all
/// stored balances; every operation of this module requires and re-ensures
/// well-formedness, so the equality holds after every completed invocation.
pub proof fn lemma_supply_is_balance_sum(s: TokenState)
    requires
        s.wf(),
    ensures
        s.total_supply as int == s.balances.total(),
{
}

} // verus!
