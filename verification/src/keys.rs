//! The viewing-key subsystem.
//!
//! A viewing key is a secret bearer credential per account, used only to
//! authorize read queries. The ledger never stores the key itself: it stores
//! a tagged SHA-256 digest of it. `create_key` derives a fresh key from the
//! invocation context and caller-supplied entropy and returns the plaintext
//! exactly once; `set_key` accepts a caller-chosen key of the fixed length;
//! verification compares digests with a fixed-iteration comparison whose
//! cost — counted in byte comparisons — is the same whether the account has
//! no key, the wrong key, or the right one.

use vstd::prelude::*;
use vstd::bytes::{spec_u64_to_le_bytes, u64_to_le_bytes};
use crate::ledger::{Addr, LedgerView, TokenState, KEY_HASH_LEN};

verus! {

/// Length in bytes of a derived viewing key: the hexadecimal form of its
/// 32-byte digest. `set_key` accepts exactly this length.
pub const VIEWING_KEY_LEN: usize = 64;

/// Domain-separation tag prefixed to the material a fresh key is derived
/// from.
pub const DERIVE_TAG: u8 = 1;

/// Domain-separation tag prefixed to a key before hashing it for storage,
/// so a stored digest can never collide with a derivation digest.
pub const STORE_TAG: u8 = 2;

/// What SHA-256 returns: a function of the input bytes alone.
pub uninterp spec fn sha256_of(data: Seq<u8>) -> Seq<u8>;

/// Relies on `sha2::Sha256::digest`: a 32-byte digest determined by the
/// input bytes alone.
#[verifier::external_body]
fn sha256(data: &[u8]) -> (r: Vec<u8>)
    ensures
        r@ == sha256_of(data@),
        r@.len() == KEY_HASH_LEN,
{
    <sha2::Sha256 as sha2::Digest>::digest(data).to_vec()
}

/// The lowercase hexadecimal digit of a nibble.
pub open spec fn hex_digit(n: int) -> u8
    recommends
        0 <= n < 16,
{
    if n < 10 {
        (48 + n) as u8
    } else {
        (87 + n) as u8
    }
}

/// The lowercase hexadecimal form of a byte string, two digits per byte.
pub open spec fn hex_bytes(s: Seq<u8>) -> Seq<u8>
    decreases s.len(),
{
    if s.len() == 0 {
        Seq::empty()
    } else {
        hex_bytes(s.drop_last()) + seq![
            hex_digit(s.last() as int / 16),
            hex_digit(s.last() as int % 16),
        ]
    }
}

proof fn lemma_hex_bytes_len(s: Seq<u8>)
    ensures
        hex_bytes(s).len() == 2 * s.len(),
    decreases s.len(),
{
    if s.len() > 0 {
        lemma_hex_bytes_len(s.drop_last());
    }
}

fn hex_digit_exec(n: u8) -> (r: u8)
    requires
        n < 16,
    ensures
        r == hex_digit(n as int),
{
    if n < 10 {
        48 + n
    } else {
        87 + n
    }
}

fn hex_encode(data: &[u8]) -> (r: Vec<u8>)
    ensures
        r@ == hex_bytes(data@),
{
    let n = data.len();
    let mut out: Vec<u8> = Vec::new();
    let mut i: usize = 0;
    proof {
        assert(hex_bytes(data@.take(0)) =~= Seq::<u8>::empty());
    }
    while i < n
        invariant
            n == data@.len(),
            i <= n,
            out@ == hex_bytes(data@.take(i as int)),
        decreases n - i,
    {
        let b = data[i];
        proof {
            assert(b >> 4 == b / 16 && b & 15 == b % 16 && b / 16 < 16 && b % 16 < 16) by (bit_vector);
            assert(data@.take(i + 1).drop_last() =~= data@.take(i as int));
            assert(data@.take(i + 1).last() == b);
        }
        out.push(hex_digit_exec(b >> 4));
        out.push(hex_digit_exec(b & 15));
        proof {
            assert(out@ =~= hex_bytes(data@.take(i + 1)));
        }
        i += 1;
    }
    proof {
        assert(data@.take(n as int) =~= data@);
    }
    out
}

/// The bytes a fresh key is derived from: the derivation tag, the block
/// height and time, the calling account, and the caller's entropy.
pub open spec fn derive_material(
    height: u64,
    time: u64,
    sender: Seq<u8>,
    entropy: Seq<u8>,
) -> Seq<u8> {
    seq![DERIVE_TAG] + spec_u64_to_le_bytes(height) + spec_u64_to_le_bytes(time) + sender + entropy
}

/// The plaintext key `create_key` hands back.
pub open spec fn derived_key(height: u64, time: u64, sender: Seq<u8>, entropy: Seq<u8>) -> Seq<u8> {
    hex_bytes(sha256_of(derive_material(height, time, sender, entropy)))
}

/// The digest the ledger persists in place of a key.
pub open spec fn stored_key_hash(key: Seq<u8>) -> Seq<u8> {
    sha256_of(seq![STORE_TAG] + key)
}

impl LedgerView {
    /// The key-record step: the account's digest is replaced, never deleted.
    pub open spec fn set_viewing_key(self, account: Seq<u8>, key: Seq<u8>) -> LedgerView {
        LedgerView { keys: self.keys.insert(account, stored_key_hash(key)), ..self }
    }

    /// Whether a candidate is the account's current viewing key: a key is
    /// set and its stored digest is the candidate's digest.
    pub open spec fn key_matches(self, account: Seq<u8>, candidate: Seq<u8>) -> bool {
        self.keys.contains_key(account) && self.keys[account] == stored_key_hash(candidate)
    }
}

/// Law: a key just created or set for an account verifies against that
/// account.
pub proof fn lemma_set_then_match(v: LedgerView, account: Seq<u8>, key: Seq<u8>)
    ensures
        v.set_viewing_key(account, key).key_matches(account, key),
{
}

/// The outcome of one verification: whether the candidate matched, and how
/// many byte comparisons the check performed. The comparison count is the
/// same on every path — wrong key and absent key included.
pub struct KeyCheck {
    pub authorized: bool,
    pub comparisons: usize,
}

/// The response of `set_key`. It has this same shape whether the key was
/// accepted or rejected: a rejection is signalled only by its content, never
/// by the outer error channel.
pub struct SetKeyResponse {
    pub accepted: bool,
}

/// Fixed-iteration digest comparison: every byte position is visited and
/// XOR-combined into an accumulator; no early exit reveals where the first
/// difference lies.
fn ct_bytes_equal(expected: &[u8], candidate: &[u8]) -> (r: (bool, usize))
    requires
        expected@.len() == KEY_HASH_LEN,
        candidate@.len() == KEY_HASH_LEN,
    ensures
        r.0 <==> expected@ == candidate@,
        r.1 == KEY_HASH_LEN,
{
    let mut acc: u8 = 0;
    let mut i: usize = 0;
    while i < KEY_HASH_LEN
        invariant
            expected@.len() == KEY_HASH_LEN,
            candidate@.len() == KEY_HASH_LEN,
            i <= KEY_HASH_LEN,
            (acc == 0 <==> (forall|j: int| 0 <= j < i ==> expected@[j] == candidate@[j])),
        decreases KEY_HASH_LEN - i,
    {
        let a = expected[i];
        let b = candidate[i];
        let x = a ^ b;
        proof {
            assert(((a ^ b) == 0) == (a == b)) by (bit_vector);
            let acc0 = acc;
            assert(((acc0 | (a ^ b)) == 0) == (acc0 == 0 && (a ^ b) == 0)) by (bit_vector);
        }
        acc = acc | x;
        i += 1;
    }
    proof {
        if acc == 0 {
            assert(expected@ =~= candidate@);
        }
    }
    (acc == 0, KEY_HASH_LEN)
}

impl TokenState {
    /// Hashes a plaintext key under the storage tag and persists the digest
    /// for the account, replacing any earlier key.
    fn write_key_hash(&mut self, account: &Addr, key_plain: &[u8])
        requires
            old(self).wf(),
            account.wf(),
        ensures
            final(self).wf(),
            final(self)@ == old(self)@.set_viewing_key(account@, key_plain@),
    {
        let mut material: Vec<u8> = Vec::new();
        material.push(STORE_TAG);
        material.extend_from_slice(key_plain);
        proof {
            assert(material@ =~= seq![STORE_TAG] + key_plain@);
        }
        let digest = sha256(material.as_slice());
        self.viewing_keys.set(account.as_slice(), digest);
        proof {
            assert(self@ =~= old(self)@.set_viewing_key(account@, key_plain@));
        }
    }

    /// Stores a caller-chosen key. A candidate of the wrong length is *not*
    /// an error: the response merely reports the rejection, in the same
    /// shape a success has, and nothing is stored.
    pub fn set_key(&mut self, account: &Addr, candidate: &[u8]) -> (r: SetKeyResponse)
        requires
            old(self).wf(),
            account.wf(),
        ensures
            final(self).wf(),
            r.accepted <==> candidate@.len() == VIEWING_KEY_LEN,
            candidate@.len() == VIEWING_KEY_LEN ==> final(self)@ == old(self)@.set_viewing_key(
                account@,
                candidate@,
            ),
            candidate@.len() != VIEWING_KEY_LEN ==> *final(self) == *old(self),
    {
        if candidate.len() != VIEWING_KEY_LEN {
            return SetKeyResponse { accepted: false };
        }
        self.write_key_hash(account, candidate);
        SetKeyResponse { accepted: true }
    }

    /// Derives a fresh key from the invocation context and the caller's
    /// entropy, persists its digest, and returns the plaintext — the one
    /// time it is ever visible.
    pub fn create_key(
        &mut self,
        account: &Addr,
        entropy: &[u8],
        block_height: u64,
        block_time: u64,
    ) -> (r: Vec<u8>)
        requires
            old(self).wf(),
            account.wf(),
        ensures
            final(self).wf(),
            r@ == derived_key(block_height, block_time, account@, entropy@),
            r@.len() == VIEWING_KEY_LEN,
            final(self)@ == old(self)@.set_viewing_key(account@, r@),
    {
        let mut material: Vec<u8> = Vec::new();
        material.push(DERIVE_TAG);
        let height_bytes = u64_to_le_bytes(block_height);
        material.extend_from_slice(height_bytes.as_slice());
        proof {
            assert(material@ =~= seq![DERIVE_TAG] + spec_u64_to_le_bytes(block_height));
        }
        let time_bytes = u64_to_le_bytes(block_time);
        material.extend_from_slice(time_bytes.as_slice());
        proof {
            assert(material@ =~= seq![DERIVE_TAG] + spec_u64_to_le_bytes(block_height)
                + spec_u64_to_le_bytes(block_time));
        }
        material.extend_from_slice(account.as_slice());
        proof {
            assert(material@ =~= seq![DERIVE_TAG] + spec_u64_to_le_bytes(block_height)
                + spec_u64_to_le_bytes(block_time) + account@);
        }
        material.extend_from_slice(entropy);
        proof {
            assert(material@ =~= derive_material(block_height, block_time, account@, entropy@));
        }
        let digest = sha256(material.as_slice());
        let key = hex_encode(digest.as_slice());
        proof {
            lemma_hex_bytes_len(digest@);
        }
        self.write_key_hash(account, key.as_slice());
        key
    }

    /// Verifies a candidate key. An absent key is compared against a
    /// fixed-width all-zero placeholder instead of returning early, so the
    /// number of byte comparisons is identical whether the account has no
    /// key or a different one.
    pub fn check_key(&self, account: &Addr, candidate: &[u8]) -> (r: KeyCheck)
        requires
            self.wf(),
            account.wf(),
        ensures
            r.authorized == self@.key_matches(account@, candidate@),
            r.comparisons == KEY_HASH_LEN,
    {
        let mut material: Vec<u8> = Vec::new();
        material.push(STORE_TAG);
        material.extend_from_slice(candidate);
        proof {
            assert(material@ =~= seq![STORE_TAG] + candidate@);
        }
        let candidate_digest = sha256(material.as_slice());
        match self.viewing_keys.get(account.as_slice()) {
            Some(stored) => {
                let (equal, comparisons) = ct_bytes_equal(
                    stored.as_slice(),
                    candidate_digest.as_slice(),
                );
                KeyCheck { authorized: equal, comparisons }
            },
            None => {
                let placeholder: Vec<u8> = vec![0u8; KEY_HASH_LEN];
                let (_equal, comparisons) = ct_bytes_equal(
                    placeholder.as_slice(),
                    candidate_digest.as_slice(),
                );
                // an absent key authorizes nothing, whatever the placeholder
                // comparison returned
                KeyCheck { authorized: false, comparisons }
            },
        }
    }

    /// Whether a candidate is the account's current viewing key.
    pub fn verify(&self, account: &Addr, candidate: &[u8]) -> (r: bool)
        requires
            self.wf(),
            account.wf(),
        ensures
            r == self@.key_matches(account@, candidate@),
    {
        let outcome = self.check_key(account, candidate);
        outcome.authorized
    }
}

} // verus!
