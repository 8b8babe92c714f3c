//! Fixed-width integer encoding of the storage layer.
//!
//! Every amount the ledger persists is a 16-byte big-endian value. A stored
//! integer of any other width is corrupt and is reported as such rather than
//! silently truncated.

use vstd::prelude::*;
use vstd::bytes::{
    lemma_auto_spec_u128_to_from_le_bytes, spec_u128_from_le_bytes, spec_u128_to_le_bytes,
    u128_from_le_bytes, u128_to_le_bytes,
};
use crate::error::Error;

verus! {

/// The 16-byte big-endian encoding of an amount.
pub open spec fn be_bytes_of(x: u128) -> Seq<u8> {
    spec_u128_to_le_bytes(x).reverse()
}

/// The amount a well-formed (16-byte) stored value denotes.
pub open spec fn be_value_of(s: Seq<u8>) -> u128
    recommends
        s.len() == 16,
{
    spec_u128_from_le_bytes(s.reverse())
}

/// The amount a stored value contributes to a namespace total: its decoded
/// value when well-formed, nothing otherwise.
pub open spec fn stored_amount(s: Seq<u8>) -> int {
    if s.len() == 16 {
        be_value_of(s) as int
    } else {
        0
    }
}

/// Encoding and decoding are mutually inverse on well-formed values.
pub broadcast proof fn lemma_be_roundtrip(x: u128)
    ensures
        (#[trigger] be_bytes_of(x)).len() == 16,
        be_value_of(be_bytes_of(x)) == x,
        stored_amount(be_bytes_of(x)) == x,
{
    lemma_auto_spec_u128_to_from_le_bytes();
    assert(spec_u128_to_le_bytes(x).reverse().reverse() =~= spec_u128_to_le_bytes(x));
}

/// Writes an amount in the storage layer's fixed-width form.
pub fn u128_to_be_bytes(x: u128) -> (r: Vec<u8>)
    ensures
        r@ == be_bytes_of(x),
        r@.len() == 16,
{
    let le = u128_to_le_bytes(x);
    let mut r: Vec<u8> = Vec::new();
    let mut i: usize = 16;
    while i > 0
        invariant
            le@ == spec_u128_to_le_bytes(x),
            le@.len() == 16,
            i <= 16,
            r@.len() == 16 - i,
            forall|j: int| 0 <= j < r@.len() ==> r@[j] == le@[15 - j],
        decreases i,
    {
        i = i - 1;
        r.push(le[i]);
    }
    proof {
        assert(r@ =~= be_bytes_of(x));
    }
    r
}

/// Decodes a 16-byte big-endian amount; any other width is corrupt storage.
pub fn bytes_to_u128(data: &[u8]) -> (r: Result<u128, Error>)
    ensures
        data@.len() == 16 ==> r == Ok::<u128, Error>(be_value_of(data@)),
        data@.len() != 16 ==> r == Err::<u128, Error>(Error::CorruptStorage),
{
    if data.len() != 16 {
        return Err(Error::CorruptStorage);
    }
    let mut le: Vec<u8> = Vec::new();
    let mut i: usize = 16;
    while i > 0
        invariant
            data@.len() == 16,
            i <= 16,
            le@.len() == 16 - i,
            forall|j: int| 0 <= j < le@.len() ==> le@[j] == data@[15 - j],
        decreases i,
    {
        i = i - 1;
        le.push(data[i]);
    }
    proof {
        assert(le@ =~= data@.reverse());
    }
    Ok(u128_from_le_bytes(le.as_slice()))
}

} // verus!
