//! The few outside computations the protocol rests on: the double-SHA256
//! digest that content-addresses transactions, the hash160 that turns a
//! redeem script into an address payload, and the base58check rendering of
//! that payload. Each is named by an uninterpreted spec function — the
//! digests are functions of their input bytes alone — and called through a
//! trusted wrapper into the `bitcoin` crate.

use vstd::prelude::*;

verus! {

/// The double-SHA256 digest of a byte string, 32 bytes.
pub uninterp spec fn sha256d_of(data: Seq<u8>) -> Seq<u8>;

/// The RIPEMD160-of-SHA256 digest of a byte string, 20 bytes.
pub uninterp spec fn hash160_of(data: Seq<u8>) -> Seq<u8>;

/// The base58check rendering of an address payload.
pub uninterp spec fn base58check_of(payload: Seq<u8>) -> Seq<char>;

/// Relies on `bitcoin::hashes::sha256d::Hash::hash`: the double-SHA256
/// digest of the input, 32 bytes, a function of the input bytes alone.
#[verifier::external_body]
pub(crate) fn sha256d(data: &Vec<u8>) -> (r: Vec<u8>)
    ensures
        r@ == sha256d_of(data@),
        r@.len() == 32,
{
    let h = <bitcoin::hashes::sha256d::Hash as bitcoin::hashes::Hash>::hash(data.as_slice());
    bitcoin::hashes::Hash::to_byte_array(h).to_vec()
}

/// Relies on `bitcoin::hashes::hash160::Hash::hash`: the RIPEMD160 of the
/// SHA256 of the input, 20 bytes, a function of the input bytes alone.
#[verifier::external_body]
pub(crate) fn hash160(data: &Vec<u8>) -> (r: Vec<u8>)
    ensures
        r@ == hash160_of(data@),
        r@.len() == 20,
{
    let h = <bitcoin::hashes::hash160::Hash as bitcoin::hashes::Hash>::hash(data.as_slice());
    bitcoin::hashes::Hash::to_byte_array(h).to_vec()
}

/// Relies on `bitcoin::base58::encode_check`: the base58 rendering of the
/// payload followed by its four checksum bytes, a function of the payload
/// alone.
#[verifier::external_body]
pub(crate) fn base58check(payload: &Vec<u8>) -> (r: String)
    ensures
        r@ == base58check_of(payload@),
{
    bitcoin::base58::encode_check(payload.as_slice())
}

} // verus!
