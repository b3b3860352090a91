//! The content hash over a transaction's canonical encoding, used by the
//! failure diagnostics. The digest itself is computed by an outside crate;
//! its value is referred to by name only.

use vstd::prelude::*;

use sha2::Digest;

use crate::codec::{encode_transaction, spec_encode_tx};
use crate::tx::Transaction;

verus! {

pub uninterp spec fn sha256_of(b: Seq<u8>) -> Seq<u8>;

/// Relies on sha2's `Sha256::digest`: a 32-byte digest that depends on the
/// input bytes alone.
#[verifier::external_body]
fn sha256(b: &Vec<u8>) -> (r: Vec<u8>)
    ensures
        r@ == sha256_of(b@),
        r@.len() == 32,
{
    sha2::Sha256::digest(b.as_slice()).to_vec()
}

/// The content hash of a transaction: the digest of its canonical encoding.
pub fn tx_hash(t: &Transaction) -> (r: Vec<u8>)
    ensures
        r@ == sha256_of(spec_encode_tx(t@)),
        r@.len() == 32,
{
    let encoded = encode_transaction(t);
    sha256(&encoded)
}

} // verus!
