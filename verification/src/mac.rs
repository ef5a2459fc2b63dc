//! The whole-document digest: an authenticated tag over the concatenated
//! canonical texts of every encryptable scalar, itself stored encrypted as
//! an `ENC[...]` value in the metadata block.

use vstd::prelude::*;
use crate::cipher::{KEY_LEN, NONCE_LEN, TAG_LEN, seal_of, aead_seal};
use crate::value::{VAL_LIMIT, value_plain, encrypt_value, decrypt_value};
use crate::enc::ValType;
use crate::bytes::bytes_eq;
use crate::error::Error;

verus! {

/// The all-zero nonce that turns one sealing into a deterministic keyed
/// digest (nothing is ever encrypted under it; only the tag is kept).
pub open spec fn zero_nonce() -> Seq<u8> {
    Seq::new(NONCE_LEN as nat, |i: int| 0u8)
}

/// The digest of the document's canonical plaintext under the data key: the
/// authentication tag that sealing the empty string with the plaintext as
/// associated data produces.
pub open spec fn digest_of(key: Seq<u8>, data: Seq<u8>) -> Seq<u8> {
    seal_of(key, zero_nonce(), data, Seq::empty())
}

/// Associated data under which the digest itself is encrypted.
pub open spec fn mac_aad() -> Seq<u8> {
    seq![109u8, 97u8, 99u8, 58u8]
}

fn zero_nonce_of() -> (r: Vec<u8>)
    ensures
        r@ == zero_nonce(),
{
    let mut out: Vec<u8> = Vec::new();
    let mut i: usize = 0;
    while i < NONCE_LEN
        invariant
            0 <= i <= NONCE_LEN,
            out@.len() == i,
            forall|j: int| 0 <= j < i ==> out@[j] == 0u8,
        decreases NONCE_LEN - i,
    {
        out.push(0);
        i += 1;
    }
    proof {
        assert(out@ =~= zero_nonce());
    }
    out
}

fn mac_aad_of() -> (r: Vec<u8>)
    ensures
        r@ == mac_aad(),
{
    let r: Vec<u8> = vec![109, 97, 99, 58];
    proof {
        assert(r@ =~= mac_aad());
    }
    r
}

/// Computes the digest of the canonical plaintext `data`.
pub fn digest(key: &Vec<u8>, data: &Vec<u8>) -> (r: Vec<u8>)
    requires
        key@.len() == KEY_LEN,
        data@.len() < VAL_LIMIT,
    ensures
        r@ == digest_of(key@, data@),
        r@.len() == TAG_LEN,
{
    let nonce = zero_nonce_of();
    let empty: Vec<u8> = Vec::new();
    let r = aead_seal(key, &nonce, data, &empty);
    proof {
        assert(empty@ =~= Seq::<u8>::empty());
    }
    r
}

/// Computes the digest of `data` and stores it as an `ENC[...]` value.
pub fn seal_mac(key: &Vec<u8>, data: &Vec<u8>) -> (r: Vec<u8>)
    requires
        key@.len() == KEY_LEN,
        data@.len() < VAL_LIMIT,
    ensures
        value_plain(key@, mac_aad(), r@) == Some((digest_of(key@, data@), ValType::Bytes)),
{
    let d = digest(key, data);
    let aad = mac_aad_of();
    encrypt_value(key, &aad, &d, ValType::Bytes)
}

/// Opens a stored `ENC[...]` digest and compares it with the digest of the
/// recomputed canonical plaintext `data`.  `Ok` exactly when the stored
/// value opens under the data key and its bytes equal the fresh digest.
pub fn check_mac(key: &Vec<u8>, stored: &Vec<u8>, data: &Vec<u8>) -> (r: Result<(), Error>)
    requires
        key@.len() == KEY_LEN,
        data@.len() < VAL_LIMIT,
    ensures
        (r is Ok) == (value_plain(key@, mac_aad(), stored@) == Some(
            (digest_of(key@, data@), ValType::Bytes),
        )),
        r matches Err(e) ==> e == Error::MacVerificationError,
{
    let aad = mac_aad_of();
    match decrypt_value(key, &aad, stored) {
        Some((d, ty)) => {
            let fresh = digest(key, data);
            if matches!(ty, ValType::Bytes) && bytes_eq(&d, &fresh) {
                Ok(())
            } else {
                Err(Error::MacVerificationError)
            }
        },
        None => Err(Error::MacVerificationError),
    }
}

} // verus!
