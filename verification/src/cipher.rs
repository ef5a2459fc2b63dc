//! Authenticated encryption of byte strings.
//!
//! The outside cipher is AES-256-GCM.  Its sealing function is known to the
//! proofs only by name ([`seal_of`]); everything the library states about
//! ciphertexts is derived from the contracts of the two trusted calls below.

use vstd::prelude::*;

verus! {

/// Key length of the cipher, in bytes.
pub const KEY_LEN: usize = 32;

/// Nonce length of the cipher, in bytes.
pub const NONCE_LEN: usize = 12;

/// Authentication tag length of the cipher, in bytes.
pub const TAG_LEN: usize = 16;

/// The ciphertext-with-tag that AES-256-GCM produces for a key, nonce,
/// associated data and plaintext.  The result depends on the four arguments
/// alone.
pub uninterp spec fn seal_of(key: Seq<u8>, nonce: Seq<u8>, aad: Seq<u8>, pt: Seq<u8>) -> Seq<
    u8,
>;

/// The plaintext that opening a ciphertext yields: the unique preimage under
/// [`seal_of`], if one exists.
pub open spec fn open_of(key: Seq<u8>, nonce: Seq<u8>, aad: Seq<u8>, ct: Seq<u8>) -> Option<
    Seq<u8>,
> {
    if exists|pt: Seq<u8>| seal_of(key, nonce, aad, pt) == ct {
        Some(choose|pt: Seq<u8>| seal_of(key, nonce, aad, pt) == ct)
    } else {
        None
    }
}

/// Relies on `aes_gcm::AesGcm::encrypt` (via `aead::Aead`): the returned
/// vector is the ciphertext of the plaintext followed by the 16-byte tag,
/// determined by key, nonce, associated data and plaintext; for a fixed key,
/// nonce and associated data the counter-mode body is a bijection and the tag
/// is a function of the rest, so no other plaintext seals to the same output.
/// `aes_gcm::KeyInit::new_from_slice` only turns the key bytes into a cipher
/// instance.
#[verifier::external_body]
fn aead_seal_raw(key: &Vec<u8>, nonce: &Vec<u8>, aad: &Vec<u8>, pt: &Vec<u8>) -> (r: Vec<u8>)
    requires
        key@.len() == KEY_LEN,
        nonce@.len() == NONCE_LEN,
        pt@.len() < 0x1000_0000,
        aad@.len() < 0x1000_0000,
    ensures
        r@ == seal_of(key@, nonce@, aad@, pt@),
        r@.len() == pt@.len() + TAG_LEN,
        forall|pt2: Seq<u8>| seal_of(key@, nonce@, aad@, pt2) == r@ ==> pt2 == pt@,
{
    let cipher = <aes_gcm::Aes256Gcm as aes_gcm::KeyInit>::new_from_slice(key).unwrap();
    let payload = aes_gcm::aead::Payload { msg: pt.as_slice(), aad: aad.as_slice() };
    let nonce = aes_gcm::Nonce::from_slice(nonce.as_slice());
    aes_gcm::aead::Aead::encrypt(&cipher, nonce, payload).unwrap()
}

/// Relies on `aes_gcm::AesGcm::decrypt` (via `aead::Aead`): decryption
/// succeeds exactly on the outputs of sealing with the same key, nonce and
/// associated data, and then returns the plaintext that was sealed.
#[verifier::external_body]
fn aead_open_raw(key: &Vec<u8>, nonce: &Vec<u8>, aad: &Vec<u8>, ct: &Vec<u8>) -> (r: Option<
    Vec<u8>,
>)
    requires
        key@.len() == KEY_LEN,
        nonce@.len() == NONCE_LEN,
    ensures
        r matches Some(p) ==> ct@ == seal_of(key@, nonce@, aad@, p@) && (forall|pt: Seq<u8>|
            seal_of(key@, nonce@, aad@, pt) == ct@ ==> pt == p@),
        r is None ==> (forall|pt: Seq<u8>| seal_of(key@, nonce@, aad@, pt) != ct@),
{
    let cipher = <aes_gcm::Aes256Gcm as aes_gcm::KeyInit>::new_from_slice(key).unwrap();
    let payload = aes_gcm::aead::Payload { msg: ct.as_slice(), aad: aad.as_slice() };
    let nonce = aes_gcm::Nonce::from_slice(nonce.as_slice());
    aes_gcm::aead::Aead::decrypt(&cipher, nonce, payload).ok()
}

/// Relies on `rand::RngCore::fill_bytes` on `rand::thread_rng()`: it fills
/// the whole buffer; nothing further can be promised of random bytes.
#[verifier::external_body]
pub fn random_bytes(n: usize) -> (r: Vec<u8>)
    ensures
        r@.len() == n,
{
    let mut v = vec![0u8; n];
    rand::RngCore::fill_bytes(&mut rand::thread_rng(), &mut v);
    v
}

/// Seals a plaintext.  The result is the GCM ciphertext followed by its tag,
/// and the only byte string that opens to this plaintext under the same key,
/// nonce and associated data.
pub fn aead_seal(key: &Vec<u8>, nonce: &Vec<u8>, aad: &Vec<u8>, pt: &Vec<u8>) -> (r: Vec<u8>)
    requires
        key@.len() == KEY_LEN,
        nonce@.len() == NONCE_LEN,
        pt@.len() < 0x1000_0000,
        aad@.len() < 0x1000_0000,
    ensures
        r@ == seal_of(key@, nonce@, aad@, pt@),
        r@.len() == pt@.len() + TAG_LEN,
        open_of(key@, nonce@, aad@, r@) == Some(pt@),
{
    let r = aead_seal_raw(key, nonce, aad, pt);
    proof {
        let ct = r@;
        assert(seal_of(key@, nonce@, aad@, pt@) == ct);
        let w = choose|p2: Seq<u8>| seal_of(key@, nonce@, aad@, p2) == ct;
        assert(w == pt@);
    }
    r
}

/// Opens a ciphertext: returns the unique plaintext it seals, and fails
/// exactly when the bytes are not a sealing under this key, nonce and
/// associated data.
pub fn aead_open(key: &Vec<u8>, nonce: &Vec<u8>, aad: &Vec<u8>, ct: &Vec<u8>) -> (r: Option<
    Vec<u8>,
>)
    requires
        key@.len() == KEY_LEN,
        nonce@.len() == NONCE_LEN,
    ensures
        (r is Some) == (open_of(key@, nonce@, aad@, ct@) is Some),
        r matches Some(p) ==> open_of(key@, nonce@, aad@, ct@) == Some(p@),
{
    let r = aead_open_raw(key, nonce, aad, ct);
    proof {
        match &r {
            Some(p) => {
                let w = choose|pt: Seq<u8>| seal_of(key@, nonce@, aad@, pt) == ct@;
                assert(seal_of(key@, nonce@, aad@, p@) == ct@);
                assert(w == p@);
            },
            None => {
                if exists|pt: Seq<u8>| seal_of(key@, nonce@, aad@, pt) == ct@ {
                    let w = choose|pt: Seq<u8>| seal_of(key@, nonce@, aad@, pt) == ct@;
                    assert(ct@ == seal_of(key@, nonce@, aad@, w));
                    assert(false);
                }
            },
        }
    }
    r
}

} // verus!
