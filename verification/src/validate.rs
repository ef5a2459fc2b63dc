//! One-call drivers matching the validation harness of the reference tool:
//! a single encryption or decryption of a whole YAML document, run through
//! the engine with the local key backend.

use vstd::prelude::*;
use crate::api::{Format, encrypt_bytes, decrypt_bytes};
use crate::walk::{WalkCfg, WalkCfgV};
use crate::keysvc::{LocalKeyService, KeyKind};
use crate::error::Error;
use crate::tree::{clone_bytes, NodeV};
use crate::doc::{doc_enc_rel, doc_decrypts_to};
use crate::meta::MetadataV;
use crate::yaml::{yaml_block, yaml_parse};

verus! {

/// `"_unencrypted"`.
pub open spec fn default_suffix_s() -> Seq<u8> {
    seq![
        95u8, 117u8, 110u8, 101u8, 110u8, 99u8, 114u8, 121u8, 112u8, 116u8, 101u8, 100u8,
    ]
}

/// The walker configuration these drivers run with: the default cleartext
/// suffix, comments encrypted.
pub open spec fn default_cfg_s() -> WalkCfgV {
    WalkCfgV { suffix: default_suffix_s(), encrypt_comments: true }
}

/// The default cleartext key suffix, `"_unencrypted"`.
pub fn default_suffix() -> (r: Vec<u8>)
    ensures
        r@ == default_suffix_s(),
{
    let r: Vec<u8> = vec![95, 117, 110, 101, 110, 99, 114, 121, 112, 116, 101, 100];
    proof {
        assert(r@ =~= default_suffix_s());
    }
    r
}

/// Encrypts one YAML document end to end, as the validation harness drives
/// a single encryption: every scalar and comment sealed under a fresh data
/// key, the key wrapped by the named local master key, metadata attached.
pub fn encrypt_with_sops_python(
    plaintext: &Vec<u8>,
    svc: &LocalKeyService,
    master_id: &Vec<u8>,
) -> (r: Result<Vec<u8>, Error>)
    ensures
        r matches Ok(b) ==> (exists|t: NodeV, o: NodeV, dk: Seq<u8>, mv: MetadataV|
            yaml_parse(plaintext@) == Some(t) && #[trigger] doc_enc_rel(
                svc,
                t,
                o,
                dk,
                mv,
                default_cfg_s(),
                Seq::empty(),
                0,
            ) && yaml_block(o, 0) == Some(b@)),
        r matches Err(e) ==> e == Error::ParseError || e == Error::KeyRecoveryError || e
            == Error::CipherError || e == Error::SerializeError,
{
    let cfg = WalkCfg { unencrypted_suffix: default_suffix(), encrypt_comments: true };
    let mut group: Vec<(KeyKind, Vec<u8>)> = Vec::new();
    group.push((KeyKind::Local, clone_bytes(master_id)));
    let mut recipients: Vec<Vec<(KeyKind, Vec<u8>)>> = Vec::new();
    recipients.push(group);
    let lastmodified: Vec<u8> = Vec::new();
    let r = encrypt_bytes(plaintext, Format::Yaml, svc, &recipients, 0, &cfg, &lastmodified);
    proof {
        assert(cfg@ == default_cfg_s());
        match &r {
            Ok(b) => {
                let (t, o, dk, mv) = choose|t: NodeV, o: NodeV, dk: Seq<u8>, mv: MetadataV|
                    yaml_parse(plaintext@) == Some(t) && #[trigger] doc_enc_rel(
                        svc,
                        t,
                        o,
                        dk,
                        mv,
                        cfg@,
                        lastmodified@,
                        0,
                    ) && yaml_block(o, 0) == Some(b@);
                assert(lastmodified@ =~= Seq::<u8>::empty());
                assert(doc_enc_rel(svc, t, o, dk, mv, default_cfg_s(), Seq::empty(), 0));
            },
            Err(_) => {},
        }
    }
    r
}

/// Decrypts one YAML document end to end, as the validation harness drives
/// a single decryption: the data key recovered through the local backend,
/// every value opened, the digest verified.
pub fn decrypt_with_sops_python(ciphertext: &Vec<u8>, svc: &LocalKeyService) -> (r: Result<
    Vec<u8>,
    Error,
>)
    ensures
        r matches Ok(b) ==> (exists|t: NodeV, d: NodeV|
            yaml_parse(ciphertext@) == Some(t) && #[trigger] doc_decrypts_to(
                svc,
                t,
                false,
                d,
            ) && yaml_block(d, 0) == Some(b@)),
        r matches Err(e) ==> e == Error::ParseError || e == Error::KeyRecoveryError || e
            == Error::CipherError || e == Error::MacVerificationError || e
            == Error::SerializeError,
{
    decrypt_bytes(ciphertext, Format::Yaml, svc, false)
}

} // verus!
