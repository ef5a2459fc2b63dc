//! Per-scalar encryption: a scalar's canonical text is sealed together with
//! the tree path as associated data, and printed in the `ENC[...]` notation
//! with a type tag that lets decryption restore the exact plain value.

use vstd::prelude::*;
use crate::tree::{Scalar, ScalarV};
use crate::enc::{
    EncParts, ValType, enc_print, enc_parse, parse_enc, is_enc_marked, lemma_enc_roundtrip,
};
use crate::cipher::{
    KEY_LEN, NONCE_LEN, TAG_LEN, seal_of, open_of, aead_seal, aead_open, random_bytes,
};
use crate::num::{
    dec_text, valid_i64_text, parsed_i64, parse_i64, push_dec_i64, lemma_dec_text_roundtrip,
};
use crate::bytes::{push_all, push_range, bytes_eq};

verus! {

/// Longest byte string the value cipher accepts, for plaintext and for
/// associated data alike.
pub const VAL_LIMIT: usize = 0x1000_0000;

/// `"true"` / `"false"`.
pub open spec fn bool_text(b: bool) -> Seq<u8> {
    if b {
        seq![116u8, 114u8, 117u8, 101u8]
    } else {
        seq![102u8, 97u8, 108u8, 115u8, 101u8]
    }
}

/// `"null"`.
pub open spec fn null_text() -> Seq<u8> {
    seq![110u8, 117u8, 108u8, 108u8]
}

/// The canonical text of a scalar: what is sealed, and what the document
/// digest is computed over.
pub open spec fn canon_scalar(s: ScalarV) -> Seq<u8> {
    match s {
        ScalarV::Str(t) => t,
        ScalarV::Int(i) => dec_text(i),
        ScalarV::Float(t) => t,
        ScalarV::Bool(b) => bool_text(b),
        ScalarV::Null => null_text(),
        ScalarV::Bytes(b) => b,
    }
}

/// The type tag recorded for a scalar.
pub open spec fn ty_of_scalar(s: ScalarV) -> ValType {
    match s {
        ScalarV::Str(_) => ValType::Str,
        ScalarV::Int(_) => ValType::Int,
        ScalarV::Float(_) => ValType::Float,
        ScalarV::Bool(_) => ValType::Bool,
        ScalarV::Null => ValType::Null,
        ScalarV::Bytes(_) => ValType::Bytes,
    }
}

/// Rebuilds a scalar from its canonical text and recorded type; `None` on
/// text that no scalar of that type canonicalizes to.
pub open spec fn scalar_of(pt: Seq<u8>, ty: ValType) -> Option<ScalarV> {
    match ty {
        ValType::Str => Some(ScalarV::Str(pt)),
        ValType::Int => if valid_i64_text(pt) {
            Some(ScalarV::Int(parsed_i64(pt)))
        } else {
            None
        },
        ValType::Float => Some(ScalarV::Float(pt)),
        ValType::Bool => if pt == bool_text(true) {
            Some(ScalarV::Bool(true))
        } else if pt == bool_text(false) {
            Some(ScalarV::Bool(false))
        } else {
            None
        },
        ValType::Null => if pt == null_text() {
            Some(ScalarV::Null)
        } else {
            None
        },
        ValType::Bytes => Some(ScalarV::Bytes(pt)),
        ValType::Comment => None,
    }
}

/// An integer scalar's model stays inside the machine range.
pub open spec fn scalar_in_range(s: ScalarV) -> bool {
    match s {
        ScalarV::Int(i) => i64::MIN <= i <= i64::MAX,
        _ => true,
    }
}

/// A scalar's canonical text and type tag identify it.
pub proof fn lemma_scalar_roundtrip(s: ScalarV)
    requires
        scalar_in_range(s),
    ensures
        scalar_of(canon_scalar(s), ty_of_scalar(s)) == Some(s),
{
    match s {
        ScalarV::Int(i) => {
            lemma_dec_text_roundtrip(i);
        },
        ScalarV::Bool(b) => {
            if b {
                assert(bool_text(true) != bool_text(false)) by {
                    assert(bool_text(true).len() == 4);
                }
            } else {
                assert(bool_text(false) != bool_text(true)) by {
                    assert(bool_text(false).len() == 5);
                }
            }
        },
        _ => {},
    }
}

/// What decrypting the text of one value yields: the sealed canonical text
/// and the recorded type, or nothing when the text is not a well-formed
/// sealing under this key and associated data.
pub open spec fn value_plain(key: Seq<u8>, aad: Seq<u8>, text: Seq<u8>) -> Option<
    (Seq<u8>, ValType),
> {
    match parse_enc(text) {
        None => None,
        Some(p) => match open_of(key, p.iv, aad, p.data + p.tag) {
            None => None,
            Some(pt) => Some((pt, p.ty)),
        },
    }
}

/// Seals one canonical text under a fresh random nonce and prints it.
/// Whatever nonce was drawn, the result decrypts back to exactly this text
/// and type under the same key and associated data.
#[verifier::rlimit(100)]
pub fn encrypt_value(key: &Vec<u8>, aad: &Vec<u8>, pt: &Vec<u8>, ty: ValType) -> (r: Vec<u8>)
    requires
        key@.len() == KEY_LEN,
        pt@.len() < VAL_LIMIT,
        aad@.len() < VAL_LIMIT,
    ensures
        value_plain(key@, aad@, r@) == Some((pt@, ty)),
        is_enc_marked(r@),
{
    let iv = random_bytes(NONCE_LEN);
    let sealed = aead_seal(key, &iv, aad, pt);
    let mut data: Vec<u8> = Vec::new();
    push_range(&mut data, &sealed, 0, sealed.len() - TAG_LEN);
    let mut tag: Vec<u8> = Vec::new();
    push_range(&mut tag, &sealed, sealed.len() - TAG_LEN, sealed.len());
    let parts = EncParts { data, iv, tag, ty };
    let out = enc_print(&parts);
    proof {
        lemma_enc_roundtrip(parts@);
        assert(parse_enc(out@) == Some(parts@));
        assert(sealed@ == seal_of(key@, iv@, aad@, pt@));
        assert(parts@.data + parts@.tag =~= sealed@);
        assert(open_of(key@, parts@.iv, aad@, parts@.data + parts@.tag) == Some(pt@));
        assert(value_plain(key@, aad@, out@) == Some((pt@, ty)));
    }
    out
}

/// Opens the text of one value.  Succeeds exactly when the ghost
/// [`value_plain`] does, and then returns the same canonical text and type.
pub fn decrypt_value(key: &Vec<u8>, aad: &Vec<u8>, text: &Vec<u8>) -> (r: Option<
    (Vec<u8>, ValType),
>)
    requires
        key@.len() == KEY_LEN,
    ensures
        (r is Some) == (value_plain(key@, aad@, text@) is Some),
        r matches Some(p) ==> value_plain(key@, aad@, text@) == Some((p.0@, p.1)),
{
    match enc_parse(text) {
        None => None,
        Some(parts) => {
            let ty = parts.ty;
            let iv = parts.iv;
            let mut ct = parts.data;
            push_all(&mut ct, &parts.tag);
            match aead_open(key, &iv, aad, &ct) {
                None => None,
                Some(pt) => Some((pt, ty)),
            }
        },
    }
}

/// The canonical text of a scalar, as bytes.
pub fn canon_of(s: &Scalar) -> (r: Vec<u8>)
    ensures
        r@ == canon_scalar(s.deep_view()),
{
    match s {
        Scalar::Str(t) => {
            let mut out: Vec<u8> = Vec::new();
            push_all(&mut out, t);
            proof {
                assert(out@ =~= t@);
            }
            out
        },
        Scalar::Int(i) => {
            let mut out: Vec<u8> = Vec::new();
            push_dec_i64(&mut out, *i);
            proof {
                assert(out@ =~= dec_text(*i as int));
            }
            out
        },
        Scalar::Float(t) => {
            let mut out: Vec<u8> = Vec::new();
            push_all(&mut out, t);
            proof {
                assert(out@ =~= t@);
            }
            out
        },
        Scalar::Bool(b) => {
            if *b {
                let out: Vec<u8> = vec![116, 114, 117, 101];
                proof {
                    assert(out@ =~= bool_text(true));
                }
                out
            } else {
                let out: Vec<u8> = vec![102, 97, 108, 115, 101];
                proof {
                    assert(out@ =~= bool_text(false));
                }
                out
            }
        },
        Scalar::Null => {
            let out: Vec<u8> = vec![110, 117, 108, 108];
            proof {
                assert(out@ =~= null_text());
            }
            out
        },
        Scalar::Bytes(b) => {
            let mut out: Vec<u8> = Vec::new();
            push_all(&mut out, b);
            proof {
                assert(out@ =~= b@);
            }
            out
        },
    }
}

/// The type tag of a scalar.
pub fn ty_of(s: &Scalar) -> (r: ValType)
    ensures
        r == ty_of_scalar(s.deep_view()),
{
    match s {
        Scalar::Str(_) => ValType::Str,
        Scalar::Int(_) => ValType::Int,
        Scalar::Float(_) => ValType::Float,
        Scalar::Bool(_) => ValType::Bool,
        Scalar::Null => ValType::Null,
        Scalar::Bytes(_) => ValType::Bytes,
    }
}

/// Rebuilds a scalar from canonical text and type tag; fails exactly where
/// the ghost [`scalar_of`] does.
pub fn scalar_from(pt: Vec<u8>, ty: ValType) -> (r: Option<Scalar>)
    ensures
        (r is Some) == (scalar_of(pt@, ty) is Some),
        r matches Some(s) ==> scalar_of(pt@, ty) == Some(s.deep_view()),
{
    match ty {
        ValType::Str => Some(Scalar::Str(pt)),
        ValType::Int => {
            match parse_i64(&pt) {
                Some(i) => Some(Scalar::Int(i)),
                None => None,
            }
        },
        ValType::Float => Some(Scalar::Float(pt)),
        ValType::Bool => {
            let t: Vec<u8> = vec![116, 114, 117, 101];
            let f: Vec<u8> = vec![102, 97, 108, 115, 101];
            proof {
                assert(t@ =~= bool_text(true));
                assert(f@ =~= bool_text(false));
            }
            if bytes_eq(&pt, &t) {
                Some(Scalar::Bool(true))
            } else if bytes_eq(&pt, &f) {
                Some(Scalar::Bool(false))
            } else {
                None
            }
        },
        ValType::Null => {
            let n: Vec<u8> = vec![110, 117, 108, 108];
            proof {
                assert(n@ =~= null_text());
            }
            if bytes_eq(&pt, &n) {
                Some(Scalar::Null)
            } else {
                None
            }
        },
        ValType::Bytes => Some(Scalar::Bytes(pt)),
        ValType::Comment => None,
    }
}

} // verus!
