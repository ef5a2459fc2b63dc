//! The textual notation of one encrypted value:
//! `ENC[AES256_GCM,data:...,iv:...,tag:...,type:...]`, with the three binary
//! fields in base64.

use vstd::prelude::*;
use crate::b64::{b64_enc, b64_dec, b64_encode, b64_decode, lemma_b64_roundtrip};
use crate::bytes::push_all;
use crate::cipher::{NONCE_LEN, TAG_LEN};

verus! {

/// The recorded type of an encrypted value, so that decryption restores the
/// exact plain value.
#[derive(Clone, Copy, Debug, PartialEq, Eq, Structural)]
pub enum ValType {
    Str,
    Int,
    Float,
    Bool,
    Null,
    Bytes,
    Comment,
}

/// The text of a type tag.
pub open spec fn ty_text(t: ValType) -> Seq<u8> {
    match t {
        ValType::Str => seq![115u8, 116u8, 114u8],
        ValType::Int => seq![105u8, 110u8, 116u8],
        ValType::Float => seq![102u8, 108u8, 111u8, 97u8, 116u8],
        ValType::Bool => seq![98u8, 111u8, 111u8, 108u8],
        ValType::Null => seq![110u8, 117u8, 108u8, 108u8],
        ValType::Bytes => seq![98u8, 121u8, 116u8, 101u8, 115u8],
        ValType::Comment => seq![99u8, 111u8, 109u8, 109u8, 101u8, 110u8, 116u8],
    }
}

/// Reads a type tag; `None` on anything [`ty_text`] cannot produce.
pub open spec fn parse_ty(s: Seq<u8>) -> Option<ValType> {
    if s.len() == 3 && s[0] == 115 && s[1] == 116 && s[2] == 114 {
        Some(ValType::Str)
    } else if s.len() == 3 && s[0] == 105 && s[1] == 110 && s[2] == 116 {
        Some(ValType::Int)
    } else if s.len() == 5 && s[0] == 102 && s[1] == 108 && s[2] == 111 && s[3] == 97 && s[4]
        == 116 {
        Some(ValType::Float)
    } else if s.len() == 4 && s[0] == 98 && s[1] == 111 && s[2] == 111 && s[3] == 108 {
        Some(ValType::Bool)
    } else if s.len() == 4 && s[0] == 110 && s[1] == 117 && s[2] == 108 && s[3] == 108 {
        Some(ValType::Null)
    } else if s.len() == 5 && s[0] == 98 && s[1] == 121 && s[2] == 116 && s[3] == 101 && s[4]
        == 115 {
        Some(ValType::Bytes)
    } else if s.len() == 7 && s[0] == 99 && s[1] == 111 && s[2] == 109 && s[3] == 109 && s[4]
        == 101 && s[5] == 110 && s[6] == 116 {
        Some(ValType::Comment)
    } else {
        None
    }
}

/// `"ENC[AES256_GCM,data:"`.
pub open spec fn enc_header() -> Seq<u8> {
    seq![
        69u8, 78u8, 67u8, 91u8, 65u8, 69u8, 83u8, 50u8, 53u8, 54u8, 95u8, 71u8, 67u8, 77u8,
        44u8, 100u8, 97u8, 116u8, 97u8, 58u8,
    ]
}

/// `",iv:"`.
pub open spec fn iv_sep() -> Seq<u8> {
    seq![44u8, 105u8, 118u8, 58u8]
}

/// `",tag:"`.
pub open spec fn tag_sep() -> Seq<u8> {
    seq![44u8, 116u8, 97u8, 103u8, 58u8]
}

/// `",type:"`.
pub open spec fn type_sep() -> Seq<u8> {
    seq![44u8, 116u8, 121u8, 112u8, 101u8, 58u8]
}

/// The pieces of one encrypted value: ciphertext body, nonce, tag, and the
/// plain value's recorded type.
pub struct EncParts {
    pub data: Vec<u8>,
    pub iv: Vec<u8>,
    pub tag: Vec<u8>,
    pub ty: ValType,
}

/// Ghost pieces of one encrypted value.
pub struct EncPartsV {
    pub data: Seq<u8>,
    pub iv: Seq<u8>,
    pub tag: Seq<u8>,
    pub ty: ValType,
}

impl EncParts {
    pub open spec fn view(&self) -> EncPartsV {
        EncPartsV { data: self.data@, iv: self.iv@, tag: self.tag@, ty: self.ty }
    }
}

/// The full text of one encrypted value.
pub open spec fn enc_text(p: EncPartsV) -> Seq<u8> {
    enc_header() + b64_enc(p.data) + iv_sep() + b64_enc(p.iv) + tag_sep() + b64_enc(p.tag)
        + type_sep() + ty_text(p.ty) + seq![93u8]
}

/// Does the text carry the `ENC[` marker that makes decryption attempt it?
pub open spec fn is_enc_marked(s: Seq<u8>) -> bool {
    s.len() >= 4 && s[0] == 69 && s[1] == 78 && s[2] == 67 && s[3] == 91
}

/// Index of the first `c` at or after `from`, or `-1`.
pub open spec fn find(s: Seq<u8>, from: int, c: u8) -> int
    decreases s.len() - from,
{
    if from < 0 || from >= s.len() {
        -1
    } else if s[from] == c {
        from
    } else {
        find(s, from + 1, c)
    }
}

/// Reads the pieces back out of an encrypted value's text; `None` on
/// anything [`enc_text`] cannot produce.
pub open spec fn parse_enc(s: Seq<u8>) -> Option<EncPartsV> {
    let h = enc_header().len() as int;
    if s.len() < h + 1 || s.subrange(0, h) != enc_header() {
        None
    } else {
        let i1 = find(s, h, 44);
        if i1 < 0 || i1 + 4 > s.len() || s.subrange(i1, i1 + 4) != iv_sep() {
            None
        } else {
            let i2 = find(s, i1 + 4, 44);
            if i2 < 0 || i2 + 5 > s.len() || s.subrange(i2, i2 + 5) != tag_sep() {
                None
            } else {
                let i3 = find(s, i2 + 5, 44);
                if i3 < 0 || i3 + 6 > s.len() || s.subrange(i3, i3 + 6) != type_sep()
                    || s.last() != 93 || i3 + 6 > s.len() - 1 {
                    None
                } else {
                    let dt = b64_dec(s.subrange(h, i1));
                    let iv = b64_dec(s.subrange(i1 + 4, i2));
                    let tg = b64_dec(s.subrange(i2 + 5, i3));
                    let ty = parse_ty(s.subrange(i3 + 6, s.len() - 1));
                    if dt is Some && iv is Some && tg is Some && ty is Some
                        && iv.unwrap().len() == NONCE_LEN && tg.unwrap().len() == TAG_LEN {
                        Some(
                            EncPartsV {
                                data: dt.unwrap(),
                                iv: iv.unwrap(),
                                tag: tg.unwrap(),
                                ty: ty.unwrap(),
                            },
                        )
                    } else {
                        None
                    }
                }
            }
        }
    }
}

/// Type-tag facts: the tag text parses back, is at least three bytes, and
/// holds no delimiter of the notation.
proof fn lemma_ty_text(t: ValType)
    ensures
        parse_ty(ty_text(t)) == Some(t),
        ty_text(t).len() >= 3,
        forall|i: int|
            0 <= i < ty_text(t).len() ==> #[trigger] ty_text(t)[i] != 44 && ty_text(t)[i]
                != 93,
{
    match t {
        ValType::Str => {},
        ValType::Int => {},
        ValType::Float => {},
        ValType::Bool => {},
        ValType::Null => {},
        ValType::Bytes => {},
        ValType::Comment => {},
    }
}

/// If `c` first occurs at `k`, that is where [`find`] stops.
proof fn lemma_find_exact(s: Seq<u8>, from: int, k: int, c: u8)
    requires
        0 <= from <= k < s.len(),
        s[k] == c,
        forall|j: int| from <= j < k ==> s[j] != c,
    ensures
        find(s, from, c) == k,
    decreases k - from,
{
    if from < k {
        lemma_find_exact(s, from + 1, k, c);
    }
}

/// Exec mirror of [`find`].
fn find_byte(s: &Vec<u8>, from: usize, c: u8) -> (r: Option<usize>)
    requires
        from <= s@.len(),
    ensures
        r matches Some(i) ==> from <= i < s@.len() && find(s@, from as int, c) == i,
        r is None ==> find(s@, from as int, c) == -1,
{
    let mut i: usize = from;
    while i < s.len()
        invariant
            from <= i <= s@.len(),
            find(s@, from as int, c) == find(s@, i as int, c),
        decreases s@.len() - i,
    {
        if s[i] == c {
            return Some(i);
        }
        i += 1;
    }
    None
}

/// Is `pat` the text of `s` at offset `from`?
fn range_eq(s: &Vec<u8>, from: usize, pat: &Vec<u8>) -> (r: bool)
    requires
        from <= s@.len(),
    ensures
        r == (from + pat@.len() <= s@.len() && s@.subrange(
            from as int,
            from + pat@.len(),
        ) == pat@),
{
    if pat.len() > s.len() - from {
        return false;
    }
    let mut i: usize = 0;
    while i < pat.len()
        invariant
            0 <= i <= pat@.len(),
            from + pat@.len() <= s@.len(),
            s@.len() <= usize::MAX,
            forall|j: int| 0 <= j < i ==> s@[from + j] == pat@[j],
        decreases pat@.len() - i,
    {
        if s[from + i] != pat[i] {
            assert(s@.subrange(from as int, from + pat@.len())[i as int] != pat@[i as int]);
            return false;
        }
        i += 1;
    }
    proof {
        assert(s@.subrange(from as int, from + pat@.len()) =~= pat@);
    }
    true
}

/// Copies `s[from..to]` into a fresh vector.
fn copy_range(s: &Vec<u8>, from: usize, to: usize) -> (r: Vec<u8>)
    requires
        from <= to <= s@.len(),
    ensures
        r@ == s@.subrange(from as int, to as int),
{
    let mut out: Vec<u8> = Vec::new();
    crate::bytes::push_range(&mut out, s, from, to);
    out
}

fn header_of() -> (r: Vec<u8>)
    ensures
        r@ == enc_header(),
{
    let r: Vec<u8> = vec![
        69, 78, 67, 91, 65, 69, 83, 50, 53, 54, 95, 71, 67, 77, 44, 100, 97, 116, 97, 58,
    ];
    proof {
        assert(r@ =~= enc_header());
    }
    r
}

fn iv_sep_of() -> (r: Vec<u8>)
    ensures
        r@ == iv_sep(),
{
    let r: Vec<u8> = vec![44, 105, 118, 58];
    proof {
        assert(r@ =~= iv_sep());
    }
    r
}

fn tag_sep_of() -> (r: Vec<u8>)
    ensures
        r@ == tag_sep(),
{
    let r: Vec<u8> = vec![44, 116, 97, 103, 58];
    proof {
        assert(r@ =~= tag_sep());
    }
    r
}

fn type_sep_of() -> (r: Vec<u8>)
    ensures
        r@ == type_sep(),
{
    let r: Vec<u8> = vec![44, 116, 121, 112, 101, 58];
    proof {
        assert(r@ =~= type_sep());
    }
    r
}

fn ty_text_of(t: ValType) -> (r: Vec<u8>)
    ensures
        r@ == ty_text(t),
{
    match t {
        ValType::Str => {
            let r: Vec<u8> = vec![115, 116, 114];
            proof {
                assert(r@ =~= ty_text(t));
            }
            r
        },
        ValType::Int => {
            let r: Vec<u8> = vec![105, 110, 116];
            proof {
                assert(r@ =~= ty_text(t));
            }
            r
        },
        ValType::Float => {
            let r: Vec<u8> = vec![102, 108, 111, 97, 116];
            proof {
                assert(r@ =~= ty_text(t));
            }
            r
        },
        ValType::Bool => {
            let r: Vec<u8> = vec![98, 111, 111, 108];
            proof {
                assert(r@ =~= ty_text(t));
            }
            r
        },
        ValType::Null => {
            let r: Vec<u8> = vec![110, 117, 108, 108];
            proof {
                assert(r@ =~= ty_text(t));
            }
            r
        },
        ValType::Bytes => {
            let r: Vec<u8> = vec![98, 121, 116, 101, 115];
            proof {
                assert(r@ =~= ty_text(t));
            }
            r
        },
        ValType::Comment => {
            let r: Vec<u8> = vec![99, 111, 109, 109, 101, 110, 116];
            proof {
                assert(r@ =~= ty_text(t));
            }
            r
        },
    }
}

/// Exec mirror of [`parse_ty`] on a range of `s`.
fn parse_ty_at(s: &Vec<u8>, from: usize, to: usize) -> (r: Option<ValType>)
    requires
        from <= to <= s@.len(),
    ensures
        r == parse_ty(s@.subrange(from as int, to as int)),
{
    let ghost t = s@.subrange(from as int, to as int);
    proof {
        assert(forall|j: int| 0 <= j < t.len() ==> t[j] == s@[from + j]);
    }
    let n = to - from;
    if n == 3 && s[from] == 115 && s[from + 1] == 116 && s[from + 2] == 114 {
        Some(ValType::Str)
    } else if n == 3 && s[from] == 105 && s[from + 1] == 110 && s[from + 2] == 116 {
        Some(ValType::Int)
    } else if n == 5 && s[from] == 102 && s[from + 1] == 108 && s[from + 2] == 111 && s[from
        + 3] == 97 && s[from + 4] == 116 {
        Some(ValType::Float)
    } else if n == 4 && s[from] == 98 && s[from + 1] == 111 && s[from + 2] == 111 && s[from
        + 3] == 108 {
        Some(ValType::Bool)
    } else if n == 4 && s[from] == 110 && s[from + 1] == 117 && s[from + 2] == 108 && s[from
        + 3] == 108 {
        Some(ValType::Null)
    } else if n == 5 && s[from] == 98 && s[from + 1] == 121 && s[from + 2] == 116 && s[from
        + 3] == 101 && s[from + 4] == 115 {
        Some(ValType::Bytes)
    } else if n == 7 && s[from] == 99 && s[from + 1] == 111 && s[from + 2] == 109 && s[from
        + 3] == 109 && s[from + 4] == 101 && s[from + 5] == 110 && s[from + 6] == 116 {
        Some(ValType::Comment)
    } else {
        None
    }
}

/// Prints the pieces of an encrypted value in the `ENC[...]` notation.
pub fn enc_print(p: &EncParts) -> (r: Vec<u8>)
    ensures
        r@ == enc_text(p@),
{
    let mut out: Vec<u8> = Vec::new();
    let hdr = header_of();
    push_all(&mut out, &hdr);
    let d = b64_encode(&p.data);
    push_all(&mut out, &d);
    let s1 = iv_sep_of();
    push_all(&mut out, &s1);
    let iv = b64_encode(&p.iv);
    push_all(&mut out, &iv);
    let s2 = tag_sep_of();
    push_all(&mut out, &s2);
    let tg = b64_encode(&p.tag);
    push_all(&mut out, &tg);
    let s3 = type_sep_of();
    push_all(&mut out, &s3);
    let ty = ty_text_of(p.ty);
    push_all(&mut out, &ty);
    out.push(93);
    proof {
        assert(out@ =~= enc_text(p@));
    }
    out
}

/// Reads the pieces of an encrypted value back out of its text; fails
/// exactly where the ghost parser [`parse_enc`] does.
pub fn enc_parse(s: &Vec<u8>) -> (r: Option<EncParts>)
    ensures
        (r is Some) == (parse_enc(s@) is Some),
        r matches Some(p) ==> parse_enc(s@) == Some(p@),
{
    let hdr = header_of();
    if s.len() < hdr.len() + 1 || !range_eq(s, 0, &hdr) {
        return None;
    }
    let h = hdr.len();
    let i1 = match find_byte(s, h, 44) {
        Some(i) => i,
        None => {
            return None;
        },
    };
    let s1 = iv_sep_of();
    if !range_eq(s, i1, &s1) {
        return None;
    }
    let i2 = match find_byte(s, i1 + 4, 44) {
        Some(i) => i,
        None => {
            return None;
        },
    };
    let s2 = tag_sep_of();
    if !range_eq(s, i2, &s2) {
        return None;
    }
    let i3 = match find_byte(s, i2 + 5, 44) {
        Some(i) => i,
        None => {
            return None;
        },
    };
    let s3 = type_sep_of();
    if !range_eq(s, i3, &s3) {
        return None;
    }
    if s[s.len() - 1] != 93 || i3 + 6 > s.len() - 1 {
        return None;
    }
    let data_text = copy_range(s, h, i1);
    let iv_text = copy_range(s, i1 + 4, i2);
    let tag_text = copy_range(s, i2 + 5, i3);
    let data = match b64_decode(&data_text) {
        Some(v) => v,
        None => {
            return None;
        },
    };
    let iv = match b64_decode(&iv_text) {
        Some(v) => v,
        None => {
            return None;
        },
    };
    let tag = match b64_decode(&tag_text) {
        Some(v) => v,
        None => {
            return None;
        },
    };
    let ty = match parse_ty_at(s, i3 + 6, s.len() - 1) {
        Some(t) => t,
        None => {
            return None;
        },
    };
    if iv.len() != NONCE_LEN || tag.len() != TAG_LEN {
        return None;
    }
    let r = EncParts { data, iv, tag, ty };
    proof {
        assert(parse_enc(s@) == Some(r@));
    }
    Some(r)
}

/// Printing an encrypted value and reading it back gives the pieces back;
/// the printed text carries the `ENC[` marker.
pub proof fn lemma_enc_roundtrip(p: EncPartsV)
    requires
        p.iv.len() == NONCE_LEN,
        p.tag.len() == TAG_LEN,
    ensures
        parse_enc(enc_text(p)) == Some(p),
        is_enc_marked(enc_text(p)),
{
    let h = enc_header();
    let d = b64_enc(p.data);
    let iv = b64_enc(p.iv);
    let tg = b64_enc(p.tag);
    let ty = ty_text(p.ty);
    lemma_b64_roundtrip(p.data);
    lemma_b64_roundtrip(p.iv);
    lemma_b64_roundtrip(p.tag);
    lemma_ty_text(p.ty);
    let s = enc_text(p);
    let o1 = 20 + d.len() as int;
    let o2 = o1 + 4 + iv.len() as int;
    let o3 = o2 + 5 + tg.len() as int;
    assert(s.len() == o3 + 6 + ty.len() + 1);
    assert(s.subrange(0, 20) =~= h);
    assert(s.subrange(20, o1) =~= d);
    assert(s.subrange(o1, o1 + 4) =~= iv_sep());
    assert(s.subrange(o1 + 4, o2) =~= iv);
    assert(s.subrange(o2, o2 + 5) =~= tag_sep());
    assert(s.subrange(o2 + 5, o3) =~= tg);
    assert(s.subrange(o3, o3 + 6) =~= type_sep());
    assert(s.subrange(o3 + 6, s.len() - 1) =~= ty);
    assert(s.last() == 93);
    assert(find(s, 20, 44) == o1) by {
        assert forall|j: int| 20 <= j < o1 implies s[j] != 44 by {
            assert(s[j] == d[j - 20]);
        }
        assert(s[o1] == iv_sep()[0]);
        lemma_find_exact(s, 20, o1, 44);
    }
    assert(find(s, o1 + 4, 44) == o2) by {
        assert forall|j: int| o1 + 4 <= j < o2 implies s[j] != 44 by {
            assert(s[j] == iv[j - (o1 + 4)]);
        }
        assert(s[o2] == tag_sep()[0]);
        lemma_find_exact(s, o1 + 4, o2, 44);
    }
    assert(find(s, o2 + 5, 44) == o3) by {
        assert forall|j: int| o2 + 5 <= j < o3 implies s[j] != 44 by {
            assert(s[j] == tg[j - (o2 + 5)]);
        }
        assert(s[o3] == type_sep()[0]);
        lemma_find_exact(s, o2 + 5, o3, 44);
    }
    assert(parse_enc(s) == Some(p));
    assert(s[0] == 69 && s[1] == 78 && s[2] == 67 && s[3] == 91);
}

} // verus!
