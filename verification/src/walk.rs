//! The tree walker: depth-first encryption and decryption of every scalar,
//! with the tree path as associated data, a configured key suffix that keeps
//! whole subtrees in cleartext, and optional comment encryption.

use vstd::prelude::*;
use crate::tree::{Scalar, ScalarV, Node, NodeV, MapItem, MapItemV, clone_bytes};
use crate::enc::{ValType, is_enc_marked};
use crate::value::{
    VAL_LIMIT, canon_scalar, ty_of_scalar, scalar_of, value_plain, encrypt_value,
    decrypt_value, canon_of, ty_of, scalar_from, lemma_scalar_roundtrip,
};
use crate::cipher::KEY_LEN;
use crate::num::dec_digits;
use crate::bytes::{push_all, ends_with};
use crate::error::Error;

verus! {

broadcast use vstd::std_specs::vec::axiom_vec_index_decreases, vstd::std_specs::vec::axiom_vec_decreases_to_view, vstd::seq::axiom_seq_index_decreases, vstd::seq::axiom_seq_subrange_decreases;

/// How the walker treats the tree: which key suffix keeps a subtree in
/// cleartext, and whether comments are encrypted.
pub struct WalkCfg {
    pub unencrypted_suffix: Vec<u8>,
    pub encrypt_comments: bool,
}

/// Ghost walker configuration.
pub struct WalkCfgV {
    pub suffix: Seq<u8>,
    pub encrypt_comments: bool,
}

impl View for WalkCfg {
    type V = WalkCfgV;

    open spec fn view(&self) -> WalkCfgV {
        WalkCfgV { suffix: self.unencrypted_suffix@, encrypt_comments: self.encrypt_comments }
    }
}

/// A key whose name ends with the configured suffix keeps its subtree in
/// cleartext.  An empty suffix excludes nothing.
pub open spec fn key_excluded(k: Seq<u8>, suffix: Seq<u8>) -> bool {
    suffix.len() > 0 && suffix.len() <= k.len() && k.subrange(
        k.len() - suffix.len(),
        k.len() as int,
    ) == suffix
}

/// Associated data of a mapping entry's value: the parent path text, the
/// key, and a colon.
pub open spec fn child_aad_key(aad: Seq<u8>, k: Seq<u8>) -> Seq<u8> {
    aad + k + seq![58u8]
}

/// Associated data of a sequence element: the parent path text, the decimal
/// index, and a colon.
pub open spec fn child_aad_idx(aad: Seq<u8>, i: int) -> Seq<u8> {
    aad + dec_digits(i as nat) + seq![58u8]
}

/// The bytes the document digest covers under this node, in walk order: the
/// canonical text of every scalar the walker encrypts, skipping cleartext
/// subtrees, and skipping comments when they are not encrypted.
pub open spec fn mac_node(n: NodeV, cfg: WalkCfgV) -> Seq<u8>
    decreases n,
{
    match n {
        NodeV::Scalar(s) => canon_scalar(s),
        NodeV::Comment(c) => if cfg.encrypt_comments {
            c
        } else {
            Seq::empty()
        },
        NodeV::Sequence(ch) => mac_elems(ch, cfg),
        NodeV::Mapping(items) => mac_items(items, cfg),
    }
}

pub open spec fn mac_elems(ch: Seq<NodeV>, cfg: WalkCfgV) -> Seq<u8>
    decreases ch,
{
    if ch.len() == 0 {
        Seq::empty()
    } else {
        mac_elems(ch.drop_last(), cfg) + mac_node(ch.last(), cfg)
    }
}

pub open spec fn mac_items(items: Seq<MapItemV>, cfg: WalkCfgV) -> Seq<u8>
    decreases items,
{
    if items.len() == 0 {
        Seq::empty()
    } else {
        mac_items(items.drop_last(), cfg) + match items.last() {
            MapItemV::Entry(k, v) => if key_excluded(k, cfg.suffix) {
                Seq::empty()
            } else {
                mac_node(v, cfg)
            },
            MapItemV::Comment(c) => if cfg.encrypt_comments {
                c
            } else {
                Seq::empty()
            },
        }
    }
}

/// One value's text is a faithful encryption of plain text `pt` of type
/// `ty`: it carries the marker and decrypts back to exactly that.
pub open spec fn value_enc_rel(
    key: Seq<u8>,
    aad: Seq<u8>,
    text: Seq<u8>,
    pt: Seq<u8>,
    ty: ValType,
) -> bool {
    is_enc_marked(text) && value_plain(key, aad, text) == Some((pt, ty))
}

/// `e` is an encryption of the plain tree `p`: same shape and keys, every
/// scalar outside cleartext subtrees replaced by an `ENC[...]` string that
/// decrypts back to it under the path's associated data, comments likewise
/// when comment encryption is on, and cleartext subtrees byte-identical.
pub open spec fn enc_rel(p: NodeV, e: NodeV, key: Seq<u8>, aad: Seq<u8>, cfg: WalkCfgV) -> bool
    decreases p,
{
    match p {
        NodeV::Scalar(s) => e matches NodeV::Scalar(es) && es matches ScalarV::Str(t)
            && value_enc_rel(key, aad, t, canon_scalar(s), ty_of_scalar(s)),
        NodeV::Comment(c) => if cfg.encrypt_comments {
            e matches NodeV::Comment(t) && value_enc_rel(key, aad, t, c, ValType::Comment)
        } else {
            e == p
        },
        NodeV::Sequence(ch) => e matches NodeV::Sequence(ech) && ech.len() == ch.len()
            && (forall|i: int|
            0 <= i < ch.len() ==> enc_rel(
                #[trigger] ch[i],
                ech[i],
                key,
                child_aad_idx(aad, i),
                cfg,
            )),
        NodeV::Mapping(items) => e matches NodeV::Mapping(eit) && eit.len() == items.len()
            && (forall|i: int|
            0 <= i < items.len() ==> item_enc_rel(
                #[trigger] items[i],
                eit[i],
                key,
                aad,
                cfg,
            )),
    }
}

pub open spec fn item_enc_rel(
    it: MapItemV,
    et: MapItemV,
    key: Seq<u8>,
    aad: Seq<u8>,
    cfg: WalkCfgV,
) -> bool
    decreases it,
{
    match it {
        MapItemV::Entry(k, v) => et matches MapItemV::Entry(ek, ev) && ek == k && if
            key_excluded(k, cfg.suffix) {
            ev == v
        } else {
            enc_rel(v, ev, key, child_aad_key(aad, k), cfg)
        },
        MapItemV::Comment(c) => if cfg.encrypt_comments {
            et matches MapItemV::Comment(t) && value_enc_rel(key, aad, t, c, ValType::Comment)
        } else {
            et == it
        },
    }
}

/// When encryption is owed to succeed: every canonical text and every path's
/// associated data fits the value cipher's limit.
pub open spec fn enc_ok(n: NodeV, aad: Seq<u8>, cfg: WalkCfgV) -> bool
    decreases n,
{
    match n {
        NodeV::Scalar(s) => canon_scalar(s).len() < VAL_LIMIT && aad.len() < VAL_LIMIT,
        NodeV::Comment(c) => !cfg.encrypt_comments || (c.len() < VAL_LIMIT && aad.len()
            < VAL_LIMIT),
        NodeV::Sequence(ch) => forall|i: int|
            0 <= i < ch.len() ==> enc_ok(#[trigger] ch[i], child_aad_idx(aad, i), cfg),
        NodeV::Mapping(items) => forall|i: int|
            0 <= i < items.len() ==> item_enc_ok(#[trigger] items[i], aad, cfg),
    }
}

pub open spec fn item_enc_ok(it: MapItemV, aad: Seq<u8>, cfg: WalkCfgV) -> bool
    decreases it,
{
    match it {
        MapItemV::Entry(k, v) => key_excluded(k, cfg.suffix) || enc_ok(
            v,
            child_aad_key(aad, k),
            cfg,
        ),
        MapItemV::Comment(c) => !cfg.encrypt_comments || (c.len() < VAL_LIMIT && aad.len()
            < VAL_LIMIT),
    }
}

/// What decrypting a tree yields: a value carrying the `ENC[` marker is
/// opened and restored to its recorded type, anything else passes through
/// unchanged, and cleartext subtrees are not touched.  `None` is the
/// malformed-or-tampered-value failure.
pub open spec fn dec_node(e: NodeV, key: Seq<u8>, aad: Seq<u8>, cfg: WalkCfgV) -> Option<NodeV>
    decreases e,
{
    match e {
        NodeV::Scalar(s) => match s {
            ScalarV::Str(t) => if is_enc_marked(t) {
                match value_plain(key, aad, t) {
                    None => None,
                    Some(p) => match scalar_of(p.0, p.1) {
                        None => None,
                        Some(ps) => Some(NodeV::Scalar(ps)),
                    },
                }
            } else {
                Some(e)
            },
            _ => Some(e),
        },
        NodeV::Comment(c) => if is_enc_marked(c) {
            match value_plain(key, aad, c) {
                None => None,
                Some(p) => if p.1 == ValType::Comment {
                    Some(NodeV::Comment(p.0))
                } else {
                    None
                },
            }
        } else {
            Some(e)
        },
        NodeV::Sequence(ch) => match dec_elems(ch, key, aad, cfg) {
            None => None,
            Some(dch) => Some(NodeV::Sequence(dch)),
        },
        NodeV::Mapping(items) => match dec_items(items, key, aad, cfg) {
            None => None,
            Some(dit) => Some(NodeV::Mapping(dit)),
        },
    }
}

pub open spec fn dec_elems(ch: Seq<NodeV>, key: Seq<u8>, aad: Seq<u8>, cfg: WalkCfgV) -> Option<
    Seq<NodeV>,
>
    decreases ch,
{
    if ch.len() == 0 {
        Some(Seq::empty())
    } else {
        match dec_elems(ch.drop_last(), key, aad, cfg) {
            None => None,
            Some(pre) => match dec_node(
                ch.last(),
                key,
                child_aad_idx(aad, ch.len() - 1),
                cfg,
            ) {
                None => None,
                Some(d) => Some(pre.push(d)),
            },
        }
    }
}

pub open spec fn dec_items(
    items: Seq<MapItemV>,
    key: Seq<u8>,
    aad: Seq<u8>,
    cfg: WalkCfgV,
) -> Option<Seq<MapItemV>>
    decreases items,
{
    if items.len() == 0 {
        Some(Seq::empty())
    } else {
        match dec_items(items.drop_last(), key, aad, cfg) {
            None => None,
            Some(pre) => match items.last() {
                MapItemV::Entry(k, v) => if key_excluded(k, cfg.suffix) {
                    Some(pre.push(MapItemV::Entry(k, v)))
                } else {
                    match dec_node(v, key, child_aad_key(aad, k), cfg) {
                        None => None,
                        Some(d) => Some(pre.push(MapItemV::Entry(k, d))),
                    }
                },
                MapItemV::Comment(c) => if is_enc_marked(c) {
                    match value_plain(key, aad, c) {
                        None => None,
                        Some(p) => if p.1 == ValType::Comment {
                            Some(pre.push(MapItemV::Comment(p.0)))
                        } else {
                            None
                        },
                    }
                } else {
                    Some(pre.push(MapItemV::Comment(c)))
                },
            },
        }
    }
}

/// Is this the `ENC[` marker?
pub fn is_marked(t: &Vec<u8>) -> (r: bool)
    ensures
        r == is_enc_marked(t@),
{
    t.len() >= 4 && t[0] == 69 && t[1] == 78 && t[2] == 67 && t[3] == 91
}

/// The associated data of a sequence element.
fn aad_for_idx(aad: &Vec<u8>, i: u64) -> (r: Vec<u8>)
    ensures
        r@ == child_aad_idx(aad@, i as int),
{
    let mut out: Vec<u8> = Vec::new();
    push_all(&mut out, aad);
    crate::num::push_dec_u64(&mut out, i);
    out.push(58);
    proof {
        assert(out@ =~= child_aad_idx(aad@, i as int));
    }
    out
}

/// The associated data of a mapping entry's value.
fn aad_for_key(aad: &Vec<u8>, k: &Vec<u8>) -> (r: Vec<u8>)
    ensures
        r@ == child_aad_key(aad@, k@),
{
    let mut out: Vec<u8> = Vec::new();
    push_all(&mut out, aad);
    push_all(&mut out, k);
    out.push(58);
    proof {
        assert(out@ =~= child_aad_key(aad@, k@));
    }
    out
}

/// Does this key keep its subtree in cleartext?
fn is_excluded(k: &Vec<u8>, cfg: &WalkCfg) -> (r: bool)
    ensures
        r == key_excluded(k@, cfg@.suffix),
{
    cfg.unencrypted_suffix.len() > 0 && ends_with(k, &cfg.unencrypted_suffix)
}

/// Encrypts one comment text.
fn encrypt_comment_text(key: &Vec<u8>, aad: &Vec<u8>, c: &Vec<u8>) -> (r: Result<Vec<u8>, Error>)
    requires
        key@.len() == KEY_LEN,
    ensures
        r matches Ok(t) ==> value_enc_rel(key@, aad@, t@, c@, ValType::Comment),
        r matches Err(e) ==> e == Error::CipherError,
        c@.len() < VAL_LIMIT && aad@.len() < VAL_LIMIT ==> r is Ok,
{
    if c.len() >= VAL_LIMIT || aad.len() >= VAL_LIMIT {
        return Err(Error::CipherError);
    }
    Ok(encrypt_value(key, aad, c, ValType::Comment))
}

/// Encrypts a tree in place of `n`, appending the digest input of the plain
/// tree to `mac`.  On success the result is an encryption of `n` in the
/// sense of [`enc_rel`]; success is owed whenever every value and path fits
/// the cipher's limit.
#[verifier::loop_isolation(false)]
pub fn encrypt_node(
    n: &Node,
    key: &Vec<u8>,
    aad: &Vec<u8>,
    cfg: &WalkCfg,
    mac: &mut Vec<u8>,
) -> (r: Result<Node, Error>)
    requires
        key@.len() == KEY_LEN,
    ensures
        r matches Ok(e) ==> enc_rel(n.deep_view(), e.deep_view(), key@, aad@, cfg@)
            && final(mac)@ == old(mac)@ + mac_node(n.deep_view(), cfg@),
        r matches Err(er) ==> er == Error::CipherError,
        enc_ok(n.deep_view(), aad@, cfg@) ==> r is Ok,
    decreases n,
{
    match n {
        Node::Scalar(s) => {
            let canon = canon_of(s);
            if canon.len() >= VAL_LIMIT || aad.len() >= VAL_LIMIT {
                return Err(Error::CipherError);
            }
            let ty = ty_of(s);
            let text = encrypt_value(key, aad, &canon, ty);
            push_all(mac, &canon);
            Ok(Node::Scalar(Scalar::Str(text)))
        },
        Node::Comment(c) => {
            if cfg.encrypt_comments {
                match encrypt_comment_text(key, aad, c) {
                    Ok(t) => {
                        push_all(mac, c);
                        Ok(Node::Comment(t))
                    },
                    Err(e) => Err(e),
                }
            } else {
                proof {
                    assert(mac@ =~= old(mac)@ + mac_node(n.deep_view(), cfg@));
                }
                Ok(Node::Comment(clone_bytes(c)))
            }
        },
        Node::Sequence(v) => {
            let ghost pch = match n.deep_view() {
                NodeV::Sequence(c) => c,
                _ => Seq::empty(),
            };
            proof {
                assert(pch.len() == v@.len());
                assert(forall|j: int| 0 <= j < v@.len() ==> pch[j] == v@[j].deep_view());
                assert(pch.take(0) =~= Seq::empty());
            }
            let mut out: Vec<Node> = Vec::new();
            let mut i: usize = 0;
            while i < v.len()
                invariant
                    0 <= i <= v@.len(),
                    out@.len() == i,
                    forall|j: int|
                        0 <= j < i ==> enc_rel(
                            pch[j],
                            (#[trigger] out@[j]).deep_view(),
                            key@,
                            child_aad_idx(aad@, j),
                            cfg@,
                        ),
                    mac@ == old(mac)@ + mac_elems(pch.take(i as int), cfg@),
                decreases v@.len() - i,
            {
                let aad_i = aad_for_idx(aad, i as u64);
                match encrypt_node(&v[i], key, &aad_i, cfg, mac) {
                    Ok(e) => {
                        out.push(e);
                    },
                    Err(er) => {
                        proof {
                            if enc_ok(n.deep_view(), aad@, cfg@) {
                                assert(enc_ok(pch[i as int], child_aad_idx(aad@, i as int),
                                cfg@));
                                assert(false);
                            }
                        }
                        return Err(er);
                    },
                }
                proof {
                    let k = i as int;
                    assert(pch.take(k + 1).drop_last() =~= pch.take(k));
                    assert(pch.take(k + 1).last() == pch[k]);
                    assert(mac@ =~= old(mac)@ + mac_elems(pch.take(k + 1), cfg@));
                }
                i += 1;
            }
            let r = Node::Sequence(out);
            proof {
                assert(pch.take(v@.len() as int) =~= pch);
                match r.deep_view() {
                    NodeV::Sequence(ech) => {
                        assert(ech.len() == out@.len());
                        assert(forall|j: int|
                            0 <= j < out@.len() ==> ech[j] == (#[trigger] out@[
                                j
                            ]).deep_view());
                        assert(enc_rel(n.deep_view(), r.deep_view(), key@, aad@, cfg@));
                    },
                    _ => {
                        assert(false);
                    },
                }
            }
            Ok(r)
        },
        Node::Mapping(v) => {
            let ghost pit = match n.deep_view() {
                NodeV::Mapping(c) => c,
                _ => Seq::empty(),
            };
            proof {
                assert(pit.len() == v@.len());
                assert(forall|j: int| 0 <= j < v@.len() ==> pit[j] == v@[j].deep_view());
                assert(pit.take(0) =~= Seq::empty());
            }
            let mut out: Vec<MapItem> = Vec::new();
            let mut i: usize = 0;
            while i < v.len()
                invariant
                    0 <= i <= v@.len(),
                    out@.len() == i,
                    forall|j: int|
                        0 <= j < i ==> item_enc_rel(
                            pit[j],
                            (#[trigger] out@[j]).deep_view(),
                            key@,
                            aad@,
                            cfg@,
                        ),
                    mac@ == old(mac)@ + mac_items(pit.take(i as int), cfg@),
                decreases v@.len() - i,
            {
                match &v[i] {
                    MapItem::Entry(k, val) => {
                        if is_excluded(k, cfg) {
                            out.push(MapItem::Entry(clone_bytes(k), val.duplicate()));
                        } else {
                            let aad_k = aad_for_key(aad, k);
                            match encrypt_node(val, key, &aad_k, cfg, mac) {
                                Ok(e) => {
                                    out.push(MapItem::Entry(clone_bytes(k), e));
                                },
                                Err(er) => {
                                    proof {
                                        if enc_ok(n.deep_view(), aad@, cfg@) {
                                            assert(item_enc_ok(pit[i as int], aad@, cfg@));
                                            assert(false);
                                        }
                                    }
                                    return Err(er);
                                },
                            }
                        }
                    },
                    MapItem::Comment(c) => {
                        if cfg.encrypt_comments {
                            match encrypt_comment_text(key, aad, c) {
                                Ok(t) => {
                                    push_all(mac, c);
                                    out.push(MapItem::Comment(t));
                                },
                                Err(er) => {
                                    proof {
                                        if enc_ok(n.deep_view(), aad@, cfg@) {
                                            assert(item_enc_ok(pit[i as int], aad@, cfg@));
                                            assert(false);
                                        }
                                    }
                                    return Err(er);
                                },
                            }
                        } else {
                            out.push(MapItem::Comment(clone_bytes(c)));
                        }
                    },
                }
                proof {
                    let k = i as int;
                    assert(pit.take(k + 1).drop_last() =~= pit.take(k));
                    assert(pit.take(k + 1).last() == pit[k]);
                    assert(mac@ =~= old(mac)@ + mac_items(pit.take(k + 1), cfg@));
                }
                i += 1;
            }
            let r = Node::Mapping(out);
            proof {
                assert(pit.take(v@.len() as int) =~= pit);
                match r.deep_view() {
                    NodeV::Mapping(eit) => {
                        assert(eit.len() == out@.len());
                        assert(forall|j: int|
                            0 <= j < out@.len() ==> eit[j] == (#[trigger] out@[
                                j
                            ]).deep_view());
                        assert(enc_rel(n.deep_view(), r.deep_view(), key@, aad@, cfg@));
                    },
                    _ => {
                        assert(false);
                    },
                }
            }
            Ok(r)
        },
    }
}

/// If one element cannot be decrypted, the whole sequence cannot.
proof fn lemma_dec_elems_none(ch: Seq<NodeV>, key: Seq<u8>, aad: Seq<u8>, cfg: WalkCfgV, i: int)
    requires
        0 <= i < ch.len(),
        dec_node(ch[i], key, child_aad_idx(aad, i), cfg) is None,
    ensures
        dec_elems(ch, key, aad, cfg) is None,
    decreases ch.len(),
{
    if i < ch.len() - 1 {
        assert(ch.drop_last()[i] == ch[i]);
        lemma_dec_elems_none(ch.drop_last(), key, aad, cfg, i);
    }
}

/// If one item cannot be decrypted, the whole mapping cannot.
proof fn lemma_dec_items_none(
    items: Seq<MapItemV>,
    key: Seq<u8>,
    aad: Seq<u8>,
    cfg: WalkCfgV,
    i: int,
)
    requires
        0 <= i < items.len(),
        match items[i] {
            MapItemV::Entry(k, v) => !key_excluded(k, cfg.suffix) && dec_node(
                v,
                key,
                child_aad_key(aad, k),
                cfg,
            ) is None,
            MapItemV::Comment(c) => is_enc_marked(c) && match value_plain(key, aad, c) {
                None => true,
                Some(p) => p.1 != ValType::Comment,
            },
        },
    ensures
        dec_items(items, key, aad, cfg) is None,
    decreases items.len(),
{
    if i < items.len() - 1 {
        assert(items.drop_last()[i] == items[i]);
        lemma_dec_items_none(items.drop_last(), key, aad, cfg, i);
    }
}

/// Decrypts a tree in place of `n`, appending the digest input of the
/// decrypted tree to `mac`.  Succeeds exactly where the ghost [`dec_node`]
/// does, and then returns exactly its result; the only failure is the
/// malformed-or-tampered-value error.
#[verifier::loop_isolation(false)]
#[verifier::rlimit(60)]
pub fn decrypt_node(
    n: &Node,
    key: &Vec<u8>,
    aad: &Vec<u8>,
    cfg: &WalkCfg,
    mac: &mut Vec<u8>,
) -> (r: Result<Node, Error>)
    requires
        key@.len() == KEY_LEN,
    ensures
        (r is Ok) == (dec_node(n.deep_view(), key@, aad@, cfg@) is Some),
        r matches Ok(d) ==> dec_node(n.deep_view(), key@, aad@, cfg@) == Some(d.deep_view())
            && final(mac)@ == old(mac)@ + mac_node(d.deep_view(), cfg@),
        r matches Err(er) ==> er == Error::CipherError,
    decreases n,
{
    match n {
        Node::Scalar(s) => {
            match s {
                Scalar::Str(t) => {
                    if is_marked(t) {
                        match decrypt_value(key, aad, t) {
                            Some((pt, ty)) => {
                                match scalar_from(pt, ty) {
                                    Some(ds) => {
                                        let canon = canon_of(&ds);
                                        push_all(mac, &canon);
                                        Ok(Node::Scalar(ds))
                                    },
                                    None => Err(Error::CipherError),
                                }
                            },
                            None => Err(Error::CipherError),
                        }
                    } else {
                        let canon = canon_of(s);
                        push_all(mac, &canon);
                        Ok(Node::Scalar(s.duplicate()))
                    }
                },
                _ => {
                    let canon = canon_of(s);
                    push_all(mac, &canon);
                    Ok(Node::Scalar(s.duplicate()))
                },
            }
        },
        Node::Comment(c) => {
            if is_marked(c) {
                match decrypt_value(key, aad, c) {
                    Some((pt, ty)) => {
                        if matches!(ty, ValType::Comment) {
                            if cfg.encrypt_comments {
                                push_all(mac, &pt);
                                Ok(Node::Comment(pt))
                            } else {
                                Ok(Node::Comment(pt))
                            }
                        } else {
                            Err(Error::CipherError)
                        }
                    },
                    None => Err(Error::CipherError),
                }
            } else {
                if cfg.encrypt_comments {
                    push_all(mac, c);
                }
                Ok(Node::Comment(clone_bytes(c)))
            }
        },
        Node::Sequence(v) => {
            let ghost ech = match n.deep_view() {
                NodeV::Sequence(c) => c,
                _ => Seq::empty(),
            };
            proof {
                assert(ech.len() == v@.len());
                assert(forall|j: int| 0 <= j < v@.len() ==> ech[j] == v@[j].deep_view());
                assert(ech.take(0) =~= Seq::empty());
                assert(dec_elems(ech.take(0), key@, aad@, cfg@) == Some(Seq::<NodeV>::empty()));
            }
            let mut out: Vec<Node> = Vec::new();
            let mut i: usize = 0;
            while i < v.len()
                invariant
                    0 <= i <= v@.len(),
                    out@.len() == i,
                    dec_elems(ech.take(i as int), key@, aad@, cfg@) matches Some(pre)
                        && pre.len() == i && (forall|j: int|
                        0 <= j < i ==> pre[j] == (#[trigger] out@[j]).deep_view()),
                    mac@ == old(mac)@ + mac_elems(
                        dec_elems(ech.take(i as int), key@, aad@, cfg@).unwrap(),
                        cfg@,
                    ),
                decreases v@.len() - i,
            {
                let ghost pre = dec_elems(ech.take(i as int), key@, aad@, cfg@).unwrap();
                let aad_i = aad_for_idx(aad, i as u64);
                match decrypt_node(&v[i], key, &aad_i, cfg, mac) {
                    Ok(d) => {
                        proof {
                            let k = i as int;
                            assert(ech.take(k + 1).drop_last() =~= ech.take(k));
                            assert(ech.take(k + 1).last() == ech[k]);
                            let pre1 = dec_elems(ech.take(k + 1), key@, aad@, cfg@).unwrap();
                            assert(pre1 == pre.push(d.deep_view()));
                            assert(pre1.drop_last() =~= pre);
                            assert(pre1.last() == d.deep_view());
                            assert(mac_elems(pre1, cfg@) == mac_elems(pre, cfg@) + mac_node(
                                d.deep_view(), cfg@));
                        }
                        out.push(d);
                    },
                    Err(er) => {
                        proof {
                            lemma_dec_elems_none(ech, key@, aad@, cfg@, i as int);
                        }
                        return Err(er);
                    },
                }
                i += 1;
            }
            let r = Node::Sequence(out);
            proof {
                assert(ech.take(v@.len() as int) =~= ech);
                let pre = dec_elems(ech, key@, aad@, cfg@).unwrap();
                match r.deep_view() {
                    NodeV::Sequence(dch) => {
                        assert(dch.len() == out@.len());
                        assert(forall|j: int|
                            0 <= j < out@.len() ==> dch[j] == (#[trigger] out@[
                                j
                            ]).deep_view());
                        assert(dch =~= pre);
                        assert(dec_node(n.deep_view(), key@, aad@, cfg@) == Some(
                            r.deep_view()));
                    },
                    _ => {
                        assert(false);
                    },
                }
            }
            Ok(r)
        },
        Node::Mapping(v) => {
            let ghost eit = match n.deep_view() {
                NodeV::Mapping(c) => c,
                _ => Seq::empty(),
            };
            proof {
                assert(eit.len() == v@.len());
                assert(forall|j: int| 0 <= j < v@.len() ==> eit[j] == v@[j].deep_view());
                assert(eit.take(0) =~= Seq::empty());
                assert(dec_items(eit.take(0), key@, aad@, cfg@) == Some(
                    Seq::<MapItemV>::empty()));
            }
            let mut out: Vec<MapItem> = Vec::new();
            let mut i: usize = 0;
            while i < v.len()
                invariant
                    0 <= i <= v@.len(),
                    out@.len() == i,
                    dec_items(eit.take(i as int), key@, aad@, cfg@) matches Some(pre)
                        && pre.len() == i && (forall|j: int|
                        0 <= j < i ==> pre[j] == (#[trigger] out@[j]).deep_view()),
                    mac@ == old(mac)@ + mac_items(
                        dec_items(eit.take(i as int), key@, aad@, cfg@).unwrap(),
                        cfg@,
                    ),
                decreases v@.len() - i,
            {
                let ghost pre = dec_items(eit.take(i as int), key@, aad@, cfg@).unwrap();
                let ghost k = i as int;
                proof {
                    assert(eit.take(k + 1).drop_last() =~= eit.take(k));
                    assert(eit.take(k + 1).last() == eit[k]);
                }
                match &v[i] {
                    MapItem::Entry(ky, val) => {
                        if is_excluded(ky, cfg) {
                            out.push(MapItem::Entry(clone_bytes(ky), val.duplicate()));
                            proof {
                                let pre1 = dec_items(eit.take(k + 1), key@, aad@,
                                cfg@).unwrap();
                                assert(pre1 == pre.push(MapItemV::Entry(ky@,
                                val.deep_view())));
                                assert(pre1.drop_last() =~= pre);
                                assert(mac_items(pre1, cfg@) =~= mac_items(pre, cfg@));
                            }
                        } else {
                            let aad_k = aad_for_key(aad, ky);
                            match decrypt_node(val, key, &aad_k, cfg, mac) {
                                Ok(d) => {
                                    proof {
                                        let pre1 = dec_items(eit.take(k + 1), key@, aad@,
                                        cfg@).unwrap();
                                        assert(pre1 == pre.push(MapItemV::Entry(ky@,
                                        d.deep_view())));
                                        assert(pre1.drop_last() =~= pre);
                                        assert(mac_items(pre1, cfg@) == mac_items(pre, cfg@)
                                            + mac_node(d.deep_view(), cfg@));
                                    }
                                    out.push(MapItem::Entry(clone_bytes(ky), d));
                                },
                                Err(er) => {
                                    proof {
                                        lemma_dec_items_none(eit, key@, aad@, cfg@, k);
                                    }
                                    return Err(er);
                                },
                            }
                        }
                    },
                    MapItem::Comment(c) => {
                        if is_marked(c) {
                            match decrypt_value(key, aad, c) {
                                Some((pt, ty)) => {
                                    if matches!(ty, ValType::Comment) {
                                        proof {
                                            let pre1 = dec_items(eit.take(k + 1), key@,
                                            aad@, cfg@).unwrap();
                                            assert(pre1 == pre.push(MapItemV::Comment(pt@)));
                                            assert(pre1.drop_last() =~= pre);
                                        }
                                        if cfg.encrypt_comments {
                                            push_all(mac, &pt);
                                        }
                                        out.push(MapItem::Comment(pt));
                                    } else {
                                        proof {
                                            lemma_dec_items_none(eit, key@, aad@, cfg@, k);
                                        }
                                        return Err(Error::CipherError);
                                    }
                                },
                                None => {
                                    proof {
                                        lemma_dec_items_none(eit, key@, aad@, cfg@, k);
                                    }
                                    return Err(Error::CipherError);
                                },
                            }
                        } else {
                            proof {
                                let pre1 = dec_items(eit.take(k + 1), key@, aad@,
                                cfg@).unwrap();
                                assert(pre1 == pre.push(MapItemV::Comment(c@)));
                                assert(pre1.drop_last() =~= pre);
                            }
                            if cfg.encrypt_comments {
                                push_all(mac, c);
                            }
                            out.push(MapItem::Comment(clone_bytes(c)));
                        }
                    },
                }
                i += 1;
            }
            let r = Node::Mapping(out);
            proof {
                assert(eit.take(v@.len() as int) =~= eit);
                let pre = dec_items(eit, key@, aad@, cfg@).unwrap();
                match r.deep_view() {
                    NodeV::Mapping(dit) => {
                        assert(dit.len() == out@.len());
                        assert(forall|j: int|
                            0 <= j < out@.len() ==> dit[j] == (#[trigger] out@[
                                j
                            ]).deep_view());
                        assert(dit =~= pre);
                        assert(dec_node(n.deep_view(), key@, aad@, cfg@) == Some(
                            r.deep_view()));
                    },
                    _ => {
                        assert(false);
                    },
                }
            }
            Ok(r)
        },
    }
}

/// No cleartext comment of the plain tree carries the `ENC[` marker, so
/// decryption leaves it alone.  Trivially true when comments are encrypted,
/// and inside cleartext subtrees.
pub open spec fn comments_clear(n: NodeV, cfg: WalkCfgV) -> bool
    decreases n,
{
    cfg.encrypt_comments || match n {
        NodeV::Scalar(_) => true,
        NodeV::Comment(c) => !is_enc_marked(c),
        NodeV::Sequence(ch) => forall|i: int|
            0 <= i < ch.len() ==> comments_clear(#[trigger] ch[i], cfg),
        NodeV::Mapping(items) => forall|i: int|
            0 <= i < items.len() ==> item_comments_clear(#[trigger] items[i], cfg),
    }
}

pub open spec fn item_comments_clear(it: MapItemV, cfg: WalkCfgV) -> bool
    decreases it,
{
    match it {
        MapItemV::Entry(k, v) => key_excluded(k, cfg.suffix) || comments_clear(v, cfg),
        MapItemV::Comment(c) => cfg.encrypt_comments || !is_enc_marked(c),
    }
}

/// Round trip of the walker: decrypting any encryption of a tree gives the
/// tree back, under the same key, path and configuration.  Cleartext
/// subtrees and unencrypted comments pass through unchanged; the one class
/// of trees left out is those whose cleartext comments themselves look like
/// `ENC[...]` values while comment encryption is off.
pub proof fn lemma_decrypt_inverts_encrypt(
    p: NodeV,
    e: NodeV,
    key: Seq<u8>,
    aad: Seq<u8>,
    cfg: WalkCfgV,
)
    requires
        enc_rel(p, e, key, aad, cfg),
        crate::tree::node_in_range(p),
        comments_clear(p, cfg),
    ensures
        dec_node(e, key, aad, cfg) == Some(p),
    decreases p, 0int,
{
    match p {
        NodeV::Scalar(s) => {
            lemma_scalar_roundtrip(s);
        },
        NodeV::Comment(c) => {},
        NodeV::Sequence(ch) => {
            match e {
                NodeV::Sequence(ech) => {
                    assert forall|i: int| 0 <= i < ch.len() implies comments_clear(
                        #[trigger] ch[i],
                        cfg,
                    ) by {
                        if !cfg.encrypt_comments {
                            assert(comments_clear(p, cfg));
                        }
                    }
                    lemma_roundtrip_elems(ch, ech, key, aad, cfg, ch.len() as int);
                    assert(ch.take(ch.len() as int) =~= ch);
                    assert(ech.take(ch.len() as int) =~= ech);
                },
                _ => {
                    assert(false);
                },
            }
        },
        NodeV::Mapping(items) => {
            match e {
                NodeV::Mapping(eit) => {
                    assert forall|i: int| 0 <= i < items.len() implies item_comments_clear(
                        #[trigger] items[i],
                        cfg,
                    ) by {
                        if !cfg.encrypt_comments {
                            assert(comments_clear(p, cfg));
                        } else {
                            match items[i] {
                                MapItemV::Entry(k, v) => {
                                    assert(comments_clear(v, cfg));
                                },
                                MapItemV::Comment(_) => {},
                            }
                        }
                    }
                    lemma_roundtrip_items(items, eit, key, aad, cfg, items.len() as int);
                    assert(items.take(items.len() as int) =~= items);
                    assert(eit.take(items.len() as int) =~= eit);
                },
                _ => {
                    assert(false);
                },
            }
        },
    }
}

proof fn lemma_roundtrip_elems(
    ch: Seq<NodeV>,
    ech: Seq<NodeV>,
    key: Seq<u8>,
    aad: Seq<u8>,
    cfg: WalkCfgV,
    k: int,
)
    requires
        ech.len() == ch.len(),
        0 <= k <= ch.len(),
        forall|i: int|
            0 <= i < ch.len() ==> enc_rel(#[trigger] ch[i], ech[i], key, child_aad_idx(
                aad,
                i,
            ), cfg),
        crate::tree::elems_in_range(ch),
        forall|i: int| 0 <= i < ch.len() ==> comments_clear(#[trigger] ch[i], cfg),
    ensures
        dec_elems(ech.take(k), key, aad, cfg) == Some(ch.take(k)),
    decreases ch, k,
{
    if k == 0 {
        assert(ech.take(0) =~= Seq::<NodeV>::empty());
        assert(ch.take(0) =~= Seq::<NodeV>::empty());
    } else {
        lemma_roundtrip_elems(ch, ech, key, aad, cfg, k - 1);
        lemma_elems_in_range_index(ch, k - 1);
        lemma_decrypt_inverts_encrypt(ch[k - 1], ech[k - 1], key, child_aad_idx(aad, k - 1),
        cfg);
        assert(ech.take(k).drop_last() =~= ech.take(k - 1));
        assert(ech.take(k).last() == ech[k - 1]);
        assert(ch.take(k) =~= ch.take(k - 1).push(ch[k - 1]));
    }
}

proof fn lemma_roundtrip_items(
    items: Seq<MapItemV>,
    eit: Seq<MapItemV>,
    key: Seq<u8>,
    aad: Seq<u8>,
    cfg: WalkCfgV,
    k: int,
)
    requires
        eit.len() == items.len(),
        0 <= k <= items.len(),
        forall|i: int|
            0 <= i < items.len() ==> item_enc_rel(#[trigger] items[i], eit[i], key, aad, cfg),
        crate::tree::items_in_range(items),
        forall|i: int| 0 <= i < items.len() ==> item_comments_clear(#[trigger] items[i], cfg),
    ensures
        dec_items(eit.take(k), key, aad, cfg) == Some(items.take(k)),
    decreases items, k,
{
    if k == 0 {
        assert(eit.take(0) =~= Seq::<MapItemV>::empty());
        assert(items.take(0) =~= Seq::<MapItemV>::empty());
    } else {
        lemma_roundtrip_items(items, eit, key, aad, cfg, k - 1);
        lemma_items_in_range_index(items, k - 1);
        assert(eit.take(k).drop_last() =~= eit.take(k - 1));
        assert(eit.take(k).last() == eit[k - 1]);
        assert(items.take(k) =~= items.take(k - 1).push(items[k - 1]));
        match items[k - 1] {
            MapItemV::Entry(ky, v) => {
                if !key_excluded(ky, cfg.suffix) {
                    lemma_decrypt_inverts_encrypt(v, match eit[k - 1] {
                        MapItemV::Entry(_, ev) => ev,
                        MapItemV::Comment(c) => NodeV::Comment(c),
                    }, key, child_aad_key(aad, ky), cfg);
                }
            },
            MapItemV::Comment(c) => {},
        }
    }
}

/// Position `k` of an in-range element sequence is in range.
proof fn lemma_elems_in_range_index(ch: Seq<NodeV>, k: int)
    requires
        crate::tree::elems_in_range(ch),
        0 <= k < ch.len(),
    ensures
        crate::tree::node_in_range(ch[k]),
    decreases ch.len(),
{
    if k < ch.len() - 1 {
        assert(ch.drop_last()[k] == ch[k]);
        lemma_elems_in_range_index(ch.drop_last(), k);
    }
}

/// Position `k` of an in-range item sequence is in range.
proof fn lemma_items_in_range_index(items: Seq<MapItemV>, k: int)
    requires
        crate::tree::items_in_range(items),
        0 <= k < items.len(),
    ensures
        match items[k] {
            MapItemV::Entry(_, v) => crate::tree::node_in_range(v),
            MapItemV::Comment(_) => true,
        },
    decreases items.len(),
{
    if k < items.len() - 1 {
        assert(items.drop_last()[k] == items[k]);
        lemma_items_in_range_index(items.drop_last(), k);
    }
}

/// The cleartext-suffix policy on encryption: an entry whose key ends with
/// the configured suffix stands in the encrypted tree byte-identical,
/// subtree and all.
pub proof fn lemma_encrypt_keeps_excluded(
    p: NodeV,
    e: NodeV,
    key: Seq<u8>,
    aad: Seq<u8>,
    cfg: WalkCfgV,
    i: int,
)
    requires
        enc_rel(p, e, key, aad, cfg),
        p matches NodeV::Mapping(items) && 0 <= i < items.len() && (items[i] matches
            MapItemV::Entry(k, v) && key_excluded(k, cfg.suffix)),
    ensures
        e matches NodeV::Mapping(eit) && (p matches NodeV::Mapping(items) ==> eit[i]
            == items[i]),
{
    match p {
        NodeV::Mapping(items) => {
            match e {
                NodeV::Mapping(eit) => {
                    assert(item_enc_rel(items[i], eit[i], key, aad, cfg));
                    match items[i] {
                        MapItemV::Entry(k, v) => {
                            match eit[i] {
                                MapItemV::Entry(ek, ev) => {
                                    assert(ek == k && ev == v);
                                    assert(eit[i] == items[i]);
                                },
                                _ => {
                                    assert(false);
                                },
                            }
                        },
                        _ => {
                            assert(false);
                        },
                    }
                },
                _ => {
                    assert(false);
                },
            }
        },
        _ => {
            assert(false);
        },
    }
}

/// The cleartext-suffix policy on decryption: an entry whose key ends with
/// the configured suffix stands in the decrypted tree byte-identical,
/// subtree and all.
pub proof fn lemma_decrypt_keeps_excluded(
    e: NodeV,
    d: NodeV,
    key: Seq<u8>,
    aad: Seq<u8>,
    cfg: WalkCfgV,
    i: int,
)
    requires
        dec_node(e, key, aad, cfg) == Some(d),
        e matches NodeV::Mapping(items) && 0 <= i < items.len() && (items[i] matches
            MapItemV::Entry(k, v) && key_excluded(k, cfg.suffix)),
    ensures
        d matches NodeV::Mapping(dit) && (e matches NodeV::Mapping(items) ==> dit.len()
            == items.len() && dit[i] == items[i]),
{
    match e {
        NodeV::Mapping(items) => {
            lemma_dec_items_excluded(items, key, aad, cfg, i);
        },
        _ => {
            assert(false);
        },
    }
}

proof fn lemma_dec_items_excluded(
    items: Seq<MapItemV>,
    key: Seq<u8>,
    aad: Seq<u8>,
    cfg: WalkCfgV,
    i: int,
)
    requires
        dec_items(items, key, aad, cfg) is Some,
        0 <= i < items.len(),
        items[i] matches MapItemV::Entry(k, v) && key_excluded(k, cfg.suffix),
    ensures
        dec_items(items, key, aad, cfg).unwrap().len() == items.len(),
        dec_items(items, key, aad, cfg).unwrap()[i] == items[i],
    decreases items.len(),
{
    lemma_dec_items_len(items, key, aad, cfg);
    if i < items.len() - 1 {
        assert(items.drop_last()[i] == items[i]);
        lemma_dec_items_excluded(items.drop_last(), key, aad, cfg, i);
        lemma_dec_items_len(items.drop_last(), key, aad, cfg);
    }
}

/// A decrypted mapping has as many items as the encrypted one.
proof fn lemma_dec_items_len(items: Seq<MapItemV>, key: Seq<u8>, aad: Seq<u8>, cfg: WalkCfgV)
    requires
        dec_items(items, key, aad, cfg) is Some,
    ensures
        dec_items(items, key, aad, cfg).unwrap().len() == items.len(),
    decreases items.len(),
{
    if items.len() > 0 {
        lemma_dec_items_len(items.drop_last(), key, aad, cfg);
    }
}

/// A comment that stands in cleartext inside an otherwise encrypted
/// document is passed through by decryption and stays visible.
pub proof fn lemma_decrypt_cleartext_comment(c: Seq<u8>, key: Seq<u8>, aad: Seq<u8>, cfg: WalkCfgV)
    requires
        !is_enc_marked(c),
    ensures
        dec_node(NodeV::Comment(c), key, aad, cfg) == Some(NodeV::Comment(c)),
{
}

/// A comment of the plain tree is encrypted whenever comment encryption is
/// on: the encrypted tree holds an `ENC[...]` text in its place that
/// decrypts back to the comment verbatim.
pub proof fn lemma_encrypt_comment(p: NodeV, e: NodeV, key: Seq<u8>, aad: Seq<u8>, cfg: WalkCfgV)
    requires
        enc_rel(p, e, key, aad, cfg),
        p matches NodeV::Comment(c),
        cfg.encrypt_comments,
    ensures
        e matches NodeV::Comment(t) && is_enc_marked(t) && (p matches NodeV::Comment(c)
            ==> dec_node(e, key, aad, cfg) == Some(NodeV::Comment(c))),
{
}

} // verus!
