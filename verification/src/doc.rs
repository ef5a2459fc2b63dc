//! Whole-document operations: encrypt a tree and attach the metadata
//! block, recover the data key and decrypt, verify the digest, and the
//! path-addressed `set` and `extract`.

use vstd::prelude::*;
use crate::tree::{Node, NodeV, MapItem, MapItemV, clone_bytes};
use crate::walk::{
    WalkCfg, WalkCfgV, enc_rel, item_enc_rel, dec_node, mac_node, mac_items, mac_elems,
    encrypt_node, decrypt_node, child_aad_key, child_aad_idx,
};
use crate::value::{VAL_LIMIT, canon_of, value_plain};
use crate::enc::ValType;
use crate::mac::{mac_aad, digest_of, seal_mac, check_mac};
use crate::meta::{
    Metadata, MetadataV, meta_node, parse_meta, meta_to_node, meta_from_node, sops_key,
    key_sops, groups_view,
};
use crate::keysvc::{KeyService, KeyKind, MasterKey};
use crate::groups::{
    wrap_data_key, recover_data_key, threshold_mode, group_can, count_can, group_can_v,
    count_can_v, group_wraps_same, group_wraps_same_v, group_wraps_share,
    group_wraps_share_v, count_nonempty, count_nonempty_v,
};
use crate::shamir::{ShareV, combine_spec};
use crate::path::{
    PathSeg, PathSegV, segs_view, key_index, key_index_exec, items_view, get_at, set_at,
    set_at_exec, extract_at,
};
use crate::cipher::{KEY_LEN, random_bytes};
use crate::bytes::push_all;
use crate::error::Error;

verus! {

broadcast use vstd::std_specs::vec::axiom_vec_index_decreases, vstd::std_specs::vec::axiom_vec_decreases_to_view, vstd::seq::axiom_seq_index_decreases, vstd::seq::axiom_seq_subrange_decreases;

/// The walker configuration a metadata block prescribes.
pub open spec fn cfg_of(mv: MetadataV) -> WalkCfgV {
    WalkCfgV { suffix: mv.unencrypted_suffix, encrypt_comments: mv.encrypted_comments }
}

/// The metadata block of an encrypted document: the parsed value of its
/// `sops` entry.
pub open spec fn doc_meta_of(o: NodeV) -> Option<MetadataV> {
    match o {
        NodeV::Mapping(items) => {
            let j = key_index(items, sops_key());
            if j < 0 {
                None
            } else {
                match items[j] {
                    MapItemV::Entry(_, mn) => parse_meta(mn),
                    MapItemV::Comment(_) => None,
                }
            }
        },
        _ => None,
    }
}

/// The document with its `sops` entry removed.
pub open spec fn doc_body_of(o: NodeV) -> Option<NodeV> {
    match o {
        NodeV::Mapping(items) => {
            let j = key_index(items, sops_key());
            if j < 0 {
                None
            } else {
                Some(NodeV::Mapping(items.remove(j)))
            }
        },
        _ => None,
    }
}

/// The key groups of a metadata block can yield this data key: some entry
/// of some group unwraps to it (direct mode), or — in threshold mode — at
/// least threshold-many of the block's groups hold an entry the backend can
/// unwrap, and the key interpolates from threshold-many shares.
pub open spec fn key_recovered<S: KeyService>(svc: &S, mv: MetadataV, dk: Seq<u8>) -> bool {
    if threshold_mode(mv.groups.len() as int, mv.shamir_threshold) {
        &&& count_can_v(svc, mv.groups, mv.groups.len() as int) >= mv.shamir_threshold
        &&& exists|sh: Seq<ShareV>|
            sh.len() == mv.shamir_threshold && combine_spec(sh) == Some(dk)
    } else {
        exists|i: int, j: int|
            0 <= i < mv.groups.len() && 0 <= j < mv.groups[i].len() && svc.unwrap_model(
                #[trigger] mv.groups[i][j],
            ) == Some(dk)
    }
}

/// `o` is an encryption of the plain document `p` under data key `dk` with
/// metadata `mv`: same mapping with every value encrypted per the walker,
/// one added `sops` entry holding the metadata tree, and the metadata's
/// digest sealing the plain document's canonical text.
pub open spec fn doc_enc_rel<S: KeyService>(
    svc: &S,
    p: NodeV,
    o: NodeV,
    dk: Seq<u8>,
    mv: MetadataV,
    cfg: WalkCfgV,
    lastmodified: Seq<u8>,
    threshold: int,
) -> bool {
    match (p, o) {
        (NodeV::Mapping(pits), NodeV::Mapping(oits)) => {
            &&& dk.len() == KEY_LEN
            &&& oits.len() == pits.len() + 1
            &&& (forall|i: int|
                0 <= i < pits.len() ==> item_enc_rel(
                    #[trigger] pits[i],
                    oits[i],
                    dk,
                    Seq::empty(),
                    cfg,
                ))
            &&& oits.last() == MapItemV::Entry(sops_key(), meta_node(mv))
            &&& mv.unencrypted_suffix == cfg.suffix
            &&& mv.encrypted_comments == cfg.encrypt_comments
            &&& value_plain(dk, mac_aad(), mv.mac) == Some(
                (digest_of(dk, mac_items(pits, cfg)), ValType::Bytes),
            )
            &&& (!threshold_mode(mv.groups.len() as int, mv.shamir_threshold) ==> (forall|
                i: int,
                j: int,
            |
                0 <= i < mv.groups.len() && 0 <= j < mv.groups[i].len() ==> svc.unwrap_model(
                    #[trigger] mv.groups[i][j],
                ) == Some(dk)))
            &&& mv.groups.len() >= 1
            &&& (!threshold_mode(mv.groups.len() as int, mv.shamir_threshold) ==> (forall|
                i: int,
            |
                0 <= i < mv.groups.len() ==> (#[trigger] mv.groups[i]).len() >= 1))
            &&& (threshold_mode(mv.groups.len() as int, mv.shamir_threshold) ==> (forall|
                i: int,
            |
                0 <= i < mv.groups.len() ==> group_wraps_same_v(svc, #[trigger] mv.groups[i]))
                && count_nonempty_v(mv.groups, mv.groups.len() as int)
                >= mv.shamir_threshold)
            &&& mv.version == version_text_s()
            &&& mv.lastmodified == lastmodified
            &&& mv.shamir_threshold == threshold
            &&& (threshold_mode(mv.groups.len() as int, mv.shamir_threshold) ==> (exists|
                cs: Seq<Seq<u8>>,
            |
                #![trigger cs.len()]
                cs.len() == KEY_LEN && (forall|k: int|
                    0 <= k < KEY_LEN ==> (#[trigger] cs[k]).len() == mv.shamir_threshold
                        && cs[k][0] == dk[k]) && (forall|i: int|
                    0 <= i < mv.groups.len() ==> group_wraps_share_v(
                        svc,
                        #[trigger] mv.groups[i],
                        cs,
                        (i + 1) as u8,
                    ))))
        },
        _ => false,
    }
}

/// The view of the groups can be unwrapped exactly as the groups can.
proof fn lemma_count_can_bridge<S: KeyService>(svc: &S, gs: Seq<Vec<MasterKey>>, k: int)
    requires
        0 <= k <= gs.len(),
    ensures
        count_can_v(svc, groups_view(gs), k) == count_can(svc, gs, k),
    decreases k,
{
    if k > 0 {
        lemma_count_can_bridge(svc, gs, k - 1);
        let gv = groups_view(gs)[k - 1];
        assert(gv == crate::meta::group_view(gs[k - 1]@));
        assert(forall|j: int| 0 <= j < gv.len() ==> #[trigger] gv[j] == gs[k - 1]@[j]@);
        if group_can(svc, gs[k - 1]@) {
            let j = choose|j: int|
                0 <= j < gs[k - 1]@.len() && svc.unwrap_model(
                    (#[trigger] gs[k - 1]@[j])@,
                ) is Some;
            assert(svc.unwrap_model(gv[j]) is Some);
            assert(group_can_v(svc, gv));
        }
        if group_can_v(svc, gv) {
            let j = choose|j: int| 0 <= j < gv.len() && svc.unwrap_model(#[trigger] gv[j])
                is Some;
            assert(svc.unwrap_model(gs[k - 1]@[j]@) is Some);
            assert(group_can(svc, gs[k - 1]@));
        }
    }
}

/// The view of the groups is nonempty exactly where the groups are.
proof fn lemma_count_nonempty_bridge(gs: Seq<Vec<MasterKey>>, k: int)
    requires
        0 <= k <= gs.len(),
    ensures
        count_nonempty_v(groups_view(gs), k) == count_nonempty(gs, k),
    decreases k,
{
    if k > 0 {
        lemma_count_nonempty_bridge(gs, k - 1);
        assert(groups_view(gs)[k - 1] == crate::meta::group_view(gs[k - 1]@));
    }
}

/// What encryption rejects outright: anything but a mapping, or a mapping
/// that already carries a `sops` entry.
pub open spec fn encrypt_rejected(o: NodeV) -> bool {
    match o {
        NodeV::Mapping(items) => key_index(items, sops_key()) >= 0,
        _ => true,
    }
}

/// Encrypts a document: draws a fresh data key, wraps it against every
/// recipient of every group, encrypts every value in place, and attaches
/// the metadata block with the sealed digest.  The input must be a mapping
/// that does not already carry a `sops` entry.
#[verifier::loop_isolation(false)]
pub fn encrypt_document<S: KeyService>(
    n: &Node,
    svc: &S,
    recipients: &Vec<Vec<(KeyKind, Vec<u8>)>>,
    threshold: usize,
    cfg: &WalkCfg,
    lastmodified: &Vec<u8>,
) -> (r: Result<Node, Error>)
    ensures
        r matches Ok(out) ==> (exists|dk: Seq<u8>, mv: MetadataV|
            doc_enc_rel(
                svc,
                n.deep_view(),
                out.deep_view(),
                dk,
                mv,
                cfg@,
                lastmodified@,
                threshold as int,
            )),
        (r == Err::<Node, Error>(Error::ParseError)) == encrypt_rejected(n.deep_view()),
        (crate::walk::enc_ok(n.deep_view(), Seq::empty(), cfg@) && mac_node(
            n.deep_view(),
            cfg@,
        ).len() < VAL_LIMIT) ==> !(r == Err::<Node, Error>(Error::CipherError)),
        r matches Err(er) ==> er == Error::ParseError || er == Error::KeyRecoveryError || er
            == Error::CipherError,
{
    let items = match n {
        Node::Mapping(items) => items,
        _ => {
            return Err(Error::ParseError);
        },
    };
    let ghost iv0 = items_view(items@);
    proof {
        assert(n.deep_view() matches NodeV::Mapping(iv2) && iv2 =~= iv0);
    }
    let skey = key_sops();
    if let Some(_) = key_index_exec(items, &skey) {
        return Err(Error::ParseError);
    }
    if threshold > i64::MAX as usize {
        return Err(Error::KeyRecoveryError);
    }
    let dk = random_bytes(KEY_LEN);
    let gs = match wrap_data_key(svc, &dk, recipients, threshold) {
        Ok(gs) => gs,
        Err(_) => {
            return Err(Error::KeyRecoveryError);
        },
    };
    let empty_aad: Vec<u8> = Vec::new();
    proof {
        assert(empty_aad@ =~= Seq::<u8>::empty());
    }
    let mut macbuf: Vec<u8> = Vec::new();
    let enc = match encrypt_node(n, &dk, &empty_aad, cfg, &mut macbuf) {
        Ok(e) => e,
        Err(_) => {
            return Err(Error::CipherError);
        },
    };
    if macbuf.len() >= VAL_LIMIT {
        return Err(Error::CipherError);
    }
    let mac_text = seal_mac(&dk, &macbuf);
    let ghost mac_view = mac_text@;
    let meta = Metadata {
        version: version_text(),
        lastmodified: clone_bytes(lastmodified),
        unencrypted_suffix: clone_bytes(&cfg.unencrypted_suffix),
        encrypted_comments: cfg.encrypt_comments,
        shamir_threshold: threshold as u64,
        mac: mac_text,
        groups: gs,
    };
    let ghost mv = meta@;
    let mn = meta_to_node(&meta);
    let mut eitems = match enc {
        Node::Mapping(ei) => ei,
        _ => {
            proof {
                assert(false);
            }
            return Err(Error::CipherError);
        },
    };
    let ghost eiv = items_view(eitems@);
    let it = MapItem::Entry(key_sops(), mn);
    let ghost itv = it.deep_view();
    eitems.push(it);
    let out = Node::Mapping(eitems);
    proof {
        let pv = n.deep_view();
        let ov = out.deep_view();
        assert(itv == MapItemV::Entry(sops_key(), meta_node(mv)));
        match (pv, ov) {
            (NodeV::Mapping(pits), NodeV::Mapping(oits)) => {
                assert(oits =~= eiv.push(itv));
                assert(enc_rel(pv, NodeV::Mapping(eiv), dk@, empty_aad@, cfg@)) by {
                    assert(enc.deep_view() matches NodeV::Mapping(ee) && ee =~= eiv);
                }
                assert(empty_aad@ =~= Seq::<u8>::empty());
                assert(macbuf@ == mac_node(pv, cfg@));
                assert(mac_items(pits, cfg@) == macbuf@);
                assert(mv.groups =~~= groups_view(meta.groups@));
                assert(mv.groups.len() == meta.groups@.len());
                assert forall|i: int| 0 <= i < mv.groups.len() implies (#[trigger] mv.groups[
                    i
                ]).len() == meta.groups@[i]@.len() && (forall|j: int|
                    0 <= j < mv.groups[i].len() ==> mv.groups[i][j] == meta.groups@[i]@[
                        j
                    ]@) by {
                    assert(mv.groups[i] == crate::meta::group_view(meta.groups@[i]@));
                }
                if threshold_mode(mv.groups.len() as int, mv.shamir_threshold) {
                    assert(threshold_mode(recipients@.len() as int, threshold as int));
                    assert forall|i: int| 0 <= i < mv.groups.len() implies group_wraps_same_v(
                        svc,
                        #[trigger] mv.groups[i],
                    ) by {
                        assert(group_wraps_same(svc, meta.groups@[i]@));
                        let y = choose|y: Seq<u8>|
                            y.len() == KEY_LEN && (forall|j: int|
                                0 <= j < meta.groups@[i]@.len() ==> svc.unwrap_model(
                                    (#[trigger] meta.groups@[i]@[j])@,
                                ) == Some(y));
                        assert(forall|j: int|
                            0 <= j < mv.groups[i].len() ==> svc.unwrap_model(
                                #[trigger] mv.groups[i][j],
                            ) == Some(y));
                    }
                    lemma_count_nonempty_bridge(meta.groups@, meta.groups@.len() as int);
                    assert(count_nonempty_v(mv.groups, mv.groups.len() as int)
                        >= mv.shamir_threshold);
                } else {
                    assert(!threshold_mode(recipients@.len() as int, threshold as int));
                }
                if threshold_mode(mv.groups.len() as int, mv.shamir_threshold) {
                    let cs = choose|cs: Seq<Seq<u8>>|
                        #![trigger cs.len()]
                        cs.len() == KEY_LEN && (forall|k: int|
                            0 <= k < KEY_LEN ==> (#[trigger] cs[k]).len() == threshold
                                && cs[k][0] == dk@[k]) && (forall|i: int|
                            0 <= i < gs@.len() ==> group_wraps_share(
                                svc,
                                (#[trigger] gs@[i])@,
                                cs,
                                (i + 1) as u8,
                            ));
                    assert forall|i: int| 0 <= i < mv.groups.len() implies
                        group_wraps_share_v(svc, #[trigger] mv.groups[i], cs, (i
                        + 1) as u8) by {
                        assert(group_wraps_share(svc, gs@[i]@, cs, (i + 1) as u8));
                        assert forall|j: int| 0 <= j < mv.groups[i].len() implies
                            svc.unwrap_model(#[trigger] mv.groups[i][j]) == Some(
                            Seq::new(
                                KEY_LEN as nat,
                                |k: int| crate::shamir::poly_eval_spec(cs[k], (i
                                    + 1) as u8),
                            ),
                        ) by {
                            assert(mv.groups[i][j] == gs@[i]@[j]@);
                        }
                    }
                    assert(cs.len() == KEY_LEN);
                }
                assert(doc_enc_rel(svc, pv, ov, dk@, mv, cfg@, lastmodified@,
                threshold as int));
            },
            _ => {
                assert(false);
            },
        }
    }
    Ok(out)
}

/// `"1"`: the format version this library writes.
pub open spec fn version_text_s() -> Seq<u8> {
    seq![49u8]
}

fn version_text() -> (r: Vec<u8>)
    ensures
        r@ == version_text_s(),
{
    let r: Vec<u8> = vec![49];
    proof {
        assert(r@ =~= version_text_s());
    }
    r
}

/// What a successful decryption certifies: the document carries a metadata
/// block; some data key of the right length is recoverable from its groups;
/// the body (the document without its `sops` entry) decrypts to the result
/// under that key and the metadata's own walker configuration; and, unless
/// the check was waived, the stored digest opens under the data key to
/// exactly the digest of the decrypted document's canonical text.
pub open spec fn doc_decrypts_to<S: KeyService>(
    svc: &S,
    o: NodeV,
    ignore_mac: bool,
    d: NodeV,
) -> bool {
    exists|dk: Seq<u8>, mv: MetadataV|
        {
            &&& dk.len() == KEY_LEN
            &&& #[trigger] doc_meta_of(o) == Some(mv)
            &&& key_recovered(svc, mv, dk)
            &&& doc_body_of(o) matches Some(body) && dec_node(
                body,
                dk,
                Seq::empty(),
                cfg_of(mv),
            ) == Some(d)
            &&& !ignore_mac ==> mv.mac.len() > 0 && value_plain(dk, mac_aad(), mv.mac)
                == Some((digest_of(dk, mac_node(d, cfg_of(mv))), ValType::Bytes))
        }
}

/// Decrypts a document: reads the metadata block, recovers the data key
/// from the key groups, decrypts every `ENC[...]` value in place, and
/// verifies the digest unless `ignore_mac` waives it.
pub fn decrypt_document<S: KeyService>(n: &Node, svc: &S, ignore_mac: bool) -> (r: Result<
    Node,
    Error,
>)
    ensures
        r matches Ok(d) ==> doc_decrypts_to(svc, n.deep_view(), ignore_mac, d.deep_view()),
        (r == Err::<Node, Error>(Error::ParseError)) == (doc_meta_of(n.deep_view())
            is None),
        r matches Err(er) ==> er == Error::ParseError || er == Error::KeyRecoveryError || er
            == Error::CipherError || er == Error::MacVerificationError,
{
    let items = match n {
        Node::Mapping(items) => items,
        _ => {
            return Err(Error::ParseError);
        },
    };
    let ghost iv = items_view(items@);
    proof {
        assert(n.deep_view() matches NodeV::Mapping(iv2) && iv2 =~= iv);
    }
    let skey = key_sops();
    let j = match key_index_exec(items, &skey) {
        Some(j) => j,
        None => {
            return Err(Error::ParseError);
        },
    };
    let meta = match &items[j] {
        MapItem::Entry(_, mn) => {
            match meta_from_node(mn) {
                Ok(m) => m,
                Err(_) => {
                    return Err(Error::ParseError);
                },
            }
        },
        MapItem::Comment(_) => {
            proof {
                crate::path::lemma_key_index_entry(iv, sops_key());
            }
            return Err(Error::ParseError);
        },
    };
    let ghost mv = meta@;
    if meta.shamir_threshold > usize::MAX as u64 {
        return Err(Error::KeyRecoveryError);
    }
    let threshold = meta.shamir_threshold as usize;
    let dk = match recover_data_key(svc, &meta.groups, threshold) {
        Ok(dk) => dk,
        Err(_) => {
            return Err(Error::KeyRecoveryError);
        },
    };
    if dk.len() != KEY_LEN {
        return Err(Error::KeyRecoveryError);
    }
    proof {
        assert(mv.groups =~~= groups_view(meta.groups@));
        assert forall|i: int, j2: int|
            0 <= i < meta.groups@.len() && 0 <= j2 < meta.groups@[i]@.len() implies (
        #[trigger] meta.groups@[i]@[j2])@ == mv.groups[i][j2] by {
            assert(mv.groups[i] == crate::meta::group_view(meta.groups@[i]@));
        }
    }
    // Rebuild the document without its metadata entry.
    let mut body_items: Vec<MapItem> = Vec::new();
    crate::path::copy_items_range(&mut body_items, items, 0, j);
    crate::path::copy_items_range(&mut body_items, items, j + 1, items.len());
    let body = Node::Mapping(body_items);
    proof {
        match body.deep_view() {
            NodeV::Mapping(bv) => {
                assert(bv =~= iv.remove(j as int));
            },
            _ => {
                assert(false);
            },
        }
    }
    let cfg = WalkCfg {
        unencrypted_suffix: clone_bytes(&meta.unencrypted_suffix),
        encrypt_comments: meta.encrypted_comments,
    };
    let empty_aad: Vec<u8> = Vec::new();
    let mut macbuf: Vec<u8> = Vec::new();
    let plain = match decrypt_node(&body, &dk, &empty_aad, &cfg, &mut macbuf) {
        Ok(p) => p,
        Err(_) => {
            return Err(Error::CipherError);
        },
    };
    if !ignore_mac {
        // A document without a stored digest is rejected unless the check
        // is waived.
        if meta.mac.len() == 0 {
            return Err(Error::MacVerificationError);
        }
        if macbuf.len() >= VAL_LIMIT {
            return Err(Error::MacVerificationError);
        }
        match check_mac(&dk, &meta.mac, &macbuf) {
            Ok(()) => {},
            Err(_) => {
                return Err(Error::MacVerificationError);
            },
        }
    }
    proof {
        let ov = n.deep_view();
        assert(cfg@ == cfg_of(mv));
        assert(empty_aad@ =~= Seq::<u8>::empty());
        assert(doc_meta_of(ov) == Some(mv));
        assert(doc_body_of(ov) matches Some(b2) && b2 == body.deep_view());
        assert(macbuf@ == mac_node(plain.deep_view(), cfg@));
        assert(key_recovered(svc, mv, dk@)) by {
            if threshold_mode(mv.groups.len() as int, mv.shamir_threshold) {
                assert(threshold_mode(meta.groups@.len() as int, threshold as int));
                lemma_count_can_bridge(svc, meta.groups@, meta.groups@.len() as int);
            }
        }
        assert(doc_decrypts_to(svc, ov, ignore_mac, plain.deep_view()));
    }
    Ok(plain)
}

/// Collects the digest input of a plain tree: the same bytes the walkers
/// append while encrypting or decrypting it.
#[verifier::loop_isolation(false)]
pub fn mac_collect(n: &Node, cfg: &WalkCfg, out: &mut Vec<u8>)
    ensures
        final(out)@ == old(out)@ + mac_node(n.deep_view(), cfg@),
    decreases n,
{
    match n {
        Node::Scalar(s) => {
            let canon = canon_of(s);
            push_all(out, &canon);
        },
        Node::Comment(c) => {
            if cfg.encrypt_comments {
                push_all(out, c);
            } else {
                proof {
                    assert(out@ =~= old(out)@ + mac_node(n.deep_view(), cfg@));
                }
            }
        },
        Node::Sequence(v) => {
            let ghost pch = match n.deep_view() {
                NodeV::Sequence(c) => c,
                _ => Seq::empty(),
            };
            proof {
                assert(pch.len() == v@.len());
                assert(forall|j: int| 0 <= j < v@.len() ==> pch[j] == v@[j].deep_view());
                assert(pch.take(0) =~= Seq::empty());
            }
            let mut i: usize = 0;
            while i < v.len()
                invariant
                    0 <= i <= v@.len(),
                    out@ == old(out)@ + mac_elems(pch.take(i as int), cfg@),
                decreases v@.len() - i,
            {
                mac_collect(&v[i], cfg, out);
                proof {
                    let k = i as int;
                    assert(pch.take(k + 1).drop_last() =~= pch.take(k));
                    assert(pch.take(k + 1).last() == pch[k]);
                    assert(out@ =~= old(out)@ + mac_elems(pch.take(k + 1), cfg@));
                }
                i += 1;
            }
            proof {
                assert(pch.take(v@.len() as int) =~= pch);
            }
        },
        Node::Mapping(v) => {
            let ghost pit = match n.deep_view() {
                NodeV::Mapping(c) => c,
                _ => Seq::empty(),
            };
            proof {
                assert(pit.len() == v@.len());
                assert(forall|j: int| 0 <= j < v@.len() ==> pit[j] == v@[j].deep_view());
                assert(pit.take(0) =~= Seq::empty());
            }
            let mut i: usize = 0;
            while i < v.len()
                invariant
                    0 <= i <= v@.len(),
                    out@ == old(out)@ + mac_items(pit.take(i as int), cfg@),
                decreases v@.len() - i,
            {
                match &v[i] {
                    MapItem::Entry(k, val) => {
                        if !(cfg.unencrypted_suffix.len() > 0 && crate::bytes::ends_with(
                            k,
                            &cfg.unencrypted_suffix,
                        )) {
                            mac_collect(val, cfg, out);
                        }
                    },
                    MapItem::Comment(c) => {
                        if cfg.encrypt_comments {
                            push_all(out, c);
                        }
                    },
                }
                proof {
                    let k2 = i as int;
                    assert(pit.take(k2 + 1).drop_last() =~= pit.take(k2));
                    assert(pit.take(k2 + 1).last() == pit[k2]);
                    assert(out@ =~= old(out)@ + mac_items(pit.take(k2 + 1), cfg@));
                }
                i += 1;
            }
            proof {
                assert(pit.take(v@.len() as int) =~= pit);
            }
        },
    }
}

/// Decrypts a document and reads the cleartext subtree at `path`.
pub fn extract_document<S: KeyService>(
    n: &Node,
    svc: &S,
    path: &Vec<PathSeg>,
    ignore_mac: bool,
) -> (r: Result<Node, Error>)
    ensures
        r matches Ok(s) ==> (exists|d: NodeV|
            #[trigger] doc_decrypts_to(svc, n.deep_view(), ignore_mac, d) && get_at(
                d,
                segs_view(path@),
            ) == Some(s.deep_view())),
        (r == Err::<Node, Error>(Error::ParseError)) == (doc_meta_of(n.deep_view())
            is None),
        r matches Err(er) ==> er == Error::ParseError || er == Error::KeyRecoveryError || er
            == Error::CipherError || er == Error::MacVerificationError || er
            == Error::PathError,
{
    let d = match decrypt_document(n, svc, ignore_mac) {
        Ok(d) => d,
        Err(e) => {
            return Err(e);
        },
    };
    proof {
        assert(segs_view(path@).skip(0) =~= segs_view(path@));
    }
    extract_at(&d, path, 0)
}

/// The document body with a freshly printed metadata entry appended.
pub open spec fn with_sops(b: NodeV, mv: MetadataV) -> NodeV {
    match b {
        NodeV::Mapping(items) => NodeV::Mapping(
            items.push(MapItemV::Entry(sops_key(), meta_node(mv))),
        ),
        _ => b,
    }
}

/// What a successful `set` certifies.  The output document is the input's
/// body with only the subtree at `path` replaced by a fresh encryption of
/// the new value (every other encrypted value byte-for-byte unchanged,
/// missing structure created), under a metadata block that differs only in
/// its digest — which now seals the updated plain document.
pub open spec fn doc_set_rel<S: KeyService>(
    svc: &S,
    o: NodeV,
    path: Seq<PathSegV>,
    v: NodeV,
    out: NodeV,
    dk: Seq<u8>,
    mv: MetadataV,
    mv2: MetadataV,
    esub: NodeV,
) -> bool {
    &&& dk.len() == KEY_LEN
    &&& doc_meta_of(o) == Some(mv)
    &&& key_recovered(svc, mv, dk)
    &&& enc_rel(v, esub, dk, path_aad(path), cfg_of(mv))
    &&& doc_body_of(o) is Some
    &&& set_at(doc_body_of(o).unwrap(), path, esub) is Some
    &&& out == with_sops(set_at(doc_body_of(o).unwrap(), path, esub).unwrap(), mv2)
    &&& dec_node(doc_body_of(o).unwrap(), dk, Seq::empty(), cfg_of(mv)) is Some
    &&& set_at(
        dec_node(doc_body_of(o).unwrap(), dk, Seq::empty(), cfg_of(mv)).unwrap(),
        path,
        v,
    ) is Some
    &&& value_plain(dk, mac_aad(), mv2.mac) == Some(
        (
            digest_of(
                dk,
                mac_node(
                    set_at(
                        dec_node(
                            doc_body_of(o).unwrap(),
                            dk,
                            Seq::empty(),
                            cfg_of(mv),
                        ).unwrap(),
                        path,
                        v,
                    ).unwrap(),
                    cfg_of(mv),
                ),
            ),
            ValType::Bytes,
        ),
    )
    &&& mv2.groups == mv.groups
    &&& mv2.unencrypted_suffix == mv.unencrypted_suffix
    &&& mv2.encrypted_comments == mv.encrypted_comments
    &&& mv2.shamir_threshold == mv.shamir_threshold
}

/// Replaces (or creates) the subtree at `path` of an encrypted document
/// with a fresh encryption of the plain value `v`, leaving every other
/// encrypted value byte-for-byte unchanged, and reseals the digest over the
/// updated plain document.
pub fn set_document<S: KeyService>(
    n: &Node,
    svc: &S,
    path: &Vec<PathSeg>,
    v: &Node,
) -> (r: Result<Node, Error>)
    ensures
        r matches Ok(out) ==> (exists|dk: Seq<u8>, mv: MetadataV, mv2: MetadataV, esub: NodeV|
            #[trigger] doc_set_rel(
                svc,
                n.deep_view(),
                segs_view(path@),
                v.deep_view(),
                out.deep_view(),
                dk,
                mv,
                mv2,
                esub,
            )),
        (r == Err::<Node, Error>(Error::ParseError)) == (doc_meta_of(n.deep_view())
            is None),
        r matches Err(er) ==> er == Error::ParseError || er == Error::KeyRecoveryError || er
            == Error::CipherError || er == Error::MacVerificationError || er
            == Error::PathError,
{
    let items = match n {
        Node::Mapping(items) => items,
        _ => {
            return Err(Error::ParseError);
        },
    };
    let ghost iv = items_view(items@);
    proof {
        assert(n.deep_view() matches NodeV::Mapping(iv2) && iv2 =~= iv);
    }
    let skey = key_sops();
    let j = match key_index_exec(items, &skey) {
        Some(j) => j,
        None => {
            return Err(Error::ParseError);
        },
    };
    let meta = match &items[j] {
        MapItem::Entry(_, mn) => {
            match meta_from_node(mn) {
                Ok(m) => m,
                Err(_) => {
                    return Err(Error::ParseError);
                },
            }
        },
        MapItem::Comment(_) => {
            proof {
                crate::path::lemma_key_index_entry(iv, sops_key());
            }
            return Err(Error::ParseError);
        },
    };
    let ghost mv = meta@;
    if meta.shamir_threshold > usize::MAX as u64 || meta.shamir_threshold > i64::MAX as u64 {
        return Err(Error::KeyRecoveryError);
    }
    let threshold = meta.shamir_threshold as usize;
    let dk = match recover_data_key(svc, &meta.groups, threshold) {
        Ok(dk) => dk,
        Err(_) => {
            return Err(Error::KeyRecoveryError);
        },
    };
    if dk.len() != KEY_LEN {
        return Err(Error::KeyRecoveryError);
    }
    proof {
        assert(mv.groups =~~= groups_view(meta.groups@));
        assert forall|i: int, j2: int|
            0 <= i < meta.groups@.len() && 0 <= j2 < meta.groups@[i]@.len() implies (
        #[trigger] meta.groups@[i]@[j2])@ == mv.groups[i][j2] by {
            assert(mv.groups[i] == crate::meta::group_view(meta.groups@[i]@));
        }
        assert(key_recovered(svc, mv, dk@)) by {
            if threshold_mode(mv.groups.len() as int, mv.shamir_threshold) {
                assert(threshold_mode(meta.groups@.len() as int, threshold as int));
                lemma_count_can_bridge(svc, meta.groups@, meta.groups@.len() as int);
            }
        }
    }
    let mut body_items: Vec<MapItem> = Vec::new();
    crate::path::copy_items_range(&mut body_items, items, 0, j);
    crate::path::copy_items_range(&mut body_items, items, j + 1, items.len());
    let body = Node::Mapping(body_items);
    proof {
        match body.deep_view() {
            NodeV::Mapping(bv) => {
                assert(bv =~= iv.remove(j as int));
            },
            _ => {
                assert(false);
            },
        }
    }
    let cfg = WalkCfg {
        unencrypted_suffix: clone_bytes(&meta.unencrypted_suffix),
        encrypt_comments: meta.encrypted_comments,
    };
    let empty_aad: Vec<u8> = Vec::new();
    let mut macbuf0: Vec<u8> = Vec::new();
    let plain = match decrypt_node(&body, &dk, &empty_aad, &cfg, &mut macbuf0) {
        Ok(p) => p,
        Err(_) => {
            return Err(Error::CipherError);
        },
    };
    proof {
        assert(segs_view(path@).skip(0) =~= segs_view(path@));
    }
    let plain2 = match set_at_exec(&plain, path, 0, v) {
        Ok(p) => p,
        Err(_) => {
            return Err(Error::PathError);
        },
    };
    let aad = path_aad_exec(path);
    let mut macjunk: Vec<u8> = Vec::new();
    let esub = match encrypt_node(v, &dk, &aad, &cfg, &mut macjunk) {
        Ok(e) => e,
        Err(_) => {
            return Err(Error::CipherError);
        },
    };
    let newbody = match set_at_exec(&body, path, 0, &esub) {
        Ok(b) => b,
        Err(_) => {
            return Err(Error::PathError);
        },
    };
    let mut macbuf: Vec<u8> = Vec::new();
    mac_collect(&plain2, &cfg, &mut macbuf);
    if macbuf.len() >= VAL_LIMIT {
        return Err(Error::CipherError);
    }
    let mac_text = seal_mac(&dk, &macbuf);
    let meta2 = Metadata {
        version: clone_bytes(&meta.version),
        lastmodified: clone_bytes(&meta.lastmodified),
        unencrypted_suffix: clone_bytes(&meta.unencrypted_suffix),
        encrypted_comments: meta.encrypted_comments,
        shamir_threshold: meta.shamir_threshold,
        mac: mac_text,
        groups: meta.groups,
    };
    let ghost mv2 = meta2@;
    let mn2 = meta_to_node(&meta2);
    let mut oitems = match newbody {
        Node::Mapping(oi) => oi,
        _ => {
            return Err(Error::PathError);
        },
    };
    let ghost oiv = items_view(oitems@);
    let it = MapItem::Entry(key_sops(), mn2);
    let ghost itv = it.deep_view();
    oitems.push(it);
    let out = Node::Mapping(oitems);
    proof {
        let ov = n.deep_view();
        let ghost nb = set_at(doc_body_of(ov).unwrap(), segs_view(path@), esub.deep_view());
        assert(mv2.groups =~~= mv.groups);
        assert(itv == MapItemV::Entry(sops_key(), meta_node(mv2)));
        assert(nb == Some(NodeV::Mapping(oiv))) by {
            assert(NodeV::Mapping(oiv) == nb.unwrap()) by {
                match nb.unwrap() {
                    NodeV::Mapping(nbi) => {
                        assert(oiv =~= nbi);
                    },
                    _ => {},
                }
            }
        }
        match out.deep_view() {
            NodeV::Mapping(fits) => {
                assert(fits =~= oiv.push(itv));
            },
            _ => {
                assert(false);
            },
        }
        assert(macbuf@ == mac_node(plain2.deep_view(), cfg@));
        assert(empty_aad@ =~= Seq::<u8>::empty());
        assert(cfg@ == cfg_of(mv));
        assert(doc_set_rel(
            svc,
            ov,
            segs_view(path@),
            v.deep_view(),
            out.deep_view(),
            dk@,
            mv,
            mv2,
            esub.deep_view(),
        ));
    }
    Ok(out)
}

/// The associated data of the subtree at a path, accumulated from the
/// document root.
pub open spec fn path_aad(p: Seq<PathSegV>) -> Seq<u8>
    decreases p.len(),
{
    if p.len() == 0 {
        Seq::empty()
    } else {
        match p.last() {
            PathSegV::Key(k) => child_aad_key(path_aad(p.drop_last()), k),
            PathSegV::Idx(i) => child_aad_idx(path_aad(p.drop_last()), i),
        }
    }
}

/// Exec mirror of [`path_aad`].
pub fn path_aad_exec(p: &Vec<PathSeg>) -> (r: Vec<u8>)
    ensures
        r@ == path_aad(segs_view(p@)),
{
    let mut out: Vec<u8> = Vec::new();
    let mut i: usize = 0;
    proof {
        assert(segs_view(p@).take(0) =~= Seq::<PathSegV>::empty());
    }
    while i < p.len()
        invariant
            0 <= i <= p@.len(),
            out@ == path_aad(segs_view(p@).take(i as int)),
        decreases p@.len() - i,
    {
        let ghost k2 = i as int;
        proof {
            assert(segs_view(p@).take(k2 + 1).drop_last() =~= segs_view(p@).take(k2));
            assert(segs_view(p@).take(k2 + 1).last() == p@[k2]@);
        }
        match &p[i] {
            PathSeg::Key(k) => {
                push_all(&mut out, k);
                out.push(58);
            },
            PathSeg::Idx(ix) => {
                crate::num::push_dec_u64(&mut out, *ix as u64);
                out.push(58);
            },
        }
        proof {
            assert(out@ =~= path_aad(segs_view(p@).take(k2 + 1)));
        }
        i += 1;
    }
    proof {
        assert(segs_view(p@).take(p@.len() as int) =~= segs_view(p@));
    }
    out
}

/// Round trip of the whole document, in direct mode: any output of
/// encryption decrypts back to the plain document under the data key that
/// was wrapped — the metadata block parses back, the body restores the
/// original tree, and the digest check passes — whether or not the check
/// is waived.  The hypotheses are those of the walker's round trip (the
/// tree's integers are in machine range; no cleartext comment looks like an
/// encrypted value while comment encryption is off) plus a first wrapped
/// entry to recover the key from.
#[verifier::rlimit(100)]
pub proof fn lemma_document_roundtrip<S: KeyService>(
    svc: &S,
    p: NodeV,
    o: NodeV,
    dk: Seq<u8>,
    mv: MetadataV,
    cfg: WalkCfgV,
    lastmodified: Seq<u8>,
    threshold: int,
    ignore_mac: bool,
)
    requires
        doc_enc_rel(svc, p, o, dk, mv, cfg, lastmodified, threshold),
        crate::tree::node_in_range(p),
        crate::walk::comments_clear(p, cfg),
        p matches NodeV::Mapping(pits) && key_index(pits, sops_key()) < 0,
        0 <= mv.shamir_threshold <= u64::MAX,
        !threshold_mode(mv.groups.len() as int, mv.shamir_threshold),
    ensures
        doc_meta_of(o) == Some(mv),
        doc_body_of(o) matches Some(body) && dec_node(body, dk, Seq::empty(), cfg_of(mv))
            == Some(p),
        doc_decrypts_to(svc, o, ignore_mac, p),
{
    match (p, o) {
        (NodeV::Mapping(pits), NodeV::Mapping(oits)) => {
            let eits = oits.drop_last();
            crate::path::lemma_key_index_absent(pits, sops_key());
            assert forall|i: int|
                0 <= i < eits.len() implies crate::tree::item_key(#[trigger] eits[i])
                != Some(sops_key()) by {
                assert(item_enc_rel(pits[i], oits[i], dk, Seq::empty(), cfg));
                match pits[i] {
                    MapItemV::Entry(k, v) => {
                        assert(crate::tree::item_key(pits[i]) == Some(k));
                    },
                    MapItemV::Comment(_) => {
                        if !cfg.encrypt_comments {
                            assert(eits[i] == pits[i]);
                        }
                    },
                }
            }
            match oits.last() {
                MapItemV::Entry(sk, mn) => {
                    assert(oits =~= eits.push(MapItemV::Entry(sk, mn)));
                    crate::path::lemma_key_index_push(eits, sops_key(), mn);
                    assert(key_index(oits, sops_key()) == eits.len());
                    crate::meta::lemma_meta_roundtrip(mv);
                    assert(doc_meta_of(o) == Some(mv));
                    assert(oits.remove(eits.len() as int) =~= eits);
                    assert(doc_body_of(o) == Some(NodeV::Mapping(eits)));
                    assert(cfg_of(mv) == cfg);
                    assert(enc_rel(p, NodeV::Mapping(eits), dk, Seq::empty(), cfg)) by {
                        assert forall|i: int|
                            0 <= i < pits.len() implies item_enc_rel(
                            #[trigger] pits[i],
                            eits[i],
                            dk,
                            Seq::empty(),
                            cfg,
                        ) by {
                            assert(item_enc_rel(pits[i], oits[i], dk, Seq::empty(), cfg));
                            assert(eits[i] == oits[i]);
                        }
                    }
                    crate::walk::lemma_decrypt_inverts_encrypt(
                        p,
                        NodeV::Mapping(eits),
                        dk,
                        Seq::empty(),
                        cfg,
                    );
                    assert(mac_node(p, cfg) == mac_items(pits, cfg));
                    assert(mv.mac.len() > 0) by {
                        assert(crate::enc::parse_enc(mv.mac) is Some);
                    }
                    assert(key_recovered(svc, mv, dk)) by {
                        assert(mv.groups[0].len() >= 1);
                        assert(svc.unwrap_model(mv.groups[0][0]) == Some(dk));
                    }
                    assert(doc_decrypts_to(svc, o, ignore_mac, p));
                },
                MapItemV::Comment(_) => {
                    assert(false);
                },
            }
        },
        _ => {
            assert(false);
        },
    }
}

} // verus!
